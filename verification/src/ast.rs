//! The command data model: what a parsed input line denotes.

use vstd::prelude::*;

verus! {

/// A parsed input line.
#[derive(Debug)]
pub enum Command {
    /// Exactly one program invocation.
    Simple(SimpleCommand),
    /// Two or more invocations, each stage's standard output feeding the
    /// next stage's standard input.
    Pipeline(Vec<SimpleCommand>),
    /// The line was blank or whitespace-only.
    Empty,
}

/// One program invocation: a program name, its arguments in order, and an
/// optional redirection of its standard output.
#[derive(Debug)]
pub struct SimpleCommand {
    pub program: String,
    pub args: Vec<String>,
    pub redirection: Option<Redirection>,
}

/// A directive rebinding a stage's standard output.
#[derive(Debug)]
pub enum Redirection {
    /// Truncate or create the file at the given path and bind the stage's
    /// standard output to it.
    Stdout(String),
}

/// Mathematical model of a [`SimpleCommand`]: the program and arguments as
/// character sequences, and the redirection target path if there is one.
#[verifier::ext_equal]
pub ghost struct SimpleCommandView {
    pub program: Seq<char>,
    pub args: Seq<Seq<char>>,
    pub redirection: Option<Seq<char>>,
}

/// Mathematical model of a [`Command`].
#[verifier::ext_equal]
pub ghost enum CommandView {
    Simple(SimpleCommandView),
    Pipeline(Seq<SimpleCommandView>),
    Empty,
}

impl View for Redirection {
    type V = Seq<char>;

    open spec fn view(&self) -> Seq<char> {
        match self {
            Redirection::Stdout(path) => path@,
        }
    }
}

impl View for SimpleCommand {
    type V = SimpleCommandView;

    open spec fn view(&self) -> SimpleCommandView {
        SimpleCommandView {
            program: self.program@,
            args: self.args.deep_view(),
            redirection: match self.redirection {
                Option::Some(r) => Option::Some(r@),
                Option::None => Option::None,
            },
        }
    }
}

/// The models of a sequence of stages, in order.
pub open spec fn views_of_stages(stages: Seq<SimpleCommand>) -> Seq<SimpleCommandView> {
    stages.map_values(|sc: SimpleCommand| sc@)
}

impl View for Command {
    type V = CommandView;

    open spec fn view(&self) -> CommandView {
        match self {
            Command::Simple(sc) => CommandView::Simple(sc@),
            Command::Pipeline(stages) => CommandView::Pipeline(views_of_stages(stages@)),
            Command::Empty => CommandView::Empty,
        }
    }
}

} // verus!
