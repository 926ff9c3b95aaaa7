//! The executor: from a [`Command`] to a launch plan, and from the observed
//! per-stage outcomes back to one aggregate result.
//!
//! This module performs no OS work itself.  [`eval`] computes, for each
//! stage, where its standard input and output must be bound: the inherited
//! streams, an end of one of the numbered pipes, or a file named by a
//! redirection.  The driver that owns the OS then creates the pipes, spawns
//! every stage before waiting on any (so that a full pipe buffer cannot
//! deadlock the chain), closes the pipe ends it does not hand out, waits on
//! every spawned process in stage order, and reports what it observed as one
//! [`StageResult`] per stage.  [`collect_results`] turns those observations
//! into the aggregate verdict.

use vstd::prelude::*;

use crate::ast::{views_of_stages, Command, CommandView, Redirection, SimpleCommand, SimpleCommandView};

verus! {

/// Where a stage's standard input comes from.
#[derive(Debug, Clone, Copy, PartialEq, Eq, Structural)]
pub enum StdinSource {
    /// The caller's own standard input.
    Inherit,
    /// The read end of the numbered pipe.
    PipeRead(usize),
}

/// Where a stage's standard output goes.
#[derive(Debug)]
pub enum StdoutSink {
    /// The caller's own standard output.
    Inherit,
    /// The write end of the numbered pipe.
    PipeWrite(usize),
    /// A file at the given path, created or truncated.
    File(String),
}

/// One process to launch: program, arguments, and both stream bindings.
#[derive(Debug)]
pub struct StagePlan {
    pub program: String,
    pub args: Vec<String>,
    pub stdin: StdinSource,
    pub stdout: StdoutSink,
}

/// Everything the driver must do for one command: create `pipes` pipes,
/// then spawn each stage with the given bindings, in order.
#[derive(Debug)]
pub struct ExecPlan {
    pub pipes: usize,
    pub stages: Vec<StagePlan>,
}

/// Mathematical model of a [`StdoutSink`].
#[verifier::ext_equal]
pub ghost enum StdoutSinkView {
    Inherit,
    PipeWrite(int),
    File(Seq<char>),
}

/// Mathematical model of a [`StdinSource`].
#[verifier::ext_equal]
pub ghost enum StdinSourceView {
    Inherit,
    PipeRead(int),
}

/// Mathematical model of a [`StagePlan`].
#[verifier::ext_equal]
pub ghost struct StagePlanView {
    pub program: Seq<char>,
    pub args: Seq<Seq<char>>,
    pub stdin: StdinSourceView,
    pub stdout: StdoutSinkView,
}

/// Mathematical model of an [`ExecPlan`].
#[verifier::ext_equal]
pub ghost struct ExecPlanView {
    pub pipes: int,
    pub stages: Seq<StagePlanView>,
}

impl View for StdinSource {
    type V = StdinSourceView;

    open spec fn view(&self) -> StdinSourceView {
        match self {
            StdinSource::Inherit => StdinSourceView::Inherit,
            StdinSource::PipeRead(i) => StdinSourceView::PipeRead(*i as int),
        }
    }
}

impl View for StdoutSink {
    type V = StdoutSinkView;

    open spec fn view(&self) -> StdoutSinkView {
        match self {
            StdoutSink::Inherit => StdoutSinkView::Inherit,
            StdoutSink::PipeWrite(i) => StdoutSinkView::PipeWrite(*i as int),
            StdoutSink::File(path) => StdoutSinkView::File(path@),
        }
    }
}

impl View for StagePlan {
    type V = StagePlanView;

    open spec fn view(&self) -> StagePlanView {
        StagePlanView {
            program: self.program@,
            args: self.args.deep_view(),
            stdin: self.stdin@,
            stdout: self.stdout@,
        }
    }
}

impl View for ExecPlan {
    type V = ExecPlanView;

    open spec fn view(&self) -> ExecPlanView {
        ExecPlanView {
            pipes: self.pipes as int,
            stages: self.stages@.map_values(|sp: StagePlan| sp@),
        }
    }
}

// ---------------------------------------------------------------------------
// Planning
// ---------------------------------------------------------------------------

/// The bindings of stage `i` out of `n`: the first stage inherits its input,
/// every later one reads the pipe before it; every stage but the last writes
/// the pipe after it — a redirection carried by a non-final stage is
/// overridden by that pipe — and the last stage writes its redirection
/// target if it carries one, else the inherited output.
pub open spec fn spec_stage_plan(sc: SimpleCommandView, i: int, n: int) -> StagePlanView {
    StagePlanView {
        program: sc.program,
        args: sc.args,
        stdin: if i == 0 {
            StdinSourceView::Inherit
        } else {
            StdinSourceView::PipeRead(i - 1)
        },
        stdout: if i < n - 1 {
            StdoutSinkView::PipeWrite(i)
        } else {
            match sc.redirection {
                Option::Some(path) => StdoutSinkView::File(path),
                Option::None => StdoutSinkView::Inherit,
            }
        },
    }
}

/// The plan for a command: nothing for a blank line, one uncoupled stage
/// for a simple command, and for a pipeline of N stages exactly N launches
/// wired through N - 1 pipes.
pub open spec fn spec_plan(c: CommandView) -> ExecPlanView {
    match c {
        CommandView::Empty => ExecPlanView { pipes: 0, stages: Seq::empty() },
        CommandView::Simple(sc) => ExecPlanView {
            pipes: 0,
            stages: seq![spec_stage_plan(sc, 0, 1)],
        },
        CommandView::Pipeline(stages) => ExecPlanView {
            pipes: if stages.len() == 0 {
                0
            } else {
                stages.len() - 1
            },
            stages: Seq::new(stages.len(), |i: int| spec_stage_plan(stages[i], i, stages.len() as int)),
        },
    }
}

/// Turn a parsed command into the launch plan it denotes.
pub fn eval(cmd: Command) -> (p: ExecPlan)
    ensures
        p@ == spec_plan(cmd@),
{
    let ghost cv = cmd@;
    match cmd {
        Command::Empty => {
            let p = ExecPlan { pipes: 0, stages: Vec::new() };
            proof {
                assert(p@ =~= spec_plan(CommandView::Empty));
            }
            p
        },
        Command::Simple(sc) => {
            let ghost scv = sc@;
            let stdout = match sc.redirection {
                Option::Some(Redirection::Stdout(path)) => StdoutSink::File(path),
                Option::None => StdoutSink::Inherit,
            };
            let stage = StagePlan {
                program: sc.program,
                args: sc.args,
                stdin: StdinSource::Inherit,
                stdout,
            };
            let mut stages: Vec<StagePlan> = Vec::new();
            stages.push(stage);
            let p = ExecPlan { pipes: 0, stages };
            proof {
                assert(p@.stages =~= spec_plan(CommandView::Simple(scv)).stages);
                assert(p@ =~= spec_plan(CommandView::Simple(scv)));
            }
            p
        },
        Command::Pipeline(mut cmds) => {
            let ghost orig: Seq<SimpleCommandView> = views_of_stages(cmds@);
            proof {
                assert(cv == CommandView::Pipeline(orig));
            }
            let n = cmds.len();
            let pipes = if n == 0 {
                0
            } else {
                n - 1
            };
            let mut stages: Vec<StagePlan> = Vec::new();
            while cmds.len() > 0
                invariant
                    stages.len() + cmds.len() == n,
                    n == orig.len(),
                    views_of_stages(cmds@) =~= orig.subrange(stages.len() as int, n as int),
                    forall|j: int|
                        0 <= j < stages.len() ==> #[trigger] stages@[j]@ == spec_stage_plan(
                            orig[j],
                            j,
                            n as int,
                        ),
                decreases cmds.len(),
            {
                let ghost done = stages.len() as int;
                let ghost before = cmds@;
                let sc = cmds.remove(0);
                proof {
                    assert(views_of_stages(before)[0] == orig.subrange(done, n as int)[0]);
                    assert(sc@ == orig[done]);
                    assert(cmds@ =~= before.subrange(1, before.len() as int));
                    assert forall|t: int| 0 <= t < cmds@.len() implies #[trigger] views_of_stages(cmds@)[t]
                        == orig.subrange(done + 1, n as int)[t] by {
                        assert(views_of_stages(cmds@)[t] == cmds@[t]@);
                        assert(cmds@[t] == before[t + 1]);
                        assert(views_of_stages(before)[t + 1] == before[t + 1]@);
                        assert(views_of_stages(before)[t + 1] == orig.subrange(done, n as int)[t + 1]);
                    }
                    assert(views_of_stages(cmds@) =~= orig.subrange(done + 1, n as int));
                }
                let i = stages.len();
                let stdin = if i == 0 {
                    StdinSource::Inherit
                } else {
                    StdinSource::PipeRead(i - 1)
                };
                let stdout = if i < n - 1 {
                    StdoutSink::PipeWrite(i)
                } else {
                    match sc.redirection {
                        Option::Some(Redirection::Stdout(path)) => StdoutSink::File(path),
                        Option::None => StdoutSink::Inherit,
                    }
                };
                let stage = StagePlan { program: sc.program, args: sc.args, stdin, stdout };
                stages.push(stage);
            }
            let p = ExecPlan { pipes, stages };
            proof {
                assert(p@.stages =~= spec_plan(CommandView::Pipeline(orig)).stages);
                assert(p@ =~= spec_plan(CommandView::Pipeline(orig)));
            }
            p
        },
    }
}

// ---------------------------------------------------------------------------
// Outcome aggregation
// ---------------------------------------------------------------------------

/// Why a stage could not be spawned at all.
#[derive(Debug, Clone, Copy, PartialEq, Eq, Structural)]
pub enum SpawnError {
    /// The program name resolved to nothing executable.
    ProgramNotFound,
    /// The program exists but may not be executed.
    PermissionDenied,
    /// A pipe, descriptor or process could not be allocated.
    ResourceExhausted,
}

/// What the driver observed for one stage.
#[derive(Debug, Clone, Copy, PartialEq, Eq, Structural)]
pub enum StageResult {
    /// The stage ran and exited with the given status.
    Exited(i32),
    /// The stage could not be spawned.
    SpawnFailed(SpawnError),
    /// The stage's redirection target could not be created or truncated.
    RedirectFailed,
}

/// Why executing a command failed as a whole.
#[derive(Debug, Clone, Copy, PartialEq, Eq, Structural)]
pub enum ExecError {
    /// The stage at the given index exited with the given non-zero status.
    NonZeroExit(usize, i32),
    /// The stage at the given index could not be spawned.
    SpawnFailure(usize, SpawnError),
    /// The redirection target of the stage at the given index was unwritable.
    RedirectTargetUnwritable(usize),
}

/// The error charged to the stage at index `i` that observed `r`.
pub open spec fn spec_stage_error(i: int, r: StageResult) -> ExecError {
    match r {
        StageResult::Exited(status) => ExecError::NonZeroExit(i as usize, status),
        StageResult::SpawnFailed(e) => ExecError::SpawnFailure(i as usize, e),
        StageResult::RedirectFailed => ExecError::RedirectTargetUnwritable(i as usize),
    }
}

/// The aggregate verdict over the outcomes from index `i` on: success when
/// every stage exited with status zero, else the error of the first
/// offending stage in stage order.
pub open spec fn spec_collect(rs: Seq<StageResult>, i: int) -> Result<(), ExecError>
    decreases rs.len() - i,
{
    if i < 0 || i >= rs.len() {
        Result::Ok(())
    } else if rs[i] == StageResult::Exited(0i32) {
        spec_collect(rs, i + 1)
    } else {
        Result::Err(spec_stage_error(i, rs[i]))
    }
}

/// Aggregate the observed per-stage outcomes into one verdict.
pub fn collect_results(results: &Vec<StageResult>) -> (r: Result<(), ExecError>)
    ensures
        r == spec_collect(results@, 0),
{
    let n = results.len();
    let mut i: usize = 0;
    while i < n
        invariant
            0 <= i <= n,
            n == results@.len(),
            spec_collect(results@, 0) == spec_collect(results@, i as int),
        decreases n - i,
    {
        match results[i] {
            StageResult::Exited(status) => {
                if status != 0 {
                    return Result::Err(ExecError::NonZeroExit(i, status));
                }
            },
            StageResult::SpawnFailed(e) => {
                return Result::Err(ExecError::SpawnFailure(i, e));
            },
            StageResult::RedirectFailed => {
                return Result::Err(ExecError::RedirectTargetUnwritable(i));
            },
        }
        i = i + 1;
    }
    Result::Ok(())
}

// ---------------------------------------------------------------------------
// Laws
// ---------------------------------------------------------------------------

/// For a pipeline of N stages the plan holds exactly N launches and exactly
/// N - 1 pipes, whatever any individual stage's outcome will be.
pub proof fn lemma_pipeline_plan_counts(stages: Seq<SimpleCommandView>)
    requires
        stages.len() >= 1,
    ensures
        spec_plan(CommandView::Pipeline(stages)).stages.len() == stages.len(),
        spec_plan(CommandView::Pipeline(stages)).pipes == stages.len() - 1,
{
}

/// A redirection carried by the final stage is honoured: that stage's
/// standard output is bound to the named file.
pub proof fn lemma_final_stage_redirection(stages: Seq<SimpleCommandView>, path: Seq<char>)
    requires
        stages.len() >= 1,
        stages.last().redirection == Option::Some(path),
    ensures
        spec_plan(CommandView::Pipeline(stages)).stages.last().stdout
            == StdoutSinkView::File(path),
{
}

/// A redirection carried by a non-final stage is overridden by the pipe to
/// the next stage.
pub proof fn lemma_interior_redirection_overridden(stages: Seq<SimpleCommandView>, i: int)
    requires
        0 <= i < stages.len() - 1,
    ensures
        spec_plan(CommandView::Pipeline(stages)).stages[i].stdout
            == StdoutSinkView::PipeWrite(i),
{
}

/// Aggregation succeeds exactly when every stage exited with status zero.
pub proof fn lemma_collect_ok_iff(rs: Seq<StageResult>)
    ensures
        spec_collect(rs, 0) is Ok <==> (forall|j: int|
            0 <= j < rs.len() ==> rs[j] == StageResult::Exited(0i32)),
{
    lemma_collect_ok_iff_from(rs, 0);
}

proof fn lemma_collect_ok_iff_from(rs: Seq<StageResult>, i: int)
    requires
        0 <= i <= rs.len(),
    ensures
        spec_collect(rs, i) is Ok <==> (forall|j: int|
            i <= j < rs.len() ==> rs[j] == StageResult::Exited(0i32)),
    decreases rs.len() - i,
{
    if i < rs.len() && rs[i] == StageResult::Exited(0i32) {
        lemma_collect_ok_iff_from(rs, i + 1);
    }
}

/// When some stage fails, the reported failure identifies the first failing
/// stage in stage order, and says how it failed.
pub proof fn lemma_collect_first_failure(rs: Seq<StageResult>, k: int)
    requires
        0 <= k < rs.len(),
        rs[k] != StageResult::Exited(0i32),
        forall|j: int| 0 <= j < k ==> rs[j] == StageResult::Exited(0i32),
    ensures
        spec_collect(rs, 0) == Result::<(), ExecError>::Err(spec_stage_error(k, rs[k])),
{
    lemma_collect_first_failure_from(rs, 0, k);
}

proof fn lemma_collect_first_failure_from(rs: Seq<StageResult>, i: int, k: int)
    requires
        0 <= i <= k < rs.len(),
        rs[k] != StageResult::Exited(0i32),
        forall|j: int| i <= j < k ==> rs[j] == StageResult::Exited(0i32),
    ensures
        spec_collect(rs, i) == Result::<(), ExecError>::Err(spec_stage_error(k, rs[k])),
    decreases rs.len() - i,
{
    if i < k {
        lemma_collect_first_failure_from(rs, i + 1, k);
    }
}

} // verus!
