use woosh::ast::{Command, Redirection, SimpleCommand};
use woosh::executor::{
    collect_results, eval, ExecError, SpawnError, StageResult, StdinSource, StdoutSink,
};

fn stage(program: &str, args: &[&str], redirection: Option<&str>) -> SimpleCommand {
    SimpleCommand {
        program: program.to_string(),
        args: args.iter().map(|a| a.to_string()).collect(),
        redirection: redirection.map(|p| Redirection::Stdout(p.to_string())),
    }
}

#[test]
fn empty_command_plans_nothing() {
    let plan = eval(Command::Empty);
    assert_eq!(plan.pipes, 0);
    assert!(plan.stages.is_empty());
}

#[test]
fn simple_command_inherits_both_streams() {
    let plan = eval(Command::Simple(stage("ls", &["-l"], None)));
    assert_eq!(plan.pipes, 0);
    assert_eq!(plan.stages.len(), 1);
    assert_eq!(plan.stages[0].program, "ls");
    assert_eq!(plan.stages[0].args, vec!["-l"]);
    assert_eq!(plan.stages[0].stdin, StdinSource::Inherit);
    assert!(matches!(plan.stages[0].stdout, StdoutSink::Inherit));
}

#[test]
fn simple_command_redirection_binds_file() {
    let plan = eval(Command::Simple(stage("ls", &[], Some("out.txt"))));
    assert_eq!(plan.pipes, 0);
    assert_eq!(plan.stages.len(), 1);
    if let StdoutSink::File(path) = &plan.stages[0].stdout {
        assert_eq!(path, "out.txt");
    } else {
        panic!("Expected a file sink");
    }
}

#[test]
fn pipeline_plans_n_stages_and_n_minus_one_pipes() {
    let plan = eval(Command::Pipeline(vec![
        stage("a", &[], None),
        stage("b", &[], None),
        stage("c", &[], None),
    ]));
    assert_eq!(plan.stages.len(), 3);
    assert_eq!(plan.pipes, 2);

    assert_eq!(plan.stages[0].stdin, StdinSource::Inherit);
    assert_eq!(plan.stages[1].stdin, StdinSource::PipeRead(0));
    assert_eq!(plan.stages[2].stdin, StdinSource::PipeRead(1));

    assert!(matches!(plan.stages[0].stdout, StdoutSink::PipeWrite(0)));
    assert!(matches!(plan.stages[1].stdout, StdoutSink::PipeWrite(1)));
    assert!(matches!(plan.stages[2].stdout, StdoutSink::Inherit));
}

#[test]
fn final_stage_redirection_is_honoured() {
    let plan = eval(Command::Pipeline(vec![
        stage("ls", &[], None),
        stage("grep", &["rs"], Some("out.txt")),
    ]));
    assert_eq!(plan.pipes, 1);
    if let StdoutSink::File(path) = &plan.stages[1].stdout {
        assert_eq!(path, "out.txt");
    } else {
        panic!("Expected a file sink on the final stage");
    }
}

#[test]
fn interior_redirection_is_overridden_by_pipe() {
    let plan = eval(Command::Pipeline(vec![
        stage("a", &[], Some("mid.txt")),
        stage("b", &[], None),
    ]));
    assert!(matches!(plan.stages[0].stdout, StdoutSink::PipeWrite(0)));
}

#[test]
fn no_outcomes_aggregate_to_success() {
    assert_eq!(collect_results(&vec![]), Ok(()));
}

#[test]
fn all_zero_exits_aggregate_to_success() {
    let results = vec![StageResult::Exited(0), StageResult::Exited(0), StageResult::Exited(0)];
    assert_eq!(collect_results(&results), Ok(()));
}

#[test]
fn middle_failure_is_identified() {
    let results = vec![StageResult::Exited(0), StageResult::Exited(2), StageResult::Exited(0)];
    assert_eq!(collect_results(&results), Err(ExecError::NonZeroExit(1, 2)));
}

#[test]
fn spawn_failure_is_identified() {
    let results = vec![StageResult::SpawnFailed(SpawnError::ProgramNotFound)];
    assert_eq!(
        collect_results(&results),
        Err(ExecError::SpawnFailure(0, SpawnError::ProgramNotFound))
    );
}

#[test]
fn redirect_failure_is_identified() {
    let results = vec![StageResult::Exited(0), StageResult::RedirectFailed];
    assert_eq!(collect_results(&results), Err(ExecError::RedirectTargetUnwritable(1)));
}

#[test]
fn first_failure_in_stage_order_wins() {
    let results = vec![
        StageResult::Exited(0),
        StageResult::Exited(7),
        StageResult::SpawnFailed(SpawnError::PermissionDenied),
    ];
    assert_eq!(collect_results(&results), Err(ExecError::NonZeroExit(1, 7)));
}

#[test]
fn non_zero_simple_exit_is_stage_zero() {
    let results = vec![StageResult::Exited(3)];
    assert_eq!(collect_results(&results), Err(ExecError::NonZeroExit(0, 3)));
}
