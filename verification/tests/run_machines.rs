use meriadoc::error::MeriadocError;
use meriadoc::executor::{CommandResult, CommandRunner};
use meriadoc::run::{JobRun, JobStep, TaskRun, TaskStep};
use meriadoc::spec::{ConditionSpec, FailurePolicySpec, JobSpec, TaskSpec};
use meriadoc::strmap::StrMap;

fn task(cmds: &[&str]) -> TaskSpec {
    TaskSpec {
        description: None,
        cmds: cmds.iter().map(|s| s.to_string()).collect(),
        workdir: None,
        env: StrMap::new(),
        env_files: vec![],
        preconditions: vec![],
        on_failure: None,
        docs: None,
        agent: None,
    }
}

fn ok(out: &str) -> CommandResult {
    CommandResult { exit_code: 0, success: true, stdout: out.to_string(), stderr: String::new() }
}

fn failed(code: i32) -> CommandResult {
    CommandResult { exit_code: code, success: false, stdout: String::new(), stderr: String::new() }
}

#[test]
fn task_runs_its_commands_and_finishes() {
    let t = task(&["echo hi"]);
    let (mut run, step) = TaskRun::start("greet", &t);
    match step {
        TaskStep::Run { cmds, note } => {
            assert_eq!(cmds, vec!["echo hi"]);
            assert_eq!(note.as_deref(), Some("Running task: greet"));
        }
        _ => panic!("expected a run"),
    }
    match run.report(&[ok("hi\n")]) {
        TaskStep::Finished(r) => {
            assert_eq!(r.exit_code, 0);
            assert_eq!(r.output, "hi\n");
        }
        _ => panic!("expected the end"),
    }
}

#[test]
fn failing_command_propagates_its_exit_code() {
    let t = task(&["exit 42"]);
    let (mut run, _) = TaskRun::start("failing", &t);
    match run.report(&[failed(42)]) {
        TaskStep::Finished(r) => assert_eq!(r.exit_code, 42),
        _ => panic!("expected the end"),
    }
}

#[test]
fn failed_precondition_blocks_the_task() {
    let mut t = task(&["echo never"]);
    t.preconditions.push(ConditionSpec { cmds: vec!["test -f x".to_string()], on_failure: None });
    let (mut run, step) = TaskRun::start("guarded", &t);
    match step {
        TaskStep::Run { cmds, note } => {
            assert_eq!(cmds, vec!["test -f x"]);
            assert!(note.is_none());
        }
        _ => panic!("expected the precondition"),
    }
    match run.report(&[failed(1)]) {
        TaskStep::Failed(MeriadocError::PreconditionFailed { entity, message }) => {
            assert_eq!(entity, "task 'guarded'");
            assert_eq!(message, "precondition command failed");
        }
        _ => panic!("expected a failed precondition"),
    }
}

#[test]
fn precondition_with_continue_lets_the_task_run() {
    let mut t = task(&["echo anyway"]);
    t.preconditions.push(ConditionSpec {
        cmds: vec!["false".to_string()],
        on_failure: Some(FailurePolicySpec { continues: true, cmds: vec![] }),
    });
    let (mut run, _) = TaskRun::start("resilient", &t);
    match run.report(&[failed(1)]) {
        TaskStep::Run { cmds, .. } => assert_eq!(cmds, vec!["echo anyway"]),
        _ => panic!("expected the commands"),
    }
}

#[test]
fn failure_commands_run_after_a_failure() {
    let mut t = task(&["false"]);
    t.on_failure = Some(FailurePolicySpec { continues: false, cmds: vec!["echo cleanup".to_string()] });
    let (mut run, _) = TaskRun::start("cleanup_test", &t);
    match run.report(&[failed(3)]) {
        TaskStep::Run { cmds, .. } => assert_eq!(cmds, vec!["echo cleanup"]),
        _ => panic!("expected the failure commands"),
    }
    match run.report(&[ok("Cleanup executed\n")]) {
        TaskStep::Finished(r) => {
            assert_eq!(r.exit_code, 3);
            assert!(r.output.contains("Cleanup executed"));
        }
        _ => panic!("expected the end"),
    }
}

#[test]
fn a_task_stops_at_its_first_failing_command() {
    let mut t = task(&["echo a", "exit 7", "echo never"]);
    t.on_failure = Some(FailurePolicySpec { continues: false, cmds: vec!["echo undo".to_string()] });
    let (mut run, _) = TaskRun::start("partial", &t);
    assert_eq!(CommandRunner::next_command(3, &[ok("a\n")]), Some(1));
    assert_eq!(CommandRunner::next_command(3, &[ok("a\n"), failed(7)]), None);
    match run.report(&[ok("a\n"), failed(7)]) {
        TaskStep::Run { cmds, .. } => assert_eq!(cmds, vec!["echo undo"]),
        _ => panic!("expected the failure commands"),
    }
    match run.report(&[failed(1)]) {
        TaskStep::Finished(r) => {
            assert_eq!(r.exit_code, 7);
            assert_eq!(r.output, "a\n");
        }
        _ => panic!("expected the end"),
    }
}

fn job(tasks: &[&str], on_failure: Option<FailurePolicySpec>) -> JobSpec {
    JobSpec {
        description: None,
        tasks: tasks.iter().map(|s| s.to_string()).collect(),
        env: StrMap::new(),
        env_files: vec![],
        on_failure,
    }
}

fn tasks_named(names: &[&str]) -> StrMap<TaskSpec> {
    let mut m = StrMap::new();
    for n in names {
        m.insert(n.to_string(), task(&["true"]));
    }
    m
}

#[test]
fn job_runs_tasks_in_order_and_stops_on_failure() {
    let j = job(&["first", "second", "third"], None);
    let ts = tasks_named(&["first", "second", "third"]);
    let (mut run, header, step) = JobRun::start("ordered", &j, &ts);
    assert_eq!(header, "Running job: ordered (3 tasks)");
    match step {
        JobStep::RunTask { index, name, note, .. } => {
            assert_eq!(index, 0);
            assert_eq!(name, "first");
            assert_eq!(note, "  Running task: first");
        }
        _ => panic!("expected the first task"),
    }
    match run.report(&[ok("")]) {
        JobStep::RunTask { name, .. } => assert_eq!(name, "second"),
        _ => panic!("expected the second task"),
    }
    match run.report(&[failed(7)]) {
        JobStep::Finished { exit_code, note } => {
            assert_eq!(exit_code, 7);
            assert!(note.is_none());
        }
        _ => panic!("the job must stop"),
    }
}

#[test]
fn job_with_continue_goes_on_after_its_failure_commands() {
    let j = job(&["first", "second"], Some(FailurePolicySpec { continues: true, cmds: vec!["echo JOB_CLEANUP".to_string()] }));
    let ts = tasks_named(&["first", "second"]);
    let (mut run, _, _) = JobRun::start("resilient", &j, &ts);
    match run.report(&[failed(1)]) {
        JobStep::RunPolicy(cmds) => assert_eq!(cmds, vec!["echo JOB_CLEANUP"]),
        _ => panic!("expected the failure commands"),
    }
    match run.report(&[ok("JOB_CLEANUP\n")]) {
        JobStep::RunTask { name, .. } => assert_eq!(name, "second"),
        _ => panic!("expected the next task"),
    }
    match run.report(&[ok("")]) {
        JobStep::Finished { exit_code, note } => {
            assert_eq!(exit_code, 0);
            assert_eq!(note.as_deref(), Some("Job completed successfully: resilient"));
        }
        _ => panic!("expected the end"),
    }
}

#[test]
fn job_with_unknown_task_fails() {
    let j = job(&["ghost"], None);
    let ts = tasks_named(&[]);
    let (_, _, step) = JobRun::start("broken", &j, &ts);
    assert!(matches!(step, JobStep::Failed(MeriadocError::EntityNotFound { ref kind, ref name }) if kind == "task" && name == "ghost"));
}
