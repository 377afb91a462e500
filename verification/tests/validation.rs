use meriadoc::error::ValidationError;
use meriadoc::spec::{ConditionSpec, EnvVarSpec, JobSpec, ShellSpec, SpecFile, TaskSpec, VarType};
use meriadoc::strmap::StrMap;
use meriadoc::validation::{EnvironmentValidator, JobValidator, ProjectValidator, ShellValidator, TaskValidator};

fn make_spec(var_type: VarType, default: Option<&str>, options: Vec<&str>, required: bool) -> EnvVarSpec {
    EnvVarSpec {
        var_type,
        default: default.map(|s| s.to_string()),
        options: options.into_iter().map(|s| s.to_string()).collect(),
        required,
    }
}

fn make_job(tasks: Vec<&str>) -> JobSpec {
    JobSpec {
        description: None,
        tasks: tasks.into_iter().map(|s| s.to_string()).collect(),
        env: StrMap::new(),
        env_files: vec![],
        on_failure: None,
    }
}

fn make_task_set(tasks: Vec<&str>) -> Vec<String> {
    tasks.into_iter().map(|s| s.to_string()).collect()
}

fn make_task(cmds: Vec<&str>) -> TaskSpec {
    TaskSpec {
        description: None,
        cmds: cmds.into_iter().map(|s| s.to_string()).collect(),
        workdir: None,
        env: StrMap::new(),
        env_files: vec![],
        preconditions: vec![],
        on_failure: None,
        docs: None,
        agent: None,
    }
}

#[test]
fn test_valid_simple_env() {
    let spec = make_spec(VarType::String, Some("default"), vec![], false);
    assert!(EnvironmentValidator::validate("MY_VAR", &spec).is_ok());
}

#[test]
fn test_valid_with_options() {
    let spec = make_spec(VarType::Choice, Some("opt1"), vec!["opt1", "opt2", "opt3"], false);
    assert!(EnvironmentValidator::validate("MY_VAR", &spec).is_ok());
}

#[test]
fn test_choice_without_options_error() {
    let spec = make_spec(VarType::Choice, Some("default"), vec![], false);
    let result = EnvironmentValidator::validate("MY_VAR", &spec);
    assert!(!result.is_ok());
    let errors = result.errors();
    assert!(errors.iter().any(|e| matches!(&e.error, ValidationError::EnvEmptyType { var } if var == "MY_VAR")));
}

#[test]
fn test_empty_option_error() {
    let spec = make_spec(VarType::Choice, Some("opt1"), vec!["opt1", ""], false);
    let result = EnvironmentValidator::validate("MY_VAR", &spec);
    assert!(!result.is_ok());
    let errors = result.errors();
    assert!(errors.iter().any(|e| matches!(&e.error, ValidationError::EnvEmptyOption { var } if var == "MY_VAR")));
}

#[test]
fn test_default_not_in_options_error() {
    let spec = make_spec(VarType::Choice, Some("invalid"), vec!["opt1", "opt2"], false);
    let result = EnvironmentValidator::validate("MY_VAR", &spec);
    assert!(!result.is_ok());
    let errors = result.errors();
    assert!(errors.iter().any(|e| matches!(
        &e.error,
        ValidationError::EnvDefaultNotInOptions { var, default, .. } if var == "MY_VAR" && default == "invalid"
    )));
}

#[test]
fn test_required_without_default_ok() {
    let spec = make_spec(VarType::String, None, vec![], true);
    assert!(EnvironmentValidator::validate("MY_VAR", &spec).is_ok());
}

#[test]
fn test_required_with_default_ok() {
    let spec = make_spec(VarType::String, Some("default"), vec![], true);
    assert!(EnvironmentValidator::validate("MY_VAR", &spec).is_ok());
}

#[test]
fn test_no_options_no_default_ok() {
    let spec = make_spec(VarType::String, Some("any_value"), vec![], false);
    assert!(EnvironmentValidator::validate("MY_VAR", &spec).is_ok());
}

#[test]
fn test_validate_map_empty() {
    let env: StrMap<EnvVarSpec> = StrMap::new();
    assert!(EnvironmentValidator::validate_map(&env, "test context").is_ok());
}

#[test]
fn test_validate_map_with_errors() {
    let mut env = StrMap::new();
    env.insert("VAR1".to_string(), make_spec(VarType::Choice, None, vec![], false));
    env.insert("VAR2".to_string(), make_spec(VarType::Choice, Some("invalid"), vec!["opt1", "opt2"], false));
    let result = EnvironmentValidator::validate_map(&env, "task");
    assert!(!result.is_ok());
    assert!(result.errors().len() >= 2);
}

#[test]
fn validate_map_puts_the_variable_in_the_context() {
    let mut env = StrMap::new();
    env.insert("VAR1".to_string(), make_spec(VarType::Choice, None, vec![], false));
    let result = EnvironmentValidator::validate_map(&env, "task 'build'");
    assert_eq!(result.errors()[0].context, "task 'build' env `VAR1`");
}

#[test]
fn test_valid_job() {
    let job = make_job(vec!["task1", "task2"]);
    let tasks = make_task_set(vec!["task1", "task2", "task3"]);
    assert!(JobValidator::validate("my_job", &job, &tasks).is_ok());
}

#[test]
fn test_single_task_valid() {
    let job = make_job(vec!["task1"]);
    let tasks = make_task_set(vec!["task1"]);
    assert!(JobValidator::validate("my_job", &job, &tasks).is_ok());
}

#[test]
fn test_empty_job_error() {
    let job = make_job(vec![]);
    let tasks = make_task_set(vec!["task1"]);
    let result = JobValidator::validate("my_job", &job, &tasks);
    assert!(!result.is_ok());
    let errors = result.errors();
    assert!(errors.iter().any(|e| matches!(&e.error, ValidationError::EmptyJob { job } if job == "my_job")));
}

#[test]
fn test_unknown_task_error() {
    let job = make_job(vec!["task1", "nonexistent"]);
    let tasks = make_task_set(vec!["task1", "task2"]);
    let result = JobValidator::validate("my_job", &job, &tasks);
    assert!(!result.is_ok());
    let errors = result.errors();
    assert!(errors.iter().any(|e| matches!(
        &e.error,
        ValidationError::UnknownTask { job, task } if job == "my_job" && task == "nonexistent"
    )));
}

#[test]
fn test_multiple_unknown_tasks() {
    let job = make_job(vec!["unknown1", "unknown2"]);
    let tasks = make_task_set(vec!["task1"]);
    let result = JobValidator::validate("my_job", &job, &tasks);
    assert!(!result.is_ok());
    let errors = result.errors();
    let unknown_errors: Vec<_> =
        errors.iter().filter(|e| matches!(&e.error, ValidationError::UnknownTask { .. })).collect();
    assert_eq!(unknown_errors.len(), 2);
}

#[test]
fn test_job_with_invalid_env() {
    let mut job = make_job(vec!["task1"]);
    job.env.insert(
        "BAD_VAR".to_string(),
        EnvVarSpec { var_type: VarType::Choice, default: None, options: vec![], required: false },
    );
    let tasks = make_task_set(vec!["task1"]);
    assert!(!JobValidator::validate("my_job", &job, &tasks).is_ok());
}

#[test]
fn test_job_with_valid_env() {
    let mut job = make_job(vec!["task1"]);
    job.env.insert(
        "MY_VAR".to_string(),
        EnvVarSpec { var_type: VarType::String, default: Some("default".to_string()), options: vec![], required: false },
    );
    let tasks = make_task_set(vec!["task1"]);
    assert!(JobValidator::validate("my_job", &job, &tasks).is_ok());
}

#[test]
fn test_valid_task() {
    let task = make_task(vec!["echo hello", "echo world"]);
    assert!(TaskValidator::validate("my_task", &task).is_ok());
}

#[test]
fn test_single_command_valid() {
    let task = make_task(vec!["echo hello"]);
    assert!(TaskValidator::validate("my_task", &task).is_ok());
}

#[test]
fn test_empty_cmds_error() {
    let task = make_task(vec![]);
    let result = TaskValidator::validate("my_task", &task);
    assert!(!result.is_ok());
    let errors = result.errors();
    assert!(errors.iter().any(|e| matches!(&e.error, ValidationError::EmptyTask { task } if task == "my_task")));
}

#[test]
fn test_empty_command_string_error() {
    let task = make_task(vec!["echo hello", "", "echo world"]);
    let result = TaskValidator::validate("my_task", &task);
    assert!(!result.is_ok());
    let errors = result.errors();
    assert!(errors.iter().any(|e| matches!(&e.error, ValidationError::EmptyCommandTask { task } if task == "my_task")));
}

#[test]
fn test_whitespace_only_command_error() {
    let task = make_task(vec!["echo hello", "   ", "echo world"]);
    assert!(!TaskValidator::validate("my_task", &task).is_ok());
}

#[test]
fn test_task_with_invalid_env() {
    let mut task = make_task(vec!["echo hello"]);
    task.env.insert(
        "BAD_VAR".to_string(),
        EnvVarSpec { var_type: VarType::Choice, default: None, options: vec![], required: false },
    );
    assert!(!TaskValidator::validate("my_task", &task).is_ok());
}

#[test]
fn test_task_with_valid_env() {
    let mut task = make_task(vec!["echo $MY_VAR"]);
    task.env.insert(
        "MY_VAR".to_string(),
        EnvVarSpec { var_type: VarType::String, default: Some("default".to_string()), options: vec![], required: false },
    );
    assert!(TaskValidator::validate("my_task", &task).is_ok());
}

#[test]
fn test_task_with_preconditions() {
    let mut task = make_task(vec!["echo main"]);
    task.preconditions.push(ConditionSpec { cmds: vec!["test -f file.txt".to_string()], on_failure: None });
    assert!(TaskValidator::validate("my_task", &task).is_ok());
}

#[test]
fn test_task_with_empty_precondition_cmd() {
    let mut task = make_task(vec!["echo main"]);
    task.preconditions.push(ConditionSpec { cmds: vec!["".to_string()], on_failure: None });
    assert!(!TaskValidator::validate("my_task", &task).is_ok());
}

#[test]
fn shell_with_empty_init_command_is_an_error() {
    let shell = ShellSpec {
        description: None,
        workdir: None,
        env: StrMap::new(),
        env_files: vec![],
        init_cmds: vec!["  ".to_string()],
    };
    let result = ShellValidator::validate("dev", &shell);
    assert!(result.errors().iter().any(|e| matches!(&e.error, ValidationError::EmptyCommandShell { shell } if shell == "dev")));
}

#[test]
fn project_validator_finds_duplicate_names_across_files() {
    let mut a = SpecFile { version: "v1".to_string(), tasks: StrMap::new(), jobs: StrMap::new(), shells: StrMap::new() };
    a.tasks.insert("build".to_string(), make_task(vec!["make"]));
    let mut b = SpecFile { version: "v1".to_string(), tasks: StrMap::new(), jobs: StrMap::new(), shells: StrMap::new() };
    b.tasks.insert("build".to_string(), make_task(vec!["cargo build"]));
    let result = ProjectValidator::validate(&[a, b]);
    assert_eq!(result.errors().len(), 1);
    assert!(matches!(&result.errors()[0].error, ValidationError::DuplicateName { kind, name } if *kind == "task" && name == "build"));
    assert_eq!(result.errors()[0].error.message(), "duplicate task name `build`");
}

#[test]
fn validation_messages_follow_the_error() {
    let e = ValidationError::UnknownTask { job: "ship".to_string(), task: "pack".to_string() };
    assert_eq!(e.message(), "task `pack` referenced by job `ship` does not exist");
    let e = ValidationError::InvalidChoice {
        var: "ENV".to_string(),
        value: "x".to_string(),
        options: vec!["dev".to_string(), "prod".to_string()],
    };
    assert_eq!(e.message(), "env var `ENV` has invalid value `x`, valid options are: [\"dev\", \"prod\"]");
}

fn empty_file() -> SpecFile {
    SpecFile { version: "v1".to_string(), tasks: StrMap::new(), jobs: StrMap::new(), shells: StrMap::new() }
}

#[test]
fn a_name_used_in_three_files_is_reported_twice() {
    let mut files = vec![empty_file(), empty_file(), empty_file()];
    for f in files.iter_mut() {
        f.tasks.insert("build".to_string(), make_task(vec!["make"]));
    }
    files[0].jobs.insert("build".to_string(), make_job(vec!["build"]));
    files[1].tasks.insert("test".to_string(), make_task(vec!["make test"]));
    let result = ProjectValidator::validate(&files);
    let reports: Vec<_> = result
        .errors()
        .iter()
        .filter(|e| matches!(&e.error, ValidationError::DuplicateName { kind, name } if *kind == "task" && name == "build"))
        .collect();
    assert_eq!(reports.len(), 2);
    assert!(reports.iter().all(|e| e.context.is_empty()));
    assert_eq!(result.errors().len(), 2);
}

#[test]
fn a_clean_project_validates() {
    let mut a = empty_file();
    a.tasks.insert("build".to_string(), make_task(vec!["make"]));
    a.jobs.insert("all".to_string(), make_job(vec!["build"]));
    let mut b = empty_file();
    b.tasks.insert("test".to_string(), make_task(vec!["make test"]));
    assert!(ProjectValidator::validate(&[a, b]).is_ok());
}

#[test]
fn a_project_with_one_bad_task_fails() {
    let mut a = empty_file();
    a.tasks.insert("build".to_string(), make_task(vec!["make"]));
    let mut b = empty_file();
    b.tasks.insert("broken".to_string(), make_task(vec![]));
    let result = ProjectValidator::validate(&[a, b]);
    assert_eq!(result.errors().len(), 1);
    assert!(matches!(&result.errors()[0].error, ValidationError::EmptyTask { task } if task == "broken"));
}

#[test]
fn every_blank_task_command_is_reported() {
    let result = TaskValidator::validate("t", &make_task(vec!["echo", " ", "", "ls"]));
    assert_eq!(result.errors().len(), 2);
    assert!(result.errors().iter().all(|e| matches!(&e.error, ValidationError::EmptyCommandTask { task } if task == "t")));
}
