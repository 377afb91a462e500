//! Whole workflows of the command line, taken through the library: the steps the program
//! takes for a command, with the commands' results given in place of running them.

use meriadoc::app::App;
use meriadoc::checkup::{handle_doctor, handle_validate};
use meriadoc::cli::{EnvTarget, InfoTarget, InteractiveMode, ListTarget};
use meriadoc::config::{DiscoveryRoot, MeriadocConfig};
use meriadoc::env::{EnvResolver, ResolvedEnv};
use meriadoc::error::MeriadocError;
use meriadoc::executor::{mask_secrets, CommandResult, CommandRunner};
use meriadoc::info::{handle_info, InfoOutput};
use meriadoc::project::{LoadedSpec, Project};
use meriadoc::report::{handle_ls, LsOutput};
use meriadoc::resolver::EntityResolver;
use meriadoc::run::{
    extract_secrets, format_job_dry_run_head, format_job_dry_run_task, format_shell_dry_run,
    format_task_dry_run, EnvResult, EnvStep, JobRun, JobStep, RunActions, TaskRun, TaskStep,
};
use meriadoc::spec::{
    AgentSpec, ConditionSpec, EnvVarSpec, FailurePolicySpec, JobSpec, RiskLevel, ShellSpec,
    SpecFile, TaskSpec, VarType,
};
use meriadoc::strmap::StrMap;
use meriadoc::variables::{format_saved_envs, handle_env_show, EnvShowResult};

const ROOT: &str = "/tmp/proj";
const SPEC: &str = "/tmp/proj/meriadoc.yaml";

fn strings(v: &[&str]) -> Vec<String> {
    v.iter().map(|s| s.to_string()).collect()
}

fn task(desc: Option<&str>, cmds: &[&str]) -> TaskSpec {
    TaskSpec {
        description: desc.map(|s| s.to_string()),
        cmds: strings(cmds),
        workdir: None,
        env: StrMap::new(),
        env_files: vec![],
        preconditions: vec![],
        on_failure: None,
        docs: None,
        agent: None,
    }
}

fn var(var_type: VarType, default: Option<&str>, options: &[&str], required: bool) -> EnvVarSpec {
    EnvVarSpec { var_type, default: default.map(|s| s.to_string()), options: strings(options), required }
}

fn job(tasks: &[&str]) -> JobSpec {
    JobSpec { description: None, tasks: strings(tasks), env: StrMap::new(), env_files: vec![], on_failure: None }
}

fn spec_with(tasks: Vec<(&str, TaskSpec)>, jobs: Vec<(&str, JobSpec)>, shells: Vec<(&str, ShellSpec)>) -> SpecFile {
    let mut t = StrMap::new();
    for (k, v) in tasks {
        t.insert(k.to_string(), v);
    }
    let mut j = StrMap::new();
    for (k, v) in jobs {
        j.insert(k.to_string(), v);
    }
    let mut s = StrMap::new();
    for (k, v) in shells {
        s.insert(k.to_string(), v);
    }
    SpecFile { version: "v1".to_string(), tasks: t, jobs: j, shells: s }
}

fn app_with(spec: SpecFile) -> App {
    let project = Project {
        root: ROOT.to_string(),
        spec_files: vec![SPEC.to_string()],
        specs: vec![LoadedSpec { path: SPEC.to_string(), spec }],
    };
    let mut config = MeriadocConfig::default();
    config.discovery.roots.push(DiscoveryRoot { path: ROOT.to_string(), name: None, enabled: true });
    App::with_projects(config, vec![project], StrMap::new())
}

fn cli(pairs: &[(&str, &str)]) -> Vec<(String, String)> {
    pairs.iter().map(|(k, v)| (k.to_string(), v.to_string())).collect()
}

fn mode(no_interactive: bool) -> InteractiveMode {
    InteractiveMode { no_interactive, interactive: false, prompt_all: false }
}

/// The variables of a run with no files, as the runner settles them.
fn settle(inline: &StrMap<EnvVarSpec>, cli_env: &[(String, String)], dry_run: bool, no_interactive: bool) -> Result<EnvResult, MeriadocError> {
    let layered = RunActions::layered_env(None, &[], inline, &StrMap::new(), None, cli_env);
    match RunActions::env_step(inline, layered, dry_run, mode(no_interactive), false) {
        EnvStep::Done(r) => r,
        _ => panic!("no prompt expected"),
    }
}

fn get(env: &ResolvedEnv, k: &str) -> Option<String> {
    env.get(k).cloned()
}

/// What `run task <name> --dry-run` prints.
fn task_dry_run(app: &App, name: &str, cli_env: &[(String, String)]) -> String {
    let r = EntityResolver::resolve_task(name, &app.projects).unwrap();
    let er = settle(&r.spec.env, cli_env, true, false).unwrap();
    let mut env = er.env;
    RunActions::add_special_vars(&mut env, ROOT, ROOT);
    format_task_dry_run(
        name,
        &EntityResolver::project_name(r.project),
        ROOT,
        &env,
        &er.missing,
        &er.invalid_choices,
        &r.spec.preconditions,
        &r.spec.cmds,
        r.spec.on_failure.as_ref().map(|p| &p.cmds),
        &extract_secrets(&r.spec.env),
    )
}

/// The command of a task with its variables replaced, as it runs.
fn task_command(app: &App, name: &str, cli_env: &[(String, String)], no_interactive: bool) -> Result<String, MeriadocError> {
    let r = EntityResolver::resolve_task(name, &app.projects)?;
    let er = settle(&r.spec.env, cli_env, false, no_interactive)?;
    let mut env = er.env;
    RunActions::add_special_vars(&mut env, ROOT, ROOT);
    Ok(CommandRunner::interpolate_command(&r.spec.cmds[0], &env))
}

/// What `sh -c` makes of the few commands used here.
fn sh(cmd: &str) -> CommandResult {
    let ok = |out: &str| CommandResult { exit_code: 0, success: true, stdout: out.to_string(), stderr: String::new() };
    if let Some(code) = cmd.strip_prefix("exit ") {
        let c: i32 = code.parse().unwrap();
        CommandResult { exit_code: c, success: c == 0, stdout: String::new(), stderr: String::new() }
    } else if cmd.starts_with("test -f") {
        CommandResult { exit_code: 1, success: false, stdout: String::new(), stderr: String::new() }
    } else if let Some(text) = cmd.strip_prefix("echo ") {
        ok(&format!("{}\n", text.trim_matches('"')))
    } else {
        ok("")
    }
}

fn run_batch(cmds: &[String], out: &mut String) -> Vec<CommandResult> {
    let mut results = Vec::new();
    while let Some(i) = CommandRunner::next_command(cmds.len(), &results) {
        let r = sh(&cmds[i]);
        out.push_str(&r.stdout);
        results.push(r);
    }
    results
}

/// Runs a task with the simulated shell: its output and its outcome.
fn drive_task(t: &TaskSpec, name: &str) -> (String, Result<i32, MeriadocError>) {
    drive_task_in(t, name, &StrMap::new())
}

/// Runs a task with the simulated shell, each command's variables replaced from `env`.
fn drive_task_in(t: &TaskSpec, name: &str, env: &ResolvedEnv) -> (String, Result<i32, MeriadocError>) {
    let mut out = String::new();
    let (mut run, mut step) = TaskRun::start(name, t);
    loop {
        match step {
            TaskStep::Run { cmds, .. } => {
                let cmds: Vec<String> =
                    cmds.iter().map(|c| CommandRunner::interpolate_command(c, env)).collect();
                let results = run_batch(&cmds, &mut out);
                step = run.report(&results);
            }
            TaskStep::Finished(r) => return (out, Ok(r.exit_code)),
            TaskStep::Failed(e) => return (out, Err(e)),
        }
    }
}

/// Runs a job with the simulated shell: its output and its exit code.
fn drive_job(app: &App, name: &str) -> (String, i32) {
    let r = EntityResolver::resolve_job(name, &app.projects).unwrap();
    let mut out = String::new();
    let (mut run, _header, mut step) = JobRun::start(name, r.spec, &r.spec_file.spec.tasks);
    loop {
        match step {
            JobStep::RunTask { task, .. } => {
                let results = run_batch(&task.cmds, &mut out);
                step = run.report(&results);
            }
            JobStep::RunPolicy(cmds) => {
                let results = run_batch(&cmds, &mut out);
                step = run.report(&results);
            }
            JobStep::Finished { exit_code, .. } => return (out, exit_code),
            JobStep::Failed(e) => panic!("{}", e.message()),
        }
    }
}

#[test]
fn test_run_task_failure_propagates_exit_code() {
    let (_, outcome) = drive_task(&task(None, &["exit 42"]), "failing");
    assert_eq!(outcome.unwrap(), 42);
}

#[test]
fn test_precondition_failure_blocks_task() {
    let mut t = task(None, &["echo \"Task executed\""]);
    t.preconditions.push(ConditionSpec { cmds: strings(&["test -f required.txt"]), on_failure: None });
    let (out, outcome) = drive_task(&t, "guarded");
    let e = outcome.unwrap_err();
    assert!(e.message().contains("precondition"));
    assert!(!out.contains("Task executed"));
}

#[test]
fn test_precondition_with_on_failure_continue() {
    let mut t = task(None, &["echo \"Task executed anyway\""]);
    t.preconditions.push(ConditionSpec {
        cmds: strings(&["test -f nonexistent.txt"]),
        on_failure: Some(FailurePolicySpec {
            continues: true,
            cmds: strings(&["echo \"Precondition failed but continuing\""]),
        }),
    });
    let (out, outcome) = drive_task(&t, "resilient");
    assert_eq!(outcome.unwrap(), 0);
    assert!(out.contains("Precondition failed but continuing"));
    assert!(out.contains("Task executed anyway"));
}

#[test]
fn test_on_failure_runs_cleanup() {
    let mut t = task(None, &["echo \"Starting task\"", "exit 1"]);
    t.on_failure = Some(FailurePolicySpec { continues: false, cmds: strings(&["echo \"Cleanup executed\""]) });
    let (out, outcome) = drive_task(&t, "cleanup_test");
    assert_eq!(outcome.unwrap(), 1);
    assert!(out.contains("Starting task"));
    assert!(out.contains("Cleanup executed"));
}

#[test]
fn test_run_job_executes_tasks_in_order() {
    let app = app_with(spec_with(
        vec![
            ("first", task(None, &["echo \"FIRST\""])),
            ("second", task(None, &["echo \"SECOND\""])),
            ("third", task(None, &["echo \"THIRD\""])),
        ],
        vec![("ordered", job(&["first", "second", "third"]))],
        vec![],
    ));
    let (out, code) = drive_job(&app, "ordered");
    assert_eq!(code, 0);
    let first = out.find("FIRST").unwrap();
    let second = out.find("SECOND").unwrap();
    let third = out.find("THIRD").unwrap();
    assert!(first < second);
    assert!(second < third);
}

#[test]
fn test_job_stops_on_task_failure() {
    let app = app_with(spec_with(
        vec![
            ("pass", task(None, &["echo \"PASS\""])),
            ("fail", task(None, &["exit 1"])),
            ("never", task(None, &["echo \"NEVER_REACHED\""])),
        ],
        vec![("will_fail", job(&["pass", "fail", "never"]))],
        vec![],
    ));
    let (out, code) = drive_job(&app, "will_fail");
    assert_ne!(code, 0);
    assert!(out.contains("PASS"));
    assert!(!out.contains("NEVER_REACHED"));
}

#[test]
fn test_job_on_failure_with_continue() {
    let mut j = job(&["first", "failing", "third"]);
    j.on_failure = Some(FailurePolicySpec { continues: true, cmds: strings(&["echo \"JOB_CLEANUP\""]) });
    let app = app_with(spec_with(
        vec![
            ("first", task(None, &["echo \"FIRST\""])),
            ("failing", task(None, &["exit 1"])),
            ("third", task(None, &["echo \"THIRD\""])),
        ],
        vec![("resilient", j)],
        vec![],
    ));
    let (out, _) = drive_job(&app, "resilient");
    assert!(out.contains("FIRST"));
    assert!(out.contains("JOB_CLEANUP"));
    assert!(out.contains("THIRD"));
}

#[test]
fn test_job_env_overrides_task_env() {
    let mut t = task(None, &["echo \"VAR=$MY_VAR\""]);
    t.env.insert("MY_VAR".to_string(), var(VarType::String, Some("from_task"), &[], false));
    let mut j = job(&["show_env"]);
    j.env.insert("MY_VAR".to_string(), var(VarType::String, Some("from_job"), &[], false));
    let base = EnvResolver::resolve(&t.env, &[], &[]).unwrap();
    let env = RunActions::job_task_env(base, &j.env, &[], ROOT, ROOT);
    let cmd = CommandRunner::interpolate_command(&t.cmds[0], &env);
    assert!(cmd.contains("VAR=from_job"));
}

#[test]
fn test_job_cli_env_satisfies_required_task_var() {
    let mut t = task(None, &["echo \"VERSION=$VERSION\""]);
    t.env.insert("VERSION".to_string(), var(VarType::String, None, &[], true));
    let mut j = job(&["show_version"]);
    j.env.insert("VERSION".to_string(), var(VarType::String, None, &[], true));
    let given = cli(&[("VERSION", "1.2.3")]);
    let job_env = settle(&j.env, &given, false, true).unwrap();
    assert_eq!(get(&job_env.env, "VERSION"), Some("1.2.3".to_string()));
    let base = EnvResolver::resolve(&t.env, &[], &given).unwrap();
    let env = RunActions::job_task_env(base, &j.env, &given, ROOT, ROOT);
    let cmd = CommandRunner::interpolate_command(&t.cmds[0], &env);
    assert!(cmd.contains("VERSION=1.2.3"));
}

#[test]
fn test_validate_valid_spec() {
    let app = app_with(spec_with(vec![("valid", task(None, &["echo \"valid\""]))], vec![], vec![]));
    let text = handle_validate(None, &app).unwrap();
    assert!(text.contains("valid") || text.contains("no errors"));
}

#[test]
fn test_validate_invalid_spec_empty_task() {
    let app = app_with(spec_with(vec![("empty", task(None, &[]))], vec![], vec![]));
    let text = handle_validate(None, &app).unwrap();
    assert!(text.contains("error") || text.contains("Error"));
}

#[test]
fn test_doctor_reports_status() {
    let app = app_with(spec_with(vec![("test", task(None, &["echo test"]))], vec![], vec![]));
    let text = handle_doctor(&app, &vec![true]);
    assert!(text.contains("Meriadoc Doctor"));
    assert!(text.contains("Configuration"));
    assert!(text.contains("Projects"));
    assert!(text.contains("Validation"));
}

#[test]
fn test_info_task_shows_details() {
    let mut t = task(Some("A detailed task"), &["echo \"command1\"", "echo \"command2\""]);
    t.env.insert("MY_VAR".to_string(), var(VarType::String, Some("value"), &[], false));
    let app = app_with(spec_with(vec![("detailed", t)], vec![], vec![]));
    match handle_info(InfoTarget::Task, "detailed".to_string(), &app, false).unwrap() {
        InfoOutput::Text(s) => {
            assert!(s.contains("Task: detailed"));
            assert!(s.contains("A detailed task"));
            assert!(s.contains("command1"));
            assert!(s.contains("MY_VAR"));
        }
        _ => panic!("text expected"),
    }
}

#[test]
fn test_info_nonexistent_task_fails() {
    let app = app_with(spec_with(vec![("exists", task(None, &["echo test"]))], vec![], vec![]));
    let e = handle_info(InfoTarget::Task, "nonexistent".to_string(), &app, false).err().unwrap();
    assert!(e.message().contains("not found"));
}

#[test]
fn test_dry_run_task_shows_info() {
    let mut t = task(Some("A test task"), &["echo \"This should not run\"", "echo \"Neither should this\""]);
    t.env.insert("MY_VAR".to_string(), var(VarType::String, Some("test_value"), &[], false));
    let app = app_with(spec_with(vec![("mytask", t)], vec![], vec![]));
    let out = task_dry_run(&app, "mytask", &[]);
    assert!(out.contains("[dry-run]"));
    assert!(out.contains("Task: mytask"));
    assert!(out.contains("MY_VAR=test_value"));
    assert!(out.contains("echo \"This should not run\""));
    assert!(!out.contains("Running task:"));
}

#[test]
fn test_dry_run_task_with_env_override() {
    let mut t = task(None, &["echo \"$MY_VAR\""]);
    t.env.insert("MY_VAR".to_string(), var(VarType::String, Some("default"), &[], false));
    let app = app_with(spec_with(vec![("envtask", t)], vec![], vec![]));
    let out = task_dry_run(&app, "envtask", &cli(&[("MY_VAR", "overridden")]));
    assert!(out.contains("MY_VAR=overridden"));
    assert!(!out.contains("MY_VAR=default"));
}

#[test]
fn test_dry_run_task_with_preconditions() {
    let mut t = task(None, &["echo \"main command\""]);
    t.preconditions.push(ConditionSpec {
        cmds: strings(&["test -f somefile"]),
        on_failure: Some(FailurePolicySpec { continues: false, cmds: strings(&["echo \"precondition failed\""]) }),
    });
    let app = app_with(spec_with(vec![("precond_task", t)], vec![], vec![]));
    let out = task_dry_run(&app, "precond_task", &[]);
    assert!(out.contains("Preconditions:"));
    assert!(out.contains("test -f somefile"));
}

#[test]
fn test_dry_run_task_with_on_failure() {
    let mut t = task(None, &["exit 1"]);
    t.on_failure = Some(FailurePolicySpec { continues: false, cmds: strings(&["echo \"cleaning up\""]) });
    let app = app_with(spec_with(vec![("failure_task", t)], vec![], vec![]));
    let out = task_dry_run(&app, "failure_task", &[]);
    assert!(out.contains("On failure:"));
    assert!(out.contains("cleaning up"));
}

#[test]
fn test_dry_run_job_shows_all_tasks() {
    let app = app_with(spec_with(
        vec![
            ("first", task(None, &["echo \"first\""])),
            ("second", task(None, &["echo \"second\""])),
            ("third", task(None, &["echo \"third\""])),
        ],
        vec![("myjob", job(&["first", "second", "third"]))],
        vec![],
    ));
    let r = EntityResolver::resolve_job("myjob", &app.projects).unwrap();
    let er = settle(&r.spec.env, &[], true, false).unwrap();
    let mut out = format_job_dry_run_head("myjob", "proj", r.spec, &er.env, &er.missing, &er.invalid_choices, &vec![]);
    for (i, name) in r.spec.tasks.iter().enumerate() {
        let t = r.spec_file.spec.tasks.get(name).unwrap();
        let base = EnvResolver::resolve(&t.env, &[], &[]).unwrap();
        let env = RunActions::job_task_env(base, &r.spec.env, &[], ROOT, ROOT);
        out.push_str(&format_job_dry_run_task(i + 1, r.spec.tasks.len(), name, &t.cmds, &env, &vec![]));
    }
    assert!(out.contains("Job: myjob"));
    assert!(out.contains("first → second → third"));
    assert!(out.contains("Task 1/3: first"));
    assert!(out.contains("Task 2/3: second"));
    assert!(out.contains("Task 3/3: third"));
    assert!(!out.contains("Running job:"));
}

#[test]
fn test_dry_run_shell_shows_config() {
    let mut env = StrMap::new();
    env.insert("SHELL_VAR".to_string(), var(VarType::String, Some("shell_value"), &[], false));
    let shell = ShellSpec {
        description: Some("Test shell".to_string()),
        workdir: None,
        env,
        env_files: vec![],
        init_cmds: strings(&["echo \"init command 1\"", "echo \"init command 2\""]),
    };
    let app = app_with(spec_with(vec![], vec![], vec![("myshell", shell)]));
    let r = EntityResolver::resolve_shell("myshell", &app.projects).unwrap();
    let er = settle(&r.spec.env, &[], true, false).unwrap();
    let mut resolved = er.env;
    RunActions::add_special_vars(&mut resolved, ROOT, ROOT);
    let out = format_shell_dry_run(
        "myshell",
        "proj",
        ROOT,
        "/bin/sh",
        &resolved,
        &er.missing,
        &er.invalid_choices,
        &r.spec.init_cmds,
        &extract_secrets(&r.spec.env),
    );
    assert!(out.contains("Shell: myshell"));
    assert!(out.contains("SHELL_VAR=shell_value"));
    assert!(out.contains("Init commands:"));
    assert!(out.contains("echo \"init command 1\""));
    assert!(out.contains("Would start interactive"));
    assert!(!out.contains("Starting shell:"));
}

fn hello_app(cmd: &str, default: Option<&str>) -> App {
    let mut t = task(None, &[cmd]);
    if let Some(d) = default {
        t.env.insert("NAME".to_string(), var(VarType::String, Some(d), &[], false));
    }
    app_with(spec_with(vec![("interp", t)], vec![], vec![]))
}

#[test]
fn test_interpolation_braces_syntax() {
    let app = hello_app("echo \"Hello ${NAME}\"", Some("World"));
    assert!(task_command(&app, "interp", &[], false).unwrap().contains("Hello World"));
}

#[test]
fn test_interpolation_simple_syntax() {
    let app = hello_app("echo \"Hello $NAME\"", Some("World"));
    assert!(task_command(&app, "interp", &[], false).unwrap().contains("Hello World"));
}

#[test]
fn test_interpolation_with_default() {
    let app = hello_app("echo \"Hello ${NAME:-Default}\"", None);
    assert!(task_command(&app, "interp", &[], false).unwrap().contains("Hello Default"));
}

#[test]
fn test_interpolation_cli_override() {
    let app = hello_app("echo \"Hello ${NAME}\"", Some("World"));
    let cmd = task_command(&app, "interp", &cli(&[("NAME", "CLI")]), false).unwrap();
    assert!(cmd.contains("Hello CLI"));
}

#[test]
fn test_interpolation_special_vars() {
    let app = app_with(spec_with(vec![("special", task(None, &["echo \"Root is set\""]))], vec![], vec![]));
    let out = task_dry_run(&app, "special", &[]);
    assert!(out.contains("MERIADOC_PROJECT_ROOT"));
    assert!(out.contains("MERIADOC_SPEC_DIR"));
}

#[test]
fn test_interpolation_dry_run_shows_resolved() {
    let app = hello_app("echo \"Hello ${NAME}\"", Some("World"));
    let out = task_dry_run(&app, "interp", &[]);
    assert!(out.contains("echo \"Hello ${NAME}\""));
    assert!(out.contains("→ echo \"Hello World\""));
}

#[test]
fn test_interpolation_escaped_dollar() {
    let app = app_with(spec_with(vec![("escape", task(None, &["echo \"Price is 100 dollars\""]))], vec![], vec![]));
    let cmd = task_command(&app, "escape", &[], false).unwrap();
    assert!(sh(&cmd).stdout.contains("Price is 100 dollars"));
}

#[test]
fn test_interpolation_multiple_vars() {
    let mut t = task(None, &["echo \"${GREETING} ${NAME}!\""]);
    t.env.insert("GREETING".to_string(), var(VarType::String, Some("Hello"), &[], false));
    t.env.insert("NAME".to_string(), var(VarType::String, Some("World"), &[], false));
    let app = app_with(spec_with(vec![("multi", t)], vec![], vec![]));
    assert!(task_command(&app, "multi", &[], false).unwrap().contains("Hello World!"));
}

fn needs_var_app(default: Option<&str>) -> App {
    let mut t = task(None, &["echo \"MY_VAR=$MY_VAR\""]);
    t.env.insert("MY_VAR".to_string(), var(VarType::String, default, &[], true));
    app_with(spec_with(vec![("needs_var", t)], vec![], vec![]))
}

#[test]
fn test_no_interactive_fails_on_missing_required() {
    let app = needs_var_app(None);
    let e = task_command(&app, "needs_var", &[], true).unwrap_err();
    let m = e.message();
    assert!(m.contains("MY_VAR") || m.contains("required"));
}

#[test]
fn test_no_interactive_succeeds_with_default() {
    let app = needs_var_app(Some("default_value"));
    assert!(task_command(&app, "needs_var", &[], true).unwrap().contains("MY_VAR=default_value"));
}

#[test]
fn test_no_interactive_succeeds_with_cli_override() {
    let app = needs_var_app(None);
    let cmd = task_command(&app, "needs_var", &cli(&[("MY_VAR", "cli_value")]), true).unwrap();
    assert!(cmd.contains("MY_VAR=cli_value"));
}

fn choice_app() -> App {
    let mut t = task(None, &["echo \"ENV=$ENV\""]);
    t.env.insert("ENV".to_string(), var(VarType::String, Some("dev"), &["dev", "staging", "prod"], false));
    app_with(spec_with(vec![("choice_task", t)], vec![], vec![]))
}

#[test]
fn test_choice_validation_accepts_valid_option() {
    let cmd = task_command(&choice_app(), "choice_task", &cli(&[("ENV", "staging")]), false).unwrap();
    assert!(cmd.contains("ENV=staging"));
}

#[test]
fn test_choice_validation_rejects_invalid_option() {
    let e = task_command(&choice_app(), "choice_task", &cli(&[("ENV", "invalid")]), false).unwrap_err();
    let m = e.message();
    assert!(m.contains("invalid") || m.contains("Invalid"));
}

#[test]
fn test_env_show_displays_vars() {
    let mut t = task(Some("Task with env vars"), &["echo \"test\""]);
    t.env.insert("API_KEY".to_string(), var(VarType::String, None, &[], true));
    t.env.insert("ENVIRONMENT".to_string(), var(VarType::String, Some("dev"), &["dev", "prod"], false));
    let app = app_with(spec_with(vec![("envtask", t)], vec![], vec![]));
    match handle_env_show(EnvTarget::Task, "envtask".to_string(), &app, false).unwrap() {
        EnvShowResult::Text(s) => {
            assert!(s.contains("API_KEY"));
            assert!(s.contains("required"));
            assert!(s.contains("ENVIRONMENT"));
            assert!(s.contains("dev") && s.contains("prod"));
        }
        _ => panic!("text expected"),
    }
}

#[test]
fn test_env_show_nonexistent_task() {
    let app = app_with(spec_with(vec![("exists", task(None, &["echo test"]))], vec![], vec![]));
    let e = handle_env_show(EnvTarget::Task, "nonexistent".to_string(), &app, false).err().unwrap();
    assert!(e.message().contains("not found"));
}

#[test]
fn test_json_ls_tasks() {
    let app = app_with(spec_with(
        vec![
            ("task1", task(Some("First task"), &["echo \"task1\""])),
            ("task2", task(Some("Second task"), &["echo \"task2\""])),
        ],
        vec![],
        vec![],
    ));
    match handle_ls(Some(ListTarget::Tasks), &app, true) {
        LsOutput::Tasks(l) => {
            assert_eq!(l.items.len(), 2);
            assert!(l.items.iter().any(|t| t.name.contains("task1")));
            assert!(l.items.iter().any(|t| t.name.contains("task2")));
        }
        _ => panic!("task list expected"),
    }
}

#[test]
fn test_json_ls_projects() {
    let app = app_with(spec_with(vec![("test", task(None, &["echo \"test\""]))], vec![], vec![]));
    match handle_ls(Some(ListTarget::Projects), &app, true) {
        LsOutput::Projects(l) => assert!(!l.items.is_empty()),
        _ => panic!("project list expected"),
    }
}

#[test]
fn test_json_info_task() {
    let mut t = task(Some("A detailed task"), &["echo \"command\""]);
    t.env.insert("MY_VAR".to_string(), var(VarType::String, Some("value"), &[], false));
    let app = app_with(spec_with(vec![("detailed", t)], vec![], vec![]));
    match handle_info(InfoTarget::Task, "detailed".to_string(), &app, true).unwrap() {
        InfoOutput::Task(o) => {
            assert_eq!(o.name, "detailed");
            assert_eq!(o.description, Some("A detailed task".to_string()));
            assert_eq!(o.cmds, strings(&["echo \"command\""]));
        }
        _ => panic!("task expected"),
    }
}

#[test]
fn test_json_ls_tasks_includes_agent_disabled() {
    let mut hidden = task(Some("Hidden from agents but visible in UI"), &["echo \"hidden\""]);
    hidden.agent = Some(AgentSpec { enabled: false, risk_level: RiskLevel::Low, confirmation: None, requires_approval: false });
    let app = app_with(spec_with(
        vec![("visible_task", task(Some("Visible to everyone"), &["echo \"visible\""])), ("hidden_from_agents", hidden)],
        vec![],
        vec![],
    ));
    match handle_ls(Some(ListTarget::Tasks), &app, true) {
        LsOutput::Tasks(l) => {
            assert!(l.items.iter().any(|t| t.name.contains("visible_task")));
            assert!(l.items.iter().any(|t| t.name.contains("hidden_from_agents")));
        }
        _ => panic!("task list expected"),
    }
}

#[test]
fn test_secret_masked_in_verbose_output() {
    let mut t = task(None, &["echo \"Secret is $MY_SECRET\""]);
    t.env.insert("MY_SECRET".to_string(), var(VarType::Secret, None, &[], true));
    let app = app_with(spec_with(vec![("secret_task", t)], vec![], vec![]));
    let r = EntityResolver::resolve_task("secret_task", &app.projects).unwrap();
    let er = settle(&r.spec.env, &cli(&[("MY_SECRET", "password123")]), false, false).unwrap();
    let cmd = CommandRunner::interpolate_command(&r.spec.cmds[0], &er.env);
    let shown = mask_secrets(&cmd, &er.env, &extract_secrets(&r.spec.env));
    assert!(shown.contains("***") || !shown.contains("password123"));
    assert!(!shown.contains("password123"));
}

/// Runs a task of `app` as `run task` does, with the simulated shell.
fn run_named(app: &App, name: &str, cli_env: &[(String, String)]) -> (String, Result<i32, MeriadocError>) {
    let r = EntityResolver::resolve_task(name, &app.projects).unwrap();
    match settle(&r.spec.env, cli_env, false, true) {
        Ok(er) => {
            let mut env = er.env;
            RunActions::add_special_vars(&mut env, ROOT, ROOT);
            drive_task_in(r.spec, name, &env)
        }
        Err(e) => (String::new(), Err(e)),
    }
}

#[test]
fn test_run_simple_task() {
    let app = app_with(spec_with(vec![("hello", task(Some("Say hello"), &["echo \"Hello, World!\""]))], vec![], vec![]));
    let (out, outcome) = run_named(&app, "hello", &[]);
    assert_eq!(outcome.unwrap(), 0);
    assert!(out.contains("Hello, World!"));
}

#[test]
fn test_run_task_with_multiple_commands() {
    let app = app_with(spec_with(
        vec![("multi", task(None, &["echo \"First\"", "echo \"Second\"", "echo \"Third\""]))],
        vec![],
        vec![],
    ));
    let (out, outcome) = run_named(&app, "multi", &[]);
    assert_eq!(outcome.unwrap(), 0);
    assert!(out.contains("First"));
    assert!(out.contains("Second"));
    assert!(out.contains("Third"));
}

fn envtest_app() -> App {
    let mut t = task(None, &["echo \"Value is $MY_VAR\""]);
    t.env.insert("MY_VAR".to_string(), var(VarType::String, Some("default_value"), &[], false));
    app_with(spec_with(vec![("envtest", t)], vec![], vec![]))
}

#[test]
fn test_run_task_with_env_default() {
    let (out, outcome) = run_named(&envtest_app(), "envtest", &[]);
    assert_eq!(outcome.unwrap(), 0);
    assert!(out.contains("Value is default_value"));
}

#[test]
fn test_run_task_with_env_override() {
    let (out, outcome) = run_named(&envtest_app(), "envtest", &cli(&[("MY_VAR", "overridden")]));
    assert_eq!(outcome.unwrap(), 0);
    assert!(out.contains("Value is overridden"));
}

#[test]
fn test_agent_annotated_task_runs() {
    let mut t = task(Some("A risky operation"), &["echo \"RISKY_OUTPUT\""]);
    t.agent = Some(AgentSpec {
        enabled: true,
        risk_level: RiskLevel::High,
        confirmation: Some("Are you sure?".to_string()),
        requires_approval: true,
    });
    let app = app_with(spec_with(vec![("risky_task", t)], vec![], vec![]));
    let (out, outcome) = run_named(&app, "risky_task", &[]);
    assert_eq!(outcome.unwrap(), 0);
    assert!(out.contains("RISKY_OUTPUT"));
}

#[test]
fn test_agent_disabled_task_still_runs_for_human() {
    let mut t = task(Some("Hidden from agents"), &["echo \"HIDDEN_OUTPUT\""]);
    t.agent = Some(AgentSpec { enabled: false, risk_level: RiskLevel::Low, confirmation: None, requires_approval: false });
    let app = app_with(spec_with(vec![("hidden", t)], vec![], vec![]));
    let (out, outcome) = run_named(&app, "hidden", &[]);
    assert_eq!(outcome.unwrap(), 0);
    assert!(out.contains("HIDDEN_OUTPUT"));
}

#[test]
fn test_secret_type_variable() {
    let mut t = task(Some("Task with secret"), &["echo \"Using secret\""]);
    t.env.insert("API_KEY".to_string(), var(VarType::Secret, None, &[], true));
    let app = app_with(spec_with(vec![("secret_task", t)], vec![], vec![]));
    let (out, outcome) = run_named(&app, "secret_task", &cli(&[("API_KEY", "super-secret-value")]));
    assert_eq!(outcome.unwrap(), 0);
    assert!(out.contains("Using secret"));
}

#[test]
fn test_env_ls_empty() {
    let text = format_saved_envs(&vec![]);
    assert!(text.contains("No saved") || text.is_empty() || text.contains("0"));
}

#[test]
fn dry_run_for_agents_masks_secrets() {
    let mut t = task(None, &["echo \"Using secret\""]);
    t.env.insert("API_KEY".to_string(), var(VarType::Secret, None, &[], true));
    let app = app_with(spec_with(vec![("secret_task", t)], vec![], vec![]));
    let out = task_dry_run(&app, "secret_task", &cli(&[("API_KEY", "super-secret-value")]));
    assert!(!out.contains("super-secret-value"));
    assert!(out.contains("API_KEY=***"));
}
