use meriadoc::api::{list_projects, list_tasks, output_lines, run_response, run_stream_events, task_info};
use meriadoc::app::App;
use meriadoc::checkup::{handle_doctor, handle_validate};
use meriadoc::cli::{EnvCommand, EnvTarget, InfoTarget, ListTarget, ValidateTarget};
use meriadoc::config::{DiscoveryRoot, MeriadocConfig};
use meriadoc::discovery::{DirEntry, ProjectDiscovery};
use meriadoc::env::ResolvedEnv;
use meriadoc::error::MeriadocError;
use meriadoc::housekeeping::{cache_list_text, config_list_text};
use meriadoc::info::{handle_info, InfoOutput};
use meriadoc::project::{LoadedSpec, Project, ProjectLoader};
use meriadoc::report::{counts_fit_exec, handle_ls, LsOutput};
use meriadoc::run::{
    format_command_with_interpolation, format_job_dry_run_task, format_shell_dry_run, format_task_dry_run,
    run_task_response, TaskRunResult,
};
use meriadoc::spec::{AgentSpec, EnvVarSpec, FailurePolicySpec, JobSpec, RiskLevel, ShellSpec, SpecFile, TaskSpec, VarType};
use meriadoc::strmap::StrMap;
use meriadoc::cache::ValidationCache;
use meriadoc::variables::{format_saved_envs, handle_env, init_done_text, EnvAction, EnvShowResult};

fn task(desc: Option<&str>, cmds: &[&str]) -> TaskSpec {
    TaskSpec {
        description: desc.map(|s| s.to_string()),
        cmds: cmds.iter().map(|s| s.to_string()).collect(),
        workdir: None,
        env: StrMap::new(),
        env_files: vec![],
        preconditions: vec![],
        on_failure: None,
        docs: None,
        agent: None,
    }
}

fn var(default: Option<&str>, required: bool) -> EnvVarSpec {
    EnvVarSpec { var_type: VarType::String, default: default.map(|s| s.to_string()), options: vec![], required }
}

fn fixture() -> App {
    let mut build = task(Some("Build it"), &["make"]);
    build.env.insert("MODE".to_string(), var(Some("release"), false));
    build.env.insert("TOKEN".to_string(), var(None, true));
    let mut tasks = StrMap::new();
    tasks.insert("build".to_string(), build);
    tasks.insert("test".to_string(), task(None, &["make test"]));
    let mut jobs = StrMap::new();
    jobs.insert(
        "ci".to_string(),
        JobSpec {
            description: Some("All checks".to_string()),
            tasks: vec!["build".to_string(), "test".to_string()],
            env: StrMap::new(),
            env_files: vec![],
            on_failure: None,
        },
    );
    let mut shells = StrMap::new();
    shells.insert(
        "dev".to_string(),
        ShellSpec { description: None, workdir: None, env: StrMap::new(), env_files: vec![], init_cmds: vec![] },
    );
    let spec = SpecFile { version: "v1".to_string(), tasks, jobs, shells };
    let project = Project {
        root: "/work/alpha".to_string(),
        spec_files: vec!["/work/alpha/meriadoc.yaml".to_string()],
        specs: vec![LoadedSpec { path: "/work/alpha/meriadoc.yaml".to_string(), spec }],
    };
    let mut config = MeriadocConfig::default();
    config.discovery.roots.push(DiscoveryRoot { path: "/work".to_string(), name: None, enabled: true });
    App::with_projects(config, vec![project], StrMap::new())
}

#[test]
fn ls_lists_projects_and_tasks() {
    let app = fixture();
    assert!(counts_fit_exec(&app));
    match handle_ls(None, &app, false) {
        LsOutput::Text(t) => assert_eq!(t, "Projects:\n  alpha (/work/alpha)\n    Spec files: 1\n"),
        _ => panic!("text expected"),
    }
    match handle_ls(Some(ListTarget::Tasks), &app, false) {
        LsOutput::Text(t) => assert_eq!(t, "Tasks:\n  alpha:build - Build it\n  alpha:test\n"),
        _ => panic!("text expected"),
    }
    match handle_ls(Some(ListTarget::Jobs), &app, false) {
        LsOutput::Text(t) => assert_eq!(t, "Jobs:\n  alpha:ci (2 tasks) - All checks\n"),
        _ => panic!("text expected"),
    }
    match handle_ls(Some(ListTarget::Projects), &app, true) {
        LsOutput::Projects(l) => {
            assert_eq!(l.count, 1);
            assert_eq!(l.items[0].tasks, 2);
            assert_eq!(l.items[0].jobs, 1);
            assert_eq!(l.items[0].shells, 1);
        }
        _ => panic!("projects expected"),
    }
}

#[test]
fn ls_without_projects_gives_the_hint() {
    let app = App::with_projects(MeriadocConfig::default(), vec![], StrMap::new());
    match handle_ls(None, &app, false) {
        LsOutput::Text(t) => assert!(t.starts_with("No projects found.")),
        _ => panic!("text expected"),
    }
}

#[test]
fn info_task_shows_details() {
    let app = fixture();
    match handle_info(InfoTarget::Task, "build".to_string(), &app, false).unwrap() {
        InfoOutput::Text(t) => {
            assert!(t.starts_with("Task: build\n  Description: Build it\n  Project: alpha\n"));
            assert!(t.contains("  Commands:\n    - make\n"));
            assert!(t.contains("    MODE [string]: default=release\n"));
            assert!(t.contains("    TOKEN [string]: default=<none> (required)\n"));
        }
        _ => panic!("text expected"),
    }
}

#[test]
fn info_nonexistent_task_fails() {
    let app = fixture();
    let e = handle_info(InfoTarget::Task, "nope".to_string(), &app, false).unwrap_err();
    assert!(matches!(e, MeriadocError::EntityNotFound { ref kind, .. } if kind == "task"));
    let e = handle_info(InfoTarget::Project, "nope".to_string(), &app, true).unwrap_err();
    assert!(matches!(e, MeriadocError::EntityNotFound { ref kind, .. } if kind == "project"));
}

#[test]
fn info_project_counts_and_lists() {
    let app = fixture();
    match handle_info(InfoTarget::Project, "alpha".to_string(), &app, false).unwrap() {
        InfoOutput::Text(t) => {
            assert!(t.contains("  Tasks: 2\n  Jobs: 1\n  Shells: 1\n"));
            assert!(t.contains("\n  Available tasks:\n    - build - Build it\n    - test\n"));
            assert!(t.contains("\n  Available jobs:\n    - ci (2 tasks) - All checks\n"));
        }
        _ => panic!("text expected"),
    }
    match handle_info(InfoTarget::Project, "alpha".to_string(), &app, true).unwrap() {
        InfoOutput::Project(p) => {
            assert_eq!(p.spec_files, vec!["/work/alpha/meriadoc.yaml"]);
            assert_eq!(p.tasks.len(), 2);
            assert_eq!(p.jobs[0].task_count, 2);
        }
        _ => panic!("project expected"),
    }
}

#[test]
fn validate_reports_totals() {
    let app = fixture();
    let t = handle_validate(None, &app).unwrap();
    assert_eq!(
        t,
        "Validating project: alpha\n  1 spec file(s) valid.\n\nValidation complete: 1 spec file(s), no errors.\n"
    );
    let t = handle_validate(Some(ValidateTarget::Project { name: "alpha".to_string() }), &app).unwrap();
    assert_eq!(t, "Validating project: alpha\n  All specs valid.\n");
}

#[test]
fn validate_reports_errors() {
    let mut app = fixture();
    app.projects[0].specs[0].spec.tasks.insert("empty".to_string(), task(None, &[]));
    let t = handle_validate(None, &app).unwrap();
    assert!(t.contains("  1 error(s):\n    [task 'empty'] task `empty` has no commands\n"));
    assert!(t.ends_with("Validation complete: 1 spec file(s), 1 error(s).\n"));
}

#[test]
fn doctor_reports_status() {
    let app = fixture();
    let t = handle_doctor(&app, &vec![true]);
    assert!(t.starts_with("Meriadoc Doctor\n===============\n\nConfiguration:\n  [✓] 1 discovery root(s) enabled\n"));
    assert!(t.contains("\nDiscovery roots:\n  [✓] /work exists\n"));
    assert!(t.contains("\nProjects:\n  [✓] 1 project(s) discovered\n  [i] 1 spec file(s)\n  [i] 2 task(s), 1 job(s), 1 shell(s)\n"));
    assert!(t.contains("\nValidation:\n  [✓] All specs valid\n"));
    assert!(t.ends_with("No issues found. Meriadoc is ready to use.\n"));
    let t = handle_doctor(&app, &vec![false]);
    assert!(t.contains("  [!] /work does not exist\n"));
    assert!(t.ends_with("1 issue(s) found.\n"));
}

#[test]
fn config_and_cache_listings() {
    let mut app = fixture();
    app.config.discovery.roots.push(DiscoveryRoot { path: "/old".to_string(), name: None, enabled: false });
    assert_eq!(config_list_text(&app.config), "/work [enabled]\n/old [disabled]\n");
    assert_eq!(cache_list_text(&app), "Cache is empty.\n");
    let mut cache = ValidationCache::new();
    cache.record_validation("/work/alpha/meriadoc.yaml", b"x", true, 1);
    app.caches.insert("/work/alpha".to_string(), cache);
    assert_eq!(
        cache_list_text(&app),
        "Cached validations (1 entries):\n  [alpha] (1 entries)\n    /work/alpha/meriadoc.yaml [valid]\n"
    );
    app.clear_caches();
    assert_eq!(cache_list_text(&app), "Cache is empty.\n");
    assert_eq!(app.caches.len(), 1);
}

#[test]
fn env_show_task_table() {
    let app = fixture();
    let cmd = EnvCommand::Show { target: EnvTarget::Task, name: "build".to_string() };
    match handle_env(cmd, &app, false).unwrap() {
        EnvAction::Show(EnvShowResult::Text(t)) => {
            assert!(t.starts_with("Environment for task: build\n  Project: alpha\n\n"));
            assert!(t.contains("  NAME                 TYPE       DEFAULT              OPTIONS\n"));
            assert!(t.contains("  MODE                 string     release              -\n"));
            assert!(t.contains("  TOKEN                string     (required)           -\n"));
            assert!(t.find("MODE").unwrap() < t.find("TOKEN").unwrap());
        }
        _ => panic!("text expected"),
    }
}

#[test]
fn env_init_and_listing() {
    let app = fixture();
    let cmd = EnvCommand::Init { target: EnvTarget::Task, name: "build".to_string() };
    match handle_env(cmd, &app, false).unwrap() {
        EnvAction::WriteTemplate { project, entity, template } => {
            assert_eq!(project, "alpha");
            assert_eq!(entity, "build");
            assert_eq!(template.get("MODE"), Some(&"release".to_string()));
            assert_eq!(template.get("TOKEN"), Some(&"<TOKEN>".to_string()));
        }
        _ => panic!("template expected"),
    }
    let cmd = EnvCommand::Init { target: EnvTarget::Task, name: "test".to_string() };
    assert!(matches!(handle_env(cmd, &app, false).unwrap(), EnvAction::NothingToInit));
    assert_eq!(
        init_done_text("/c/env/alpha/build.env", EnvTarget::Task, "build"),
        "Created template: /c/env/alpha/build.env\n\nEdit the file to set your values, then run:\n  meriadoc task build\n"
    );
    assert!(format_saved_envs(&vec![]).starts_with("No saved environment files.\n"));
    assert_eq!(
        format_saved_envs(&vec![("alpha".to_string(), vec!["build".to_string()])]),
        "Saved environment files:\n  alpha:build\n"
    );
}

#[test]
fn api_lists_and_answers() {
    let mut app = fixture();
    app.projects[0].specs[0].spec.tasks.insert(
        "wipe".to_string(),
        TaskSpec {
            agent: Some(AgentSpec { enabled: false, risk_level: RiskLevel::Critical, confirmation: None, requires_approval: false }),
            ..task(None, &["rm -rf x"])
        },
    );
    let l = list_tasks(&app);
    assert_eq!(l.tasks.len(), 3);
    assert_eq!(l.tasks[2].name, "wipe");
    assert_eq!(l.tasks[2].risk_level, "critical");
    assert!(l.tasks[2].requires_approval);
    assert_eq!(l.tasks[0].risk_level, "low");
    let p = list_projects(&app);
    assert_eq!(p.projects[0].task_count, 3);
    let d = task_info("build", &app).unwrap();
    assert_eq!(d.cmds, vec!["make"]);
    assert_eq!(d.env_vars.len(), 2);
    assert_eq!(task_info("none", &app).unwrap_err(), "Task not found: task `none` not found");
    let r = run_response(Ok("done".to_string()));
    assert!(r.success && r.exit_code == 0 && r.output == "done");
    let r = run_response(Err(MeriadocError::Execution("bad".to_string())));
    assert!(!r.success && r.exit_code == 1 && r.output == "Error: execution failed: bad");
}

#[test]
fn stream_splits_output_in_lines_then_done() {
    assert_eq!(output_lines("a\r\nb\n\nc"), vec!["a", "b", "", "c"]);
    assert!(output_lines("").is_empty());
    let events = run_stream_events(Ok("x\ny\n".to_string()));
    assert_eq!(events.len(), 3);
    assert_eq!(events[1].data, "y");
    assert_eq!(events[2].event.as_deref(), Some("done"));
    assert_eq!(events[2].data, "");
}

#[test]
fn discovery_stops_at_projects() {
    let mut run = ProjectDiscovery::discover("/root", vec!["meriadoc.yaml".to_string()], 2);
    assert_eq!(run.next_dir(), Some("/root"));
    run.report(&vec![
        DirEntry { path: "/root/a".to_string(), is_file: false, is_dir: true },
        DirEntry { path: "/root/b".to_string(), is_file: false, is_dir: true },
        DirEntry { path: "/root/notes.txt".to_string(), is_file: true, is_dir: false },
    ]);
    assert_eq!(run.next_dir(), Some("/root/a"));
    run.report(&vec![DirEntry { path: "/root/a/meriadoc.yaml".to_string(), is_file: true, is_dir: false }]);
    assert_eq!(run.next_dir(), Some("/root/b"));
    run.report(&vec![DirEntry { path: "/root/b/deeper".to_string(), is_file: false, is_dir: true }]);
    assert_eq!(run.next_dir(), None);
    let projects = run.into_projects();
    assert_eq!(projects.len(), 1);
    assert_eq!(projects[0].root, "/root/a");
    assert_eq!(projects[0].spec_files, vec!["/root/a/meriadoc.yaml"]);
    assert!(ProjectDiscovery::is_spec_file("/x/merry.yml", &vec!["merry.yml".to_string()]));
    assert!(!ProjectDiscovery::is_spec_file("/x/merry.yml/", &vec!["other".to_string()]));
}

fn dir(path: &str) -> DirEntry {
    DirEntry { path: path.to_string(), is_file: false, is_dir: true }
}

fn file(path: &str) -> DirEntry {
    DirEntry { path: path.to_string(), is_file: true, is_dir: false }
}

#[test]
fn discovery_walk_finds_the_topmost_projects_within_depth() {
    let tree: Vec<(&str, Vec<DirEntry>)> = vec![
        ("/w", vec![dir("/w/a"), dir("/w/b"), dir("/w/c")]),
        ("/w/a", vec![file("/w/a/meriadoc.yaml"), dir("/w/a/inner")]),
        ("/w/a/inner", vec![file("/w/a/inner/meriadoc.yaml")]),
        ("/w/b", vec![dir("/w/b/x")]),
        ("/w/b/x", vec![file("/w/b/x/meriadoc.yaml"), file("/w/b/x/notes.md")]),
        ("/w/c", vec![dir("/w/c/y")]),
        ("/w/c/y", vec![dir("/w/c/y/z")]),
        ("/w/c/y/z", vec![file("/w/c/y/z/meriadoc.yaml")]),
    ];
    let mut run = ProjectDiscovery::discover("/w", vec!["meriadoc.yaml".to_string()], 3);
    let mut read = Vec::new();
    while let Some(d) = run.next_dir() {
        let d = d.to_string();
        let entries = tree.iter().find(|(p, _)| *p == d).map(|(_, es)| {
            es.iter().map(|e| DirEntry { path: e.path.clone(), is_file: e.is_file, is_dir: e.is_dir }).collect()
        });
        run.report(&entries.unwrap_or_default());
        read.push(d);
    }
    let roots: Vec<String> = run.into_projects().into_iter().map(|p| p.root).collect();
    assert_eq!(roots, vec!["/w/a", "/w/b/x"]);
    assert!(!read.contains(&"/w/a/inner".to_string()));
    assert!(!read.contains(&"/w/c/y/z".to_string()));
}

#[test]
fn loader_pairs_specs_with_paths() {
    let p = Project { root: "/r".to_string(), spec_files: vec!["/r/meriadoc.yaml".to_string()], specs: vec![] };
    let spec = SpecFile { version: "v1".to_string(), tasks: StrMap::new(), jobs: StrMap::new(), shells: StrMap::new() };
    let loaded = ProjectLoader::load(p, vec![spec]);
    assert_eq!(loaded.specs.len(), 1);
    assert_eq!(loaded.specs[0].path, "/r/meriadoc.yaml");
}

fn env_of(pairs: &[(&str, &str)]) -> ResolvedEnv {
    let mut m = StrMap::new();
    for (k, v) in pairs {
        m.insert(k.to_string(), v.to_string());
    }
    m
}

#[test]
fn dry_run_task_shows_everything() {
    let env = env_of(&[("NAME", "World"), ("MY_VAR", "test_value")]);
    let cmds = vec!["echo \"Hello ${NAME}\"".to_string()];
    let on_failure = vec!["echo cleaning up".to_string()];
    let t = format_task_dry_run("mytask", "alpha", "/work/alpha", &env, &[], &[], &[], &cmds, Some(&on_failure), &vec![]);
    assert!(t.starts_with("[dry-run] Task: mytask\n[dry-run] Project: alpha\n[dry-run] Working directory: /work/alpha\n"));
    assert!(t.contains("[dry-run] Environment:\n    MY_VAR=test_value\n    NAME=World\n"));
    assert!(t.contains("    1. echo \"Hello ${NAME}\"\n       → echo \"Hello World\"\n"));
    assert!(t.contains("[dry-run] On failure:\n    1. echo cleaning up\n"));
    assert_eq!(format_command_with_interpolation(2, "ls", "ls"), "    2. ls\n");
}

#[test]
fn dry_run_masks_secret_values() {
    let env = env_of(&[("API_KEY", "super-secret-value"), ("EMPTY", ""), ("MODE", "dev")]);
    let cmds = vec!["deploy --key $API_KEY --mode $MODE".to_string()];
    let secrets = vec!["API_KEY".to_string(), "EMPTY".to_string()];
    let t = format_task_dry_run("deploy", "alpha", "/w", &env, &[], &[], &[], &cmds, None, &secrets);
    assert!(!t.contains("super-secret-value"));
    assert!(t.contains("    API_KEY=***\n"));
    assert!(t.contains("    EMPTY=\n"));
    assert!(t.contains("→ deploy --key *** --mode dev\n"));
    let j = format_job_dry_run_task(1, 1, "deploy", &cmds, &env, &secrets);
    assert!(j.contains("→ deploy --key *** --mode dev\n"));
    let s = format_shell_dry_run("sh", "alpha", "/w", "/bin/sh", &env, &[], &[], &vec![], &secrets);
    assert!(s.contains("    API_KEY=***\n"));
}

#[test]
fn dry_run_job_and_shell() {
    let env = env_of(&[]);
    let t = format_job_dry_run_task(1, 3, "first", &vec!["echo 1".to_string()], &env, &vec![]);
    assert_eq!(t, "\n[dry-run] Task 1/3: first\n[dry-run] Commands:\n    1. echo 1\n");
    let env = env_of(&[("SHELL_VAR", "shell_value")]);
    let s = format_shell_dry_run("myshell", "alpha", "/w", "/bin/zsh", &env, &[], &[], &vec!["echo \"init command 1\"".to_string()], &vec![]);
    assert!(s.contains("[dry-run] Shell: myshell\n"));
    assert!(s.contains("    SHELL_VAR=shell_value\n"));
    assert!(s.contains("[dry-run] Init commands:\n    1. echo \"init command 1\"\n"));
    assert!(s.ends_with("[dry-run] Would start interactive /bin/zsh session\n"));
}

#[test]
fn run_response_for_agents() {
    let ok = TaskRunResult { exit_code: 0, output: "hi".to_string() };
    assert_eq!(run_task_response("t", &ok), "hi\n[Task 't' completed successfully]");
    let bad = TaskRunResult { exit_code: 42, output: String::new() };
    assert_eq!(run_task_response("t", &bad), "[Task 't' failed with exit code 42]");
    let _ = FailurePolicySpec { continues: true, cmds: vec![] };
}
