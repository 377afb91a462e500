use meriadoc::error::MeriadocError;
use meriadoc::project::{LoadedSpec, Project};
use meriadoc::resolver::EntityResolver;
use meriadoc::spec::{JobSpec, ShellSpec, SpecFile, TaskSpec};
use meriadoc::strmap::StrMap;

fn make_task(desc: &str) -> TaskSpec {
    TaskSpec {
        description: Some(desc.to_string()),
        cmds: vec!["echo test".to_string()],
        workdir: None,
        env: StrMap::new(),
        env_files: vec![],
        preconditions: vec![],
        on_failure: None,
        docs: None,
        agent: None,
    }
}

fn make_job(tasks: Vec<&str>) -> JobSpec {
    JobSpec {
        description: None,
        tasks: tasks.into_iter().map(|s| s.to_string()).collect(),
        env: StrMap::new(),
        env_files: vec![],
        on_failure: None,
    }
}

fn make_shell() -> ShellSpec {
    ShellSpec { description: None, workdir: None, env: StrMap::new(), env_files: vec![], init_cmds: vec![] }
}

fn empty_spec() -> SpecFile {
    SpecFile { version: "v1".to_string(), tasks: StrMap::new(), jobs: StrMap::new(), shells: StrMap::new() }
}

fn wrap(name: &str, spec: SpecFile) -> Project {
    Project {
        root: format!("/projects/{}", name),
        spec_files: vec![format!("/projects/{}/meriadoc.yaml", name)],
        specs: vec![LoadedSpec { path: format!("/projects/{}/meriadoc.yaml", name), spec }],
    }
}

fn make_project(name: &str, tasks: Vec<(&str, TaskSpec)>) -> Project {
    let mut spec = empty_spec();
    for (n, t) in tasks {
        spec.tasks.insert(n.to_string(), t);
    }
    wrap(name, spec)
}

fn make_project_with_jobs(name: &str, jobs: Vec<(&str, JobSpec)>) -> Project {
    let mut spec = empty_spec();
    for (n, j) in jobs {
        spec.jobs.insert(n.to_string(), j);
    }
    wrap(name, spec)
}

fn make_project_with_shells(name: &str, shells: Vec<(&str, ShellSpec)>) -> Project {
    let mut spec = empty_spec();
    for (n, s) in shells {
        spec.shells.insert(n.to_string(), s);
    }
    wrap(name, spec)
}

#[test]
fn test_parse_qualified_name_unqualified() {
    let (project, entity) = EntityResolver::parse_qualified_name("mytask");
    assert_eq!(project, None);
    assert_eq!(entity, "mytask");
}

#[test]
fn test_parse_qualified_name_qualified() {
    let (project, entity) = EntityResolver::parse_qualified_name("myproject:mytask");
    assert_eq!(project.as_deref(), Some("myproject"));
    assert_eq!(entity, "mytask");
}

#[test]
fn test_parse_qualified_name_multiple_colons() {
    let (project, entity) = EntityResolver::parse_qualified_name("project:task:extra");
    assert_eq!(project.as_deref(), Some("project"));
    assert_eq!(entity, "task:extra");
}

#[test]
fn test_resolve_task_not_found_empty_projects() {
    let projects: Vec<Project> = vec![];
    let result = EntityResolver::resolve_task("mytask", &projects);
    assert!(matches!(
        result,
        Err(MeriadocError::EntityNotFound { kind, name }) if kind == "task" && name == "mytask"
    ));
}

#[test]
fn test_resolve_task_not_found() {
    let projects = vec![make_project("proj1", vec![("task1", make_task("desc"))])];
    let result = EntityResolver::resolve_task("nonexistent", &projects);
    assert!(matches!(
        result,
        Err(MeriadocError::EntityNotFound { kind, name }) if kind == "task" && name == "nonexistent"
    ));
}

#[test]
fn test_resolve_task_found_single() {
    let projects = vec![make_project("proj1", vec![("mytask", make_task("my desc"))])];
    let result = EntityResolver::resolve_task("mytask", &projects);
    assert!(result.is_ok());
    let resolved = result.unwrap();
    assert_eq!(resolved.name, "mytask");
    assert_eq!(resolved.spec.description, Some("my desc".to_string()));
}

#[test]
fn test_resolve_task_ambiguous() {
    let projects = vec![
        make_project("proj1", vec![("mytask", make_task("proj1 task"))]),
        make_project("proj2", vec![("mytask", make_task("proj2 task"))]),
    ];
    let result = EntityResolver::resolve_task("mytask", &projects);
    assert!(matches!(
        result,
        Err(MeriadocError::AmbiguousEntity { kind, name, count })
        if kind == "task" && name == "mytask" && count == 2
    ));
}

#[test]
fn test_resolve_task_qualified_name() {
    let projects = vec![
        make_project("proj1", vec![("mytask", make_task("proj1 task"))]),
        make_project("proj2", vec![("mytask", make_task("proj2 task"))]),
    ];
    let result = EntityResolver::resolve_task("proj2:mytask", &projects);
    assert!(result.is_ok());
    let resolved = result.unwrap();
    assert_eq!(resolved.spec.description, Some("proj2 task".to_string()));
}

#[test]
fn test_resolve_task_qualified_not_found() {
    let projects = vec![make_project("proj1", vec![("mytask", make_task("proj1 task"))])];
    let result = EntityResolver::resolve_task("proj2:mytask", &projects);
    assert!(matches!(
        result,
        Err(MeriadocError::EntityNotFound { kind, name }) if kind == "task" && name == "proj2:mytask"
    ));
}

#[test]
fn test_resolve_task_multiple_specs_same_project() {
    let mut project = make_project("proj1", vec![("mytask", make_task("spec1 task"))]);
    let mut spec2 = empty_spec();
    spec2.tasks.insert("mytask".to_string(), make_task("spec2 task"));
    project.specs.push(LoadedSpec { path: "/projects/proj1/subdir/meriadoc.yaml".to_string(), spec: spec2 });
    let projects = vec![project];
    let result = EntityResolver::resolve_task("mytask", &projects);
    assert!(matches!(
        result,
        Err(MeriadocError::AmbiguousEntity { kind, name, count })
        if kind == "task" && name == "mytask" && count == 2
    ));
}

#[test]
fn test_resolve_job_found() {
    let projects = vec![make_project_with_jobs("proj1", vec![("myjob", make_job(vec!["task1", "task2"]))])];
    let result = EntityResolver::resolve_job("myjob", &projects);
    assert!(result.is_ok());
    let resolved = result.unwrap();
    assert_eq!(resolved.name, "myjob");
    assert_eq!(resolved.spec.tasks, vec!["task1", "task2"]);
}

#[test]
fn test_resolve_job_not_found() {
    let projects = vec![make_project_with_jobs("proj1", vec![("myjob", make_job(vec!["task1"]))])];
    let result = EntityResolver::resolve_job("nonexistent", &projects);
    assert!(matches!(
        result,
        Err(MeriadocError::EntityNotFound { kind, name }) if kind == "job" && name == "nonexistent"
    ));
}

#[test]
fn test_resolve_job_qualified() {
    let projects = vec![
        make_project_with_jobs("proj1", vec![("myjob", make_job(vec!["task1"]))]),
        make_project_with_jobs("proj2", vec![("myjob", make_job(vec!["task2"]))]),
    ];
    let result = EntityResolver::resolve_job("proj1:myjob", &projects);
    assert!(result.is_ok());
    let resolved = result.unwrap();
    assert_eq!(resolved.spec.tasks, vec!["task1"]);
}

#[test]
fn test_resolve_shell_found() {
    let projects = vec![make_project_with_shells("proj1", vec![("dev", make_shell())])];
    let result = EntityResolver::resolve_shell("dev", &projects);
    assert!(result.is_ok());
    let resolved = result.unwrap();
    assert_eq!(resolved.name, "dev");
}

#[test]
fn test_resolve_shell_not_found() {
    let projects = vec![make_project_with_shells("proj1", vec![("dev", make_shell())])];
    let result = EntityResolver::resolve_shell("prod", &projects);
    assert!(matches!(
        result,
        Err(MeriadocError::EntityNotFound { kind, name }) if kind == "shell" && name == "prod"
    ));
}

#[test]
fn test_resolve_shell_ambiguous() {
    let projects = vec![
        make_project_with_shells("proj1", vec![("dev", make_shell())]),
        make_project_with_shells("proj2", vec![("dev", make_shell())]),
    ];
    let result = EntityResolver::resolve_shell("dev", &projects);
    assert!(matches!(
        result,
        Err(MeriadocError::AmbiguousEntity { kind, name, count })
        if kind == "shell" && name == "dev" && count == 2
    ));
}

#[test]
fn test_resolve_shell_qualified() {
    let projects = vec![
        make_project_with_shells("proj1", vec![("dev", make_shell())]),
        make_project_with_shells("proj2", vec![("dev", make_shell())]),
    ];
    let result = EntityResolver::resolve_shell("proj2:dev", &projects);
    assert!(result.is_ok());
}

#[test]
fn project_name_is_the_last_component_of_the_root() {
    let p = make_project("proj1", vec![]);
    assert_eq!(EntityResolver::project_name(&p), "proj1");
    let root = Project { root: "/".to_string(), spec_files: vec![], specs: vec![] };
    assert_eq!(EntityResolver::project_name(&root), "unknown");
}

#[test]
fn ambiguity_message_counts_the_projects() {
    let e = MeriadocError::AmbiguousEntity { kind: "task".to_string(), name: "t".to_string(), count: 2 };
    assert_eq!(e.message(), "task `t` is ambiguous (found in 2 projects, use project:name syntax)");
    let e = MeriadocError::EntityNotFound { kind: "job".to_string(), name: "j".to_string() };
    assert_eq!(e.message(), "job `j` not found");
}
