use meriadoc::app::App;
use meriadoc::config::MeriadocConfig;
use meriadoc::mcp::{ArgValue, McpHandlers, RpcMethod, ToolCallOutcome, ToolCallParams, ToolSchema};
use meriadoc::project::{LoadedSpec, Project};
use meriadoc::spec::{AgentSpec, RiskLevel, SpecFile, TaskSpec};
use meriadoc::strmap::StrMap;

fn make_task(description: &str) -> TaskSpec {
    TaskSpec {
        description: Some(description.to_string()),
        cmds: vec!["echo test".to_string()],
        workdir: None,
        env: StrMap::new(),
        env_files: vec![],
        preconditions: vec![],
        on_failure: None,
        docs: None,
        agent: None,
    }
}

fn make_task_with_agent(description: &str, enabled: bool, risk: RiskLevel) -> TaskSpec {
    let mut t = make_task(description);
    t.agent = Some(AgentSpec { enabled, risk_level: risk, confirmation: None, requires_approval: false });
    t
}

fn make_task_with_approval(description: &str, risk: RiskLevel, confirmation: Option<&str>, requires_approval: bool) -> TaskSpec {
    let mut t = make_task(description);
    t.agent = Some(AgentSpec {
        enabled: true,
        risk_level: risk,
        confirmation: confirmation.map(|s| s.to_string()),
        requires_approval,
    });
    t
}

fn make_test_app(tasks: Vec<(&str, TaskSpec)>) -> App {
    let mut map = StrMap::new();
    for (n, t) in tasks {
        map.insert(n.to_string(), t);
    }
    let spec_file = SpecFile { version: "0.1".to_string(), tasks: map, jobs: StrMap::new(), shells: StrMap::new() };
    let project = Project {
        root: "/testproject".to_string(),
        spec_files: vec!["/testproject/meriadoc.yaml".to_string()],
        specs: vec![LoadedSpec { path: "/testproject/meriadoc.yaml".to_string(), spec: spec_file }],
    };
    App::with_projects(MeriadocConfig::default(), vec![project], StrMap::new())
}

fn tool_names(app: &App) -> Vec<String> {
    McpHandlers::list_tools(app).tools.iter().map(|t| t.name.clone()).collect()
}

#[test]
fn test_initialize_returns_correct_version() {
    let result = McpHandlers::initialize();
    assert_eq!(result.protocol_version, "2025-06-18");
    assert_eq!(result.server_info.name, "meriadoc");
}

#[test]
fn test_list_tools_includes_meta_tools() {
    let app = make_test_app(vec![]);
    let names = tool_names(&app);
    assert!(names.contains(&"meriadoc_list_tasks".to_string()));
    assert!(names.contains(&"meriadoc_run_task".to_string()));
}

#[test]
fn test_list_tools_includes_tasks() {
    let app = make_test_app(vec![("mytask", make_task("My task"))]);
    assert!(tool_names(&app).contains(&"task_testproject_mytask".to_string()));
}

#[test]
fn test_list_tools_filters_disabled_agents() {
    let app = make_test_app(vec![
        ("enabled_task", make_task_with_agent("Enabled", true, RiskLevel::Low)),
        ("disabled_task", make_task_with_agent("Disabled", false, RiskLevel::Low)),
    ]);
    let names = tool_names(&app);
    assert!(names.contains(&"task_testproject_enabled_task".to_string()));
    assert!(!names.contains(&"task_testproject_disabled_task".to_string()));
}

fn risk_of_tool(app: &App, name: &str) -> (RiskLevel, bool) {
    let result = McpHandlers::list_tools(app);
    let tool = result.tools.iter().find(|t| t.name == name).expect("Tool not found");
    match &tool.input_schema {
        ToolSchema::Task { risk_level, requires_approval, .. } => (*risk_level, *requires_approval),
        _ => panic!("not a task tool"),
    }
}

#[test]
fn test_list_tools_includes_risk_level() {
    let app = make_test_app(vec![("risky_task", make_task_with_agent("Risky", true, RiskLevel::High))]);
    let (risk, _) = risk_of_tool(&app, "task_testproject_risky_task");
    assert_eq!(risk.as_str(), "high");
}

#[test]
fn test_list_tools_default_risk_level_is_low() {
    let app = make_test_app(vec![("normal_task", make_task("Normal task"))]);
    let (risk, _) = risk_of_tool(&app, "task_testproject_normal_task");
    assert_eq!(risk.as_str(), "low");
}

#[test]
fn test_handle_list_tasks_filters_disabled() {
    let app = make_test_app(vec![
        ("visible", make_task_with_agent("Visible", true, RiskLevel::Low)),
        ("hidden", make_task_with_agent("Hidden", false, RiskLevel::Low)),
    ]);
    let result = McpHandlers::handle_list_tasks(&app);
    assert!(!result.is_error);
    let text = &result.content[0].text;
    assert!(text.contains("visible"));
    assert!(!text.contains("hidden"));
}

#[test]
fn test_handle_list_tasks_shows_risk_level() {
    let app = make_test_app(vec![("critical_task", make_task_with_agent("Critical", true, RiskLevel::Critical))]);
    let result = McpHandlers::handle_list_tasks(&app);
    let text = &result.content[0].text;
    assert!(text.contains("[critical]"));
}

#[test]
fn handle_list_tasks_line_format() {
    let app = make_test_app(vec![("build", make_task("Build it"))]);
    let result = McpHandlers::handle_list_tasks(&app);
    assert_eq!(result.content[0].text, "testproject:build [low] - Build it\n");
}

#[test]
fn test_call_tool_unknown_returns_error() {
    let app = make_test_app(vec![]);
    let params = ToolCallParams { name: "unknown_tool".to_string(), arguments: StrMap::new() };
    match McpHandlers::call_tool(&app, &params) {
        ToolCallOutcome::Reply(result) => {
            assert!(result.is_error);
            assert!(result.content[0].text.contains("Unknown tool"));
        }
        _ => panic!("expected a reply"),
    }
}

#[test]
fn call_tool_run_task_without_task_argument_is_an_error() {
    let app = make_test_app(vec![]);
    let params = ToolCallParams { name: "meriadoc_run_task".to_string(), arguments: StrMap::new() };
    match McpHandlers::call_tool(&app, &params) {
        ToolCallOutcome::Reply(result) => {
            assert!(result.is_error);
            assert_eq!(result.content[0].text, "Missing required parameter: task");
        }
        _ => panic!("expected a reply"),
    }
}

#[test]
fn call_tool_of_a_risky_task_asks_for_approval_and_does_not_run() {
    let app = make_test_app(vec![("deploy", make_task_with_approval("Deploy", RiskLevel::High, Some("Deploy?"), false))]);
    let mut args = StrMap::new();
    args.insert("task".to_string(), ArgValue::Str("deploy".to_string()));
    let params = ToolCallParams { name: "meriadoc_run_task".to_string(), arguments: args };
    match McpHandlers::call_tool(&app, &params) {
        ToolCallOutcome::Reply(result) => {
            assert!(result.is_error);
            assert!(result.content[0].text.starts_with("APPROVAL REQUIRED: Deploy?"));
        }
        _ => panic!("a risky task must not run"),
    }
}

#[test]
fn call_tool_direct_task_runs_it() {
    let app = make_test_app(vec![("build", make_task("Build"))]);
    let params = ToolCallParams { name: "task_testproject_build".to_string(), arguments: StrMap::new() };
    match McpHandlers::call_tool(&app, &params) {
        ToolCallOutcome::Run { task, env, dry_run } => {
            assert_eq!(task, "testproject:build");
            assert!(env.is_empty());
            assert!(!dry_run);
        }
        _ => panic!("expected a run"),
    }
}

#[test]
fn run_finished_reports_errors() {
    let r = McpHandlers::run_finished(Err("boom".to_string()));
    assert!(r.is_error);
    assert_eq!(r.content[0].text, "Error: boom");
}

#[test]
fn test_high_risk_requires_approval() {
    let app = make_test_app(vec![("deploy", make_task_with_approval("Deploy to prod", RiskLevel::High, Some("Deploy?"), false))]);
    let result = McpHandlers::check_approval_required(&app, "deploy");
    assert!(result.is_some());
    assert_eq!(result.unwrap(), "Deploy?");
}

#[test]
fn test_critical_risk_requires_approval() {
    let app = make_test_app(vec![("delete", make_task_with_approval("Delete data", RiskLevel::Critical, None, false))]);
    let result = McpHandlers::check_approval_required(&app, "delete");
    assert!(result.is_some());
    assert!(result.unwrap().contains("critical"));
}

#[test]
fn test_low_risk_no_approval() {
    let app = make_test_app(vec![("safe", make_task_with_approval("Safe task", RiskLevel::Low, None, false))]);
    assert!(McpHandlers::check_approval_required(&app, "safe").is_none());
}

#[test]
fn test_medium_risk_no_approval() {
    let app = make_test_app(vec![("medium", make_task_with_approval("Medium task", RiskLevel::Medium, None, false))]);
    assert!(McpHandlers::check_approval_required(&app, "medium").is_none());
}

#[test]
fn test_explicit_requires_approval() {
    let app = make_test_app(vec![(
        "notify",
        make_task_with_approval("Send notification", RiskLevel::Low, Some("Send to all users?"), true),
    )]);
    let result = McpHandlers::check_approval_required(&app, "notify");
    assert!(result.is_some());
    assert_eq!(result.unwrap(), "Send to all users?");
}

#[test]
fn test_list_tools_shows_requires_approval() {
    let app = make_test_app(vec![
        ("risky", make_task_with_approval("Risky task", RiskLevel::High, None, false)),
        ("safe", make_task_with_approval("Safe task", RiskLevel::Low, None, false)),
    ]);
    let (_, risky) = risk_of_tool(&app, "task_testproject_risky");
    let (_, safe) = risk_of_tool(&app, "task_testproject_safe");
    assert!(risky);
    assert!(!safe);
}

#[test]
fn methods_are_routed_by_name() {
    assert_eq!(McpHandlers::method("initialize"), RpcMethod::Initialize);
    assert_eq!(McpHandlers::method("notifications/initialized"), RpcMethod::Initialized);
    assert_eq!(McpHandlers::method("tools/list"), RpcMethod::ListTools);
    assert_eq!(McpHandlers::method("tools/call"), RpcMethod::CallTool);
    assert_eq!(McpHandlers::method("tools/remove"), RpcMethod::Unknown);
    assert_eq!(McpHandlers::method_not_found("tools/remove"), "Method not found: tools/remove");
}

#[test]
fn every_task_is_listed_in_order_and_agents_miss_the_disabled() {
    let app = make_test_app(vec![
        ("alpha", make_task("A")),
        ("hidden", make_task_with_agent("H", false, RiskLevel::Low)),
        ("beta", make_task_with_agent("B", true, RiskLevel::High)),
    ]);
    let all: Vec<(String, String)> =
        app.for_each_task().iter().map(|i| (i.project_name.clone(), i.task_name.clone())).collect();
    assert_eq!(
        all,
        vec![
            ("testproject".to_string(), "alpha".to_string()),
            ("testproject".to_string(), "hidden".to_string()),
            ("testproject".to_string(), "beta".to_string()),
        ]
    );
    let seen: Vec<String> = app.for_each_agent_task().iter().map(|i| i.task_name.clone()).collect();
    assert_eq!(seen, vec!["alpha", "beta"]);
}

#[test]
fn direct_tool_names_read_back_as_their_task() {
    let app = make_test_app(vec![("run_all_checks", make_task("Checks"))]);
    let name = "task_testproject_run_all_checks".to_string();
    assert!(tool_names(&app).contains(&name));
    let params = ToolCallParams { name, arguments: StrMap::new() };
    match McpHandlers::call_tool(&app, &params) {
        ToolCallOutcome::Run { task, .. } => assert_eq!(task, "testproject:run_all_checks"),
        _ => panic!("expected a run"),
    }
}
