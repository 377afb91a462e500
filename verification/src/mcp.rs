//! The agent protocol: what the server says about itself, which tools it offers, and how
//! tool calls are answered.
use vstd::prelude::*;

use crate::app::{agent_tasks, agent_visible, all_tasks, task_items, App, TaskIterItem};
use crate::env::ResolvedEnv;
use crate::resolver::{matches_of, qualified_parts, EntityResolver};
use crate::spec::{risk_level_name, AgentSpec, EntityKind, EnvVarSpec, RiskLevel, TaskSpec};
use crate::strmap::StrMap;
use crate::text::{concat, has_prefix, owned, starts_with_str, str_chars, str_eq, substring, first_char, find_char};

verus! {

/// The version of this server.
pub fn server_version() -> (r: &'static str)
    ensures
        r@ == "0.1.0"@,
{
    "0.1.0"
}

/// The tool capabilities of the server.
#[derive(Debug)]
pub struct ToolsCapability {
    pub list_changed: bool,
}

/// The capabilities of the server.
#[derive(Debug)]
pub struct ServerCapabilities {
    pub tools: ToolsCapability,
}

/// The name and version of the server.
#[derive(Debug)]
pub struct ServerInfo {
    pub name: String,
    pub version: String,
}

/// The answer to `initialize`.
#[derive(Debug)]
pub struct InitializeResult {
    pub protocol_version: String,
    pub capabilities: ServerCapabilities,
    pub server_info: ServerInfo,
}

/// A JSON value given as a tool argument.
#[derive(Debug)]
pub enum ArgValue {
    Null,
    Bool(bool),
    Number(String),
    Str(String),
    Array(Vec<ArgValue>),
    Object(StrMap<ArgValue>),
}

/// A tool call: the tool's name and its arguments by name.
#[derive(Debug)]
pub struct ToolCallParams {
    pub name: String,
    pub arguments: StrMap<ArgValue>,
}

/// One piece of text in a tool result.
#[derive(Debug)]
pub struct Content {
    pub text: String,
}

/// The answer to a tool call.
#[derive(Debug)]
pub struct ToolCallResult {
    pub content: Vec<Content>,
    pub is_error: bool,
}

impl ToolCallResult {
    /// A successful answer with one text.
    pub fn success(text: String) -> (r: Self)
        ensures
            !r.is_error,
            r.content@.len() == 1,
            r.content@[0].text@ == text@,
    {
        ToolCallResult { content: vec![Content { text }], is_error: false }
    }

    /// A failed answer with one text.
    pub fn error(text: String) -> (r: Self)
        ensures
            r.is_error,
            r.content@.len() == 1,
            r.content@[0].text@ == text@,
    {
        ToolCallResult { content: vec![Content { text }], is_error: true }
    }
}

/// A variable of a task offered as a tool argument.
#[derive(Debug)]
pub struct EnvProperty {
    pub name: String,
    pub default: Option<String>,
    pub options: Vec<String>,
}

/// The arguments a tool takes.
#[derive(Debug)]
pub enum ToolSchema {
    /// No argument.
    ListTasks,
    /// `task`, `env` and `dry_run`.
    RunTask,
    /// The task's variables, those required without a default, and its risk.
    Task {
        properties: Vec<EnvProperty>,
        required: Vec<String>,
        risk_level: RiskLevel,
        requires_approval: bool,
    },
}

/// A tool offered to agents.
#[derive(Debug)]
pub struct Tool {
    pub name: String,
    pub title: Option<String>,
    pub description: String,
    pub input_schema: ToolSchema,
}

/// The answer to `tools/list`.
#[derive(Debug)]
pub struct ToolsListResult {
    pub tools: Vec<Tool>,
}

/// What a tool call comes to.
#[derive(Debug)]
pub enum ToolCallOutcome {
    /// Answer at once.
    Reply(ToolCallResult),
    /// Run the task (never asking the user), then answer with [`McpHandlers::run_finished`].
    Run { task: String, env: Vec<(String, String)>, dry_run: bool },
}

/// The risk level of a task: that of its agent settings, else low.
pub open spec fn task_risk(task: TaskSpec) -> RiskLevel {
    match task.agent {
        Some(a) => a.risk_level,
        None => RiskLevel::Low,
    }
}

/// Whether a risk level calls for approval.
pub open spec fn risky(r: RiskLevel) -> bool {
    r == RiskLevel::High || r == RiskLevel::Critical
}

/// Whether running a task needs a person's approval: when its agent settings ask for it, or
/// its risk is high or critical.
pub open spec fn needs_approval(task: TaskSpec) -> bool {
    match task.agent {
        Some(a) => a.requires_approval || risky(a.risk_level),
        None => false,
    }
}

/// The message asking for approval of a task, if it needs it.
pub open spec fn approval_message(task: TaskSpec) -> Option<Seq<char>> {
    match task.agent {
        Some(a) => if a.requires_approval {
            Some(
                match a.confirmation {
                    Some(c) => c@,
                    None => "This "@ + "task requires approval"@,
                },
            )
        } else if risky(a.risk_level) {
            Some(
                match a.confirmation {
                    Some(c) => c@,
                    None => "This is a "@ + risk_level_name(a.risk_level)
                        + " risk operation. Please confirm."@,
                },
            )
        } else {
            None
        },
        None => None,
    }
}

/// The line that lists a task for agents.
pub open spec fn task_list_line(project: Seq<char>, name: Seq<char>, task: TaskSpec) -> Seq<char> {
    project + ":"@ + name + " ["@ + risk_level_name(task_risk(task)) + "] - "@ + match task.description {
        Some(d) => d@,
        None => Seq::empty(),
    } + "\n"@
}

/// The lines that list the tasks.
pub open spec fn task_list_text(ts: Seq<(Seq<char>, Seq<char>, TaskSpec)>) -> Seq<char>
    decreases ts.len(),
{
    if ts.len() == 0 {
        Seq::empty()
    } else {
        task_list_text(ts.drop_last()) + task_list_line(ts.last().0, ts.last().1, ts.last().2)
    }
}

/// The description of a task's tool.
pub open spec fn tool_description(project: Seq<char>, name: Seq<char>, task: TaskSpec) -> Seq<char> {
    (match task.description {
        Some(d) => d@,
        None => "Run task "@ + project + ":"@ + name,
    }) + match task.agent {
        Some(a) => match a.confirmation {
            Some(c) => "\n\nConfirmation required: "@ + c@,
            None => Seq::empty(),
        },
        None => Seq::empty(),
    }
}

/// The names of the variables that an agent must give: required, with no default.
pub open spec fn required_vars(ps: Seq<(String, EnvVarSpec)>) -> Seq<Seq<char>>
    decreases ps.len(),
{
    if ps.len() == 0 {
        Seq::empty()
    } else {
        let r = required_vars(ps.drop_last());
        if ps.last().1.required && ps.last().1.default is None {
            r.push(ps.last().0@)
        } else {
            r
        }
    }
}

/// The views of the properties of a tool.
pub open spec fn property_views(ps: Seq<EnvProperty>) -> Seq<(Seq<char>, Option<Seq<char>>, Seq<Seq<char>>)> {
    ps.map_values(
        |p: EnvProperty| (
            p.name@,
            match p.default {
                Some(d) => Some(d@),
                None => None,
            },
            p.options.deep_view(),
        ),
    )
}

/// The properties of a tool for the variables of `ps`.
pub open spec fn env_properties(ps: Seq<(String, EnvVarSpec)>) -> Seq<(Seq<char>, Option<Seq<char>>, Seq<Seq<char>>)> {
    ps.map_values(|p: (String, EnvVarSpec)| (p.0@, p.1@.default, p.1@.options))
}

/// Whether `t` is the tool of task `name` of project `project`.
pub open spec fn is_task_tool(t: Tool, project: Seq<char>, name: Seq<char>, task: TaskSpec) -> bool {
    &&& t.name@ == "task_"@ + project + "_"@ + name
    &&& t.title matches Some(ti) && ti@ == name
    &&& t.description@ == tool_description(project, name, task)
    &&& t.input_schema matches ToolSchema::Task { properties, required, risk_level, requires_approval }
        && property_views(properties@) == env_properties(task.env.pairs()) && required.deep_view()
        == required_vars(task.env.pairs()) && risk_level == task_risk(task) && requires_approval
        == needs_approval(task)
}

/// The text of a string argument.
pub open spec fn string_arg(args: Map<Seq<char>, ArgValue>, k: Seq<char>) -> Option<Seq<char>> {
    if args.dom().contains(k) {
        match args[k] {
            ArgValue::Str(s) => Some(s@),
            _ => None,
        }
    } else {
        None
    }
}

/// The string-valued entries of an object, in order.
pub open spec fn string_entries(ps: Seq<(String, ArgValue)>) -> Seq<(Seq<char>, Seq<char>)>
    decreases ps.len(),
{
    if ps.len() == 0 {
        Seq::empty()
    } else {
        let r = string_entries(ps.drop_last());
        match ps.last().1 {
            ArgValue::Str(s) => r.push((ps.last().0@, s@)),
            _ => r,
        }
    }
}

/// The views of `KEY=VALUE` pairs.
pub open spec fn pair_views(ps: Seq<(String, String)>) -> Seq<(Seq<char>, Seq<char>)> {
    ps.map_values(|p: (String, String)| (p.0@, p.1@))
}

/// The task that a direct tool runs: `task_{project}_{task}` runs `project:task`, split at
/// the first `_` after the prefix.
pub open spec fn direct_task_name(tool: Seq<char>) -> Seq<char> {
    let suffix = if has_prefix(tool, "task_"@) {
        tool.skip(5)
    } else {
        tool
    };
    match first_char(suffix, '_') {
        Some(i) => suffix.take(i) + ":"@ + suffix.skip(i + 1),
        None => suffix,
    }
}

/// The answer to a call needing approval.
pub open spec fn approval_reply(message: Seq<char>) -> Seq<char> {
    "APPROVAL REQUIRED: "@ + message + "\n\nTo proceed, confirm with the human and retry this tool call."@
}

/// The model of a tool call's outcome.
pub enum OutcomeModel {
    Reply { is_error: bool, text: Seq<char> },
    Run { task: Seq<char>, env: Seq<(Seq<char>, Seq<char>)>, dry_run: bool },
}

/// The model of an outcome; `None` for a reply that is not one text.
pub open spec fn outcome_view(o: ToolCallOutcome) -> Option<OutcomeModel> {
    match o {
        ToolCallOutcome::Reply(r) => if r.content@.len() == 1 {
            Some(OutcomeModel::Reply { is_error: r.is_error, text: r.content@[0].text@ })
        } else {
            None
        },
        ToolCallOutcome::Run { task, env, dry_run } => Some(
            OutcomeModel::Run { task: task@, env: pair_views(env@), dry_run },
        ),
    }
}

/// The task found for a (possibly qualified) name, if exactly one matches.
pub open spec fn found_task(projects: Seq<crate::project::Project>, name: Seq<char>) -> Option<TaskSpec> {
    let m = matches_of(projects, EntityKind::Task, name);
    if m.len() == 1 {
        Some(projects[m[0].0].specs@[m[0].1].spec.tasks@[qualified_parts(name).1])
    } else {
        None
    }
}

/// What running a task by name comes to: a request for approval when it needs one, else a
/// run.
pub open spec fn execute_outcome(
    projects: Seq<crate::project::Project>,
    task: Seq<char>,
    env: Seq<(Seq<char>, Seq<char>)>,
    dry_run: bool,
) -> OutcomeModel {
    match found_task(projects, task) {
        Some(t) => match approval_message(t) {
            Some(m) => OutcomeModel::Reply { is_error: true, text: approval_reply(m) },
            None => OutcomeModel::Run { task, env, dry_run },
        },
        None => OutcomeModel::Run { task, env, dry_run },
    }
}

/// The answer listing the tasks that agents may see.
pub open spec fn list_tasks_reply(projects: Seq<crate::project::Project>) -> OutcomeModel {
    let text = task_list_text(agent_tasks(all_tasks(projects)));
    OutcomeModel::Reply {
        is_error: false,
        text: if text.len() == 0 {
            "No tasks found."@
        } else {
            text
        },
    }
}

/// What a tool call comes to.
pub open spec fn call_outcome(projects: Seq<crate::project::Project>, name: Seq<char>, args: StrMap<ArgValue>) -> OutcomeModel {
    if name == "meriadoc_list_tasks"@ {
        list_tasks_reply(projects)
    } else if name == "meriadoc_run_task"@ {
        match string_arg(args@, "task"@) {
            Some(t) => execute_outcome(
                projects,
                t,
                if args@.dom().contains("env"@) {
                    match args@["env"@] {
                        ArgValue::Object(o) => string_entries(o.pairs()),
                        _ => Seq::empty(),
                    }
                } else {
                    Seq::empty()
                },
                args@.dom().contains("dry_run"@) && args@["dry_run"@] == ArgValue::Bool(true),
            ),
            None => OutcomeModel::Reply { is_error: true, text: "Missing required parameter: task"@ },
        }
    } else if has_prefix(name, "task_"@) {
        execute_outcome(projects, direct_task_name(name), string_entries(args.pairs()), false)
    } else {
        OutcomeModel::Reply { is_error: true, text: "Unknown tool: "@ + name }
    }
}

/// Handles the requests of the agent protocol.
pub struct McpHandlers;

/// The requests of the agent protocol that the server knows.
#[derive(Debug, Clone, Copy, PartialEq, Eq, Structural)]
pub enum RpcMethod {
    /// `initialize`: the server describes itself.
    Initialize,
    /// `notifications/initialized`: the client is ready; nothing is answered.
    Initialized,
    /// `tools/list`: the tools offered.
    ListTools,
    /// `tools/call`: a tool call.
    CallTool,
    /// Any other method.
    Unknown,
}

/// The request a method name stands for.
pub open spec fn rpc_method_of(name: Seq<char>) -> RpcMethod {
    if name == "initialize"@ {
        RpcMethod::Initialize
    } else if name == "notifications/initialized"@ {
        RpcMethod::Initialized
    } else if name == "tools/list"@ {
        RpcMethod::ListTools
    } else if name == "tools/call"@ {
        RpcMethod::CallTool
    } else {
        RpcMethod::Unknown
    }
}

impl McpHandlers {
    /// The request a method name stands for.
    pub fn method(name: &str) -> (r: RpcMethod)
        ensures
            r == rpc_method_of(name@),
    {
        if str_eq(name, "initialize") {
            RpcMethod::Initialize
        } else if str_eq(name, "notifications/initialized") {
            RpcMethod::Initialized
        } else if str_eq(name, "tools/list") {
            RpcMethod::ListTools
        } else if str_eq(name, "tools/call") {
            RpcMethod::CallTool
        } else {
            RpcMethod::Unknown
        }
    }

    /// The error message for a method the server does not know.
    pub fn method_not_found(name: &str) -> (r: String)
        ensures
            r@ == "Method not found: "@ + name@,
    {
        concat("Method not found: ", name)
    }
}

impl McpHandlers {
    /// The server's protocol version, capabilities, name and version.
    pub fn initialize() -> (r: InitializeResult)
        ensures
            r.protocol_version@ == "2025-06-18"@,
            !r.capabilities.tools.list_changed,
            r.server_info.name@ == "meriadoc"@,
            r.server_info.version@ == "0.1.0"@,
    {
        InitializeResult {
            protocol_version: owned("2025-06-18"),
            capabilities: ServerCapabilities { tools: ToolsCapability { list_changed: false } },
            server_info: ServerInfo { name: owned("meriadoc"), version: owned(server_version()) },
        }
    }

    fn approval_of(task: &TaskSpec) -> (r: Option<String>)
        ensures
            match r {
                Some(m) => approval_message(*task) == Some(m@),
                None => approval_message(*task) is None,
            },
    {
        match &task.agent {
            Some(a) => {
                if a.requires_approval {
                    match &a.confirmation {
                        Some(c) => Some(c.clone()),
                        None => Some(concat("This ", "task requires approval")),
                    }
                } else if a.risk_level == RiskLevel::High || a.risk_level == RiskLevel::Critical {
                    match &a.confirmation {
                        Some(c) => Some(c.clone()),
                        None => {
                            let x = concat("This is a ", a.risk_level.as_str());
                            Some(concat(x.as_str(), " risk operation. Please confirm."))
                        },
                    }
                } else {
                    None
                }
            },
            None => None,
        }
    }

    /// The approval message of the task named `task_name`, when exactly one task has that
    /// name and it needs approval.
    pub fn check_approval_required(app: &App, task_name: &str) -> (r: Option<String>)
        ensures
            match found_task(app.projects@, task_name@) {
                Some(t) => match r {
                    Some(m) => approval_message(t) == Some(m@),
                    None => approval_message(t) is None,
                },
                None => r is None,
            },
    {
        match EntityResolver::resolve_task(task_name, app.projects.as_slice()) {
            Ok(resolved) => Self::approval_of(resolved.spec),
            Err(_) => None,
        }
    }

    /// Lists the tasks agents may see, one line each with its risk and description.
    pub fn handle_list_tasks(app: &App) -> (r: ToolCallResult)
        ensures
            outcome_view(ToolCallOutcome::Reply(r)) == Some(list_tasks_reply(app.projects@)),
    {
        let items = app.for_each_agent_task();
        let ghost all = task_items(items@);
        let mut out = String::new();
        let mut i: usize = 0;
        while i < items.len()
            invariant
                0 <= i <= items.len(),
                all == task_items(items@),
                out@ == task_list_text(all.take(i as int)),
            decreases items.len() - i,
        {
            assert(all.take(i + 1).drop_last() =~= all.take(i as int));
            let item = &items[i];
            let risk = match &item.task.agent {
                Some(a) => a.risk_level.as_str(),
                None => "low",
            };
            let desc: &str = match &item.task.description {
                Some(d) => d.as_str(),
                None => "",
            };
            proof {
                reveal_strlit("");
                reveal_strlit("low");
                assert(""@ =~= Seq::<char>::empty());
            }
            let a0 = concat(out.as_str(), item.project_name.as_str());
            let a = concat(a0.as_str(), ":");
            let b = concat(a.as_str(), item.task_name.as_str());
            let c = concat(b.as_str(), " [");
            let d = concat(c.as_str(), risk);
            let e = concat(d.as_str(), "] - ");
            let f = concat(e.as_str(), desc);
            out = concat(f.as_str(), "\n");
            assert(all[i as int] == (item.project_name@, item.task_name@, *item.task));
            assert(out@ =~= task_list_text(all.take(i + 1)));
            i = i + 1;
        }
        assert(all.take(items.len() as int) =~= all);
        if out.as_str().is_empty() {
            ToolCallResult::success(owned("No tasks found."))
        } else {
            ToolCallResult::success(out)
        }
    }

    /// The answer once a task run by a tool call ended: its output, or the error's text.
    pub fn run_finished(result: Result<String, String>) -> (r: ToolCallResult)
        ensures
            r.content@.len() == 1,
            match result {
                Ok(out) => !r.is_error && r.content@[0].text@ == out@,
                Err(e) => r.is_error && r.content@[0].text@ == "Error: "@ + e@,
            },
    {
        match result {
            Ok(out) => ToolCallResult::success(out),
            Err(e) => ToolCallResult::error(concat("Error: ", e.as_str())),
        }
    }
}

fn string_entries_exec(m: &StrMap<ArgValue>) -> (r: Vec<(String, String)>)
    ensures
        pair_views(r@) == string_entries(m.pairs()),
{
    let n = m.len();
    let mut out: Vec<(String, String)> = Vec::new();
    let mut i: usize = 0;
    while i < n
        invariant
            0 <= i <= n,
            n == m.pairs().len(),
            pair_views(out@) == string_entries(m.pairs().take(i as int)),
        decreases n - i,
    {
        let (k, v) = m.entry(i);
        assert(m.pairs().take(i + 1).drop_last() =~= m.pairs().take(i as int));
        match v {
            ArgValue::Str(s) => {
                let ghost before = pair_views(out@);
                out.push((k.clone(), s.clone()));
                assert(pair_views(out@) =~= before.push((k@, s@)));
            },
            _ => {},
        }
        i = i + 1;
    }
    assert(m.pairs().take(n as int) =~= m.pairs());
    out
}

fn direct_task_name_exec(tool: &str) -> (r: String)
    ensures
        r@ == direct_task_name(tool@),
{
    proof {
        reveal_strlit("task_");
    }
    let cs = str_chars(tool);
    let suffix: Vec<char> = if starts_with_str(tool, "task_") {
        crate::text::slice_of(&cs, 5, cs.len())
    } else {
        crate::text::slice_of(&cs, 0, cs.len())
    };
    assert(suffix@ =~= (if crate::text::has_prefix(tool@, "task_"@) {
        tool@.skip(5)
    } else {
        tool@
    }));
    match find_char(&suffix, '_') {
        Some(i) => {
            let p = substring(&suffix, 0, i);
            let t = substring(&suffix, i + 1, suffix.len());
            assert(suffix@.subrange(0, i as int) =~= suffix@.take(i as int));
            assert(suffix@.subrange(i + 1, suffix.len() as int) =~= suffix@.skip(i + 1));
            let a = concat(p.as_str(), ":");
            concat(a.as_str(), t.as_str())
        },
        None => substring(&suffix, 0, suffix.len()),
    }
}

impl McpHandlers {
    /// Runs a task by name unless it needs approval, which is asked for instead.
    pub fn execute_task(app: &App, task_name: String, env: Vec<(String, String)>, dry_run: bool) -> (r: ToolCallOutcome)
        ensures
            outcome_view(r) == Some(execute_outcome(app.projects@, task_name@, pair_views(env@), dry_run)),
    {
        match Self::check_approval_required(app, task_name.as_str()) {
            Some(m) => {
                let a = concat("APPROVAL REQUIRED: ", m.as_str());
                let text = concat(
                    a.as_str(),
                    "\n\nTo proceed, confirm with the human and retry this tool call.",
                );
                ToolCallOutcome::Reply(ToolCallResult::error(text))
            },
            None => ToolCallOutcome::Run { task: task_name, env, dry_run },
        }
    }

    /// Answers a tool call: lists the tasks, runs a task named by the `task` argument (with
    /// the `env` and `dry_run` arguments), runs a task through its own tool (every string
    /// argument setting a variable), or refuses an unknown tool.
    pub fn call_tool(app: &App, params: &ToolCallParams) -> (r: ToolCallOutcome)
        ensures
            outcome_view(r) == Some(call_outcome(app.projects@, params.name@, params.arguments)),
    {
        proof {
            reveal_strlit("meriadoc_list_tasks");
            reveal_strlit("meriadoc_run_task");
            reveal_strlit("task_");
        }
        let name = params.name.as_str();
        if str_eq(name, "meriadoc_list_tasks") {
            return ToolCallOutcome::Reply(Self::handle_list_tasks(app));
        }
        if str_eq(name, "meriadoc_run_task") {
            let task = match params.arguments.get("task") {
                Some(ArgValue::Str(t)) => t.clone(),
                _ => {
                    return ToolCallOutcome::Reply(
                        ToolCallResult::error(owned("Missing required parameter: task")),
                    );
                },
            };
            let dry_run = match params.arguments.get("dry_run") {
                Some(ArgValue::Bool(b)) => *b,
                _ => false,
            };
            let env = match params.arguments.get("env") {
                Some(ArgValue::Object(o)) => string_entries_exec(o),
                _ => {
                    let e: Vec<(String, String)> = Vec::new();
                    assert(pair_views(e@) =~= Seq::<(Seq<char>, Seq<char>)>::empty());
                    e
                },
            };
            return Self::execute_task(app, task, env, dry_run);
        }
        if starts_with_str(name, "task_") {
            let task = direct_task_name_exec(name);
            let env = string_entries_exec(&params.arguments);
            return Self::execute_task(app, task, env, false);
        }
        ToolCallOutcome::Reply(ToolCallResult::error(concat("Unknown tool: ", name)))
    }

    fn task_tool(item: &TaskIterItem) -> (r: Tool)
        ensures
            is_task_tool(r, item.project_name@, item.task_name@, *item.task),
    {
        let task = item.task;
        let a = concat("task_", item.project_name.as_str());
        let b = concat(a.as_str(), "_");
        let name = concat(b.as_str(), item.task_name.as_str());
        let base = match &task.description {
            Some(d) => d.clone(),
            None => {
                let x = concat("Run task ", item.project_name.as_str());
                let y = concat(x.as_str(), ":");
                concat(y.as_str(), item.task_name.as_str())
            },
        };
        let description = match &task.agent {
            Some(agent) => match &agent.confirmation {
                Some(c) => {
                    let x = concat(base.as_str(), "\n\nConfirmation required: ");
                    concat(x.as_str(), c.as_str())
                },
                None => base,
            },
            None => base,
        };
        proof {
            reveal_strlit("");
        }
        let (risk_level, requires_approval) = match &task.agent {
            Some(agent) => (
                agent.risk_level,
                agent.requires_approval || agent.risk_level == RiskLevel::High || agent.risk_level
                    == RiskLevel::Critical,
            ),
            None => (RiskLevel::Low, false),
        };
        let n = task.env.len();
        let mut properties: Vec<EnvProperty> = Vec::new();
        let mut required: Vec<String> = Vec::new();
        let mut i: usize = 0;
        while i < n
            invariant
                0 <= i <= n,
                n == task.env.pairs().len(),
                property_views(properties@) == env_properties(task.env.pairs().take(i as int)),
                required.deep_view() == required_vars(task.env.pairs().take(i as int)),
            decreases n - i,
        {
            let (k, spec) = task.env.entry(i);
            assert(task.env.pairs().take(i + 1).drop_last() =~= task.env.pairs().take(i as int));
            let ghost pb = property_views(properties@);
            let prop = EnvProperty {
                name: k.clone(),
                default: spec.default.clone(),
                options: crate::spec::clone_strings(&spec.options),
            };
            properties.push(prop);
            assert(property_views(properties@) =~= pb.push((k@, spec@.default, spec@.options)));
            assert(property_views(properties@) =~= env_properties(task.env.pairs().take(i + 1)));
            if spec.required && spec.default.is_none() {
                let ghost rb = required.deep_view();
                required.push(k.clone());
                assert(required.deep_view() =~= rb.push(k@));
            }
            i = i + 1;
        }
        assert(task.env.pairs().take(n as int) =~= task.env.pairs());
        assert(description@ =~= tool_description(item.project_name@, item.task_name@, *task));
        Tool {
            name,
            title: Some(item.task_name.clone()),
            description,
            input_schema: ToolSchema::Task { properties, required, risk_level, requires_approval },
        }
    }

    /// The tools: listing the tasks, running a task by name, and one tool per task that
    /// agents may see.
    pub fn list_tools(app: &App) -> (r: ToolsListResult)
        ensures
            r.tools@.len() == 2 + agent_tasks(all_tasks(app.projects@)).len(),
            r.tools@[0].name@ == "meriadoc_list_tasks"@,
            r.tools@[0].title matches Some(t) && t@ == "List Tasks"@,
            r.tools@[0].description@ == "List all available Meriadoc tasks"@,
            r.tools@[0].input_schema is ListTasks,
            r.tools@[1].name@ == "meriadoc_run_task"@,
            r.tools@[1].title matches Some(t) && t@ == "Run Task"@,
            r.tools@[1].description@ == "Execute a Meriadoc task by name"@,
            r.tools@[1].input_schema is RunTask,
            forall|i: int|
                0 <= i < agent_tasks(all_tasks(app.projects@)).len() ==> is_task_tool(
                    #[trigger] r.tools@[i + 2],
                    agent_tasks(all_tasks(app.projects@))[i].0,
                    agent_tasks(all_tasks(app.projects@))[i].1,
                    agent_tasks(all_tasks(app.projects@))[i].2,
                ),
    {
        let mut tools: Vec<Tool> = Vec::new();
        tools.push(
            Tool {
                name: owned("meriadoc_list_tasks"),
                title: Some(owned("List Tasks")),
                description: owned("List all available Meriadoc tasks"),
                input_schema: ToolSchema::ListTasks,
            },
        );
        tools.push(
            Tool {
                name: owned("meriadoc_run_task"),
                title: Some(owned("Run Task")),
                description: owned("Execute a Meriadoc task by name"),
                input_schema: ToolSchema::RunTask,
            },
        );
        let items = app.for_each_agent_task();
        let ghost all = task_items(items@);
        let mut i: usize = 0;
        while i < items.len()
            invariant
                0 <= i <= items.len(),
                all == task_items(items@),
                all == agent_tasks(all_tasks(app.projects@)),
                tools@.len() == 2 + i,
                tools@[0].name@ == "meriadoc_list_tasks"@,
                tools@[0].title matches Some(t) && t@ == "List Tasks"@,
                tools@[0].description@ == "List all available Meriadoc tasks"@,
                tools@[0].input_schema is ListTasks,
                tools@[1].name@ == "meriadoc_run_task"@,
                tools@[1].title matches Some(t) && t@ == "Run Task"@,
                tools@[1].description@ == "Execute a Meriadoc task by name"@,
                tools@[1].input_schema is RunTask,
                forall|j: int| 0 <= j < i ==> is_task_tool(#[trigger] tools@[j + 2], all[j].0, all[j].1, all[j].2),
            decreases items.len() - i,
        {
            let tool = Self::task_tool(&items[i]);
            assert(all[i as int] == (items@[i as int].project_name@, items@[i as int].task_name@, *items@[i as int].task));
            let ghost before = tools@;
            tools.push(tool);
            assert forall|j: int| 0 <= j < i + 1 implies is_task_tool(#[trigger] tools@[j + 2], all[j].0, all[j].1, all[j].2) by {
                if j < i {
                    assert(tools@[j + 2] == before[j + 2]);
                }
            }
            i = i + 1;
        }
        ToolsListResult { tools }
    }
}

/// The agent-protocol server: the workspace it answers about.
pub struct McpServer {
    pub app: App,
}

impl McpServer {
    /// A server answering about `app`.
    pub fn new(app: App) -> (r: Self)
        ensures
            r.app == app,
    {
        McpServer { app }
    }
}

/// A task asks for approval exactly when it needs it: when its agent settings ask for it or
/// its risk is high or critical; a task without agent settings never does.
pub proof fn law_approval_when_needed(task: TaskSpec)
    ensures
        (approval_message(task) is Some) == needs_approval(task),
        task.agent is None ==> approval_message(task) is None,
        risky(task_risk(task)) ==> approval_message(task) is Some,
{
}

/// A run of a task that needs approval is refused with the request for approval and never
/// started, whatever the variables or dry-run flag given.
pub proof fn law_approval_blocks_run(
    projects: Seq<crate::project::Project>,
    task: Seq<char>,
    env: Seq<(Seq<char>, Seq<char>)>,
    dry_run: bool,
)
    requires
        found_task(projects, task) matches Some(t) && needs_approval(t),
    ensures
        execute_outcome(projects, task, env, dry_run) matches OutcomeModel::Reply { is_error, text }
            && is_error && text == approval_reply(approval_message(found_task(projects, task)->0)->0),
{
}

/// The direct tool of task `name` of a project whose name holds no `_` runs that task: its
/// tool name `task_{project}_{name}` is read back as `project:name`.
pub proof fn law_direct_tool_names_round_trip(project: Seq<char>, name: Seq<char>)
    requires
        !project.contains('_'),
    ensures
        direct_task_name("task_"@ + project + "_"@ + name) == project + ":"@ + name,
{
    reveal_strlit("task_");
    reveal_strlit("_");
    let tool = "task_"@ + project + "_"@ + name;
    assert(tool.take(5) =~= "task_"@);
    let suffix = tool.skip(5);
    assert(suffix =~= project + "_"@ + name);
    let p = project.len() as int;
    assert(suffix[p] == '_');
    let i = choose|i: int| 0 <= i < suffix.len() && suffix[i] == '_' && forall|j: int| 0 <= j < i ==> suffix[j] != '_';
    if i < p {
        assert(project[i] == suffix[i]);
    }
    assert(i == p);
    assert(suffix.take(i) =~= project);
    assert(suffix.skip(i + 1) =~= name);
}

} // verus!
