//! What the web API answers: tasks, projects, task details and run results.
use vstd::prelude::*;

use crate::app::{all_tasks, task_items, App};
use crate::error::{error_message, MeriadocError};
use crate::mcp::{needs_approval, task_risk};
use crate::output::{count_entities, entity_counts};
use crate::project::Project;
use crate::report::counts_fit;
use crate::resolver::{lookup_error, matches_of, project_name_of, EntityResolver};
use crate::spec::{
    clone_strings, opt_view, risk_level_name, AgentSpec, EntityKind, EnvVarModel, EnvVarSpec,
    TaskSpec, VarType,
};
use crate::strmap::StrMap;
use crate::text::{concat, index_of_char, lemma_index_of_char, owned, str_chars, substring};
use crate::variables::resolved_task;

verus! {

/// A variable of a task, for the web API.
#[derive(Debug)]
pub struct EnvVarInfo {
    pub name: String,
    pub var_type: VarType,
    pub required: bool,
    pub default: Option<String>,
    pub options: Vec<String>,
}

/// The view of a variable's information: its name and specification.
pub open spec fn info_view(i: EnvVarInfo) -> (Seq<char>, EnvVarModel) {
    (
        i.name@,
        EnvVarModel {
            var_type: i.var_type,
            default: opt_view(i.default),
            options: i.options.deep_view(),
            required: i.required,
        },
    )
}

/// The views of a list of variable informations.
pub open spec fn info_views(v: Seq<EnvVarInfo>) -> Seq<(Seq<char>, EnvVarModel)> {
    v.map_values(|i: EnvVarInfo| info_view(i))
}

/// A task in the task list.
#[derive(Debug)]
pub struct TaskInfo {
    pub name: String,
    pub project: String,
    pub description: Option<String>,
    pub risk_level: String,
    pub requires_approval: bool,
    pub env_vars: Vec<EnvVarInfo>,
}

/// The task list.
#[derive(Debug)]
pub struct TaskListResponse {
    pub tasks: Vec<TaskInfo>,
}

/// A project in the project list.
#[derive(Debug)]
pub struct ProjectInfo {
    pub name: String,
    pub root: String,
    pub task_count: usize,
    pub job_count: usize,
    pub shell_count: usize,
}

/// The project list.
#[derive(Debug)]
pub struct ProjectListResponse {
    pub projects: Vec<ProjectInfo>,
}

/// What a request to run a task carries.
#[derive(Debug)]
pub struct RunTaskRequest {
    pub env: Vec<(String, String)>,
    pub dry_run: bool,
}

impl Default for RunTaskRequest {
    fn default() -> (r: Self)
        ensures
            r.env@.len() == 0,
            !r.dry_run,
    {
        RunTaskRequest { env: Vec::new(), dry_run: false }
    }
}

/// What a run of a task answers.
#[derive(Debug)]
pub struct RunTaskResponse {
    pub success: bool,
    pub output: String,
    pub exit_code: i32,
}

/// A task in detail.
#[derive(Debug)]
pub struct TaskDetailInfo {
    pub name: String,
    pub project: String,
    pub description: Option<String>,
    pub workdir: Option<String>,
    pub cmds: Vec<String>,
    pub env_vars: Vec<EnvVarInfo>,
    pub env_files: Vec<String>,
    pub has_preconditions: bool,
    pub has_on_failure: bool,
    pub risk_level: String,
    pub requires_approval: bool,
}

/// The variables of a task, in order, for the web API.
pub fn env_var_infos(env: &StrMap<EnvVarSpec>) -> (r: Vec<EnvVarInfo>)
    ensures
        info_views(r@) == crate::output::env_spec_views(env.pairs()),
{
    let n = env.len();
    let mut out: Vec<EnvVarInfo> = Vec::new();
    let mut i: usize = 0;
    while i < n
        invariant
            0 <= i <= n,
            n == env.pairs().len(),
            info_views(out@) == crate::output::env_spec_views(env.pairs().take(i as int)),
        decreases n - i,
    {
        let (k, spec) = env.entry(i);
        let ghost before = info_views(out@);
        out.push(
            EnvVarInfo {
                name: k.clone(),
                var_type: spec.var_type,
                required: spec.required,
                default: spec.default.clone(),
                options: clone_strings(&spec.options),
            },
        );
        assert(info_views(out@) =~= before.push((k@, spec@)));
        assert(info_views(out@) =~= crate::output::env_spec_views(env.pairs().take(i + 1)));
        i = i + 1;
    }
    assert(env.pairs().take(n as int) =~= env.pairs());
    out
}

/// The risk level name of a task and whether it needs approval: those of its agent
/// settings, or `low` and no.
pub fn risk_of(task: &TaskSpec) -> (r: (String, bool))
    ensures
        r.0@ == risk_level_name(task_risk(*task)),
        r.1 == needs_approval(*task),
{
    match &task.agent {
        Some(a) => {
            let risky = match a.risk_level {
                crate::spec::RiskLevel::High => true,
                crate::spec::RiskLevel::Critical => true,
                _ => false,
            };
            (owned(a.risk_level.as_str()), a.requires_approval || risky)
        },
        None => {
            proof {
                reveal_strlit("low");
            }
            (owned("low"), false)
        },
    }
}

/// Whether `t` lists task `name` of project `project`.
pub open spec fn describes_task_info(t: TaskInfo, project: Seq<char>, name: Seq<char>, task: TaskSpec) -> bool {
    &&& t.name@ == name
    &&& t.project@ == project
    &&& opt_view(t.description) == opt_view(task.description)
    &&& t.risk_level@ == risk_level_name(task_risk(task))
    &&& t.requires_approval == needs_approval(task)
    &&& info_views(t.env_vars@) == crate::output::env_spec_views(task.env.pairs())
}

/// Every task of every project, including those hidden from agents: the web interface is
/// for people.
pub fn list_tasks(app: &App) -> (r: TaskListResponse)
    ensures
        r.tasks@.len() == all_tasks(app.projects@).len(),
        forall|i: int|
            0 <= i < r.tasks@.len() ==> {
                let t = all_tasks(app.projects@)[i];
                describes_task_info(#[trigger] r.tasks@[i], t.0, t.1, t.2)
            },
{
    let items = app.for_each_task();
    let ghost all = task_items(items@);
    let mut tasks: Vec<TaskInfo> = Vec::new();
    let mut i: usize = 0;
    while i < items.len()
        invariant
            0 <= i <= items.len(),
            all == task_items(items@),
            all == all_tasks(app.projects@),
            tasks@.len() == i,
            forall|j: int|
                0 <= j < i ==> describes_task_info(#[trigger] tasks@[j], all[j].0, all[j].1, all[j].2),
        decreases items.len() - i,
    {
        let it = &items[i];
        assert(all[i as int] == (it.project_name@, it.task_name@, *it.task));
        let (risk, approval) = risk_of(it.task);
        tasks.push(
            TaskInfo {
                name: it.task_name.clone(),
                project: it.project_name.clone(),
                description: it.task.description.clone(),
                risk_level: risk,
                requires_approval: approval,
                env_vars: env_var_infos(&it.task.env),
            },
        );
        i = i + 1;
    }
    TaskListResponse { tasks }
}

/// Whether `o` describes project `p` with its counts.
pub open spec fn describes_project_info(o: ProjectInfo, p: Project) -> bool {
    &&& o.name@ == project_name_of(p.root@)
    &&& o.root@ == p.root@
    &&& o.task_count == entity_counts(p.specs@).0
    &&& o.job_count == entity_counts(p.specs@).1
    &&& o.shell_count == entity_counts(p.specs@).2
}

/// Every project with the numbers of its tasks, jobs and shells.
pub fn list_projects(app: &App) -> (r: ProjectListResponse)
    requires
        counts_fit(app.projects@),
    ensures
        r.projects@.len() == app.projects@.len(),
        forall|i: int|
            0 <= i < r.projects@.len() ==> describes_project_info(#[trigger] r.projects@[i], app.projects@[i]),
{
    let mut out: Vec<ProjectInfo> = Vec::new();
    let mut i: usize = 0;
    while i < app.projects.len()
        invariant
            0 <= i <= app.projects.len(),
            counts_fit(app.projects@),
            out@.len() == i,
            forall|j: int|
                0 <= j < i ==> describes_project_info(#[trigger] out@[j], app.projects@[j]),
        decreases app.projects.len() - i,
    {
        let p = &app.projects[i];
        assert(entity_counts(app.projects@[i as int].specs@).0 <= usize::MAX);
        let (t, j, s) = count_entities(p);
        out.push(
            ProjectInfo {
                name: EntityResolver::project_name(p),
                root: p.root.clone(),
                task_count: t,
                job_count: j,
                shell_count: s,
            },
        );
        i = i + 1;
    }
    ProjectListResponse { projects: out }
}

/// The answer to a run: success with the output, or failure with the error's message and
/// exit code 1.
pub fn run_response(result: Result<String, MeriadocError>) -> (r: RunTaskResponse)
    ensures
        match result {
            Ok(out) => r.success && r.output@ == out@ && r.exit_code == 0,
            Err(e) => !r.success && r.output@ == "Error: "@ + error_message(e) && r.exit_code == 1,
        },
{
    match result {
        Ok(output) => RunTaskResponse { success: true, output, exit_code: 0 },
        Err(e) => {
            let m = e.message();
            RunTaskResponse { success: false, output: concat("Error: ", m.as_str()), exit_code: 1 }
        },
    }
}

/// The lines of a text as `str::lines` gives them: split at each `\n`, a `\r` before it
/// dropped, and no empty line after a final `\n`.
pub open spec fn text_lines(s: Seq<char>) -> Seq<Seq<char>>
    decreases s.len(),
{
    if s.len() == 0 {
        Seq::empty()
    } else {
        let e = index_of_char(s, '\n');
        if e < s.len() {
            let line = s.take(e as int);
            let line = if line.len() > 0 && line.last() == '\r' {
                line.drop_last()
            } else {
                line
            };
            seq![line] + text_lines(s.skip(e + 1int))
        } else {
            seq![s]
        }
    }
}

/// One server-sent event: an optional event name and its data.
#[derive(Debug)]
pub struct StreamEvent {
    pub event: Option<String>,
    pub data: String,
}

/// The views of events.
pub open spec fn event_views(v: Seq<StreamEvent>) -> Seq<(Option<Seq<char>>, Seq<char>)> {
    v.map_values(|e: StreamEvent| (opt_view(e.event), e.data@))
}

/// The events that stream a run: each line of the output (or the error's message), then an
/// event `done` with no data.
pub open spec fn run_events(result: Result<String, MeriadocError>) -> Seq<(Option<Seq<char>>, Seq<char>)> {
    (match result {
        Ok(out) => text_lines(out@).map_values(|l: Seq<char>| (None::<Seq<char>>, l)),
        Err(e) => seq![(None::<Seq<char>>, "Error: "@ + error_message(e))],
    }).push((Some("done"@), Seq::empty()))
}

/// Splits a text into its lines as `str::lines` does.
pub fn output_lines(s: &str) -> (r: Vec<String>)
    ensures
        r.deep_view() == text_lines(s@),
{
    let cs = str_chars(s);
    let mut out: Vec<String> = Vec::new();
    let mut pos: usize = 0;
    assert(cs@.skip(0) =~= cs@);
    while pos < cs.len()
        invariant
            0 <= pos <= cs.len(),
            cs@ == s@,
            out.deep_view() + text_lines(cs@.skip(pos as int)) == text_lines(s@),
        decreases cs.len() - pos,
    {
        let ghost rest = cs@.skip(pos as int);
        let end = crate::text::find_char_in(&cs, '\n', pos, cs.len());
        assert(cs@.subrange(pos as int, cs.len() as int) =~= rest);
        let ghost before = out.deep_view();
        if end < cs.len() {
            let stop = if end > pos && cs[end - 1] == '\r' {
                end - 1
            } else {
                end
            };
            let line = substring(&cs, pos, stop);
            out.push(line);
            assert(rest.take((end - pos) as int) =~= cs@.subrange(pos as int, end as int));
            assert(rest.skip((end - pos) + 1) =~= cs@.skip(end + 1));
            assert(out.deep_view() =~= before.push(line@));
            assert(line@ =~= (if rest.take((end - pos) as int).len() > 0 && rest.take((end - pos) as int).last() == '\r' {
                rest.take((end - pos) as int).drop_last()
            } else {
                rest.take((end - pos) as int)
            }));
            pos = end + 1;
        } else {
            let line = substring(&cs, pos, cs.len());
            out.push(line);
            assert(out.deep_view() =~= before.push(rest));
            assert(cs@.skip(cs.len() as int) =~= Seq::<char>::empty());
            pos = cs.len();
        }
    }
    assert(cs@.skip(pos as int) =~= Seq::<char>::empty());
    assert(out.deep_view() + text_lines(Seq::<char>::empty()) =~= out.deep_view());
    out
}

/// The events that stream the result of a run.
pub fn run_stream_events(result: Result<String, MeriadocError>) -> (r: Vec<StreamEvent>)
    ensures
        event_views(r@) == run_events(result),
{
    let ghost res = result;
    let mut out: Vec<StreamEvent> = Vec::new();
    match result {
        Ok(output) => {
            let lines = output_lines(output.as_str());
            let ghost ls = lines.deep_view();
            let mut i: usize = 0;
            while i < lines.len()
                invariant
                    0 <= i <= lines.len(),
                    ls == lines.deep_view(),
                    event_views(out@) == ls.take(i as int).map_values(
                        |l: Seq<char>| (None::<Seq<char>>, l),
                    ),
                decreases lines.len() - i,
            {
                let ghost before = event_views(out@);
                out.push(StreamEvent { event: None, data: lines[i].clone() });
                assert(event_views(out@) =~= before.push((None::<Seq<char>>, ls[i as int])));
                assert(event_views(out@) =~= ls.take(i + 1).map_values(
                    |l: Seq<char>| (None::<Seq<char>>, l),
                ));
                i = i + 1;
            }
            assert(ls.take(lines.len() as int) =~= ls);
        },
        Err(e) => {
            let m = e.message();
            out.push(StreamEvent { event: None, data: concat("Error: ", m.as_str()) });
            assert(event_views(out@) =~= seq![(None::<Seq<char>>, "Error: "@ + error_message(e))]);
        },
    }
    let ghost before = event_views(out@);
    proof {
        reveal_strlit("");
    }
    let done = StreamEvent { event: Some(owned("done")), data: owned("") };
    assert(done.data@ =~= Seq::<char>::empty());
    assert(opt_view(done.event) == Some("done"@));
    out.push(done);
    assert(event_views(out@) =~= before.push((Some("done"@), Seq::empty())));
    out
}

/// Whether `d` describes task `name` of project `project` in detail.
pub open spec fn describes_task_detail(d: TaskDetailInfo, name: Seq<char>, project: Seq<char>, t: TaskSpec) -> bool {
    &&& d.name@ == name
    &&& d.project@ == project
    &&& opt_view(d.description) == opt_view(t.description)
    &&& opt_view(d.workdir) == opt_view(t.workdir)
    &&& d.cmds.deep_view() == t.cmds.deep_view()
    &&& info_views(d.env_vars@) == crate::output::env_spec_views(t.env.pairs())
    &&& d.env_files.deep_view() == t.env_files.deep_view()
    &&& d.has_preconditions == (t.preconditions@.len() > 0)
    &&& d.has_on_failure == (t.on_failure is Some)
    &&& d.risk_level@ == risk_level_name(task_risk(t))
    &&& d.requires_approval == needs_approval(t)
}

/// The message of a lookup that found `count` entities other than one.
pub open spec fn lookup_message(count: nat, kind: Seq<char>, name: Seq<char>) -> Seq<char> {
    if count == 0 {
        kind + " `"@ + name + "` not found"@
    } else {
        kind + " `"@ + name + "` is ambiguous (found in "@ + crate::text::decimal(count)
            + " projects, use project:name syntax)"@
    }
}

/// A task in detail, or `Task not found: ...` with the lookup's message.
pub fn task_info(name: &str, app: &App) -> (r: Result<TaskDetailInfo, String>)
    ensures
        ({
            let c = matches_of(app.projects@, EntityKind::Task, name@).len();
            &&& (r is Ok) == (c == 1)
            &&& r matches Ok(d) ==> describes_task_detail(
                d,
                name@,
                project_name_of(app.projects@[matches_of(app.projects@, EntityKind::Task, name@)[0].0].root@),
                resolved_task(app.projects@, name@),
            )
            &&& r matches Err(m) ==> m@ == "Task not found: "@ + lookup_message(c, "task"@, name@)
        }),
{
    match EntityResolver::resolve_task(name, app.projects.as_slice()) {
        Ok(t) => {
            let (risk, approval) = risk_of(t.spec);
            Ok(
                TaskDetailInfo {
                    name: owned(name),
                    project: EntityResolver::project_name(t.project),
                    description: t.spec.description.clone(),
                    workdir: t.spec.workdir.clone(),
                    cmds: clone_strings(&t.spec.cmds),
                    env_vars: env_var_infos(&t.spec.env),
                    env_files: clone_strings(&t.spec.env_files),
                    has_preconditions: t.spec.preconditions.len() > 0,
                    has_on_failure: t.spec.on_failure.is_some(),
                    risk_level: risk,
                    requires_approval: approval,
                },
            )
        },
        Err(e) => {
            let m = e.message();
            Err(concat("Task not found: ", m.as_str()))
        },
    }
}

} // verus!
