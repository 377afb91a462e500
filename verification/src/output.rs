//! What the commands report, as values for programs to read.
use vstd::prelude::*;

use crate::app::{all_jobs, all_shells, all_tasks, job_items, shell_items, task_items, App};
use crate::project::Project;
use crate::resolver::{project_name_of, EntityResolver};
use crate::spec::{clone_strings, EnvVarModel, EnvVarSpec, JobSpec, ShellSpec, TaskSpec, VarType};
use crate::strmap::StrMap;

verus! {

/// A list of items with their number.
#[derive(Debug)]
pub struct ListOutput<T> {
    pub items: Vec<T>,
    pub count: usize,
}

impl<T> ListOutput<T> {
    /// The items, counted.
    pub fn new(items: Vec<T>) -> (r: Self)
        ensures
            r.items@ == items@,
            r.count == items@.len(),
    {
        let count = items.len();
        ListOutput { items, count }
    }
}

/// A project with the number of its spec files, tasks, jobs and shells.
#[derive(Debug)]
pub struct ProjectOutput {
    pub name: String,
    pub root: String,
    pub spec_files: usize,
    pub tasks: usize,
    pub jobs: usize,
    pub shells: usize,
}

/// A variable's specification.
#[derive(Debug)]
pub struct EnvVarOutput {
    pub var_type: VarType,
    pub required: bool,
    pub default: Option<String>,
    pub options: Vec<String>,
}

impl View for EnvVarOutput {
    type V = EnvVarModel;

    open spec fn view(&self) -> EnvVarModel {
        EnvVarModel {
            var_type: self.var_type,
            default: crate::spec::opt_view(self.default),
            options: self.options.deep_view(),
            required: self.required,
        }
    }
}

/// A task.
#[derive(Debug)]
pub struct TaskOutput {
    pub name: String,
    pub project: String,
    pub description: Option<String>,
    pub workdir: Option<String>,
    pub cmds: Vec<String>,
    pub env: Vec<(String, EnvVarOutput)>,
    pub env_files: Vec<String>,
    pub has_preconditions: bool,
    pub has_on_failure: bool,
}

/// A job.
#[derive(Debug)]
pub struct JobOutput {
    pub name: String,
    pub project: String,
    pub description: Option<String>,
    pub tasks: Vec<String>,
    pub env: Vec<(String, EnvVarOutput)>,
    pub has_on_failure: bool,
}

/// A shell.
#[derive(Debug)]
pub struct ShellOutput {
    pub name: String,
    pub project: String,
    pub description: Option<String>,
    pub workdir: Option<String>,
    pub env: Vec<(String, EnvVarOutput)>,
    pub init_cmds: Vec<String>,
}

/// A task, briefly.
#[derive(Debug)]
pub struct TaskSummary {
    pub name: String,
    pub description: Option<String>,
}

/// A job, briefly.
#[derive(Debug)]
pub struct JobSummary {
    pub name: String,
    pub description: Option<String>,
    pub task_count: usize,
}

/// A shell, briefly.
#[derive(Debug)]
pub struct ShellSummary {
    pub name: String,
    pub description: Option<String>,
}

/// A project with its spec files and everything they declare.
#[derive(Debug)]
pub struct ProjectDetailOutput {
    pub name: String,
    pub root: String,
    pub spec_files: Vec<String>,
    pub tasks: Vec<TaskSummary>,
    pub jobs: Vec<JobSummary>,
    pub shells: Vec<ShellSummary>,
}

/// The views of named variable outputs.
pub open spec fn env_output_views(v: Seq<(String, EnvVarOutput)>) -> Seq<(Seq<char>, EnvVarModel)> {
    v.map_values(|p: (String, EnvVarOutput)| (p.0@, p.1@))
}

/// The views of named variable specifications.
pub open spec fn env_spec_views(v: Seq<(String, EnvVarSpec)>) -> Seq<(Seq<char>, EnvVarModel)> {
    v.map_values(|p: (String, EnvVarSpec)| (p.0@, p.1@))
}

/// The output of a variable's specification.
pub fn env_var_output(spec: &EnvVarSpec) -> (r: EnvVarOutput)
    ensures
        r@ == spec@,
{
    EnvVarOutput {
        var_type: spec.var_type,
        required: spec.required,
        default: spec.default.clone(),
        options: clone_strings(&spec.options),
    }
}

/// The outputs of the variables of an inline spec, in order.
pub fn env_to_output(env: &StrMap<EnvVarSpec>) -> (r: Vec<(String, EnvVarOutput)>)
    ensures
        env_output_views(r@) == env_spec_views(env.pairs()),
{
    let n = env.len();
    let mut out: Vec<(String, EnvVarOutput)> = Vec::new();
    let mut i: usize = 0;
    while i < n
        invariant
            0 <= i <= n,
            n == env.pairs().len(),
            env_output_views(out@) == env_spec_views(env.pairs().take(i as int)),
        decreases n - i,
    {
        let (k, spec) = env.entry(i);
        let ghost before = env_output_views(out@);
        out.push((k.clone(), env_var_output(spec)));
        assert(env_output_views(out@) =~= before.push((k@, spec@)));
        assert(env_output_views(out@) =~= env_spec_views(env.pairs().take(i + 1)));
        i = i + 1;
    }
    assert(env.pairs().take(n as int) =~= env.pairs());
    out
}

/// The texts of an optional string.
pub open spec fn opt_text_of(o: Option<String>) -> Option<Seq<char>> {
    crate::spec::opt_view(o)
}

/// Whether `o` describes task `name` of project `project`.
pub open spec fn describes_task(o: TaskOutput, name: Seq<char>, project: Seq<char>, task: TaskSpec) -> bool {
    &&& o.name@ == name
    &&& o.project@ == project
    &&& opt_text_of(o.description) == opt_text_of(task.description)
    &&& opt_text_of(o.workdir) == opt_text_of(task.workdir)
    &&& o.cmds.deep_view() == task.cmds.deep_view()
    &&& env_output_views(o.env@) == env_spec_views(task.env.pairs())
    &&& o.env_files.deep_view() == task.env_files.deep_view()
    &&& o.has_preconditions == (task.preconditions@.len() > 0)
    &&& o.has_on_failure == (task.on_failure is Some)
}

/// Whether `o` describes job `name` of project `project`.
pub open spec fn describes_job(o: JobOutput, name: Seq<char>, project: Seq<char>, job: JobSpec) -> bool {
    &&& o.name@ == name
    &&& o.project@ == project
    &&& opt_text_of(o.description) == opt_text_of(job.description)
    &&& o.tasks.deep_view() == job.tasks.deep_view()
    &&& env_output_views(o.env@) == env_spec_views(job.env.pairs())
    &&& o.has_on_failure == (job.on_failure is Some)
}

/// Whether `o` describes shell `name` of project `project`.
pub open spec fn describes_shell(o: ShellOutput, name: Seq<char>, project: Seq<char>, shell: ShellSpec) -> bool {
    &&& o.name@ == name
    &&& o.project@ == project
    &&& opt_text_of(o.description) == opt_text_of(shell.description)
    &&& opt_text_of(o.workdir) == opt_text_of(shell.workdir)
    &&& env_output_views(o.env@) == env_spec_views(shell.env.pairs())
    &&& o.init_cmds.deep_view() == shell.init_cmds.deep_view()
}

/// The output of a task.
pub fn task_output(name: &str, project: &str, task: &TaskSpec) -> (r: TaskOutput)
    ensures
        describes_task(r, name@, project@, *task),
{
    TaskOutput {
        name: crate::text::owned(name),
        project: crate::text::owned(project),
        description: task.description.clone(),
        workdir: task.workdir.clone(),
        cmds: clone_strings(&task.cmds),
        env: env_to_output(&task.env),
        env_files: clone_strings(&task.env_files),
        has_preconditions: task.preconditions.len() > 0,
        has_on_failure: task.on_failure.is_some(),
    }
}

/// The output of a job.
pub fn job_output(name: &str, project: &str, job: &JobSpec) -> (r: JobOutput)
    ensures
        describes_job(r, name@, project@, *job),
{
    JobOutput {
        name: crate::text::owned(name),
        project: crate::text::owned(project),
        description: job.description.clone(),
        tasks: clone_strings(&job.tasks),
        env: env_to_output(&job.env),
        has_on_failure: job.on_failure.is_some(),
    }
}

/// The output of a shell.
pub fn shell_output(name: &str, project: &str, shell: &ShellSpec) -> (r: ShellOutput)
    ensures
        describes_shell(r, name@, project@, *shell),
{
    ShellOutput {
        name: crate::text::owned(name),
        project: crate::text::owned(project),
        description: shell.description.clone(),
        workdir: shell.workdir.clone(),
        env: env_to_output(&shell.env),
        init_cmds: clone_strings(&shell.init_cmds),
    }
}

/// The number of tasks, jobs and shells declared by the spec files of `specs`.
pub open spec fn entity_counts(specs: Seq<crate::project::LoadedSpec>) -> (nat, nat, nat)
    decreases specs.len(),
{
    if specs.len() == 0 {
        (0, 0, 0)
    } else {
        let (t, j, s) = entity_counts(specs.drop_last());
        let f = specs.last().spec;
        (t + f.tasks.pairs().len(), j + f.jobs.pairs().len(), s + f.shells.pairs().len())
    }
}

/// Counts the tasks, jobs and shells of a project.
pub fn count_entities(project: &Project) -> (r: (usize, usize, usize))
    requires
        entity_counts(project.specs@).0 <= usize::MAX,
        entity_counts(project.specs@).1 <= usize::MAX,
        entity_counts(project.specs@).2 <= usize::MAX,
    ensures
        r.0 == entity_counts(project.specs@).0,
        r.1 == entity_counts(project.specs@).1,
        r.2 == entity_counts(project.specs@).2,
{
    let mut t: usize = 0;
    let mut j: usize = 0;
    let mut s: usize = 0;
    let mut i: usize = 0;
    while i < project.specs.len()
        invariant
            0 <= i <= project.specs.len(),
            entity_counts(project.specs@).0 <= usize::MAX,
            entity_counts(project.specs@).1 <= usize::MAX,
            entity_counts(project.specs@).2 <= usize::MAX,
            (t as nat, j as nat, s as nat) == entity_counts(project.specs@.take(i as int)),
        decreases project.specs.len() - i,
    {
        assert(project.specs@.take(i + 1).drop_last() =~= project.specs@.take(i as int));
        proof {
            lemma_counts_prefix(project.specs@, i + 1);
        }
        let f = &project.specs[i].spec;
        t = t + f.tasks.len();
        j = j + f.jobs.len();
        s = s + f.shells.len();
        i = i + 1;
    }
    assert(project.specs@.take(project.specs.len() as int) =~= project.specs@);
    (t, j, s)
}

/// Counts grow with the spec files counted.
pub proof fn lemma_counts_grow(specs: Seq<crate::project::LoadedSpec>, k: int)
    requires
        0 <= k <= specs.len(),
    ensures
        entity_counts(specs.take(k)).0 <= entity_counts(specs).0,
        entity_counts(specs.take(k)).1 <= entity_counts(specs).1,
        entity_counts(specs.take(k)).2 <= entity_counts(specs).2,
{
    lemma_counts_prefix(specs, k);
}

/// Counts grow with the spec files counted.
proof fn lemma_counts_prefix(specs: Seq<crate::project::LoadedSpec>, k: int)
    requires
        0 <= k <= specs.len(),
    ensures
        entity_counts(specs.take(k)).0 <= entity_counts(specs).0,
        entity_counts(specs.take(k)).1 <= entity_counts(specs).1,
        entity_counts(specs.take(k)).2 <= entity_counts(specs).2,
    decreases specs.len() - k,
{
    if k < specs.len() {
        lemma_counts_prefix(specs, k + 1);
        assert(specs.take(k + 1).drop_last() =~= specs.take(k));
    } else {
        assert(specs.take(k) =~= specs);
    }
}

} // verus!
