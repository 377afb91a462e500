//! What `info` shows of a task, a job, a shell or a project.
use vstd::prelude::*;

use crate::app::{file_jobs, file_shells, file_tasks, App};
use crate::cli::InfoTarget;
use crate::error::MeriadocError;
use crate::output::{
    count_entities, entity_counts, env_spec_views, job_output, shell_output, task_output,
    describes_job, describes_shell, describes_task, JobOutput, JobSummary, ProjectDetailOutput,
    ShellOutput, ShellSummary, TaskOutput, TaskSummary,
};
use crate::project::{LoadedSpec, Project};
use crate::report::{counts_fit, with_desc};
use crate::resolver::{lookup_error, matches_of, project_name_of, qualified_parts, EntityResolver};
use crate::spec::{opt_view, var_type_name, EntityKind, EnvVarModel, EnvVarSpec, JobSpec, ShellSpec, TaskSpec};
use crate::strmap::StrMap;
use crate::text::{concat, decimal, decimal_string, join_strings, join_with, owned, str_eq};

verus! {

/// `s` with `t` appended.
fn append(out: &mut String, t: &str)
    ensures
        final(out)@ == old(out)@ + t@,
{
    *out = concat(out.as_str(), t);
}

/// A labelled line for an optional value, or nothing.
pub open spec fn opt_line(label: Seq<char>, o: Option<String>) -> Seq<char> {
    match o {
        Some(s) => label + s@ + "\n"@,
        None => Seq::empty(),
    }
}

fn push_opt_line(out: &mut String, label: &str, o: &Option<String>)
    ensures
        final(out)@ == old(out)@ + opt_line(label@, *o),
{
    match o {
        Some(s) => {
            append(out, label);
            append(out, s.as_str());
            append(out, "\n");
            proof {
                reveal_strlit("\n");
            }
        },
        None => {},
    }
}

/// One `    - item` line per item.
pub open spec fn bullet_lines(xs: Seq<Seq<char>>) -> Seq<char>
    decreases xs.len(),
{
    if xs.len() == 0 {
        Seq::empty()
    } else {
        bullet_lines(xs.drop_last()) + "    - "@ + xs.last() + "\n"@
    }
}

fn push_bullets(out: &mut String, xs: &Vec<String>)
    ensures
        final(out)@ == old(out)@ + bullet_lines(xs.deep_view()),
{
    let ghost head = out@;
    let mut i: usize = 0;
    while i < xs.len()
        invariant
            0 <= i <= xs.len(),
            out@ == head + bullet_lines(xs.deep_view().take(i as int)),
        decreases xs.len() - i,
    {
        assert(xs.deep_view().take(i + 1).drop_last() =~= xs.deep_view().take(i as int));
        append(out, "    - ");
        append(out, xs[i].as_str());
        append(out, "\n");
        assert(out@ =~= head + bullet_lines(xs.deep_view().take(i + 1)));
        i = i + 1;
    }
    assert(xs.deep_view().take(xs.len() as int) =~= xs.deep_view());
}

/// A variable's default, or `<none>`.
pub open spec fn default_text(d: Option<Seq<char>>) -> Seq<char> {
    match d {
        Some(s) => s,
        None => "<none>"@,
    }
}

fn default_str(spec: &EnvVarSpec) -> (r: &str)
    ensures
        r@ == default_text(spec@.default),
{
    match &spec.default {
        Some(s) => s.as_str(),
        None => {
            proof {
                reveal_strlit("<none>");
            }
            "<none>"
        },
    }
}

/// One `    KEY [type]: default=VALUE` line per variable, marked when required.
pub open spec fn typed_env_lines(env: Seq<(Seq<char>, EnvVarModel)>) -> Seq<char>
    decreases env.len(),
{
    if env.len() == 0 {
        Seq::empty()
    } else {
        let e = env.last();
        typed_env_lines(env.drop_last()) + "    "@ + e.0 + " ["@ + var_type_name(e.1.var_type)
            + "]: default="@ + default_text(e.1.default) + if e.1.required {
            " (required)\n"@
        } else {
            "\n"@
        }
    }
}

/// One `    KEY = VALUE` line per variable.
pub open spec fn plain_env_lines(env: Seq<(Seq<char>, EnvVarModel)>) -> Seq<char>
    decreases env.len(),
{
    if env.len() == 0 {
        Seq::empty()
    } else {
        let e = env.last();
        plain_env_lines(env.drop_last()) + "    "@ + e.0 + " = "@ + default_text(e.1.default)
            + "\n"@
    }
}

fn push_env_lines(out: &mut String, env: &StrMap<EnvVarSpec>, typed: bool)
    ensures
        final(out)@ == old(out)@ + if typed {
            typed_env_lines(env_spec_views(env.pairs()))
        } else {
            plain_env_lines(env_spec_views(env.pairs()))
        },
{
    let ghost head = out@;
    let n = env.len();
    let mut i: usize = 0;
    while i < n
        invariant
            0 <= i <= n,
            n == env.pairs().len(),
            out@ == head + if typed {
                typed_env_lines(env_spec_views(env.pairs().take(i as int)))
            } else {
                plain_env_lines(env_spec_views(env.pairs().take(i as int)))
            },
        decreases n - i,
    {
        let (k, spec) = env.entry(i);
        assert(env_spec_views(env.pairs().take(i + 1)).drop_last() =~= env_spec_views(
            env.pairs().take(i as int),
        ));
        assert(env_spec_views(env.pairs().take(i + 1)).last() == (k@, spec@));
        append(out, "    ");
        append(out, k.as_str());
        if typed {
            append(out, " [");
            append(out, spec.var_type.as_str());
            append(out, "]: default=");
            append(out, default_str(spec));
            if spec.required {
                append(out, " (required)\n");
            } else {
                append(out, "\n");
            }
        } else {
            append(out, " = ");
            append(out, default_str(spec));
            append(out, "\n");
        }
        assert(out@ =~= head + if typed {
            typed_env_lines(env_spec_views(env.pairs().take(i + 1)))
        } else {
            plain_env_lines(env_spec_views(env.pairs().take(i + 1)))
        });
        i = i + 1;
    }
    assert(env.pairs().take(n as int) =~= env.pairs());
}

/// A heading followed by its lines, or nothing when there are no lines to show.
pub open spec fn section(shown: bool, heading: Seq<char>, lines: Seq<char>) -> Seq<char> {
    if shown {
        heading + lines
    } else {
        Seq::empty()
    }
}

/// What `info task` shows of task `t`, asked for as `name`, of project `project`,
/// declared in the spec file at `path`.
pub open spec fn task_info(name: Seq<char>, project: Seq<char>, path: Seq<char>, t: TaskSpec) -> Seq<char> {
    let env = env_spec_views(t.env.pairs());
    "Task: "@ + name + "\n"@ + opt_line("  Description: "@, t.description) + "  Project: "@
        + project + "\n"@ + "  Spec file: "@ + path + "\n"@ + "  Commands:\n"@ + bullet_lines(
        t.cmds.deep_view(),
    ) + opt_line("  Working directory: "@, t.workdir) + section(
        env.len() > 0,
        "  Environment variables:\n"@,
        typed_env_lines(env),
    ) + section(
        t.env_files@.len() > 0,
        "  Env files: "@,
        join_with(t.env_files.deep_view(), ", "@) + "\n"@,
    ) + section(
        t.preconditions@.len() > 0,
        "  Preconditions: "@,
        decimal(t.preconditions@.len()) + " condition(s)\n"@,
    ) + section(t.on_failure is Some, "  On failure: configured\n"@, Seq::empty())
}

/// What `info job` shows of job `j`.
pub open spec fn job_info(name: Seq<char>, project: Seq<char>, path: Seq<char>, j: JobSpec) -> Seq<char> {
    let env = env_spec_views(j.env.pairs());
    "Job: "@ + name + "\n"@ + opt_line("  Description: "@, j.description) + "  Project: "@
        + project + "\n"@ + "  Spec file: "@ + path + "\n"@ + "  Tasks ("@ + decimal(
        j.tasks@.len(),
    ) + "):\n"@ + bullet_lines(j.tasks.deep_view()) + section(
        env.len() > 0,
        "  Environment overrides:\n"@,
        plain_env_lines(env),
    ) + section(j.on_failure is Some, "  On failure: configured\n"@, Seq::empty())
}

/// What `info shell` shows of shell `s`.
pub open spec fn shell_info(name: Seq<char>, project: Seq<char>, path: Seq<char>, s: ShellSpec) -> Seq<
    char,
> {
    let env = env_spec_views(s.env.pairs());
    "Shell: "@ + name + "\n"@ + opt_line("  Description: "@, s.description) + "  Project: "@
        + project + "\n"@ + "  Spec file: "@ + path + "\n"@ + opt_line(
        "  Working directory: "@,
        s.workdir,
    ) + section(env.len() > 0, "  Environment variables:\n"@, plain_env_lines(env)) + section(
        s.init_cmds@.len() > 0,
        "  Init commands:\n"@,
        bullet_lines(s.init_cmds.deep_view()),
    )
}

/// The text of task `t`.
pub fn format_task_info(name: &str, project: &str, path: &str, t: &TaskSpec) -> (r: String)
    ensures
        r@ == task_info(name@, project@, path@, *t),
{
    proof {
        reveal_strlit("\n");
        reveal_strlit(", ");
    }
    let mut out = owned("Task: ");
    append(&mut out, name);
    append(&mut out, "\n");
    push_opt_line(&mut out, "  Description: ", &t.description);
    append(&mut out, "  Project: ");
    append(&mut out, project);
    append(&mut out, "\n");
    append(&mut out, "  Spec file: ");
    append(&mut out, path);
    append(&mut out, "\n");
    append(&mut out, "  Commands:\n");
    push_bullets(&mut out, &t.cmds);
    push_opt_line(&mut out, "  Working directory: ", &t.workdir);
    let ghost before_env = out@;
    if !t.env.is_empty() {
        append(&mut out, "  Environment variables:\n");
        push_env_lines(&mut out, &t.env, true);
    }
    assert(out@ =~= before_env + section(
        env_spec_views(t.env.pairs()).len() > 0,
        "  Environment variables:\n"@,
        typed_env_lines(env_spec_views(t.env.pairs())),
    ));
    let ghost before_files = out@;
    if t.env_files.len() > 0 {
        append(&mut out, "  Env files: ");
        let joined = join_strings(&t.env_files, ", ");
        append(&mut out, joined.as_str());
        append(&mut out, "\n");
    }
    assert(out@ =~= before_files + section(
        t.env_files@.len() > 0,
        "  Env files: "@,
        join_with(t.env_files.deep_view(), ", "@) + "\n"@,
    ));
    let ghost before_conds = out@;
    if t.preconditions.len() > 0 {
        append(&mut out, "  Preconditions: ");
        let n = decimal_string(t.preconditions.len() as u64);
        append(&mut out, n.as_str());
        append(&mut out, " condition(s)\n");
    }
    assert(out@ =~= before_conds + section(
        t.preconditions@.len() > 0,
        "  Preconditions: "@,
        decimal(t.preconditions@.len()) + " condition(s)\n"@,
    ));
    if t.on_failure.is_some() {
        append(&mut out, "  On failure: configured\n");
    }
    proof {
        reveal_strlit("Task: ");
        reveal_strlit("  Project: ");
        reveal_strlit("  Spec file: ");
        reveal_strlit("  Commands:\n");
        reveal_strlit("  On failure: configured\n");
    }
    assert(out@ =~= task_info(name@, project@, path@, *t));
    out
}

/// The text of job `j`.
pub fn format_job_info(name: &str, project: &str, path: &str, j: &JobSpec) -> (r: String)
    ensures
        r@ == job_info(name@, project@, path@, *j),
{
    proof {
        reveal_strlit("\n");
    }
    let mut out = owned("Job: ");
    append(&mut out, name);
    append(&mut out, "\n");
    push_opt_line(&mut out, "  Description: ", &j.description);
    append(&mut out, "  Project: ");
    append(&mut out, project);
    append(&mut out, "\n");
    append(&mut out, "  Spec file: ");
    append(&mut out, path);
    append(&mut out, "\n");
    append(&mut out, "  Tasks (");
    let n = decimal_string(j.tasks.len() as u64);
    append(&mut out, n.as_str());
    append(&mut out, "):\n");
    push_bullets(&mut out, &j.tasks);
    let ghost before_env = out@;
    if !j.env.is_empty() {
        append(&mut out, "  Environment overrides:\n");
        push_env_lines(&mut out, &j.env, false);
    }
    assert(out@ =~= before_env + section(
        env_spec_views(j.env.pairs()).len() > 0,
        "  Environment overrides:\n"@,
        plain_env_lines(env_spec_views(j.env.pairs())),
    ));
    if j.on_failure.is_some() {
        append(&mut out, "  On failure: configured\n");
    }
    proof {
        reveal_strlit("Job: ");
        reveal_strlit("  Project: ");
        reveal_strlit("  Spec file: ");
        reveal_strlit("  Tasks (");
        reveal_strlit("):\n");
        reveal_strlit("  On failure: configured\n");
    }
    assert(out@ =~= job_info(name@, project@, path@, *j));
    out
}

/// The text of shell `s`.
pub fn format_shell_info(name: &str, project: &str, path: &str, s: &ShellSpec) -> (r: String)
    ensures
        r@ == shell_info(name@, project@, path@, *s),
{
    proof {
        reveal_strlit("\n");
    }
    let mut out = owned("Shell: ");
    append(&mut out, name);
    append(&mut out, "\n");
    push_opt_line(&mut out, "  Description: ", &s.description);
    append(&mut out, "  Project: ");
    append(&mut out, project);
    append(&mut out, "\n");
    append(&mut out, "  Spec file: ");
    append(&mut out, path);
    append(&mut out, "\n");
    push_opt_line(&mut out, "  Working directory: ", &s.workdir);
    let ghost before_env = out@;
    if !s.env.is_empty() {
        append(&mut out, "  Environment variables:\n");
        push_env_lines(&mut out, &s.env, false);
    }
    assert(out@ =~= before_env + section(
        env_spec_views(s.env.pairs()).len() > 0,
        "  Environment variables:\n"@,
        plain_env_lines(env_spec_views(s.env.pairs())),
    ));
    let ghost before_init = out@;
    if s.init_cmds.len() > 0 {
        append(&mut out, "  Init commands:\n");
        push_bullets(&mut out, &s.init_cmds);
    }
    assert(out@ =~= before_init + section(
        s.init_cmds@.len() > 0,
        "  Init commands:\n"@,
        bullet_lines(s.init_cmds.deep_view()),
    ));
    proof {
        reveal_strlit("Shell: ");
        reveal_strlit("  Project: ");
        reveal_strlit("  Spec file: ");
    }
    assert(out@ =~= shell_info(name@, project@, path@, *s));
    out
}

/// A task or a shell in brief: its name and description.
pub open spec fn task_brief(t: (Seq<char>, TaskSpec)) -> (Seq<char>, Option<Seq<char>>) {
    (t.0, opt_view(t.1.description))
}

/// A shell in brief.
pub open spec fn shell_brief(t: (Seq<char>, ShellSpec)) -> (Seq<char>, Option<Seq<char>>) {
    (t.0, opt_view(t.1.description))
}

/// A job in brief: its name, description and number of tasks.
pub open spec fn job_brief(t: (Seq<char>, JobSpec)) -> (Seq<char>, Option<Seq<char>>, nat) {
    (t.0, opt_view(t.1.description), t.1.tasks@.len())
}

/// The views of task summaries.
pub open spec fn task_summary_views(v: Seq<TaskSummary>) -> Seq<(Seq<char>, Option<Seq<char>>)> {
    v.map_values(|s: TaskSummary| (s.name@, opt_view(s.description)))
}

/// The views of shell summaries.
pub open spec fn shell_summary_views(v: Seq<ShellSummary>) -> Seq<(Seq<char>, Option<Seq<char>>)> {
    v.map_values(|s: ShellSummary| (s.name@, opt_view(s.description)))
}

/// The views of job summaries.
pub open spec fn job_summary_views(v: Seq<JobSummary>) -> Seq<(Seq<char>, Option<Seq<char>>, nat)> {
    v.map_values(|s: JobSummary| (s.name@, opt_view(s.description), s.task_count as nat))
}

/// The text of an optional description.
pub open spec fn opt_desc(d: Option<Seq<char>>) -> Seq<char> {
    match d {
        Some(s) => s,
        None => Seq::empty(),
    }
}

/// One `    - name[ - description]` line per entity.
pub open spec fn brief_lines(bs: Seq<(Seq<char>, Option<Seq<char>>)>) -> Seq<char>
    decreases bs.len(),
{
    if bs.len() == 0 {
        Seq::empty()
    } else {
        let b = bs.last();
        brief_lines(bs.drop_last()) + with_desc("    - "@ + b.0, opt_desc(b.1))
    }
}

/// One `    - name (N tasks)[ - description]` line per job.
pub open spec fn job_brief_lines(bs: Seq<(Seq<char>, Option<Seq<char>>, nat)>) -> Seq<char>
    decreases bs.len(),
{
    if bs.len() == 0 {
        Seq::empty()
    } else {
        let b = bs.last();
        job_brief_lines(bs.drop_last()) + with_desc(
            "    - "@ + b.0 + " ("@ + decimal(b.2) + " tasks)"@,
            opt_desc(b.1),
        )
    }
}

/// The summaries of the tasks of a project, spec file by spec file.
pub fn task_summaries(p: &Project) -> (r: Vec<TaskSummary>)
    ensures
        task_summary_views(r@) == file_tasks(p.specs@).map_values(|t: (Seq<char>, TaskSpec)| task_brief(t)),
{
    let mut out: Vec<TaskSummary> = Vec::new();
    let mut f: usize = 0;
    while f < p.specs.len()
        invariant
            0 <= f <= p.specs.len(),
            task_summary_views(out@) == file_tasks(p.specs@.take(f as int)).map_values(
                |t: (Seq<char>, TaskSpec)| task_brief(t),
            ),
        decreases p.specs.len() - f,
    {
        assert(p.specs@.take(f + 1).drop_last() =~= p.specs@.take(f as int));
        let spec = &p.specs[f].spec;
        let ghost mid = task_summary_views(out@);
        let n = spec.tasks.len();
        let mut t: usize = 0;
        while t < n
            invariant
                0 <= t <= n,
                n == spec.tasks.pairs().len(),
                task_summary_views(out@) == mid + spec.tasks.pairs().take(t as int).map_values(
                    |q: (String, TaskSpec)| (q.0@, opt_view(q.1.description)),
                ),
            decreases n - t,
        {
            let (name, task) = spec.tasks.entry(t);
            let ghost before = out@;
            out.push(TaskSummary { name: name.clone(), description: task.description.clone() });
            assert(task_summary_views(out@) =~= task_summary_views(before).push(
                (name@, opt_view(task.description)),
            ));
            assert(task_summary_views(out@) =~= mid + spec.tasks.pairs().take(t + 1).map_values(
                |q: (String, TaskSpec)| (q.0@, opt_view(q.1.description)),
            ));
            t = t + 1;
        }
        assert(spec.tasks.pairs().take(n as int) =~= spec.tasks.pairs());
        assert(task_summary_views(out@) =~= file_tasks(p.specs@.take(f + 1)).map_values(
            |t: (Seq<char>, TaskSpec)| task_brief(t),
        ));
        f = f + 1;
    }
    assert(p.specs@.take(p.specs.len() as int) =~= p.specs@);
    out
}

/// The summaries of the shells of a project, spec file by spec file.
pub fn shell_summaries(p: &Project) -> (r: Vec<ShellSummary>)
    ensures
        shell_summary_views(r@) == file_shells(p.specs@).map_values(|t: (Seq<char>, ShellSpec)| shell_brief(t)),
{
    let mut out: Vec<ShellSummary> = Vec::new();
    let mut f: usize = 0;
    while f < p.specs.len()
        invariant
            0 <= f <= p.specs.len(),
            shell_summary_views(out@) == file_shells(p.specs@.take(f as int)).map_values(
                |t: (Seq<char>, ShellSpec)| shell_brief(t),
            ),
        decreases p.specs.len() - f,
    {
        assert(p.specs@.take(f + 1).drop_last() =~= p.specs@.take(f as int));
        let spec = &p.specs[f].spec;
        let ghost mid = shell_summary_views(out@);
        let n = spec.shells.len();
        let mut t: usize = 0;
        while t < n
            invariant
                0 <= t <= n,
                n == spec.shells.pairs().len(),
                shell_summary_views(out@) == mid + spec.shells.pairs().take(t as int).map_values(
                    |q: (String, ShellSpec)| (q.0@, opt_view(q.1.description)),
                ),
            decreases n - t,
        {
            let (name, shell) = spec.shells.entry(t);
            let ghost before = out@;
            out.push(ShellSummary { name: name.clone(), description: shell.description.clone() });
            assert(shell_summary_views(out@) =~= shell_summary_views(before).push(
                (name@, opt_view(shell.description)),
            ));
            assert(shell_summary_views(out@) =~= mid + spec.shells.pairs().take(t + 1).map_values(
                |q: (String, ShellSpec)| (q.0@, opt_view(q.1.description)),
            ));
            t = t + 1;
        }
        assert(spec.shells.pairs().take(n as int) =~= spec.shells.pairs());
        assert(shell_summary_views(out@) =~= file_shells(p.specs@.take(f + 1)).map_values(
            |t: (Seq<char>, ShellSpec)| shell_brief(t),
        ));
        f = f + 1;
    }
    assert(p.specs@.take(p.specs.len() as int) =~= p.specs@);
    out
}

/// The summaries of the jobs of a project, spec file by spec file.
pub fn job_summaries(p: &Project) -> (r: Vec<JobSummary>)
    ensures
        job_summary_views(r@) == file_jobs(p.specs@).map_values(|t: (Seq<char>, JobSpec)| job_brief(t)),
{
    let mut out: Vec<JobSummary> = Vec::new();
    let mut f: usize = 0;
    while f < p.specs.len()
        invariant
            0 <= f <= p.specs.len(),
            job_summary_views(out@) == file_jobs(p.specs@.take(f as int)).map_values(
                |t: (Seq<char>, JobSpec)| job_brief(t),
            ),
        decreases p.specs.len() - f,
    {
        assert(p.specs@.take(f + 1).drop_last() =~= p.specs@.take(f as int));
        let spec = &p.specs[f].spec;
        let ghost mid = job_summary_views(out@);
        let n = spec.jobs.len();
        let mut t: usize = 0;
        while t < n
            invariant
                0 <= t <= n,
                n == spec.jobs.pairs().len(),
                job_summary_views(out@) == mid + spec.jobs.pairs().take(t as int).map_values(
                    |q: (String, JobSpec)| (q.0@, opt_view(q.1.description), q.1.tasks@.len()),
                ),
            decreases n - t,
        {
            let (name, job) = spec.jobs.entry(t);
            let ghost before = out@;
            out.push(
                JobSummary {
                    name: name.clone(),
                    description: job.description.clone(),
                    task_count: job.tasks.len(),
                },
            );
            assert(job_summary_views(out@) =~= job_summary_views(before).push(
                (name@, opt_view(job.description), job.tasks@.len()),
            ));
            assert(job_summary_views(out@) =~= mid + spec.jobs.pairs().take(t + 1).map_values(
                |q: (String, JobSpec)| (q.0@, opt_view(q.1.description), q.1.tasks@.len()),
            ));
            t = t + 1;
        }
        assert(spec.jobs.pairs().take(n as int) =~= spec.jobs.pairs());
        assert(job_summary_views(out@) =~= file_jobs(p.specs@.take(f + 1)).map_values(
            |t: (Seq<char>, JobSpec)| job_brief(t),
        ));
        f = f + 1;
    }
    assert(p.specs@.take(p.specs.len() as int) =~= p.specs@);
    out
}

/// The paths of the spec files of a project.
pub open spec fn spec_paths(specs: Seq<LoadedSpec>) -> Seq<Seq<char>> {
    specs.map_values(|s: LoadedSpec| s.path@)
}

fn paths_of(p: &Project) -> (r: Vec<String>)
    ensures
        r.deep_view() == spec_paths(p.specs@),
{
    let mut out: Vec<String> = Vec::new();
    let mut i: usize = 0;
    while i < p.specs.len()
        invariant
            0 <= i <= p.specs.len(),
            out.deep_view() == spec_paths(p.specs@.take(i as int)),
        decreases p.specs.len() - i,
    {
        let ghost before = out.deep_view();
        out.push(p.specs[i].path.clone());
        assert(out.deep_view() =~= before.push(p.specs@[i as int].path@));
        assert(out.deep_view() =~= spec_paths(p.specs@.take(i + 1)));
        i = i + 1;
    }
    assert(p.specs@.take(p.specs.len() as int) =~= p.specs@);
    out
}

/// Whether `o` describes project `p` in detail.
pub open spec fn describes_project_detail(o: ProjectDetailOutput, p: Project) -> bool {
    &&& o.name@ == project_name_of(p.root@)
    &&& o.root@ == p.root@
    &&& o.spec_files.deep_view() == spec_paths(p.specs@)
    &&& task_summary_views(o.tasks@) == file_tasks(p.specs@).map_values(|t: (Seq<char>, TaskSpec)| task_brief(t))
    &&& job_summary_views(o.jobs@) == file_jobs(p.specs@).map_values(|t: (Seq<char>, JobSpec)| job_brief(t))
    &&& shell_summary_views(o.shells@) == file_shells(p.specs@).map_values(|t: (Seq<char>, ShellSpec)| shell_brief(t))
}

/// A project in detail: its spec files and what they declare.
pub fn project_detail_output(p: &Project) -> (r: ProjectDetailOutput)
    ensures
        describes_project_detail(r, *p),
{
    ProjectDetailOutput {
        name: EntityResolver::project_name(p),
        root: p.root.clone(),
        spec_files: paths_of(p),
        tasks: task_summaries(p),
        jobs: job_summaries(p),
        shells: shell_summaries(p),
    }
}

/// What `info project` shows of project `p`.
pub open spec fn project_info(p: Project) -> Seq<char> {
    let c = entity_counts(p.specs@);
    "Project: "@ + project_name_of(p.root@) + "\n"@ + "  Root: "@ + p.root@ + "\n"@
        + "  Spec files: "@ + decimal(p.specs@.len()) + "\n"@ + "  Tasks: "@ + decimal(c.0)
        + "\n"@ + "  Jobs: "@ + decimal(c.1) + "\n"@ + "  Shells: "@ + decimal(c.2) + "\n"@
        + section(
        c.0 > 0,
        "\n  Available tasks:\n"@,
        brief_lines(file_tasks(p.specs@).map_values(|t: (Seq<char>, TaskSpec)| task_brief(t))),
    ) + section(
        c.1 > 0,
        "\n  Available jobs:\n"@,
        job_brief_lines(file_jobs(p.specs@).map_values(|t: (Seq<char>, JobSpec)| job_brief(t))),
    ) + section(
        c.2 > 0,
        "\n  Available shells:\n"@,
        brief_lines(file_shells(p.specs@).map_values(|t: (Seq<char>, ShellSpec)| shell_brief(t))),
    )
}

fn push_briefs(out: &mut String, names: &Vec<String>, descs: &Vec<Option<String>>)
    requires
        names@.len() == descs@.len(),
    ensures
        final(out)@ == old(out)@ + brief_lines(
            Seq::new(names@.len(), |i: int| (names@[i]@, opt_view(descs@[i]))),
        ),
{
    let ghost bs = Seq::new(names@.len(), |i: int| (names@[i]@, opt_view(descs@[i])));
    let ghost head = out@;
    let mut i: usize = 0;
    while i < names.len()
        invariant
            0 <= i <= names.len(),
            names@.len() == descs@.len(),
            bs == Seq::new(names@.len(), |i: int| (names@[i]@, opt_view(descs@[i]))),
            out@ == head + brief_lines(bs.take(i as int)),
        decreases names.len() - i,
    {
        assert(bs.take(i + 1).drop_last() =~= bs.take(i as int));
        let d: &str = match &descs[i] {
            Some(s) => s.as_str(),
            None => {
                proof {
                    reveal_strlit("");
                    assert(""@ =~= Seq::<char>::empty());
                }
                ""
            },
        };
        let line = concat("    - ", names[i].as_str());
        let ghost before = out@;
        append(out, line.as_str());
        if !d.is_empty() {
            append(out, " - ");
            append(out, d);
        }
        append(out, "\n");
        assert(out@ =~= before + with_desc("    - "@ + bs[i as int].0, opt_desc(bs[i as int].1)));
        assert(out@ =~= head + brief_lines(bs.take(i + 1)));
        i = i + 1;
    }
    assert(bs.take(names.len() as int) =~= bs);
}

fn task_brief_parts(v: &Vec<TaskSummary>) -> (r: (Vec<String>, Vec<Option<String>>))
    ensures
        r.0@.len() == v@.len(),
        r.1@.len() == v@.len(),
        Seq::new(r.0@.len(), |i: int| (r.0@[i]@, opt_view(r.1@[i]))) == task_summary_views(v@),
{
    let mut names: Vec<String> = Vec::new();
    let mut descs: Vec<Option<String>> = Vec::new();
    let mut i: usize = 0;
    while i < v.len()
        invariant
            0 <= i <= v.len(),
            names@.len() == i,
            descs@.len() == i,
            forall|j: int| 0 <= j < i ==> (#[trigger] names@[j])@ == v@[j].name@ && opt_view(descs@[j]) == opt_view(v@[j].description),
        decreases v.len() - i,
    {
        names.push(v[i].name.clone());
        descs.push(v[i].description.clone());
        i = i + 1;
    }
    assert(Seq::new(names@.len(), |i: int| (names@[i]@, opt_view(descs@[i]))) =~= task_summary_views(v@));
    (names, descs)
}

fn shell_brief_parts(v: &Vec<ShellSummary>) -> (r: (Vec<String>, Vec<Option<String>>))
    ensures
        r.0@.len() == v@.len(),
        r.1@.len() == v@.len(),
        Seq::new(r.0@.len(), |i: int| (r.0@[i]@, opt_view(r.1@[i]))) == shell_summary_views(v@),
{
    let mut names: Vec<String> = Vec::new();
    let mut descs: Vec<Option<String>> = Vec::new();
    let mut i: usize = 0;
    while i < v.len()
        invariant
            0 <= i <= v.len(),
            names@.len() == i,
            descs@.len() == i,
            forall|j: int| 0 <= j < i ==> (#[trigger] names@[j])@ == v@[j].name@ && opt_view(descs@[j]) == opt_view(v@[j].description),
        decreases v.len() - i,
    {
        names.push(v[i].name.clone());
        descs.push(v[i].description.clone());
        i = i + 1;
    }
    assert(Seq::new(names@.len(), |i: int| (names@[i]@, opt_view(descs@[i]))) =~= shell_summary_views(v@));
    (names, descs)
}

fn push_job_briefs(out: &mut String, v: &Vec<JobSummary>)
    ensures
        final(out)@ == old(out)@ + job_brief_lines(job_summary_views(v@)),
{
    let ghost bs = job_summary_views(v@);
    let ghost head = out@;
    let mut i: usize = 0;
    while i < v.len()
        invariant
            0 <= i <= v.len(),
            bs == job_summary_views(v@),
            out@ == head + job_brief_lines(bs.take(i as int)),
        decreases v.len() - i,
    {
        assert(bs.take(i + 1).drop_last() =~= bs.take(i as int));
        let s = &v[i];
        let d: &str = match &s.description {
            Some(x) => x.as_str(),
            None => {
                proof {
                    reveal_strlit("");
                    assert(""@ =~= Seq::<char>::empty());
                }
                ""
            },
        };
        let n = decimal_string(s.task_count as u64);
        let ghost before = out@;
        append(out, "    - ");
        append(out, s.name.as_str());
        append(out, " (");
        append(out, n.as_str());
        append(out, " tasks)");
        if !d.is_empty() {
            append(out, " - ");
            append(out, d);
        }
        append(out, "\n");
        assert(out@ =~= before + with_desc(
            "    - "@ + bs[i as int].0 + " ("@ + decimal(bs[i as int].2) + " tasks)"@,
            opt_desc(bs[i as int].1),
        ));
        assert(out@ =~= head + job_brief_lines(bs.take(i + 1)));
        i = i + 1;
    }
    assert(bs.take(v.len() as int) =~= bs);
}

/// The text of project `p`.
pub fn format_project_info(p: &Project) -> (r: String)
    requires
        entity_counts(p.specs@).0 <= usize::MAX,
        entity_counts(p.specs@).1 <= usize::MAX,
        entity_counts(p.specs@).2 <= usize::MAX,
    ensures
        r@ == project_info(*p),
{
    proof {
        reveal_strlit("\n");
    }
    let (tc, jc, sc) = count_entities(p);
    let name = EntityResolver::project_name(p);
    let mut out = owned("Project: ");
    append(&mut out, name.as_str());
    append(&mut out, "\n");
    append(&mut out, "  Root: ");
    append(&mut out, p.root.as_str());
    append(&mut out, "\n");
    append(&mut out, "  Spec files: ");
    let n = decimal_string(p.specs.len() as u64);
    append(&mut out, n.as_str());
    append(&mut out, "\n");
    append(&mut out, "  Tasks: ");
    let a = decimal_string(tc as u64);
    append(&mut out, a.as_str());
    append(&mut out, "\n");
    append(&mut out, "  Jobs: ");
    let b = decimal_string(jc as u64);
    append(&mut out, b.as_str());
    append(&mut out, "\n");
    append(&mut out, "  Shells: ");
    let c = decimal_string(sc as u64);
    append(&mut out, c.as_str());
    append(&mut out, "\n");
    let ghost head = out@;
    if tc > 0 {
        append(&mut out, "\n  Available tasks:\n");
        let ts = task_summaries(p);
        let (names, descs) = task_brief_parts(&ts);
        push_briefs(&mut out, &names, &descs);
    }
    let ghost mid1 = out@;
    assert(mid1 =~= head + section(
        tc > 0,
        "\n  Available tasks:\n"@,
        brief_lines(file_tasks(p.specs@).map_values(|t: (Seq<char>, TaskSpec)| task_brief(t))),
    ));
    if jc > 0 {
        append(&mut out, "\n  Available jobs:\n");
        let js = job_summaries(p);
        push_job_briefs(&mut out, &js);
    }
    let ghost mid2 = out@;
    assert(mid2 =~= mid1 + section(
        jc > 0,
        "\n  Available jobs:\n"@,
        job_brief_lines(file_jobs(p.specs@).map_values(|t: (Seq<char>, JobSpec)| job_brief(t))),
    ));
    if sc > 0 {
        append(&mut out, "\n  Available shells:\n");
        let ss = shell_summaries(p);
        let (names, descs) = shell_brief_parts(&ss);
        push_briefs(&mut out, &names, &descs);
    }
    assert(out@ =~= mid2 + section(
        sc > 0,
        "\n  Available shells:\n"@,
        brief_lines(file_shells(p.specs@).map_values(|t: (Seq<char>, ShellSpec)| shell_brief(t))),
    ));
    proof {
        reveal_strlit("Project: ");
        reveal_strlit("  Root: ");
        reveal_strlit("  Spec files: ");
        reveal_strlit("  Tasks: ");
        reveal_strlit("  Jobs: ");
        reveal_strlit("  Shells: ");
    }
    assert(out@ =~= project_info(*p));
    out
}

/// Whether `i` is the first project of `ps` named `name`.
pub open spec fn is_first_named(ps: Seq<Project>, name: Seq<char>, i: int) -> bool {
    &&& 0 <= i < ps.len()
    &&& project_name_of(ps[i].root@) == name
    &&& forall|j: int| 0 <= j < i ==> project_name_of(#[trigger] ps[j].root@) != name
}

/// The position of the first project named `name`, if any.
pub open spec fn first_named(ps: Seq<Project>, name: Seq<char>) -> Option<int> {
    if exists|i: int| is_first_named(ps, name, i) {
        Some(choose|i: int| is_first_named(ps, name, i))
    } else {
        None
    }
}

/// The first project named `name`, else `EntityNotFound` for a project.
pub fn find_project<'a>(name: &str, projects: &'a [Project]) -> (r: Result<&'a Project, MeriadocError>)
    ensures
        r is Ok == (first_named(projects@, name@) is Some),
        r matches Ok(p) ==> *p == projects@[first_named(projects@, name@)->0],
        r matches Err(e) ==> (e matches MeriadocError::EntityNotFound { kind, name: n } && kind@
            == "project"@ && n@ == name@),
{
    let mut i: usize = 0;
    while i < projects.len()
        invariant
            0 <= i <= projects.len(),
            forall|j: int| 0 <= j < i ==> project_name_of(#[trigger] projects@[j].root@) != name@,
        decreases projects.len() - i,
    {
        let n = EntityResolver::project_name(&projects[i]);
        if str_eq(n.as_str(), name) {
            assert(is_first_named(projects@, name@, i as int));
            proof {
                let k = choose|k: int| is_first_named(projects@, name@, k);
                if k < i {
                    assert(project_name_of(projects@[k].root@) != name@);
                } else if k > i {
                    assert(project_name_of(projects@[i as int].root@) != name@);
                }
            }
            return Ok(&projects[i]);
        }
        i = i + 1;
    }
    proof {
        reveal_strlit("project");
    }
    Err(MeriadocError::EntityNotFound { kind: owned("project"), name: owned(name) })
}

/// What `info` hands back: a text to print, or a value for programs to read.
#[derive(Debug)]
pub enum InfoOutput {
    Text(String),
    Task(TaskOutput),
    Job(JobOutput),
    Shell(ShellOutput),
    Project(ProjectDetailOutput),
}

/// What `info task` gives for `name`, found as the single match `m`.
pub open spec fn shows_task(o: InfoOutput, projects: Seq<Project>, name: Seq<char>, json: bool) -> bool {
    let m = matches_of(projects, EntityKind::Task, name)[0];
    let p = projects[m.0];
    let f = p.specs@[m.1];
    let t = f.spec.tasks@[qualified_parts(name).1];
    if json {
        o matches InfoOutput::Task(out) && describes_task(out, name, project_name_of(p.root@), t)
    } else {
        o matches InfoOutput::Text(s) && s@ == task_info(name, project_name_of(p.root@), f.path@, t)
    }
}

/// What `info job` gives for `name`.
pub open spec fn shows_job(o: InfoOutput, projects: Seq<Project>, name: Seq<char>, json: bool) -> bool {
    let m = matches_of(projects, EntityKind::Job, name)[0];
    let p = projects[m.0];
    let f = p.specs@[m.1];
    let j = f.spec.jobs@[qualified_parts(name).1];
    if json {
        o matches InfoOutput::Job(out) && describes_job(out, name, project_name_of(p.root@), j)
    } else {
        o matches InfoOutput::Text(s) && s@ == job_info(name, project_name_of(p.root@), f.path@, j)
    }
}

/// What `info shell` gives for `name`.
pub open spec fn shows_shell(o: InfoOutput, projects: Seq<Project>, name: Seq<char>, json: bool) -> bool {
    let m = matches_of(projects, EntityKind::Shell, name)[0];
    let p = projects[m.0];
    let f = p.specs@[m.1];
    let sh = f.spec.shells@[qualified_parts(name).1];
    if json {
        o matches InfoOutput::Shell(out) && describes_shell(out, name, project_name_of(p.root@), sh)
    } else {
        o matches InfoOutput::Text(s) && s@ == shell_info(name, project_name_of(p.root@), f.path@, sh)
    }
}

/// What `info project` gives for `name`.
pub open spec fn shows_project(o: InfoOutput, projects: Seq<Project>, name: Seq<char>, json: bool) -> bool {
    let p = projects[first_named(projects, name)->0];
    if json {
        o matches InfoOutput::Project(out) && describes_project_detail(out, p)
    } else {
        o matches InfoOutput::Text(s) && s@ == project_info(p)
    }
}

/// Shows a task, a job, a shell or a project in detail, as text or as a value.
pub fn handle_info(target: InfoTarget, name: String, app: &App, json: bool) -> (r: Result<
    InfoOutput,
    MeriadocError,
>)
    requires
        counts_fit(app.projects@),
    ensures
        match target {
            InfoTarget::Task => {
                let c = matches_of(app.projects@, EntityKind::Task, name@).len();
                &&& (r is Ok) == (c == 1)
                &&& r matches Ok(o) ==> shows_task(o, app.projects@, name@, json)
                &&& r matches Err(e) ==> lookup_error(e, c, "task"@, name@)
            },
            InfoTarget::Job => {
                let c = matches_of(app.projects@, EntityKind::Job, name@).len();
                &&& (r is Ok) == (c == 1)
                &&& r matches Ok(o) ==> shows_job(o, app.projects@, name@, json)
                &&& r matches Err(e) ==> lookup_error(e, c, "job"@, name@)
            },
            InfoTarget::Shell => {
                let c = matches_of(app.projects@, EntityKind::Shell, name@).len();
                &&& (r is Ok) == (c == 1)
                &&& r matches Ok(o) ==> shows_shell(o, app.projects@, name@, json)
                &&& r matches Err(e) ==> lookup_error(e, c, "shell"@, name@)
            },
            InfoTarget::Project => {
                &&& (r is Ok) == (first_named(app.projects@, name@) is Some)
                &&& r matches Ok(o) ==> shows_project(o, app.projects@, name@, json)
                &&& r matches Err(e) ==> (e matches MeriadocError::EntityNotFound { kind, name: n }
                    && kind@ == "project"@ && n@ == name@)
            },
        },
{
    match target {
        InfoTarget::Task => {
            let t = EntityResolver::resolve_task(name.as_str(), &app.projects)?;
            let project = EntityResolver::project_name(t.project);
            if json {
                Ok(InfoOutput::Task(task_output(name.as_str(), project.as_str(), t.spec)))
            } else {
                Ok(InfoOutput::Text(format_task_info(name.as_str(), project.as_str(), t.spec_file.path.as_str(), t.spec)))
            }
        },
        InfoTarget::Job => {
            let j = EntityResolver::resolve_job(name.as_str(), &app.projects)?;
            let project = EntityResolver::project_name(j.project);
            if json {
                Ok(InfoOutput::Job(job_output(name.as_str(), project.as_str(), j.spec)))
            } else {
                Ok(InfoOutput::Text(format_job_info(name.as_str(), project.as_str(), j.spec_file.path.as_str(), j.spec)))
            }
        },
        InfoTarget::Shell => {
            let s = EntityResolver::resolve_shell(name.as_str(), &app.projects)?;
            let project = EntityResolver::project_name(s.project);
            if json {
                Ok(InfoOutput::Shell(shell_output(name.as_str(), project.as_str(), s.spec)))
            } else {
                Ok(InfoOutput::Text(format_shell_info(name.as_str(), project.as_str(), s.spec_file.path.as_str(), s.spec)))
            }
        },
        InfoTarget::Project => {
            let p = find_project(name.as_str(), &app.projects)?;
            if json {
                Ok(InfoOutput::Project(project_detail_output(p)))
            } else {
                assert(entity_counts(app.projects@[first_named(app.projects@, name@)->0].specs@).0 <= usize::MAX);
                Ok(InfoOutput::Text(format_project_info(p)))
            }
        },
    }
}

} // verus!
