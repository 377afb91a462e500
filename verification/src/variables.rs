//! What the `env` commands show: a task's, job's or shell's variables, the saved value
//! files, and the template that `env init` writes.
use vstd::prelude::*;

use crate::app::App;
use crate::cli::EnvTarget;
use crate::env::ResolvedEnv;
use crate::error::MeriadocError;
use crate::output::{env_spec_views, env_to_output, env_output_views, EnvVarOutput, ListOutput};
use crate::order::{lemma_ordered_members, ordered};
use crate::project::Project;
use crate::resolver::{
    lookup_error, matches_of, project_name_of, qualified_parts, EntityResolver,
};
use crate::run::sorted_keys;
use crate::spec::{
    clone_strings, var_type_name, EntityKind, EnvVarModel, EnvVarSpec, JobSpec, ShellSpec,
    TaskSpec,
};
use crate::strmap::{has_key, StrMap};
use crate::text::{concat, join_strings, join_with, owned};

verus! {

fn append(out: &mut String, t: &str)
    ensures
        final(out)@ == old(out)@ + t@,
{
    *out = concat(out.as_str(), t);
}

/// `s` padded with spaces on the right to `w` characters, as `{:<w}` writes it.
pub open spec fn padded(s: Seq<char>, w: nat) -> Seq<char> {
    if s.len() < w {
        s + Seq::new((w - s.len()) as nat, |i: int| ' ')
    } else {
        s
    }
}

fn push_padded(out: &mut String, s: &str, w: usize)
    ensures
        final(out)@ == old(out)@ + padded(s@, w as nat),
{
    let ghost head = out@;
    append(out, s);
    let n = crate::text::str_chars(s).len();
    if n < w {
        let mut i: usize = n;
        while i < w
            invariant
                n <= i <= w,
                n == s@.len(),
                out@ == head + s@ + Seq::new((i - n) as nat, |j: int| ' '),
            decreases w - i,
        {
            append(out, " ");
            proof {
                reveal_strlit(" ");
            }
            assert(out@ =~= head + s@ + Seq::new((i + 1 - n) as nat, |j: int| ' '));
            i = i + 1;
        }
    } else {
        assert(out@ =~= head + padded(s@, w as nat));
    }
}

/// What the table shows as a variable's default: `(required)` for a required variable
/// without one, else the default or `-`.
pub open spec fn default_cell(m: EnvVarModel) -> Seq<char> {
    if m.required && m.default is None {
        "(required)"@
    } else {
        match m.default {
            Some(d) => d,
            None => "-"@,
        }
    }
}

/// What the table shows as a variable's options: them joined by `, `, or `-`.
pub open spec fn options_cell(m: EnvVarModel) -> Seq<char> {
    if m.options.len() == 0 {
        "-"@
    } else {
        join_with(m.options, ", "@)
    }
}

fn default_cell_str(spec: &EnvVarSpec) -> (r: &str)
    ensures
        r@ == default_cell(spec@),
{
    if spec.required && spec.default.is_none() {
        "(required)"
    } else {
        match &spec.default {
            Some(d) => d.as_str(),
            None => "-",
        }
    }
}

/// The row of variable `k`.
pub open spec fn table_row(k: Seq<char>, m: EnvVarModel) -> Seq<char> {
    "  "@ + padded(k, 20) + " "@ + padded(var_type_name(m.var_type), 10) + " "@ + padded(
        default_cell(m),
        20,
    ) + " "@ + options_cell(m) + "\n"@
}

/// One row per variable of `keys`, in that order.
pub open spec fn table_rows(keys: Seq<Seq<char>>, env: Map<Seq<char>, EnvVarSpec>) -> Seq<char>
    decreases keys.len(),
{
    if keys.len() == 0 {
        Seq::empty()
    } else {
        table_rows(keys.drop_last(), env) + table_row(keys.last(), env[keys.last()]@)
    }
}

/// The two heading lines of the table, padded as the rows are.
pub open spec fn table_head() -> Seq<char> {
    "  NAME                 TYPE       DEFAULT              OPTIONS\n"@ + "  ----                 ----       -------              -------\n"@
}

fn push_row(out: &mut String, k: &str, spec: &EnvVarSpec)
    ensures
        final(out)@ == old(out)@ + table_row(k@, spec@),
{
    let ghost head = out@;
    append(out, "  ");
    push_padded(out, k, 20);
    append(out, " ");
    push_padded(out, spec.var_type.as_str(), 10);
    append(out, " ");
    push_padded(out, default_cell_str(spec), 20);
    append(out, " ");
    if spec.options.len() == 0 {
        append(out, "-");
    } else {
        let o = join_strings(&spec.options, ", ");
        append(out, o.as_str());
    }
    append(out, "\n");
    assert(out@ =~= head + table_row(k@, spec@));
}

fn push_head(out: &mut String)
    ensures
        final(out)@ == old(out)@ + table_head(),
{
    append(out, "  NAME                 TYPE       DEFAULT              OPTIONS\n");
    append(out, "  ----                 ----       -------              -------\n");
}

/// The table of variables of `env` with its files: the variables sorted by name, then the
/// files.
pub open spec fn env_table(env: StrMap<EnvVarSpec>, files: Seq<Seq<char>>) -> Seq<char> {
    if env@.dom().len() == 0 && files.len() == 0 {
        "  No environment variables defined.\n"@
    } else {
        (if env@.dom().len() > 0 {
            table_head() + table_rows(ordered(env.key_seq()), env@)
        } else {
            Seq::empty()
        }) + if files.len() > 0 {
            "\n  Env files: "@ + join_with(files, ", "@) + "\n"@
        } else {
            Seq::empty()
        }
    }
}

fn push_rows(out: &mut String, env: &StrMap<EnvVarSpec>)
    ensures
        final(out)@ == old(out)@ + table_rows(ordered(env.key_seq()), env@),
{
    let keys = sorted_keys(env);
    let _n = env.len();
    let ghost ks = keys.deep_view();
    let ghost head = out@;
    let mut i: usize = 0;
    while i < keys.len()
        invariant
            0 <= i <= keys.len(),
            ks == keys.deep_view(),
            ks == ordered(env.key_seq()),
            crate::strmap::distinct_keys(env.pairs()),
            out@ == head + table_rows(ks.take(i as int), env@),
        decreases keys.len() - i,
    {
        assert(ks.take(i + 1).drop_last() =~= ks.take(i as int));
        let k = &keys[i];
        assert(ks[i as int] == k@);
        match env.get(k.as_str()) {
            Some(spec) => {
                let ghost before = out@;
                push_row(out, k.as_str(), spec);
                assert(out@ =~= head + table_rows(ks.take(i + 1), env@));
            },
            None => {
                proof {
                    lemma_ordered_members(env.key_seq(), k@);
                    assert(ks.contains(k@));
                    let j = choose|j: int| 0 <= j < env.key_seq().len() && env.key_seq()[j] == k@;
                    env.lemma_view();
                    assert(env.key_seq()[j] == env.pairs()[j].0@);
                }
            },
        }
        i = i + 1;
    }
    assert(ks.take(keys.len() as int) =~= ks);
}

fn push_env_table(out: &mut String, env: &StrMap<EnvVarSpec>, files: &Vec<String>)
    ensures
        final(out)@ == old(out)@ + env_table(*env, files.deep_view()),
{
    let ghost head = out@;
    let empty = env.len() == 0;
    if empty && files.len() == 0 {
        append(out, "  No environment variables defined.\n");
        return;
    }
    if !empty {
        push_head(out);
        push_rows(out, env);
    }
    let ghost mid = out@;
    if files.len() > 0 {
        append(out, "\n  Env files: ");
        let j = join_strings(files, ", ");
        append(out, j.as_str());
        append(out, "\n");
    }
    assert(out@ =~= head + env_table(*env, files.deep_view()));
}

/// The task that `name` resolves to among `projects`, when it resolves to exactly one.
pub open spec fn resolved_task(projects: Seq<Project>, name: Seq<char>) -> TaskSpec {
    let m = matches_of(projects, EntityKind::Task, name)[0];
    projects[m.0].specs@[m.1].spec.tasks@[qualified_parts(name).1]
}

/// One `      KEY [type]: DEFAULT` line per variable, in the order of `env`.
pub open spec fn inline_rows(env: Seq<(Seq<char>, EnvVarModel)>) -> Seq<char>
    decreases env.len(),
{
    if env.len() == 0 {
        Seq::empty()
    } else {
        let e = env.last();
        inline_rows(env.drop_last()) + "      "@ + e.0 + " ["@ + var_type_name(e.1.var_type) + "]: "@
            + default_cell(e.1) + "\n"@
    }
}

/// The lines of a task's variables in a job's listing.
pub open spec fn task_env_lines(t: TaskSpec) -> Seq<char> {
    if t.env@.dom().len() == 0 && t.env_files@.len() == 0 {
        "      (no env vars)\n"@
    } else {
        inline_rows(env_spec_views(t.env.pairs())) + if t.env_files@.len() > 0 {
            "      env_files: "@ + join_with(t.env_files.deep_view(), ", "@) + "\n"@
        } else {
            Seq::empty()
        }
    }
}

/// The variables of each task of a job that resolves to a single task.
pub open spec fn job_task_envs(projects: Seq<Project>, names: Seq<Seq<char>>) -> Seq<char>
    decreases names.len(),
{
    if names.len() == 0 {
        Seq::empty()
    } else {
        let n = names.last();
        job_task_envs(projects, names.drop_last()) + if matches_of(projects, EntityKind::Task, n).len()
            == 1 {
            "\n    Task: "@ + n + "\n"@ + task_env_lines(resolved_task(projects, n))
        } else {
            Seq::empty()
        }
    }
}

/// The first lines of `env show`.
pub open spec fn show_head(kind: Seq<char>, name: Seq<char>, project: Seq<char>) -> Seq<char> {
    "Environment for "@ + kind + ": "@ + name + "\n"@ + "  Project: "@ + project + "\n\n"@
}

/// What `env show job` prints after its first lines.
pub open spec fn job_env_body(projects: Seq<Project>, j: JobSpec) -> Seq<char> {
    "  Job-level environment:\n"@ + (if j.env@.dom().len() == 0 {
        "    (none)\n"@
    } else {
        env_table(j.env, Seq::empty())
    }) + "\n  Task environments:\n"@ + job_task_envs(projects, j.tasks.deep_view())
}

fn push_inline_rows(out: &mut String, env: &StrMap<EnvVarSpec>)
    ensures
        final(out)@ == old(out)@ + inline_rows(env_spec_views(env.pairs())),
{
    let ghost head = out@;
    let n = env.len();
    let mut i: usize = 0;
    while i < n
        invariant
            0 <= i <= n,
            n == env.pairs().len(),
            out@ == head + inline_rows(env_spec_views(env.pairs().take(i as int))),
        decreases n - i,
    {
        let (k, spec) = env.entry(i);
        assert(env_spec_views(env.pairs().take(i + 1)).drop_last() =~= env_spec_views(
            env.pairs().take(i as int),
        ));
        assert(env_spec_views(env.pairs().take(i + 1)).last() == (k@, spec@));
        append(out, "      ");
        append(out, k.as_str());
        append(out, " [");
        append(out, spec.var_type.as_str());
        append(out, "]: ");
        append(out, default_cell_str(spec));
        append(out, "\n");
        assert(out@ =~= head + inline_rows(env_spec_views(env.pairs().take(i + 1))));
        i = i + 1;
    }
    assert(env.pairs().take(n as int) =~= env.pairs());
}

fn push_task_env_lines(out: &mut String, t: &TaskSpec)
    ensures
        final(out)@ == old(out)@ + task_env_lines(*t),
{
    let ghost head = out@;
    if t.env.len() == 0 && t.env_files.len() == 0 {
        append(out, "      (no env vars)\n");
        return;
    }
    push_inline_rows(out, &t.env);
    let ghost mid = out@;
    if t.env_files.len() > 0 {
        append(out, "      env_files: ");
        let j = join_strings(&t.env_files, ", ");
        append(out, j.as_str());
        append(out, "\n");
    }
    assert(out@ =~= head + task_env_lines(*t));
}

fn push_job_task_envs(out: &mut String, projects: &Vec<Project>, names: &Vec<String>)
    ensures
        final(out)@ == old(out)@ + job_task_envs(projects@, names.deep_view()),
{
    let ghost head = out@;
    let ghost ns = names.deep_view();
    let mut i: usize = 0;
    while i < names.len()
        invariant
            0 <= i <= names.len(),
            ns == names.deep_view(),
            out@ == head + job_task_envs(projects@, ns.take(i as int)),
        decreases names.len() - i,
    {
        assert(ns.take(i + 1).drop_last() =~= ns.take(i as int));
        let n = &names[i];
        assert(ns[i as int] == n@);
        let ghost before = out@;
        match EntityResolver::resolve_task(n.as_str(), projects.as_slice()) {
            Ok(t) => {
                append(out, "\n    Task: ");
                append(out, n.as_str());
                append(out, "\n");
                push_task_env_lines(out, t.spec);
            },
            Err(_) => {},
        }
        assert(out@ =~= head + job_task_envs(projects@, ns.take(i + 1)));
        i = i + 1;
    }
    assert(ns.take(names.len() as int) =~= ns);
}

fn format_job_env(name: &str, project: &str, projects: &Vec<Project>, j: &JobSpec) -> (r: String)
    ensures
        r@ == show_head("job"@, name@, project@) + job_env_body(projects@, *j),
{
    let mut out = owned("Environment for ");
    append(&mut out, "job");
    append(&mut out, ": ");
    append(&mut out, name);
    append(&mut out, "\n");
    append(&mut out, "  Project: ");
    append(&mut out, project);
    append(&mut out, "\n\n");
    let ghost head = out@;
    append(&mut out, "  Job-level environment:\n");
    if j.env.len() == 0 {
        append(&mut out, "    (none)\n");
    } else {
        let no_files: Vec<String> = Vec::new();
        assert(no_files.deep_view() =~= Seq::<Seq<char>>::empty());
        push_env_table(&mut out, &j.env, &no_files);
    }
    append(&mut out, "\n  Task environments:\n");
    push_job_task_envs(&mut out, projects, &j.tasks);
    proof {
        reveal_strlit("Environment for ");
    }
    assert(out@ =~= show_head("job"@, name@, project@) + job_env_body(projects@, *j));
    out
}

fn format_show(kind: &str, name: &str, project: &str, env: &StrMap<EnvVarSpec>, files: &Vec<String>) -> (r: String)
    ensures
        r@ == show_head(kind@, name@, project@) + env_table(*env, files.deep_view()),
{
    let mut out = owned("Environment for ");
    append(&mut out, kind);
    append(&mut out, ": ");
    append(&mut out, name);
    append(&mut out, "\n");
    append(&mut out, "  Project: ");
    append(&mut out, project);
    append(&mut out, "\n\n");
    push_env_table(&mut out, env, files);
    proof {
        reveal_strlit("Environment for ");
    }
    assert(out@ =~= show_head(kind@, name@, project@) + env_table(*env, files.deep_view()));
    out
}

/// The variables of a task, job or shell, for programs to read.
#[derive(Debug)]
pub struct EnvShowOutput {
    pub entity_type: String,
    pub entity_name: String,
    pub project: String,
    pub env: Vec<(String, EnvVarOutput)>,
    pub env_files: Vec<String>,
}

/// What `env show` hands back: a text to print or a value for programs to read.
#[derive(Debug)]
pub enum EnvShowResult {
    Text(String),
    Json(EnvShowOutput),
}

/// Whether `o` describes the variables of an entity of kind `kind`, named `name` in
/// project `project`, with inline variables `env` and files `files`.
pub open spec fn describes_env(
    o: EnvShowOutput,
    kind: Seq<char>,
    name: Seq<char>,
    project: Seq<char>,
    env: StrMap<EnvVarSpec>,
    files: Seq<Seq<char>>,
) -> bool {
    &&& o.entity_type@ == kind
    &&& o.entity_name@ == name
    &&& o.project@ == project
    &&& env_output_views(o.env@) == env_spec_views(env.pairs())
    &&& o.env_files.deep_view() == files
}

/// The entity that a single match of `name` of kind `k` finds: its project and spec file.
pub open spec fn found_project(projects: Seq<Project>, k: EntityKind, name: Seq<char>) -> Project {
    projects[matches_of(projects, k, name)[0].0]
}

/// What `env show task NAME` gives once the task is found.
pub open spec fn shows_task_env(r: EnvShowResult, projects: Seq<Project>, name: Seq<char>, json: bool) -> bool {
    let p = found_project(projects, EntityKind::Task, name);
    let t = resolved_task(projects, name);
    if json {
        r matches EnvShowResult::Json(o) && describes_env(
            o,
            "task"@,
            name,
            project_name_of(p.root@),
            t.env,
            t.env_files.deep_view(),
        )
    } else {
        r matches EnvShowResult::Text(s) && s@ == show_head("task"@, name, project_name_of(p.root@))
            + env_table(t.env, t.env_files.deep_view())
    }
}

/// The job that `name` resolves to among `projects`, when it resolves to exactly one.
pub open spec fn resolved_job(projects: Seq<Project>, name: Seq<char>) -> JobSpec {
    let m = matches_of(projects, EntityKind::Job, name)[0];
    projects[m.0].specs@[m.1].spec.jobs@[qualified_parts(name).1]
}

/// The shell that `name` resolves to among `projects`, when it resolves to exactly one.
pub open spec fn resolved_shell(projects: Seq<Project>, name: Seq<char>) -> ShellSpec {
    let m = matches_of(projects, EntityKind::Shell, name)[0];
    projects[m.0].specs@[m.1].spec.shells@[qualified_parts(name).1]
}

/// What `env show job NAME` gives once the job is found.
pub open spec fn shows_job_env(r: EnvShowResult, projects: Seq<Project>, name: Seq<char>, json: bool) -> bool {
    let p = found_project(projects, EntityKind::Job, name);
    let j = resolved_job(projects, name);
    if json {
        r matches EnvShowResult::Json(o) && describes_env(
            o,
            "job"@,
            name,
            project_name_of(p.root@),
            j.env,
            Seq::empty(),
        )
    } else {
        r matches EnvShowResult::Text(s) && s@ == show_head("job"@, name, project_name_of(p.root@))
            + job_env_body(projects, j)
    }
}

/// What `env show shell NAME` gives once the shell is found.
pub open spec fn shows_shell_env(r: EnvShowResult, projects: Seq<Project>, name: Seq<char>, json: bool) -> bool {
    let p = found_project(projects, EntityKind::Shell, name);
    let sh = resolved_shell(projects, name);
    if json {
        r matches EnvShowResult::Json(o) && describes_env(
            o,
            "shell"@,
            name,
            project_name_of(p.root@),
            sh.env,
            sh.env_files.deep_view(),
        )
    } else {
        r matches EnvShowResult::Text(s) && s@ == show_head("shell"@, name, project_name_of(p.root@))
            + env_table(sh.env, sh.env_files.deep_view())
    }
}

/// The kind of entity that an `env` command is about.
pub open spec fn target_kind(t: EnvTarget) -> EntityKind {
    match t {
        EnvTarget::Task => EntityKind::Task,
        EnvTarget::Job => EntityKind::Job,
        EnvTarget::Shell => EntityKind::Shell,
    }
}

/// Shows the variables of a task, job or shell: as a table, or as a value.
pub fn handle_env_show(target: EnvTarget, name: String, app: &App, json: bool) -> (r: Result<
    EnvShowResult,
    MeriadocError,
>)
    ensures
        ({
            let c = matches_of(app.projects@, target_kind(target), name@).len();
            &&& (r is Ok) == (c == 1)
            &&& r matches Err(e) ==> lookup_error(e, c, crate::spec::kind_name(target_kind(target)), name@)
            &&& r matches Ok(o) ==> match target {
                EnvTarget::Task => shows_task_env(o, app.projects@, name@, json),
                EnvTarget::Job => shows_job_env(o, app.projects@, name@, json),
                EnvTarget::Shell => shows_shell_env(o, app.projects@, name@, json),
            }
        }),
{
    proof {
        reveal_strlit("task");
        reveal_strlit("job");
        reveal_strlit("shell");
    }
    match target {
        EnvTarget::Task => {
            let t = EntityResolver::resolve_task(name.as_str(), app.projects.as_slice())?;
            let project = EntityResolver::project_name(t.project);
            if json {
                Ok(
                    EnvShowResult::Json(
                        EnvShowOutput {
                            entity_type: owned("task"),
                            entity_name: name.clone(),
                            project,
                            env: env_to_output(&t.spec.env),
                            env_files: clone_strings(&t.spec.env_files),
                        },
                    ),
                )
            } else {
                Ok(
                    EnvShowResult::Text(
                        format_show("task", name.as_str(), project.as_str(), &t.spec.env, &t.spec.env_files),
                    ),
                )
            }
        },
        EnvTarget::Job => {
            let j = EntityResolver::resolve_job(name.as_str(), app.projects.as_slice())?;
            let project = EntityResolver::project_name(j.project);
            if json {
                let no_files: Vec<String> = Vec::new();
                assert(no_files.deep_view() =~= Seq::<Seq<char>>::empty());
                Ok(
                    EnvShowResult::Json(
                        EnvShowOutput {
                            entity_type: owned("job"),
                            entity_name: name.clone(),
                            project,
                            env: env_to_output(&j.spec.env),
                            env_files: no_files,
                        },
                    ),
                )
            } else {
                Ok(
                    EnvShowResult::Text(
                        format_job_env(name.as_str(), project.as_str(), &app.projects, j.spec),
                    ),
                )
            }
        },
        EnvTarget::Shell => {
            let s = EntityResolver::resolve_shell(name.as_str(), app.projects.as_slice())?;
            let project = EntityResolver::project_name(s.project);
            if json {
                Ok(
                    EnvShowResult::Json(
                        EnvShowOutput {
                            entity_type: owned("shell"),
                            entity_name: name.clone(),
                            project,
                            env: env_to_output(&s.spec.env),
                            env_files: clone_strings(&s.spec.env_files),
                        },
                    ),
                )
            } else {
                Ok(
                    EnvShowResult::Text(
                        format_show("shell", name.as_str(), project.as_str(), &s.spec.env, &s.spec.env_files),
                    ),
                )
            }
        },
    }
}

/// A saved variable file: the project and the task, job or shell it is for.
#[derive(Debug)]
pub struct SavedEnvEntry {
    pub project: String,
    pub entity: String,
}

/// One `  project:entity` line per entity of `es`.
pub open spec fn entity_lines(p: Seq<char>, es: Seq<Seq<char>>) -> Seq<char>
    decreases es.len(),
{
    if es.len() == 0 {
        Seq::empty()
    } else {
        entity_lines(p, es.drop_last()) + "  "@ + p + ":"@ + es.last() + "\n"@
    }
}

/// The lines of every saved file, project by project.
pub open spec fn saved_lines(saved: Seq<(String, Vec<String>)>) -> Seq<char>
    decreases saved.len(),
{
    if saved.len() == 0 {
        Seq::empty()
    } else {
        saved_lines(saved.drop_last()) + entity_lines(saved.last().0@, saved.last().1.deep_view())
    }
}

/// What `env ls` prints for the saved files, given project by project.
pub open spec fn env_ls_text(saved: Seq<(String, Vec<String>)>) -> Seq<char> {
    if saved.len() == 0 {
        "No saved environment files.\n"@
            + "Run a task with missing required vars to save prompted values.\n"@
    } else {
        "Saved environment files:\n"@ + saved_lines(saved)
    }
}

/// Lists the saved variable files, given as each project with its saved entities.
pub fn format_saved_envs(saved: &Vec<(String, Vec<String>)>) -> (r: String)
    ensures
        r@ == env_ls_text(saved@),
{
    if saved.len() == 0 {
        let mut out = owned("No saved environment files.\n");
        append(&mut out, "Run a task with missing required vars to save prompted values.\n");
        return out;
    }
    let mut out = owned("Saved environment files:\n");
    let ghost head = out@;
    let mut i: usize = 0;
    while i < saved.len()
        invariant
            0 <= i <= saved.len(),
            out@ == head + saved_lines(saved@.take(i as int)),
        decreases saved.len() - i,
    {
        assert(saved@.take(i + 1).drop_last() =~= saved@.take(i as int));
        let (p, es) = &saved[i];
        let ghost mid = out@;
        let ghost ev = es.deep_view();
        let mut j: usize = 0;
        while j < es.len()
            invariant
                0 <= j <= es.len(),
                ev == es.deep_view(),
                out@ == mid + entity_lines(p@, ev.take(j as int)),
            decreases es.len() - j,
        {
            assert(ev.take(j + 1).drop_last() =~= ev.take(j as int));
            append(&mut out, "  ");
            append(&mut out, p.as_str());
            append(&mut out, ":");
            append(&mut out, es[j].as_str());
            append(&mut out, "\n");
            assert(out@ =~= mid + entity_lines(p@, ev.take(j + 1)));
            j = j + 1;
        }
        assert(ev.take(es.len() as int) =~= ev);
        assert(out@ =~= head + saved_lines(saved@.take(i + 1)));
        i = i + 1;
    }
    assert(saved@.take(saved.len() as int) =~= saved@);
    out
}

/// Every saved file as a `(project, entity)` pair, project by project.
pub open spec fn saved_pairs(saved: Seq<(String, Vec<String>)>) -> Seq<(Seq<char>, Seq<char>)>
    decreases saved.len(),
{
    if saved.len() == 0 {
        Seq::empty()
    } else {
        let l = saved.last();
        saved_pairs(saved.drop_last()) + l.1.deep_view().map_values(|e: Seq<char>| (l.0@, e))
    }
}

/// The views of saved file entries.
pub open spec fn entry_views(v: Seq<SavedEnvEntry>) -> Seq<(Seq<char>, Seq<char>)> {
    v.map_values(|e: SavedEnvEntry| (e.project@, e.entity@))
}

/// The saved files as entries for programs to read.
pub fn saved_entries(saved: &Vec<(String, Vec<String>)>) -> (r: ListOutput<SavedEnvEntry>)
    ensures
        entry_views(r.items@) == saved_pairs(saved@),
        r.count == r.items@.len(),
{
    let mut items: Vec<SavedEnvEntry> = Vec::new();
    let mut i: usize = 0;
    while i < saved.len()
        invariant
            0 <= i <= saved.len(),
            entry_views(items@) == saved_pairs(saved@.take(i as int)),
        decreases saved.len() - i,
    {
        assert(saved@.take(i + 1).drop_last() =~= saved@.take(i as int));
        let (p, es) = &saved[i];
        let ghost mid = entry_views(items@);
        let ghost ev = es.deep_view();
        let mut j: usize = 0;
        while j < es.len()
            invariant
                0 <= j <= es.len(),
                ev == es.deep_view(),
                entry_views(items@) == mid + ev.take(j as int).map_values(|e: Seq<char>| (p@, e)),
            decreases es.len() - j,
        {
            let ghost before = items@;
            items.push(SavedEnvEntry { project: p.clone(), entity: es[j].clone() });
            assert(entry_views(items@) =~= entry_views(before).push((p@, ev[j as int])));
            assert(entry_views(items@) =~= mid + ev.take(j + 1).map_values(|e: Seq<char>| (p@, e)));
            j = j + 1;
        }
        assert(ev.take(es.len() as int) =~= ev);
        assert(entry_views(items@) =~= saved_pairs(saved@.take(i + 1)));
        i = i + 1;
    }
    assert(saved@.take(saved.len() as int) =~= saved@);
    ListOutput::new(items)
}

/// The value that `env init` writes for variable `k`: its default, or `<k>`.
pub open spec fn template_value(k: Seq<char>, m: EnvVarModel) -> Seq<char> {
    match m.default {
        Some(d) => d,
        None => "<"@ + k + ">"@,
    }
}

/// The values that `env init` writes for the variables of `env`.
pub open spec fn template_of(env: Map<Seq<char>, EnvVarSpec>) -> Map<Seq<char>, Seq<char>> {
    Map::new(|k: Seq<char>| env.dom().contains(k), |k: Seq<char>| template_value(k, env[k]@))
}

/// The values that `env init` writes: each variable's default, or `<NAME>`.
pub fn init_template(env: &StrMap<EnvVarSpec>) -> (r: ResolvedEnv)
    ensures
        crate::dotenv::texts(r@) == template_of(env@),
{
    let n = env.len();
    let mut out: ResolvedEnv = StrMap::new();
    let mut i: usize = 0;
    while i < n
        invariant
            0 <= i <= n,
            n == env.pairs().len(),
            forall|k: Seq<char>|
                #[trigger] out@.dom().contains(k) == (exists|j: int| 0 <= j < i && env.pairs()[j].0@ == k),
            forall|k: Seq<char>|
                #[trigger] out@.dom().contains(k) ==> env@.dom().contains(k) && out@[k]@ == template_value(k, env@[k]@),
        decreases n - i,
    {
        let (k, spec) = env.entry(i);
        let value = match &spec.default {
            Some(d) => d.clone(),
            None => {
                let a = concat("<", k.as_str());
                concat(a.as_str(), ">")
            },
        };
        let ghost kk = k@;
        out.insert(k.clone(), value);
        assert forall|key: Seq<char>|
            #[trigger] out@.dom().contains(key) == (exists|j: int| 0 <= j < i + 1 && env.pairs()[j].0@ == key) by {
            if key == kk {
                assert(env.pairs()[i as int].0@ == key);
            } else if exists|j: int| 0 <= j < i + 1 && env.pairs()[j].0@ == key {
                let j = choose|j: int| 0 <= j < i + 1 && env.pairs()[j].0@ == key;
                assert(j < i);
            }
        }
        i = i + 1;
    }
    proof {
        env.lemma_view();
        assert forall|k: Seq<char>| env@.dom().contains(k) implies out@.dom().contains(k) by {
            assert(has_key(env.pairs(), k));
            let j = choose|j: int| 0 <= j < env.pairs().len() && env.pairs()[j].0@ == k;
            assert(exists|j: int| 0 <= j < n && env.pairs()[j].0@ == k);
        }
    }
    assert(crate::dotenv::texts(out@) =~= template_of(env@));
    out
}

/// The inline variables of the entity that an `env` command names, once found.
pub open spec fn target_env(projects: Seq<Project>, target: EnvTarget, name: Seq<char>) -> StrMap<EnvVarSpec> {
    match target {
        EnvTarget::Task => resolved_task(projects, name).env,
        EnvTarget::Job => resolved_job(projects, name).env,
        EnvTarget::Shell => resolved_shell(projects, name).env,
    }
}

/// What `env init` needs to write a template: the entity's project name and the values to
/// write (none when the entity has no variables).
pub fn env_init_plan(target: EnvTarget, name: &str, app: &App) -> (r: Result<(String, ResolvedEnv), MeriadocError>)
    ensures
        ({
            let c = matches_of(app.projects@, target_kind(target), name@).len();
            &&& (r is Ok) == (c == 1)
            &&& r matches Err(e) ==> lookup_error(e, c, crate::spec::kind_name(target_kind(target)), name@)
            &&& r matches Ok(v) ==> {
                &&& v.0@ == project_name_of(found_project(app.projects@, target_kind(target), name@).root@)
                &&& crate::dotenv::texts(v.1@) == template_of(target_env(app.projects@, target, name@)@)
            }
        }),
{
    proof {
        reveal_strlit("task");
        reveal_strlit("job");
        reveal_strlit("shell");
    }
    match target {
        EnvTarget::Task => {
            let t = EntityResolver::resolve_task(name, app.projects.as_slice())?;
            Ok((EntityResolver::project_name(t.project), init_template(&t.spec.env)))
        },
        EnvTarget::Job => {
            let j = EntityResolver::resolve_job(name, app.projects.as_slice())?;
            Ok((EntityResolver::project_name(j.project), init_template(&j.spec.env)))
        },
        EnvTarget::Shell => {
            let s = EntityResolver::resolve_shell(name, app.projects.as_slice())?;
            Ok((EntityResolver::project_name(s.project), init_template(&s.spec.env)))
        },
    }
}

/// The command word of a target.
pub open spec fn target_word(t: EnvTarget) -> Seq<char> {
    crate::spec::kind_name(target_kind(t))
}

/// What `env init` prints once the template is written at `path`.
pub open spec fn init_done(path: Seq<char>, target: EnvTarget, name: Seq<char>) -> Seq<char> {
    "Created template: "@ + path + "\n\n"@ + "Edit the file to set your values, then run:\n"@
        + "  meriadoc "@ + target_word(target) + " "@ + name + "\n"@
}

/// The message after `env init` wrote its template.
pub fn init_done_text(path: &str, target: EnvTarget, name: &str) -> (r: String)
    ensures
        r@ == init_done(path@, target, name@),
{
    let mut out = owned("Created template: ");
    append(&mut out, path);
    append(&mut out, "\n\n");
    append(&mut out, "Edit the file to set your values, then run:\n");
    append(&mut out, "  meriadoc ");
    let word = match target {
        EnvTarget::Task => "task",
        EnvTarget::Job => "job",
        EnvTarget::Shell => "shell",
    };
    proof {
        reveal_strlit("task");
        reveal_strlit("job");
        reveal_strlit("shell");
        reveal_strlit("Created template: ");
    }
    append(&mut out, word);
    append(&mut out, " ");
    append(&mut out, name);
    append(&mut out, "\n");
    out
}

/// What an `env` command comes to; the parts that read or write files are left to the
/// caller.
#[derive(Debug)]
pub enum EnvAction {
    /// Print or hand out the variables shown.
    Show(EnvShowResult),
    /// List the saved files (read them, then use [`format_saved_envs`] or [`saved_entries`]).
    ListSaved,
    /// The entity has no variables: print
    /// `No environment variables defined for this entity.`
    NothingToInit,
    /// Write `template` as the saved values of `entity` in `project`, then print
    /// [`init_done_text`].
    WriteTemplate { project: String, entity: String, template: ResolvedEnv },
    /// Delete the saved values of `entity` in `project` if there are any.
    Remove { project: String, entity: String },
}

/// Carries out the deciding part of an `env` command.
pub fn handle_env(command: crate::cli::EnvCommand, app: &App, json: bool) -> (r: Result<
    EnvAction,
    MeriadocError,
>)
    ensures
        match command {
            crate::cli::EnvCommand::Show { target, name } => {
                let c = matches_of(app.projects@, target_kind(target), name@).len();
                &&& (r is Ok) == (c == 1)
                &&& r matches Err(e) ==> lookup_error(e, c, crate::spec::kind_name(target_kind(target)), name@)
                &&& r matches Ok(a) ==> (a matches EnvAction::Show(o) && match target {
                    EnvTarget::Task => shows_task_env(o, app.projects@, name@, json),
                    EnvTarget::Job => shows_job_env(o, app.projects@, name@, json),
                    EnvTarget::Shell => shows_shell_env(o, app.projects@, name@, json),
                })
            },
            crate::cli::EnvCommand::Ls => r matches Ok(EnvAction::ListSaved),
            crate::cli::EnvCommand::Init { target, name } => {
                let c = matches_of(app.projects@, target_kind(target), name@).len();
                let t = template_of(target_env(app.projects@, target, name@)@);
                &&& (r is Ok) == (c == 1)
                &&& r matches Err(e) ==> lookup_error(e, c, crate::spec::kind_name(target_kind(target)), name@)
                &&& r matches Ok(a) ==> if t.dom().len() == 0 {
                    a matches EnvAction::NothingToInit
                } else {
                    a matches EnvAction::WriteTemplate { project, entity, template } && project@
                        == project_name_of(found_project(app.projects@, target_kind(target), name@).root@)
                        && entity@ == name@ && crate::dotenv::texts(template@) == t
                }
            },
            crate::cli::EnvCommand::Rm { project, entity } => r matches Ok(
                EnvAction::Remove { project: p, entity: e },
            ) && p@ == project@ && e@ == entity@,
        },
{
    match command {
        crate::cli::EnvCommand::Show { target, name } => {
            let shown = handle_env_show(target, name, app, json)?;
            Ok(EnvAction::Show(shown))
        },
        crate::cli::EnvCommand::Ls => Ok(EnvAction::ListSaved),
        crate::cli::EnvCommand::Init { target, name } => {
            let (project, template) = env_init_plan(target, name.as_str(), app)?;
            let n = template.len();
            proof {
                assert(crate::dotenv::texts(template@).dom() =~= template@.dom());
            }
            if n == 0 {
                Ok(EnvAction::NothingToInit)
            } else {
                Ok(EnvAction::WriteTemplate { project, entity: name, template })
            }
        },
        crate::cli::EnvCommand::Rm { project, entity } => Ok(EnvAction::Remove { project, entity }),
    }
}

} // verus!
