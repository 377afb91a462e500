//! What the listing and inspection commands print.
use vstd::prelude::*;

use crate::app::{
    all_jobs, all_shells, all_tasks, job_items, shell_items, task_items, App, JobIterItem,
    ShellIterItem, TaskIterItem,
};
use crate::cli::ListTarget;
use crate::output::{
    count_entities, entity_counts, job_output, shell_output, task_output, describes_job,
    describes_shell, describes_task, JobOutput, ListOutput, ProjectOutput, ShellOutput, TaskOutput,
};
use crate::project::Project;
use crate::resolver::{project_name_of, EntityResolver};
use crate::spec::{JobSpec, ShellSpec, TaskSpec};
use crate::text::{concat, decimal, decimal_string, owned};

verus! {

/// The description of an entity, or nothing.
pub open spec fn desc_of(d: Option<String>) -> Seq<char> {
    match d {
        Some(s) => s@,
        None => Seq::empty(),
    }
}

/// `text` followed by ` - {desc}` unless the description is empty, then a newline.
pub open spec fn with_desc(text: Seq<char>, desc: Seq<char>) -> Seq<char> {
    if desc.len() == 0 {
        text + "\n"@
    } else {
        text + " - "@ + desc + "\n"@
    }
}

/// The lines listing tasks.
pub open spec fn task_lines(ts: Seq<(Seq<char>, Seq<char>, TaskSpec)>) -> Seq<char>
    decreases ts.len(),
{
    if ts.len() == 0 {
        Seq::empty()
    } else {
        let t = ts.last();
        task_lines(ts.drop_last()) + with_desc("  "@ + t.0 + ":"@ + t.1, desc_of(t.2.description))
    }
}

/// The lines listing jobs.
pub open spec fn job_lines(js: Seq<(Seq<char>, Seq<char>, JobSpec)>) -> Seq<char>
    decreases js.len(),
{
    if js.len() == 0 {
        Seq::empty()
    } else {
        let j = js.last();
        job_lines(js.drop_last()) + with_desc(
            "  "@ + j.0 + ":"@ + j.1 + " ("@ + decimal(j.2.tasks@.len()) + " tasks)"@,
            desc_of(j.2.description),
        )
    }
}

/// The lines listing shells.
pub open spec fn shell_lines(ss: Seq<(Seq<char>, Seq<char>, ShellSpec)>) -> Seq<char>
    decreases ss.len(),
{
    if ss.len() == 0 {
        Seq::empty()
    } else {
        let s = ss.last();
        shell_lines(ss.drop_last()) + with_desc("  "@ + s.0 + ":"@ + s.1, desc_of(s.2.description))
    }
}

/// The lines listing projects.
pub open spec fn project_lines(ps: Seq<Project>) -> Seq<char>
    decreases ps.len(),
{
    if ps.len() == 0 {
        Seq::empty()
    } else {
        let p = ps.last();
        project_lines(ps.drop_last()) + "  "@ + project_name_of(p.root@) + " ("@ + p.root@ + ")\n"@
            + "    Spec files: "@ + decimal(p.specs@.len()) + "\n"@
    }
}

/// The hint shown when there is no project.
pub open spec fn no_projects_text() -> Seq<char> {
    "No projects found. Use 'meriadoc config add <path>' to add a discovery root.\n"@
}

fn push_with_desc(out: &mut String, text: &str, desc: &Option<String>)
    ensures
        final(out)@ == old(out)@ + with_desc(text@, desc_of(*desc)),
{
    let d: &str = match desc {
        Some(s) => s.as_str(),
        None => {
            proof {
                reveal_strlit("");
                assert(""@ =~= Seq::<char>::empty());
            }
            ""
        },
    };
    let a = concat(out.as_str(), text);
    if d.is_empty() {
        *out = concat(a.as_str(), "\n");
    } else {
        let b = concat(a.as_str(), " - ");
        let c = concat(b.as_str(), d);
        *out = concat(c.as_str(), "\n");
    }
}

/// The listing of projects: each with its root and number of spec files.
pub fn list_projects_text(app: &App) -> (r: String)
    ensures
        r@ == if app.projects@.len() == 0 {
            no_projects_text()
        } else {
            "Projects:\n"@ + project_lines(app.projects@)
        },
{
    if app.projects.len() == 0 {
        return owned("No projects found. Use 'meriadoc config add <path>' to add a discovery root.\n");
    }
    let mut out = owned("Projects:\n");
    let ghost head = out@;
    let mut i: usize = 0;
    while i < app.projects.len()
        invariant
            0 <= i <= app.projects.len(),
            out@ == head + project_lines(app.projects@.take(i as int)),
        decreases app.projects.len() - i,
    {
        assert(app.projects@.take(i + 1).drop_last() =~= app.projects@.take(i as int));
        let p = &app.projects[i];
        let name = EntityResolver::project_name(p);
        let n = decimal_string(p.specs.len() as u64);
        let a = concat(out.as_str(), "  ");
        let b = concat(a.as_str(), name.as_str());
        let c = concat(b.as_str(), " (");
        let d = concat(c.as_str(), p.root.as_str());
        let e = concat(d.as_str(), ")\n");
        let f = concat(e.as_str(), "    Spec files: ");
        let g = concat(f.as_str(), n.as_str());
        out = concat(g.as_str(), "\n");
        assert(out@ =~= head + project_lines(app.projects@.take(i + 1)));
        i = i + 1;
    }
    assert(app.projects@.take(app.projects.len() as int) =~= app.projects@);
    out
}

/// The listing of every task.
pub fn list_tasks_text(app: &App) -> (r: String)
    ensures
        r@ == "Tasks:\n"@ + task_lines(all_tasks(app.projects@)),
{
    let items = app.for_each_task();
    let ghost all = task_items(items@);
    let mut out = owned("Tasks:\n");
    let ghost head = out@;
    let mut i: usize = 0;
    while i < items.len()
        invariant
            0 <= i <= items.len(),
            all == task_items(items@),
            out@ == head + task_lines(all.take(i as int)),
        decreases items.len() - i,
    {
        assert(all.take(i + 1).drop_last() =~= all.take(i as int));
        let it = &items[i];
        assert(all[i as int] == (it.project_name@, it.task_name@, *it.task));
        let a = concat("  ", it.project_name.as_str());
        let b = concat(a.as_str(), ":");
        let c = concat(b.as_str(), it.task_name.as_str());
        push_with_desc(&mut out, c.as_str(), &it.task.description);
        assert(out@ =~= head + task_lines(all.take(i + 1)));
        i = i + 1;
    }
    assert(all.take(items.len() as int) =~= all);
    out
}

/// The listing of every job, with its number of tasks.
pub fn list_jobs_text(app: &App) -> (r: String)
    ensures
        r@ == "Jobs:\n"@ + job_lines(all_jobs(app.projects@)),
{
    let items = app.for_each_job();
    let ghost all = job_items(items@);
    let mut out = owned("Jobs:\n");
    let ghost head = out@;
    let mut i: usize = 0;
    while i < items.len()
        invariant
            0 <= i <= items.len(),
            all == job_items(items@),
            out@ == head + job_lines(all.take(i as int)),
        decreases items.len() - i,
    {
        assert(all.take(i + 1).drop_last() =~= all.take(i as int));
        let it = &items[i];
        assert(all[i as int] == (it.project_name@, it.job_name@, *it.job));
        let n = decimal_string(it.job.tasks.len() as u64);
        let a = concat("  ", it.project_name.as_str());
        let b = concat(a.as_str(), ":");
        let c = concat(b.as_str(), it.job_name.as_str());
        let d = concat(c.as_str(), " (");
        let e = concat(d.as_str(), n.as_str());
        let f = concat(e.as_str(), " tasks)");
        push_with_desc(&mut out, f.as_str(), &it.job.description);
        assert(out@ =~= head + job_lines(all.take(i + 1)));
        i = i + 1;
    }
    assert(all.take(items.len() as int) =~= all);
    out
}

/// The listing of every shell.
pub fn list_shells_text(app: &App) -> (r: String)
    ensures
        r@ == "Shells:\n"@ + shell_lines(all_shells(app.projects@)),
{
    let items = app.for_each_shell();
    let ghost all = shell_items(items@);
    let mut out = owned("Shells:\n");
    let ghost head = out@;
    let mut i: usize = 0;
    while i < items.len()
        invariant
            0 <= i <= items.len(),
            all == shell_items(items@),
            out@ == head + shell_lines(all.take(i as int)),
        decreases items.len() - i,
    {
        assert(all.take(i + 1).drop_last() =~= all.take(i as int));
        let it = &items[i];
        assert(all[i as int] == (it.project_name@, it.shell_name@, *it.shell));
        let a = concat("  ", it.project_name.as_str());
        let b = concat(a.as_str(), ":");
        let c = concat(b.as_str(), it.shell_name.as_str());
        push_with_desc(&mut out, c.as_str(), &it.shell.description);
        assert(out@ =~= head + shell_lines(all.take(i + 1)));
        i = i + 1;
    }
    assert(all.take(items.len() as int) =~= all);
    out
}

/// The outputs of every task.
pub fn task_outputs(app: &App) -> (r: Vec<TaskOutput>)
    ensures
        r@.len() == all_tasks(app.projects@).len(),
        forall|i: int|
            0 <= i < r@.len() ==> describes_task(
                #[trigger] r@[i],
                all_tasks(app.projects@)[i].1,
                all_tasks(app.projects@)[i].0,
                all_tasks(app.projects@)[i].2,
            ),
{
    let items = app.for_each_task();
    let ghost all = task_items(items@);
    let mut out: Vec<TaskOutput> = Vec::new();
    let mut i: usize = 0;
    while i < items.len()
        invariant
            0 <= i <= items.len(),
            all == task_items(items@),
            all == all_tasks(app.projects@),
            out@.len() == i,
            forall|j: int| 0 <= j < i ==> describes_task(#[trigger] out@[j], all[j].1, all[j].0, all[j].2),
        decreases items.len() - i,
    {
        let it = &items[i];
        assert(all[i as int] == (it.project_name@, it.task_name@, *it.task));
        let o = task_output(it.task_name.as_str(), it.project_name.as_str(), it.task);
        let ghost before = out@;
        out.push(o);
        assert forall|j: int| 0 <= j < i + 1 implies describes_task(#[trigger] out@[j], all[j].1, all[j].0, all[j].2) by {
            if j < i {
                assert(out@[j] == before[j]);
            }
        }
        i = i + 1;
    }
    out
}

/// The outputs of every job.
pub fn job_outputs(app: &App) -> (r: Vec<JobOutput>)
    ensures
        r@.len() == all_jobs(app.projects@).len(),
        forall|i: int|
            0 <= i < r@.len() ==> describes_job(
                #[trigger] r@[i],
                all_jobs(app.projects@)[i].1,
                all_jobs(app.projects@)[i].0,
                all_jobs(app.projects@)[i].2,
            ),
{
    let items = app.for_each_job();
    let ghost all = job_items(items@);
    let mut out: Vec<JobOutput> = Vec::new();
    let mut i: usize = 0;
    while i < items.len()
        invariant
            0 <= i <= items.len(),
            all == job_items(items@),
            all == all_jobs(app.projects@),
            out@.len() == i,
            forall|j: int| 0 <= j < i ==> describes_job(#[trigger] out@[j], all[j].1, all[j].0, all[j].2),
        decreases items.len() - i,
    {
        let it = &items[i];
        assert(all[i as int] == (it.project_name@, it.job_name@, *it.job));
        let o = job_output(it.job_name.as_str(), it.project_name.as_str(), it.job);
        let ghost before = out@;
        out.push(o);
        assert forall|j: int| 0 <= j < i + 1 implies describes_job(#[trigger] out@[j], all[j].1, all[j].0, all[j].2) by {
            if j < i {
                assert(out@[j] == before[j]);
            }
        }
        i = i + 1;
    }
    out
}

/// The outputs of every shell.
pub fn shell_outputs(app: &App) -> (r: Vec<ShellOutput>)
    ensures
        r@.len() == all_shells(app.projects@).len(),
        forall|i: int|
            0 <= i < r@.len() ==> describes_shell(
                #[trigger] r@[i],
                all_shells(app.projects@)[i].1,
                all_shells(app.projects@)[i].0,
                all_shells(app.projects@)[i].2,
            ),
{
    let items = app.for_each_shell();
    let ghost all = shell_items(items@);
    let mut out: Vec<ShellOutput> = Vec::new();
    let mut i: usize = 0;
    while i < items.len()
        invariant
            0 <= i <= items.len(),
            all == shell_items(items@),
            all == all_shells(app.projects@),
            out@.len() == i,
            forall|j: int| 0 <= j < i ==> describes_shell(#[trigger] out@[j], all[j].1, all[j].0, all[j].2),
        decreases items.len() - i,
    {
        let it = &items[i];
        assert(all[i as int] == (it.project_name@, it.shell_name@, *it.shell));
        let o = shell_output(it.shell_name.as_str(), it.project_name.as_str(), it.shell);
        let ghost before = out@;
        out.push(o);
        assert forall|j: int| 0 <= j < i + 1 implies describes_shell(#[trigger] out@[j], all[j].1, all[j].0, all[j].2) by {
            if j < i {
                assert(out@[j] == before[j]);
            }
        }
        i = i + 1;
    }
    out
}

/// Whether the numbers of tasks, jobs and shells of every project fit in a `usize`.
pub open spec fn counts_fit(projects: Seq<Project>) -> bool {
    forall|i: int|
        0 <= i < projects.len() ==> {
            let c = entity_counts(#[trigger] projects[i].specs@);
            c.0 <= usize::MAX && c.1 <= usize::MAX && c.2 <= usize::MAX
        }
}

/// Whether `o` describes project `p` with its counts.
pub open spec fn describes_project(o: ProjectOutput, p: Project) -> bool {
    &&& o.name@ == project_name_of(p.root@)
    &&& o.root@ == p.root@
    &&& o.spec_files == p.specs@.len()
    &&& o.tasks == entity_counts(p.specs@).0
    &&& o.jobs == entity_counts(p.specs@).1
    &&& o.shells == entity_counts(p.specs@).2
}

/// The outputs of every project.
pub fn project_outputs(app: &App) -> (r: Vec<ProjectOutput>)
    requires
        counts_fit(app.projects@),
    ensures
        r@.len() == app.projects@.len(),
        forall|i: int| 0 <= i < r@.len() ==> describes_project(#[trigger] r@[i], app.projects@[i]),
{
    let mut out: Vec<ProjectOutput> = Vec::new();
    let mut i: usize = 0;
    while i < app.projects.len()
        invariant
            0 <= i <= app.projects.len(),
            counts_fit(app.projects@),
            out@.len() == i,
            forall|j: int| 0 <= j < i ==> describes_project(#[trigger] out@[j], app.projects@[j]),
        decreases app.projects.len() - i,
    {
        let p = &app.projects[i];
        let (t, j, s) = count_entities(p);
        let o = ProjectOutput {
            name: EntityResolver::project_name(p),
            root: p.root.clone(),
            spec_files: p.specs.len(),
            tasks: t,
            jobs: j,
            shells: s,
        };
        let ghost before = out@;
        out.push(o);
        assert forall|k: int| 0 <= k < i + 1 implies describes_project(#[trigger] out@[k], app.projects@[k]) by {
            if k < i {
                assert(out@[k] == before[k]);
            }
        }
        i = i + 1;
    }
    out
}

/// Whether the counts of every project fit in a `usize`.
pub fn counts_fit_exec(app: &App) -> (r: bool)
    ensures
        r == counts_fit(app.projects@),
{
    let mut i: usize = 0;
    while i < app.projects.len()
        invariant
            0 <= i <= app.projects.len(),
            forall|k: int| 0 <= k < i ==> {
                let c = entity_counts(#[trigger] app.projects@[k].specs@);
                c.0 <= usize::MAX && c.1 <= usize::MAX && c.2 <= usize::MAX
            },
        decreases app.projects.len() - i,
    {
        if !project_counts_fit(&app.projects[i]) {
            return false;
        }
        i = i + 1;
    }
    true
}

fn project_counts_fit(p: &Project) -> (r: bool)
    ensures
        r == ({
            let c = entity_counts(p.specs@);
            c.0 <= usize::MAX && c.1 <= usize::MAX && c.2 <= usize::MAX
        }),
{
    let mut t: u128 = 0;
    let mut j: u128 = 0;
    let mut s: u128 = 0;
    let mut i: usize = 0;
    while i < p.specs.len()
        invariant
            0 <= i <= p.specs.len(),
            t <= usize::MAX,
            j <= usize::MAX,
            s <= usize::MAX,
            (t as nat, j as nat, s as nat) == entity_counts(p.specs@.take(i as int)),
        decreases p.specs.len() - i,
    {
        assert(p.specs@.take(i + 1).drop_last() =~= p.specs@.take(i as int));
        let f = &p.specs[i].spec;
        t = t + f.tasks.len() as u128;
        j = j + f.jobs.len() as u128;
        s = s + f.shells.len() as u128;
        if t > usize::MAX as u128 || j > usize::MAX as u128 || s > usize::MAX as u128 {
            proof {
                crate::output::lemma_counts_grow(p.specs@, i + 1);
            }
            return false;
        }
        i = i + 1;
    }
    assert(p.specs@.take(p.specs.len() as int) =~= p.specs@);
    true
}

/// What `ls` hands back: a text to print, or a list for programs to read.
#[derive(Debug)]
pub enum LsOutput {
    Text(String),
    Projects(ListOutput<ProjectOutput>),
    Tasks(ListOutput<TaskOutput>),
    Jobs(ListOutput<JobOutput>),
    Shells(ListOutput<ShellOutput>),
}

/// What `ls` prints for a target (projects when none is given).
pub open spec fn ls_text(target: Option<ListTarget>, projects: Seq<Project>) -> Seq<char> {
    match target {
        Some(ListTarget::Tasks) => "Tasks:\n"@ + task_lines(all_tasks(projects)),
        Some(ListTarget::Jobs) => "Jobs:\n"@ + job_lines(all_jobs(projects)),
        Some(ListTarget::Shells) => "Shells:\n"@ + shell_lines(all_shells(projects)),
        _ => if projects.len() == 0 {
            no_projects_text()
        } else {
            "Projects:\n"@ + project_lines(projects)
        },
    }
}

/// Whether `o` lists, for programs, what `ls` of `target` lists.
pub open spec fn ls_values(o: LsOutput, target: Option<ListTarget>, projects: Seq<Project>) -> bool {
    match target {
        Some(ListTarget::Tasks) => o matches LsOutput::Tasks(l) && l.count == l.items@.len()
            && l.items@.len() == all_tasks(projects).len() && forall|i: int|
            0 <= i < l.items@.len() ==> describes_task(
                #[trigger] l.items@[i],
                all_tasks(projects)[i].1,
                all_tasks(projects)[i].0,
                all_tasks(projects)[i].2,
            ),
        Some(ListTarget::Jobs) => o matches LsOutput::Jobs(l) && l.count == l.items@.len()
            && l.items@.len() == all_jobs(projects).len() && forall|i: int|
            0 <= i < l.items@.len() ==> describes_job(
                #[trigger] l.items@[i],
                all_jobs(projects)[i].1,
                all_jobs(projects)[i].0,
                all_jobs(projects)[i].2,
            ),
        Some(ListTarget::Shells) => o matches LsOutput::Shells(l) && l.count == l.items@.len()
            && l.items@.len() == all_shells(projects).len() && forall|i: int|
            0 <= i < l.items@.len() ==> describes_shell(
                #[trigger] l.items@[i],
                all_shells(projects)[i].1,
                all_shells(projects)[i].0,
                all_shells(projects)[i].2,
            ),
        _ => o matches LsOutput::Projects(l) && l.count == l.items@.len() && l.items@.len()
            == projects.len() && forall|i: int|
            0 <= i < l.items@.len() ==> describes_project(#[trigger] l.items@[i], projects[i]),
    }
}

/// Lists projects, tasks, jobs or shells, as text or as values.
pub fn handle_ls(target: Option<ListTarget>, app: &App, json: bool) -> (r: LsOutput)
    requires
        counts_fit(app.projects@),
    ensures
        json ==> ls_values(r, target, app.projects@),
        !json ==> (r matches LsOutput::Text(s) && s@ == ls_text(target, app.projects@)),
{
    match target {
        Some(ListTarget::Tasks) => if json {
            LsOutput::Tasks(ListOutput::new(task_outputs(app)))
        } else {
            LsOutput::Text(list_tasks_text(app))
        },
        Some(ListTarget::Jobs) => if json {
            LsOutput::Jobs(ListOutput::new(job_outputs(app)))
        } else {
            LsOutput::Text(list_jobs_text(app))
        },
        Some(ListTarget::Shells) => if json {
            LsOutput::Shells(ListOutput::new(shell_outputs(app)))
        } else {
            LsOutput::Text(list_shells_text(app))
        },
        _ => if json {
            LsOutput::Projects(ListOutput::new(project_outputs(app)))
        } else {
            LsOutput::Text(list_projects_text(app))
        },
    }
}

} // verus!
