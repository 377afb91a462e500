//! The loaded workspace: the configuration, the projects found, and their caches.
use vstd::prelude::*;

use crate::cache::ValidationCache;
use crate::config::MeriadocConfig;
use crate::paths::{parent_of, path_parent};
use crate::project::{LoadedSpec, Project};
use crate::resolver::{project_name_of, EntityResolver};
use crate::spec::{JobSpec, ShellSpec, TaskSpec};
use crate::strmap::StrMap;
use crate::text::owned;

verus! {

/// The configuration, the projects of its enabled roots, and one validation cache per
/// project root.
pub struct App {
    pub config: MeriadocConfig,
    pub projects: Vec<Project>,
    /// Validation caches, keyed by project root.
    pub caches: StrMap<ValidationCache>,
}

/// A task with the name of its project.
pub struct TaskIterItem<'a> {
    pub project_name: String,
    pub task_name: &'a String,
    pub task: &'a TaskSpec,
}

/// A job with the name of its project.
pub struct JobIterItem<'a> {
    pub project_name: String,
    pub job_name: &'a String,
    pub job: &'a JobSpec,
}

/// A shell with the name of its project.
pub struct ShellIterItem<'a> {
    pub project_name: String,
    pub shell_name: &'a String,
    pub shell: &'a ShellSpec,
}

/// The tasks of a list of spec files, in order, each named.
pub open spec fn file_tasks(specs: Seq<LoadedSpec>) -> Seq<(Seq<char>, TaskSpec)>
    decreases specs.len(),
{
    if specs.len() == 0 {
        Seq::empty()
    } else {
        file_tasks(specs.drop_last()) + specs.last().spec.tasks.pairs().map_values(
            |p: (String, TaskSpec)| (p.0@, p.1),
        )
    }
}

/// The tasks of the projects, in order, each with its project's name.
pub open spec fn all_tasks(projects: Seq<Project>) -> Seq<(Seq<char>, Seq<char>, TaskSpec)>
    decreases projects.len(),
{
    if projects.len() == 0 {
        Seq::empty()
    } else {
        let p = projects.last();
        all_tasks(projects.drop_last()) + file_tasks(p.specs@).map_values(
            |t: (Seq<char>, TaskSpec)| (project_name_of(p.root@), t.0, t.1),
        )
    }
}

/// The jobs of a list of spec files, in order, each named.
pub open spec fn file_jobs(specs: Seq<LoadedSpec>) -> Seq<(Seq<char>, JobSpec)>
    decreases specs.len(),
{
    if specs.len() == 0 {
        Seq::empty()
    } else {
        file_jobs(specs.drop_last()) + specs.last().spec.jobs.pairs().map_values(
            |p: (String, JobSpec)| (p.0@, p.1),
        )
    }
}

/// The jobs of the projects, in order, each with its project's name.
pub open spec fn all_jobs(projects: Seq<Project>) -> Seq<(Seq<char>, Seq<char>, JobSpec)>
    decreases projects.len(),
{
    if projects.len() == 0 {
        Seq::empty()
    } else {
        let p = projects.last();
        all_jobs(projects.drop_last()) + file_jobs(p.specs@).map_values(
            |t: (Seq<char>, JobSpec)| (project_name_of(p.root@), t.0, t.1),
        )
    }
}

/// The shells of a list of spec files, in order, each named.
pub open spec fn file_shells(specs: Seq<LoadedSpec>) -> Seq<(Seq<char>, ShellSpec)>
    decreases specs.len(),
{
    if specs.len() == 0 {
        Seq::empty()
    } else {
        file_shells(specs.drop_last()) + specs.last().spec.shells.pairs().map_values(
            |p: (String, ShellSpec)| (p.0@, p.1),
        )
    }
}

/// The shells of the projects, in order, each with its project's name.
pub open spec fn all_shells(projects: Seq<Project>) -> Seq<(Seq<char>, Seq<char>, ShellSpec)>
    decreases projects.len(),
{
    if projects.len() == 0 {
        Seq::empty()
    } else {
        let p = projects.last();
        all_shells(projects.drop_last()) + file_shells(p.specs@).map_values(
            |t: (Seq<char>, ShellSpec)| (project_name_of(p.root@), t.0, t.1),
        )
    }
}

/// Whether agents may see a task: unless its agent settings disable it.
pub open spec fn agent_visible(task: TaskSpec) -> bool {
    match task.agent {
        Some(a) => a.enabled,
        None => true,
    }
}

/// The tasks that agents may see, in order.
pub open spec fn agent_tasks(ts: Seq<(Seq<char>, Seq<char>, TaskSpec)>) -> Seq<
    (Seq<char>, Seq<char>, TaskSpec),
>
    decreases ts.len(),
{
    if ts.len() == 0 {
        Seq::empty()
    } else {
        let r = agent_tasks(ts.drop_last());
        if agent_visible(ts.last().2) {
            r.push(ts.last())
        } else {
            r
        }
    }
}

/// The views of task items.
pub open spec fn task_items(items: Seq<TaskIterItem>) -> Seq<(Seq<char>, Seq<char>, TaskSpec)> {
    items.map_values(|i: TaskIterItem| (i.project_name@, i.task_name@, *i.task))
}

/// The views of job items.
pub open spec fn job_items(items: Seq<JobIterItem>) -> Seq<(Seq<char>, Seq<char>, JobSpec)> {
    items.map_values(|i: JobIterItem| (i.project_name@, i.job_name@, *i.job))
}

/// The views of shell items.
pub open spec fn shell_items(items: Seq<ShellIterItem>) -> Seq<(Seq<char>, Seq<char>, ShellSpec)> {
    items.map_values(|i: ShellIterItem| (i.project_name@, i.shell_name@, *i.shell))
}

impl App {
    /// A workspace with the given configuration, projects and caches.
    pub fn with_projects(
        config: MeriadocConfig,
        projects: Vec<Project>,
        caches: StrMap<ValidationCache>,
    ) -> (r: Self)
        ensures
            r.config == config,
            r.projects == projects,
            r.caches == caches,
    {
        App { config, projects, caches }
    }

    /// The directory that holds user data such as saved values: the parent of the cache
    /// directory, or `.` when it has none.
    pub fn config_parent_dir(&self) -> (r: String)
        ensures
            r@ == match path_parent(self.config.cache.dir@) {
                Some(p) => p,
                None => "."@,
            },
    {
        match parent_of(self.config.cache.dir.as_str()) {
            Some(p) => p,
            None => owned("."),
        }
    }

    /// Every task, project by project, spec file by spec file.
    pub fn for_each_task(&self) -> (r: Vec<TaskIterItem<'_>>)
        ensures
            task_items(r@) == all_tasks(self.projects@),
    {
        let mut out: Vec<TaskIterItem<'_>> = Vec::new();
        let mut p: usize = 0;
        while p < self.projects.len()
            invariant
                0 <= p <= self.projects.len(),
                task_items(out@) == all_tasks(self.projects@.take(p as int)),
            decreases self.projects.len() - p,
        {
            let project = &self.projects[p];
            assert(self.projects@.take(p + 1).drop_last() =~= self.projects@.take(p as int));
            let ghost before = task_items(out@);
            let name = EntityResolver::project_name(project);
            let mut f: usize = 0;
            while f < project.specs.len()
                invariant
                    0 <= f <= project.specs.len(),
                    p < self.projects@.len(),
                    *project == self.projects@[p as int],
                    name@ == project_name_of(project.root@),
                    task_items(out@) == before + file_tasks(project.specs@.take(f as int)).map_values(
                        |t: (Seq<char>, TaskSpec)| (name@, t.0, t.1),
                    ),
                decreases project.specs.len() - f,
            {
                let spec = &project.specs[f].spec;
                assert(project.specs@.take(f + 1).drop_last() =~= project.specs@.take(f as int));
                let ghost mid = task_items(out@);
                let n = spec.tasks.len();
                let mut t: usize = 0;
                while t < n
                    invariant
                        0 <= t <= n,
                        n == spec.tasks.pairs().len(),
                        task_items(out@) == mid + spec.tasks.pairs().take(t as int).map_values(
                            |q: (String, TaskSpec)| (name@, q.0@, q.1),
                        ),
                    decreases n - t,
                {
                    let (task_name, task) = spec.tasks.entry(t);
                    let ghost old_out = out@;
                    let pn = name.clone();
                    out.push(TaskIterItem { project_name: pn, task_name, task });
                    assert(task_items(out@) =~= task_items(old_out).push((name@, task_name@, *task)));
                    assert(task_items(out@) =~= mid + spec.tasks.pairs().take(t + 1).map_values(
                        |q: (String, TaskSpec)| (name@, q.0@, q.1),
                    ));
                    t = t + 1;
                }
                assert(spec.tasks.pairs().take(n as int) =~= spec.tasks.pairs());
                assert(task_items(out@) =~= before + file_tasks(project.specs@.take(f + 1)).map_values(
                    |t: (Seq<char>, TaskSpec)| (name@, t.0, t.1),
                ));
                f = f + 1;
            }
            assert(project.specs@.take(project.specs.len() as int) =~= project.specs@);
            assert(task_items(out@) =~= all_tasks(self.projects@.take(p + 1)));
            p = p + 1;
        }
        assert(self.projects@.take(self.projects.len() as int) =~= self.projects@);
        out
    }

    /// The tasks that agents may see: all but those whose agent settings disable them.
    pub fn for_each_agent_task(&self) -> (r: Vec<TaskIterItem<'_>>)
        ensures
            task_items(r@) == agent_tasks(all_tasks(self.projects@)),
    {
        let all = self.for_each_task();
        let ghost whole = task_items(all@);
        let mut out: Vec<TaskIterItem<'_>> = Vec::new();
        let mut rest = all;
        let ghost mut k: int = 0;
        assert(task_items(rest@) =~= whole.skip(0));
        while rest.len() > 0
            invariant
                0 <= k <= whole.len(),
                task_items(rest@) == whole.skip(k),
                task_items(out@) == agent_tasks(whole.take(k)),
            decreases rest.len(),
        {
            let ghost before = rest@;
            let item = rest.remove(0);
            assert(task_items(before).len() == before.len());
            assert(whole.skip(k)[0] == whole[k]);
            assert(task_items(before)[0] == whole[k]);
            assert(rest@ =~= before.subrange(1, before.len() as int));
            assert forall|j: int| 0 <= j < rest@.len() implies #[trigger] task_items(rest@)[j]
                == whole.skip(k + 1)[j] by {
                assert(rest@[j] == before[j + 1]);
                assert(task_items(before)[j + 1] == whole.skip(k)[j + 1]);
            }
            assert(task_items(rest@) =~= whole.skip(k + 1));
            assert(whole.take(k + 1).drop_last() =~= whole.take(k));
            let visible = match &item.task.agent {
                Some(a) => a.enabled,
                None => true,
            };
            if visible {
                out.push(item);
                assert(task_items(out@) =~= agent_tasks(whole.take(k + 1)));
            }
            proof {
                k = k + 1;
            }
        }
        assert(whole.take(k) =~= whole);
        out
    }

    /// Every job, project by project, spec file by spec file.
    pub fn for_each_job(&self) -> (r: Vec<JobIterItem<'_>>)
        ensures
            job_items(r@) == all_jobs(self.projects@),
    {
        let mut out: Vec<JobIterItem<'_>> = Vec::new();
        let mut p: usize = 0;
        while p < self.projects.len()
            invariant
                0 <= p <= self.projects.len(),
                job_items(out@) == all_jobs(self.projects@.take(p as int)),
            decreases self.projects.len() - p,
        {
            let project = &self.projects[p];
            assert(self.projects@.take(p + 1).drop_last() =~= self.projects@.take(p as int));
            let ghost before = job_items(out@);
            let name = EntityResolver::project_name(project);
            let mut f: usize = 0;
            while f < project.specs.len()
                invariant
                    0 <= f <= project.specs.len(),
                    p < self.projects@.len(),
                    *project == self.projects@[p as int],
                    name@ == project_name_of(project.root@),
                    job_items(out@) == before + file_jobs(project.specs@.take(f as int)).map_values(
                        |t: (Seq<char>, JobSpec)| (name@, t.0, t.1),
                    ),
                decreases project.specs.len() - f,
            {
                let spec = &project.specs[f].spec;
                assert(project.specs@.take(f + 1).drop_last() =~= project.specs@.take(f as int));
                let ghost mid = job_items(out@);
                let n = spec.jobs.len();
                let mut t: usize = 0;
                while t < n
                    invariant
                        0 <= t <= n,
                        n == spec.jobs.pairs().len(),
                        job_items(out@) == mid + spec.jobs.pairs().take(t as int).map_values(
                            |q: (String, JobSpec)| (name@, q.0@, q.1),
                        ),
                    decreases n - t,
                {
                    let (job_name, job) = spec.jobs.entry(t);
                    let ghost old_out = out@;
                    let pn = name.clone();
                    out.push(JobIterItem { project_name: pn, job_name, job });
                    assert(job_items(out@) =~= job_items(old_out).push((name@, job_name@, *job)));
                    assert(job_items(out@) =~= mid + spec.jobs.pairs().take(t + 1).map_values(
                        |q: (String, JobSpec)| (name@, q.0@, q.1),
                    ));
                    t = t + 1;
                }
                assert(spec.jobs.pairs().take(n as int) =~= spec.jobs.pairs());
                assert(job_items(out@) =~= before + file_jobs(project.specs@.take(f + 1)).map_values(
                    |t: (Seq<char>, JobSpec)| (name@, t.0, t.1),
                ));
                f = f + 1;
            }
            assert(project.specs@.take(project.specs.len() as int) =~= project.specs@);
            assert(job_items(out@) =~= all_jobs(self.projects@.take(p + 1)));
            p = p + 1;
        }
        assert(self.projects@.take(self.projects.len() as int) =~= self.projects@);
        out
    }

    /// Every shell, project by project, spec file by spec file.
    pub fn for_each_shell(&self) -> (r: Vec<ShellIterItem<'_>>)
        ensures
            shell_items(r@) == all_shells(self.projects@),
    {
        let mut out: Vec<ShellIterItem<'_>> = Vec::new();
        let mut p: usize = 0;
        while p < self.projects.len()
            invariant
                0 <= p <= self.projects.len(),
                shell_items(out@) == all_shells(self.projects@.take(p as int)),
            decreases self.projects.len() - p,
        {
            let project = &self.projects[p];
            assert(self.projects@.take(p + 1).drop_last() =~= self.projects@.take(p as int));
            let ghost before = shell_items(out@);
            let name = EntityResolver::project_name(project);
            let mut f: usize = 0;
            while f < project.specs.len()
                invariant
                    0 <= f <= project.specs.len(),
                    p < self.projects@.len(),
                    *project == self.projects@[p as int],
                    name@ == project_name_of(project.root@),
                    shell_items(out@) == before + file_shells(project.specs@.take(f as int)).map_values(
                        |t: (Seq<char>, ShellSpec)| (name@, t.0, t.1),
                    ),
                decreases project.specs.len() - f,
            {
                let spec = &project.specs[f].spec;
                assert(project.specs@.take(f + 1).drop_last() =~= project.specs@.take(f as int));
                let ghost mid = shell_items(out@);
                let n = spec.shells.len();
                let mut t: usize = 0;
                while t < n
                    invariant
                        0 <= t <= n,
                        n == spec.shells.pairs().len(),
                        shell_items(out@) == mid + spec.shells.pairs().take(t as int).map_values(
                            |q: (String, ShellSpec)| (name@, q.0@, q.1),
                        ),
                    decreases n - t,
                {
                    let (shell_name, shell) = spec.shells.entry(t);
                    let ghost old_out = out@;
                    let pn = name.clone();
                    out.push(ShellIterItem { project_name: pn, shell_name, shell });
                    assert(shell_items(out@) =~= shell_items(old_out).push((name@, shell_name@, *shell)));
                    assert(shell_items(out@) =~= mid + spec.shells.pairs().take(t + 1).map_values(
                        |q: (String, ShellSpec)| (name@, q.0@, q.1),
                    ));
                    t = t + 1;
                }
                assert(spec.shells.pairs().take(n as int) =~= spec.shells.pairs());
                assert(shell_items(out@) =~= before + file_shells(project.specs@.take(f + 1)).map_values(
                    |t: (Seq<char>, ShellSpec)| (name@, t.0, t.1),
                ));
                f = f + 1;
            }
            assert(project.specs@.take(project.specs.len() as int) =~= project.specs@);
            assert(shell_items(out@) =~= all_shells(self.projects@.take(p + 1)));
            p = p + 1;
        }
        assert(self.projects@.take(self.projects.len() as int) =~= self.projects@);
        out
    }
}

/// Agents see exactly the tasks whose agent settings do not hide them, in their order.
pub proof fn law_agent_tasks_visible(ts: Seq<(Seq<char>, Seq<char>, TaskSpec)>)
    ensures
        forall|i: int|
            0 <= i < agent_tasks(ts).len() ==> agent_visible((#[trigger] agent_tasks(ts)[i]).2)
                && ts.contains(agent_tasks(ts)[i]),
        forall|j: int| 0 <= j < ts.len() && agent_visible(ts[j].2) ==> agent_tasks(ts).contains(#[trigger] ts[j]),
    decreases ts.len(),
{
    if ts.len() > 0 {
        let before = ts.drop_last();
        law_agent_tasks_visible(before);
        let a = agent_tasks(ts);
        let b = agent_tasks(before);
        assert forall|i: int| 0 <= i < a.len() implies agent_visible((#[trigger] a[i]).2) && ts.contains(a[i]) by {
            if i < b.len() {
                assert(a[i] == b[i]);
                let k = choose|k: int| 0 <= k < before.len() && before[k] == b[i];
                assert(ts[k] == before[k]);
            } else {
                assert(a[i] == ts.last());
                assert(ts[ts.len() - 1] == ts.last());
            }
        }
        assert forall|j: int| 0 <= j < ts.len() && agent_visible(ts[j].2) implies a.contains(#[trigger] ts[j]) by {
            if j < ts.len() - 1 {
                assert(before[j] == ts[j]);
                assert(b.contains(before[j]));
                let k = choose|k: int| 0 <= k < b.len() && b[k] == before[j];
                assert(a[k] == b[k]);
            } else {
                assert(a[a.len() - 1] == ts.last());
            }
        }
    }
}

/// Whether `t` is task `i` of spec file `f` of project `p` of `projects`, named after its
/// project.
pub open spec fn task_at(projects: Seq<Project>, p: int, f: int, i: int, t: (Seq<char>, Seq<char>, TaskSpec)) -> bool {
    &&& 0 <= p < projects.len()
    &&& 0 <= f < projects[p].specs@.len()
    &&& 0 <= i < projects[p].specs@[f].spec.tasks.pairs().len()
    &&& t == (
        project_name_of(projects[p].root@),
        projects[p].specs@[f].spec.tasks.pairs()[i].0@,
        projects[p].specs@[f].spec.tasks.pairs()[i].1,
    )
}

/// Whether `t` is task `i` of spec file `f` of `specs`.
pub open spec fn file_task_at(specs: Seq<LoadedSpec>, f: int, i: int, t: (Seq<char>, TaskSpec)) -> bool {
    &&& 0 <= f < specs.len()
    &&& 0 <= i < specs[f].spec.tasks.pairs().len()
    &&& t == (specs[f].spec.tasks.pairs()[i].0@, specs[f].spec.tasks.pairs()[i].1)
}

/// Whether `t` is a task of one of the spec files `specs`.
pub open spec fn is_file_task(specs: Seq<LoadedSpec>, t: (Seq<char>, TaskSpec)) -> bool {
    exists|f: int, i: int| #[trigger] file_task_at(specs, f, i, t)
}

/// Whether `t` is a task of one of `projects`, named after its project.
pub open spec fn is_project_task(projects: Seq<Project>, t: (Seq<char>, Seq<char>, TaskSpec)) -> bool {
    exists|p: int, f: int, i: int| #[trigger] task_at(projects, p, f, i, t)
}

proof fn lemma_file_tasks_members(specs: Seq<LoadedSpec>)
    ensures
        forall|f: int, i: int, t: (Seq<char>, TaskSpec)|
            #[trigger] file_task_at(specs, f, i, t) ==> file_tasks(specs).contains(t),
        forall|j: int|
            0 <= j < file_tasks(specs).len() ==> is_file_task(specs, #[trigger] file_tasks(specs)[j]),
    decreases specs.len(),
{
    if specs.len() > 0 {
        let init = specs.drop_last();
        lemma_file_tasks_members(init);
        let a = file_tasks(init);
        let ps = specs.last().spec.tasks.pairs();
        let b = ps.map_values(|q: (String, TaskSpec)| (q.0@, q.1));
        let all = file_tasks(specs);
        assert(all == a + b);
        assert forall|f: int, i: int, t: (Seq<char>, TaskSpec)|
            #[trigger] file_task_at(specs, f, i, t) implies all.contains(t) by {
            if f < init.len() {
                assert(init[f] == specs[f]);
                assert(file_task_at(init, f, i, t));
                let j = choose|j: int| 0 <= j < a.len() && a[j] == t;
                assert(all[j] == t);
            } else {
                assert(b[i] == t);
                assert(all[a.len() + i] == t);
            }
        }
        assert forall|j: int| 0 <= j < all.len() implies is_file_task(specs, #[trigger] all[j]) by {
            if j < a.len() {
                assert(all[j] == a[j]);
                assert(is_file_task(init, a[j]));
                let (f, i) = choose|f: int, i: int| #[trigger] file_task_at(init, f, i, a[j]);
                assert(init[f] == specs[f]);
                assert(file_task_at(specs, f, i, all[j]));
            } else {
                let i = j - a.len();
                assert(all[j] == b[i]);
                assert(file_task_at(specs, specs.len() - 1, i, all[j]));
            }
        }
    } else {
        assert(file_tasks(specs).len() == 0);
    }
}

/// Every task of every spec file of every project is listed once per place it holds, named
/// after its project, and nothing else is listed; agents see the same list without the
/// tasks that their agent settings disable.
pub proof fn law_every_task_listed(projects: Seq<Project>)
    ensures
        forall|p: int, f: int, i: int, t: (Seq<char>, Seq<char>, TaskSpec)|
            #[trigger] task_at(projects, p, f, i, t) ==> all_tasks(projects).contains(t),
        forall|j: int|
            0 <= j < all_tasks(projects).len() ==> is_project_task(projects, #[trigger] all_tasks(projects)[j]),
        forall|j: int|
            0 <= j < agent_tasks(all_tasks(projects)).len() ==> agent_visible(
                (#[trigger] agent_tasks(all_tasks(projects))[j]).2,
            ),
    decreases projects.len(),
{
    law_agent_tasks_visible(all_tasks(projects));
    if projects.len() > 0 {
        let init = projects.drop_last();
        law_every_task_listed(init);
        let last = projects.last();
        let n = project_name_of(last.root@);
        lemma_file_tasks_members(last.specs@);
        let a = all_tasks(init);
        let ft = file_tasks(last.specs@);
        let b = ft.map_values(|t: (Seq<char>, TaskSpec)| (n, t.0, t.1));
        let all = all_tasks(projects);
        assert(all == a + b);
        assert forall|p: int, f: int, i: int, t: (Seq<char>, Seq<char>, TaskSpec)|
            #[trigger] task_at(projects, p, f, i, t) implies all.contains(t) by {
            if p < init.len() {
                assert(init[p] == projects[p]);
                assert(task_at(init, p, f, i, t));
                let j = choose|j: int| 0 <= j < a.len() && a[j] == t;
                assert(all[j] == t);
            } else {
                assert(projects[p] == last);
                let ft_t = (t.1, t.2);
                assert(file_task_at(last.specs@, f, i, ft_t));
                let k = choose|k: int| 0 <= k < ft.len() && ft[k] == ft_t;
                assert(b[k] == t);
                assert(all[a.len() + k] == t);
            }
        }
        assert forall|j: int| 0 <= j < all.len() implies is_project_task(projects, #[trigger] all[j]) by {
            if j < a.len() {
                assert(all[j] == a[j]);
                assert(is_project_task(init, a[j]));
                let (p, f, i) = choose|p: int, f: int, i: int| #[trigger] task_at(init, p, f, i, a[j]);
                assert(init[p] == projects[p]);
                assert(task_at(projects, p, f, i, all[j]));
            } else {
                let k = j - a.len();
                assert(all[j] == b[k]);
                assert(is_file_task(last.specs@, ft[k]));
                let (f, i) = choose|f: int, i: int| #[trigger] file_task_at(last.specs@, f, i, ft[k]);
                assert(projects[projects.len() - 1] == last);
                assert(task_at(projects, projects.len() - 1, f, i, all[j]));
            }
        }
    } else {
        assert(all_tasks(projects).len() == 0);
    }
}

} // verus!
