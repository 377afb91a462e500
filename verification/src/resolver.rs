//! Finding a task, job or shell by name across projects.
use vstd::prelude::*;

use crate::error::MeriadocError;
use crate::paths::{file_name_of, path_file_name};
use crate::project::{LoadedSpec, Project};
use crate::spec::{EntityKind, JobSpec, ShellSpec, SpecFile, TaskSpec, kind_name};
use crate::text::{find_char, first_char, owned, str_chars, str_eq, substring};

verus! {

/// A task found by name, with where it was found.
#[derive(Debug)]
pub struct ResolvedTask<'a> {
    pub name: String,
    pub spec: &'a TaskSpec,
    pub spec_file: &'a LoadedSpec,
    pub project: &'a Project,
}

/// A job found by name, with where it was found.
#[derive(Debug)]
pub struct ResolvedJob<'a> {
    pub name: String,
    pub spec: &'a JobSpec,
    pub spec_file: &'a LoadedSpec,
    pub project: &'a Project,
}

/// A shell found by name, with where it was found.
#[derive(Debug)]
pub struct ResolvedShell<'a> {
    pub name: String,
    pub spec: &'a ShellSpec,
    pub spec_file: &'a LoadedSpec,
    pub project: &'a Project,
}

/// `project:entity` splits at its first colon; a name without one names no project.
pub open spec fn qualified_parts(name: Seq<char>) -> (Option<Seq<char>>, Seq<char>) {
    match first_char(name, ':') {
        Some(i) => (Some(name.take(i)), name.skip(i + 1)),
        None => (None, name),
    }
}

/// The name of a project: the last component of its root, or `unknown`.
pub open spec fn project_name_of(root: Seq<char>) -> Seq<char> {
    match path_file_name(root) {
        Some(n) => n,
        None => "unknown"@,
    }
}

/// Whether the project passes the project part of a qualified name.
pub open spec fn passes(p: Project, filter: Option<Seq<char>>) -> bool {
    match filter {
        Some(f) => project_name_of(p.root@) == f,
        None => true,
    }
}

/// Whether `spec` declares an entity of kind `k` named `n`.
pub open spec fn declares(spec: SpecFile, k: EntityKind, n: Seq<char>) -> bool {
    match k {
        EntityKind::Task => spec.tasks@.dom().contains(n),
        EntityKind::Job => spec.jobs@.dom().contains(n),
        EntityKind::Shell => spec.shells@.dom().contains(n),
    }
}

/// The positions of the files of `specs` that declare `n`, in order.
pub open spec fn file_matches(specs: Seq<LoadedSpec>, k: EntityKind, n: Seq<char>) -> Seq<int>
    decreases specs.len(),
{
    if specs.len() == 0 {
        Seq::empty()
    } else {
        let r = file_matches(specs.drop_last(), k, n);
        if declares(specs.last().spec, k, n) {
            r.push(specs.len() - 1)
        } else {
            r
        }
    }
}

/// Every `(project, file)` position that declares `n` among the projects that pass
/// `filter`, projects in order and files in order within each.
pub open spec fn entity_matches(
    projects: Seq<Project>,
    filter: Option<Seq<char>>,
    k: EntityKind,
    n: Seq<char>,
) -> Seq<(int, int)>
    decreases projects.len(),
{
    if projects.len() == 0 {
        Seq::empty()
    } else {
        let p = projects.len() - 1;
        entity_matches(projects.drop_last(), filter, k, n) + if passes(projects.last(), filter) {
            file_matches(projects.last().specs@, k, n).map_values(|j: int| (p, j))
        } else {
            Seq::empty()
        }
    }
}

/// The matches of a (possibly qualified) name.
pub open spec fn matches_of(projects: Seq<Project>, k: EntityKind, name: Seq<char>) -> Seq<
    (int, int),
> {
    entity_matches(projects, qualified_parts(name).0, k, qualified_parts(name).1)
}

/// What a lookup that did not find exactly one match reports: none, or how many.
pub open spec fn lookup_error(e: MeriadocError, count: nat, kind: Seq<char>, name: Seq<char>) -> bool {
    if count == 0 {
        e matches MeriadocError::EntityNotFound { kind: kd, name: n } && kd@ == kind && n@ == name
    } else {
        e matches MeriadocError::AmbiguousEntity { kind: kd, name: n, count: c } && kd@ == kind
            && n@ == name && c == count
    }
}

/// Every position that `file_matches` gives is a file that declares the name.
pub proof fn lemma_file_matches_valid(specs: Seq<LoadedSpec>, k: EntityKind, n: Seq<char>)
    ensures
        forall|i: int|
            0 <= i < file_matches(specs, k, n).len() ==> 0 <= #[trigger] file_matches(
                specs,
                k,
                n,
            )[i] < specs.len() && declares(specs[file_matches(specs, k, n)[i]].spec, k, n),
    decreases specs.len(),
{
    if specs.len() > 0 {
        let before = specs.drop_last();
        lemma_file_matches_valid(before, k, n);
        let fm = file_matches(specs, k, n);
        let fb = file_matches(before, k, n);
        assert forall|i: int| 0 <= i < fm.len() implies 0 <= #[trigger] fm[i] < specs.len()
            && declares(specs[fm[i]].spec, k, n) by {
            if i < fb.len() {
                assert(fm[i] == fb[i]);
                assert(before[fb[i]] == specs[fb[i]]);
            }
        }
    }
}

/// Every position that `entity_matches` gives is a file, of a project that passes the
/// filter, that declares the name.
pub proof fn lemma_entity_matches_valid(
    projects: Seq<Project>,
    filter: Option<Seq<char>>,
    k: EntityKind,
    n: Seq<char>,
)
    ensures
        forall|i: int|
            #![trigger entity_matches(projects, filter, k, n)[i]]
            0 <= i < entity_matches(projects, filter, k, n).len() ==> {
                let (p, f) = entity_matches(projects, filter, k, n)[i];
                &&& 0 <= p < projects.len()
                &&& 0 <= f < projects[p].specs@.len()
                &&& passes(projects[p], filter)
                &&& declares(projects[p].specs@[f].spec, k, n)
            },
    decreases projects.len(),
{
    if projects.len() > 0 {
        let before = projects.drop_last();
        lemma_entity_matches_valid(before, filter, k, n);
        lemma_file_matches_valid(projects.last().specs@, k, n);
        let m = entity_matches(projects, filter, k, n);
        let mb = entity_matches(before, filter, k, n);
        assert forall|i: int| #![trigger m[i]] 0 <= i < m.len() implies {
            let (p, f) = m[i];
            &&& 0 <= p < projects.len()
            &&& 0 <= f < projects[p].specs@.len()
            &&& passes(projects[p], filter)
            &&& declares(projects[p].specs@[f].spec, k, n)
        } by {
            if i < mb.len() {
                assert(m[i] == mb[i]);
                assert(before[mb[i].0] == projects[mb[i].0]);
            } else {
                let fm = file_matches(projects.last().specs@, k, n);
                assert(m[i] == (projects.len() - 1, fm[i - mb.len()]));
            }
        }
    }
}

/// Finds tasks, jobs and shells by name.
pub struct EntityResolver;

impl EntityResolver {
    /// Splits `project:entity` at its first colon.
    pub fn parse_qualified_name(name: &str) -> (r: (Option<String>, String))
        ensures
            r.0 matches Some(p) ==> qualified_parts(name@).0 == Some(p@),
            r.0 is None ==> qualified_parts(name@).0 is None,
            r.1@ == qualified_parts(name@).1,
    {
        let cs = str_chars(name);
        match find_char(&cs, ':') {
            Some(i) => {
                let project = substring(&cs, 0, i);
                let entity = substring(&cs, i + 1, cs.len());
                assert(cs@.subrange(0, i as int) =~= name@.take(i as int));
                assert(cs@.subrange(i + 1, cs.len() as int) =~= name@.skip(i + 1));
                (Some(project), entity)
            },
            None => (None, owned(name)),
        }
    }

    /// The last component of the project's root, or `unknown` where it has none.
    pub fn project_name(project: &Project) -> (r: String)
        ensures
            r@ == project_name_of(project.root@),
    {
        match file_name_of(project.root.as_str()) {
            Some(n) => n,
            None => {
                proof {
                    reveal_strlit("unknown");
                }
                owned("unknown")
            },
        }
    }

    /// Whether `spec` declares an entity of kind `k` named `n`.
    fn declares_exec(spec: &SpecFile, k: EntityKind, n: &str) -> (r: bool)
        ensures
            r == declares(*spec, k, n@),
    {
        match k {
            EntityKind::Task => spec.tasks.contains_key(n),
            EntityKind::Job => spec.jobs.contains_key(n),
            EntityKind::Shell => spec.shells.contains_key(n),
        }
    }

    /// The `(project, file)` positions that declare `n`, in search order.
    fn find_matches(projects: &[Project], filter: &Option<String>, k: EntityKind, n: &str) -> (r:
        Vec<(usize, usize)>)
        ensures
            r@.len() == entity_matches(projects@, opt_view(filter), k, n@).len(),
            forall|i: int|
                0 <= i < r@.len() ==> (r@[i].0 as int, r@[i].1 as int) == #[trigger] entity_matches(
                    projects@,
                    opt_view(filter),
                    k,
                    n@,
                )[i],
    {
        let ghost f = opt_view(filter);
        let mut out: Vec<(usize, usize)> = Vec::new();
        let mut p: usize = 0;
        while p < projects.len()
            invariant
                0 <= p <= projects.len(),
                f == opt_view(filter),
                out@.len() == entity_matches(projects@.take(p as int), f, k, n@).len(),
                forall|i: int|
                    0 <= i < out@.len() ==> (out@[i].0 as int, out@[i].1 as int)
                        == #[trigger] entity_matches(projects@.take(p as int), f, k, n@)[i],
            decreases projects.len() - p,
        {
            let project = &projects[p];
            assert(projects@.take(p + 1).drop_last() =~= projects@.take(p as int));
            let ghost before = out@;
            let ghost prev = entity_matches(projects@.take(p as int), f, k, n@);
            let keep = match filter {
                Some(want) => {
                    let pn = Self::project_name(project);
                    str_eq(pn.as_str(), want.as_str())
                },
                None => true,
            };
            if keep {
                let mut j: usize = 0;
                while j < project.specs.len()
                    invariant
                        0 <= j <= project.specs.len(),
                        p < projects.len(),
                        *project == projects@[p as int],
                        out@.len() == before.len() + file_matches(
                            project.specs@.take(j as int),
                            k,
                            n@,
                        ).len(),
                        before.len() == prev.len(),
                        forall|i: int|
                            0 <= i < before.len() ==> (before[i].0 as int, before[i].1 as int)
                                == #[trigger] prev[i],
                        forall|i: int| 0 <= i < before.len() ==> out@[i] == before[i],
                        forall|i: int|
                            0 <= i < file_matches(project.specs@.take(j as int), k, n@).len() ==> (
                            out@[before.len() + i].0 as int,
                            out@[before.len() + i].1 as int,
                        ) == (p as int, #[trigger] file_matches(
                                project.specs@.take(j as int),
                                k,
                                n@,
                            )[i]),
                    decreases project.specs.len() - j,
                {
                    assert(project.specs@.take(j + 1).drop_last() =~= project.specs@.take(j as int));
                    if Self::declares_exec(&project.specs[j].spec, k, n) {
                        out.push((p, j));
                    }
                    j = j + 1;
                }
                assert(project.specs@.take(project.specs.len() as int) =~= project.specs@);
            }
            assert(entity_matches(projects@.take(p + 1), f, k, n@) =~= prev + if keep {
                file_matches(project.specs@, k, n@).map_values(|j: int| (p as int, j))
            } else {
                Seq::empty()
            });
            p = p + 1;
        }
        assert(projects@.take(projects.len() as int) =~= projects@);
        out
    }

    /// The task named `name` (`task` or `project:task`) among `projects`: the single
    /// declaration of it, else `EntityNotFound` or `AmbiguousEntity` with the number found.
    pub fn resolve_task<'a>(name: &str, projects: &'a [Project]) -> (r: Result<
        ResolvedTask<'a>,
        MeriadocError,
    >)
        ensures
            (matches_of(projects@, EntityKind::Task, name@).len() == 1) == (r is Ok),
            r matches Ok(t) ==> {
                let m = matches_of(projects@, EntityKind::Task, name@)[0];
                &&& t.name@ == qualified_parts(name@).1
                &&& *t.project == projects@[m.0]
                &&& *t.spec_file == projects@[m.0].specs@[m.1]
                &&& t.spec_file.spec.tasks@.dom().contains(t.name@)
                &&& *t.spec == t.spec_file.spec.tasks@[t.name@]
            },
            r matches Err(e) ==> lookup_error(
                e,
                matches_of(projects@, EntityKind::Task, name@).len(),
                "task"@,
                name@,
            ),
    {
        let (filter, n) = Self::parse_qualified_name(name);
        let ms = Self::find_matches(projects, &filter, EntityKind::Task, n.as_str());
        let ghost m = entity_matches(projects@, opt_view(&filter), EntityKind::Task, n@);
        assert(m == matches_of(projects@, EntityKind::Task, name@));
        proof {
            lemma_entity_matches_valid(projects@, opt_view(&filter), EntityKind::Task, n@);
        }
        let mut found: Vec<ResolvedTask<'a>> = Vec::new();
        let mut i: usize = 0;
        while i < ms.len()
            invariant
                0 <= i <= ms.len(),
                ms@.len() == m.len(),
                forall|j: int| 0 <= j < ms@.len() ==> (ms@[j].0 as int, ms@[j].1 as int) == #[trigger] m[j],
                forall|j: int|
                    #![trigger m[j]]
                    0 <= j < m.len() ==> {
                        let (p, f) = m[j];
                        &&& 0 <= p < projects@.len()
                        &&& 0 <= f < projects@[p].specs@.len()
                        &&& declares(projects@[p].specs@[f].spec, EntityKind::Task, n@)
                    },
                found@.len() == i,
                forall|j: int|
                    0 <= j < i ==> {
                        let t = #[trigger] found@[j];
                        &&& t.name@ == n@
                        &&& *t.project == projects@[m[j].0]
                        &&& *t.spec_file == projects@[m[j].0].specs@[m[j].1]
                        &&& t.spec_file.spec.tasks@.dom().contains(t.name@)
                        &&& *t.spec == t.spec_file.spec.tasks@[t.name@]
                    },
            decreases ms.len() - i,
        {
            let (p, f) = ms[i];
            assert(m[i as int] == (p as int, f as int));
            let project = &projects[p];
            let spec_file = &project.specs[f];
            match spec_file.spec.tasks.get(n.as_str()) {
                Some(spec) => {
                    found.push(ResolvedTask { name: n.clone(), spec, spec_file, project });
                },
                None => {
                    proof {
                        assert(false);
                    }
                },
            }
            i = i + 1;
        }
        proof {
            reveal_strlit("task");
        }
        Self::resolve_single(found, "task", name)
    }

    /// The job named `name` (`job` or `project:job`) among `projects`: the single
    /// declaration of it, else `EntityNotFound` or `AmbiguousEntity` with the number found.
    pub fn resolve_job<'a>(name: &str, projects: &'a [Project]) -> (r: Result<
        ResolvedJob<'a>,
        MeriadocError,
    >)
        ensures
            (matches_of(projects@, EntityKind::Job, name@).len() == 1) == (r is Ok),
            r matches Ok(t) ==> {
                let m = matches_of(projects@, EntityKind::Job, name@)[0];
                &&& t.name@ == qualified_parts(name@).1
                &&& *t.project == projects@[m.0]
                &&& *t.spec_file == projects@[m.0].specs@[m.1]
                &&& t.spec_file.spec.jobs@.dom().contains(t.name@)
                &&& *t.spec == t.spec_file.spec.jobs@[t.name@]
            },
            r matches Err(e) ==> lookup_error(
                e,
                matches_of(projects@, EntityKind::Job, name@).len(),
                "job"@,
                name@,
            ),
    {
        let (filter, n) = Self::parse_qualified_name(name);
        let ms = Self::find_matches(projects, &filter, EntityKind::Job, n.as_str());
        let ghost m = entity_matches(projects@, opt_view(&filter), EntityKind::Job, n@);
        assert(m == matches_of(projects@, EntityKind::Job, name@));
        proof {
            lemma_entity_matches_valid(projects@, opt_view(&filter), EntityKind::Job, n@);
        }
        let mut found: Vec<ResolvedJob<'a>> = Vec::new();
        let mut i: usize = 0;
        while i < ms.len()
            invariant
                0 <= i <= ms.len(),
                ms@.len() == m.len(),
                forall|j: int| 0 <= j < ms@.len() ==> (ms@[j].0 as int, ms@[j].1 as int) == #[trigger] m[j],
                forall|j: int|
                    #![trigger m[j]]
                    0 <= j < m.len() ==> {
                        let (p, f) = m[j];
                        &&& 0 <= p < projects@.len()
                        &&& 0 <= f < projects@[p].specs@.len()
                        &&& declares(projects@[p].specs@[f].spec, EntityKind::Job, n@)
                    },
                found@.len() == i,
                forall|j: int|
                    0 <= j < i ==> {
                        let t = #[trigger] found@[j];
                        &&& t.name@ == n@
                        &&& *t.project == projects@[m[j].0]
                        &&& *t.spec_file == projects@[m[j].0].specs@[m[j].1]
                        &&& t.spec_file.spec.jobs@.dom().contains(t.name@)
                        &&& *t.spec == t.spec_file.spec.jobs@[t.name@]
                    },
            decreases ms.len() - i,
        {
            let (p, f) = ms[i];
            assert(m[i as int] == (p as int, f as int));
            let project = &projects[p];
            let spec_file = &project.specs[f];
            match spec_file.spec.jobs.get(n.as_str()) {
                Some(spec) => {
                    found.push(ResolvedJob { name: n.clone(), spec, spec_file, project });
                },
                None => {
                    proof {
                        assert(false);
                    }
                },
            }
            i = i + 1;
        }
        proof {
            reveal_strlit("job");
        }
        Self::resolve_single(found, "job", name)
    }

    /// The shell named `name` (`shell` or `project:shell`) among `projects`: the single
    /// declaration of it, else `EntityNotFound` or `AmbiguousEntity` with the number found.
    pub fn resolve_shell<'a>(name: &str, projects: &'a [Project]) -> (r: Result<
        ResolvedShell<'a>,
        MeriadocError,
    >)
        ensures
            (matches_of(projects@, EntityKind::Shell, name@).len() == 1) == (r is Ok),
            r matches Ok(t) ==> {
                let m = matches_of(projects@, EntityKind::Shell, name@)[0];
                &&& t.name@ == qualified_parts(name@).1
                &&& *t.project == projects@[m.0]
                &&& *t.spec_file == projects@[m.0].specs@[m.1]
                &&& t.spec_file.spec.shells@.dom().contains(t.name@)
                &&& *t.spec == t.spec_file.spec.shells@[t.name@]
            },
            r matches Err(e) ==> lookup_error(
                e,
                matches_of(projects@, EntityKind::Shell, name@).len(),
                "shell"@,
                name@,
            ),
    {
        let (filter, n) = Self::parse_qualified_name(name);
        let ms = Self::find_matches(projects, &filter, EntityKind::Shell, n.as_str());
        let ghost m = entity_matches(projects@, opt_view(&filter), EntityKind::Shell, n@);
        assert(m == matches_of(projects@, EntityKind::Shell, name@));
        proof {
            lemma_entity_matches_valid(projects@, opt_view(&filter), EntityKind::Shell, n@);
        }
        let mut found: Vec<ResolvedShell<'a>> = Vec::new();
        let mut i: usize = 0;
        while i < ms.len()
            invariant
                0 <= i <= ms.len(),
                ms@.len() == m.len(),
                forall|j: int| 0 <= j < ms@.len() ==> (ms@[j].0 as int, ms@[j].1 as int) == #[trigger] m[j],
                forall|j: int|
                    #![trigger m[j]]
                    0 <= j < m.len() ==> {
                        let (p, f) = m[j];
                        &&& 0 <= p < projects@.len()
                        &&& 0 <= f < projects@[p].specs@.len()
                        &&& declares(projects@[p].specs@[f].spec, EntityKind::Shell, n@)
                    },
                found@.len() == i,
                forall|j: int|
                    0 <= j < i ==> {
                        let t = #[trigger] found@[j];
                        &&& t.name@ == n@
                        &&& *t.project == projects@[m[j].0]
                        &&& *t.spec_file == projects@[m[j].0].specs@[m[j].1]
                        &&& t.spec_file.spec.shells@.dom().contains(t.name@)
                        &&& *t.spec == t.spec_file.spec.shells@[t.name@]
                    },
            decreases ms.len() - i,
        {
            let (p, f) = ms[i];
            assert(m[i as int] == (p as int, f as int));
            let project = &projects[p];
            let spec_file = &project.specs[f];
            match spec_file.spec.shells.get(n.as_str()) {
                Some(spec) => {
                    found.push(ResolvedShell { name: n.clone(), spec, spec_file, project });
                },
                None => {
                    proof {
                        assert(false);
                    }
                },
            }
            i = i + 1;
        }
        proof {
            reveal_strlit("shell");
        }
        Self::resolve_single(found, "shell", name)
    }

    /// The one match, or what went wrong: nothing found, or more than one found.
    fn resolve_single<T>(matches: Vec<T>, kind: &str, name: &str) -> (r: Result<T, MeriadocError>)
        ensures
            matches@.len() == 1 ==> r == Ok::<T, MeriadocError>(matches@[0]),
            matches@.len() != 1 ==> (r matches Err(e) && lookup_error(
                e,
                matches@.len(),
                kind@,
                name@,
            )),
    {
        let mut matches = matches;
        let count = matches.len();
        if count == 0 {
            Err(MeriadocError::EntityNotFound { kind: owned(kind), name: owned(name) })
        } else if count == 1 {
            Ok(matches.remove(0))
        } else {
            Err(MeriadocError::AmbiguousEntity { kind: owned(kind), name: owned(name), count })
        }
    }
}

/// The project part of a qualified name, as text.
pub open spec fn opt_view(o: &Option<String>) -> Option<Seq<char>> {
    match o {
        Some(s) => Some(s@),
        None => None,
    }
}

} // verus!
