//! Finding projects: the directories, at most a given depth below a root, that hold spec
//! files. The search stops at a project: directories below one are not searched.
//!
//! Directories are read by the caller: [`DiscoveryRun`] says which directory to read next
//! and takes what was found there.
use vstd::prelude::*;

use crate::paths::{file_name_of, path_file_name};
use crate::project::{LoadedSpec, Project};
use crate::spec::SpecFile;
use crate::text::str_eq;

verus! {

/// An entry of a directory: its path and whether it is a file or a directory.
#[derive(Debug)]
pub struct DirEntry {
    pub path: String,
    pub is_file: bool,
    pub is_dir: bool,
}

impl View for DirEntry {
    type V = (Seq<char>, bool, bool);

    open spec fn view(&self) -> (Seq<char>, bool, bool) {
        (self.path@, self.is_file, self.is_dir)
    }
}

/// Whether the file at `path` is a spec file: its name is one of `names`.
pub open spec fn spec_file_named(path: Seq<char>, names: Seq<Seq<char>>) -> bool {
    match path_file_name(path) {
        Some(n) => names.contains(n),
        None => false,
    }
}

/// The spec files among the entries of a directory, in order.
pub open spec fn found_specs(es: Seq<(Seq<char>, bool, bool)>, names: Seq<Seq<char>>) -> Seq<Seq<char>>
    decreases es.len(),
{
    if es.len() == 0 {
        Seq::empty()
    } else {
        let r = found_specs(es.drop_last(), names);
        if es.last().1 && spec_file_named(es.last().0, names) {
            r.push(es.last().0)
        } else {
            r
        }
    }
}

/// The directories among the entries of a directory, in order.
pub open spec fn sub_dirs(es: Seq<(Seq<char>, bool, bool)>) -> Seq<Seq<char>>
    decreases es.len(),
{
    if es.len() == 0 {
        Seq::empty()
    } else {
        let r = sub_dirs(es.drop_last());
        if es.last().2 {
            r.push(es.last().0)
        } else {
            r
        }
    }
}

/// Finds projects under a root.
pub struct ProjectDiscovery;

impl ProjectDiscovery {
    /// Whether the file at `path` is a spec file: its name is one of `spec_files`.
    pub fn is_spec_file(path: &str, spec_files: &Vec<String>) -> (r: bool)
        ensures
            r == spec_file_named(path@, spec_files.deep_view()),
    {
        let name = match file_name_of(path) {
            Some(n) => n,
            None => return false,
        };
        let mut i: usize = 0;
        while i < spec_files.len()
            invariant
                0 <= i <= spec_files.len(),
                path_file_name(path@) == Some(name@),
                forall|j: int| 0 <= j < i ==> spec_files.deep_view()[j] != name@,
            decreases spec_files.len() - i,
        {
            if str_eq(spec_files[i].as_str(), name.as_str()) {
                assert(spec_files.deep_view()[i as int] == name@);
                return true;
            }
            i = i + 1;
        }
        assert(!spec_files.deep_view().contains(name@));
        false
    }

    /// A search of `root` and the directories below it, `max_depth` levels deep in all
    /// (`root` is the first level).
    pub fn discover(root: &str, spec_files: Vec<String>, max_depth: usize) -> (r: DiscoveryRun)
        ensures
            r.pending() == if max_depth > 0 {
                seq![(root@, max_depth as nat)]
            } else {
                Seq::empty()
            },
            r.found().len() == 0,
            r.names() == spec_files.deep_view(),
    {
        let mut pending: Vec<(String, usize)> = Vec::new();
        if max_depth > 0 {
            pending.push((crate::text::owned(root), max_depth));
        }
        let r = DiscoveryRun { spec_files, pending, projects: Vec::new() };
        assert(r.pending() =~= if max_depth > 0 {
            seq![(root@, max_depth as nat)]
        } else {
            Seq::empty()
        });
        assert(r.found() =~= Seq::<(Seq<char>, Seq<Seq<char>>)>::empty());
        r
    }
}

/// A search in progress: the directories still to read, each with the number of levels
/// left at it, and the projects found so far.
pub struct DiscoveryRun {
    spec_files: Vec<String>,
    pending: Vec<(String, usize)>,
    projects: Vec<Project>,
}

/// The directories still to read of a stack of `(path, levels)`, the next one last.
pub open spec fn pending_views(v: Seq<(String, usize)>) -> Seq<(Seq<char>, nat)> {
    v.map_values(|p: (String, usize)| (p.0@, p.1 as nat))
}

/// The projects found, each as its root and spec files.
pub open spec fn found_views(v: Seq<Project>) -> Seq<(Seq<char>, Seq<Seq<char>>)> {
    v.map_values(|p: Project| (p.root@, p.spec_files.deep_view()))
}

/// The directories to read below a directory with `levels` levels left: its
/// sub-directories, the first one to read last, unless no level is left below it.
pub open spec fn children(dirs: Seq<Seq<char>>, levels: nat) -> Seq<(Seq<char>, nat)> {
    if levels > 1 {
        Seq::new(dirs.len(), |i: int| (dirs[dirs.len() - 1 - i], (levels - 1) as nat))
    } else {
        Seq::empty()
    }
}

impl DiscoveryRun {
    #[verifier::type_invariant]
    spec fn levels_left(self) -> bool {
        &&& forall|i: int| 0 <= i < self.pending@.len() ==> #[trigger] self.pending@[i].1 > 0
        &&& forall|i: int| 0 <= i < self.projects@.len() ==> (#[trigger] self.projects@[i]).specs@.len() == 0
    }

    /// The directories still to read, the next one last.
    pub closed spec fn pending(self) -> Seq<(Seq<char>, nat)> {
        pending_views(self.pending@)
    }

    /// The projects found so far, in the order found.
    pub closed spec fn found(self) -> Seq<(Seq<char>, Seq<Seq<char>>)> {
        found_views(self.projects@)
    }

    /// The names that spec files have.
    pub closed spec fn names(self) -> Seq<Seq<char>> {
        self.spec_files.deep_view()
    }

    /// The directory to read next, if any is left.
    pub fn next_dir(&self) -> (r: Option<&str>)
        ensures
            match r {
                Some(p) => self.pending().len() > 0 && p@ == self.pending().last().0,
                None => self.pending().len() == 0,
            },
    {
        if self.pending.len() == 0 {
            None
        } else {
            Some(self.pending[self.pending.len() - 1].0.as_str())
        }
    }

    /// Takes the entries of the directory that [`DiscoveryRun::next_dir`] named: a directory
    /// that holds spec files is a project, and the search does not go below it; otherwise its
    /// sub-directories are read next, in order, while levels are left.
    pub fn report(&mut self, entries: &Vec<DirEntry>)
        requires
            old(self).pending().len() > 0,
        ensures
            ({
                let (dir, levels) = old(self).pending().last();
                let es = entries@.map_values(|e: DirEntry| e@);
                let specs = found_specs(es, old(self).names());
                &&& final(self).names() == old(self).names()
                &&& if specs.len() > 0 {
                    &&& final(self).found() == old(self).found().push((dir, specs))
                    &&& final(self).pending() == old(self).pending().drop_last()
                } else {
                    &&& final(self).found() == old(self).found()
                    &&& final(self).pending() == old(self).pending().drop_last() + children(
                        sub_dirs(es),
                        levels,
                    )
                }
            }),
            (final(self).pending(), final(self).found()) == discovery_step(
                old(self).pending(),
                old(self).found(),
                entries@.map_values(|e: DirEntry| e@),
                old(self).names(),
            ),
    {
        proof {
            use_type_invariant(&*self);
        }
        let ghost es = entries@.map_values(|e: DirEntry| e@);
        let ghost names = self.names();
        let mut pending: Vec<(String, usize)> = Vec::new();
        std::mem::swap(&mut pending, &mut self.pending);
        let mut projects: Vec<Project> = Vec::new();
        std::mem::swap(&mut projects, &mut self.projects);
        let ghost base_projects = projects@;
        let (dir, levels) = match pending.pop() {
            Some(p) => p,
            None => {
                self.pending = pending;
                self.projects = projects;
                return;
            },
        };
        let ghost base = pending@;
        assert(pending_views(base) =~= old(self).pending().drop_last());
        let mut specs: Vec<String> = Vec::new();
        let mut dirs: Vec<String> = Vec::new();
        let mut i: usize = 0;
        while i < entries.len()
            invariant
                0 <= i <= entries.len(),
                es == entries@.map_values(|e: DirEntry| e@),
                names == self.spec_files.deep_view(),
                specs.deep_view() == found_specs(es.take(i as int), names),
                dirs.deep_view() == sub_dirs(es.take(i as int)),
            decreases entries.len() - i,
        {
            assert(es.take(i + 1).drop_last() =~= es.take(i as int));
            let e = &entries[i];
            assert(es.take(i + 1).last() == e@);
            if e.is_file && ProjectDiscovery::is_spec_file(e.path.as_str(), &self.spec_files) {
                let ghost before = specs.deep_view();
                specs.push(e.path.clone());
                assert(specs.deep_view() =~= before.push(e.path@));
            }
            if e.is_dir {
                let ghost before = dirs.deep_view();
                dirs.push(e.path.clone());
                assert(dirs.deep_view() =~= before.push(e.path@));
            }
            i = i + 1;
        }
        assert(es.take(entries.len() as int) =~= es);
        if specs.len() > 0 {
            let ghost sv = specs.deep_view();
            projects.push(Project { root: dir, spec_files: specs, specs: Vec::new() });
            assert(found_views(projects@) =~= found_views(base_projects).push((dir@, sv)));
        } else {
            let ghost ds = dirs.deep_view();
            if levels > 1 {
                let mut k: usize = dirs.len();
                while k > 0
                    invariant
                        0 <= k <= dirs.len(),
                        ds == dirs.deep_view(),
                        levels > 1,
                        forall|j: int| 0 <= j < pending@.len() ==> #[trigger] pending@[j].1 > 0,
                        pending_views(pending@) == pending_views(base) + Seq::new(
                            (dirs.len() - k) as nat,
                            |j: int| (ds[ds.len() - 1 - j], (levels - 1) as nat),
                        ),
                    decreases k,
                {
                    let ghost before = pending_views(pending@);
                    pending.push((dirs[k - 1].clone(), levels - 1));
                    assert(pending_views(pending@) =~= before.push((ds[k - 1], (levels - 1) as nat)));
                    assert(pending_views(pending@) =~= pending_views(base) + Seq::new(
                        (dirs.len() - (k - 1)) as nat,
                        |j: int| (ds[ds.len() - 1 - j], (levels - 1) as nat),
                    ));
                    k = k - 1;
                }
            }
            assert(pending_views(pending@) =~= pending_views(base) + children(ds, levels as nat));
        }
        self.pending = pending;
        self.projects = projects;
    }

    /// The projects found, their spec files not yet read.
    pub fn into_projects(self) -> (r: Vec<Project>)
        ensures
            found_views(r@) == self.found(),
            forall|i: int| 0 <= i < r@.len() ==> (#[trigger] r@[i]).specs@.len() == 0,
    {
        proof {
            use_type_invariant(&self);
        }
        self.projects
    }
}

/// The directories to read and the projects found after reading the directory named last
/// in `pending`, whose entries are `es`: what [`DiscoveryRun::report`] does.
pub open spec fn discovery_step(
    pending: Seq<(Seq<char>, nat)>,
    found: Seq<(Seq<char>, Seq<Seq<char>>)>,
    es: Seq<(Seq<char>, bool, bool)>,
    names: Seq<Seq<char>>,
) -> (Seq<(Seq<char>, nat)>, Seq<(Seq<char>, Seq<Seq<char>>)>) {
    let (dir, levels) = pending.last();
    let specs = found_specs(es, names);
    if specs.len() > 0 {
        (pending.drop_last(), found.push((dir, specs)))
    } else {
        (pending.drop_last() + children(sub_dirs(es), levels), found)
    }
}

/// A directory tree, as the entries that reading each directory gives.
pub type DirTree = Map<Seq<char>, Seq<(Seq<char>, bool, bool)>>;

/// Up to `steps` steps of a search over `tree`, from the directories `pending` and the
/// projects `found`; it stops early once nothing is left to read.
pub open spec fn walk(
    tree: DirTree,
    names: Seq<Seq<char>>,
    pending: Seq<(Seq<char>, nat)>,
    found: Seq<(Seq<char>, Seq<Seq<char>>)>,
    steps: nat,
) -> (Seq<(Seq<char>, nat)>, Seq<(Seq<char>, Seq<Seq<char>>)>)
    decreases steps,
{
    if steps == 0 || pending.len() == 0 {
        (pending, found)
    } else {
        let next = discovery_step(pending, found, tree[pending.last().0], names);
        walk(tree, names, next.0, next.1, (steps - 1) as nat)
    }
}

/// The projects at most `levels` levels deep from `dir` (itself the first level), in order:
/// `dir` itself when it holds spec files, else those below each of its sub-directories in
/// turn.
pub open spec fn projects_under(tree: DirTree, names: Seq<Seq<char>>, dir: Seq<char>, levels: nat) -> Seq<
    (Seq<char>, Seq<Seq<char>>),
>
    decreases levels, 0nat,
{
    if levels == 0 {
        Seq::empty()
    } else {
        let es = tree[dir];
        let specs = found_specs(es, names);
        if specs.len() > 0 {
            seq![(dir, specs)]
        } else {
            projects_in(tree, names, sub_dirs(es), (levels - 1) as nat)
        }
    }
}

/// The projects at most `levels` levels deep from each of `dirs`, one directory after the
/// other.
pub open spec fn projects_in(tree: DirTree, names: Seq<Seq<char>>, dirs: Seq<Seq<char>>, levels: nat) -> Seq<
    (Seq<char>, Seq<Seq<char>>),
>
    decreases levels, dirs.len() + 1,
{
    if dirs.len() == 0 {
        Seq::empty()
    } else {
        projects_under(tree, names, dirs[0], levels) + projects_in(tree, names, dirs.drop_first(), levels)
    }
}

/// The projects still to be found from a stack of directories, the next one last.
pub open spec fn outstanding(tree: DirTree, names: Seq<Seq<char>>, pending: Seq<(Seq<char>, nat)>) -> Seq<
    (Seq<char>, Seq<Seq<char>>),
>
    decreases pending.len(),
{
    if pending.len() == 0 {
        Seq::empty()
    } else {
        projects_under(tree, names, pending.last().0, pending.last().1) + outstanding(
            tree,
            names,
            pending.drop_last(),
        )
    }
}

/// Whether every directory still to read has a level left.
pub open spec fn levels_positive(pending: Seq<(Seq<char>, nat)>) -> bool {
    forall|i: int| 0 <= i < pending.len() ==> #[trigger] pending[i].1 > 0
}

proof fn lemma_outstanding_append(tree: DirTree, names: Seq<Seq<char>>, a: Seq<(Seq<char>, nat)>, b: Seq<(Seq<char>, nat)>)
    ensures
        outstanding(tree, names, a + b) == outstanding(tree, names, b) + outstanding(tree, names, a),
    decreases b.len(),
{
    if b.len() == 0 {
        assert(a + b =~= a);
        assert(outstanding(tree, names, b) + outstanding(tree, names, a) =~= outstanding(tree, names, a));
    } else {
        lemma_outstanding_append(tree, names, a, b.drop_last());
        assert((a + b).drop_last() =~= a + b.drop_last());
        assert((a + b).last() == b.last());
        let h = projects_under(tree, names, b.last().0, b.last().1);
        assert(h + (outstanding(tree, names, b.drop_last()) + outstanding(tree, names, a)) =~= (h
            + outstanding(tree, names, b.drop_last())) + outstanding(tree, names, a));
    }
}

proof fn lemma_projects_in_no_level(tree: DirTree, names: Seq<Seq<char>>, dirs: Seq<Seq<char>>)
    ensures
        projects_in(tree, names, dirs, 0) == Seq::<(Seq<char>, Seq<Seq<char>>)>::empty(),
    decreases dirs.len(),
{
    if dirs.len() > 0 {
        lemma_projects_in_no_level(tree, names, dirs.drop_first());
        assert(projects_under(tree, names, dirs[0], 0) =~= Seq::<(Seq<char>, Seq<Seq<char>>)>::empty());
        assert(projects_in(tree, names, dirs, 0) =~= Seq::<(Seq<char>, Seq<Seq<char>>)>::empty());
    }
}

proof fn lemma_outstanding_children(tree: DirTree, names: Seq<Seq<char>>, dirs: Seq<Seq<char>>, levels: nat)
    requires
        levels > 1,
    ensures
        outstanding(tree, names, children(dirs, levels)) == projects_in(tree, names, dirs, (levels - 1) as nat),
    decreases dirs.len(),
{
    let ch = children(dirs, levels);
    if dirs.len() > 0 {
        lemma_outstanding_children(tree, names, dirs.drop_first(), levels);
        assert(ch.drop_last() =~= children(dirs.drop_first(), levels));
        assert(ch.last() == (dirs[0], (levels - 1) as nat));
    } else {
        assert(ch =~= Seq::<(Seq<char>, nat)>::empty());
    }
}

proof fn lemma_discovery_step(
    tree: DirTree,
    names: Seq<Seq<char>>,
    pending: Seq<(Seq<char>, nat)>,
    found: Seq<(Seq<char>, Seq<Seq<char>>)>,
)
    requires
        pending.len() > 0,
        levels_positive(pending),
    ensures
        ({
            let next = discovery_step(pending, found, tree[pending.last().0], names);
            &&& levels_positive(next.0)
            &&& next.1 + outstanding(tree, names, next.0) == found + outstanding(tree, names, pending)
        }),
{
    let (dir, levels) = pending.last();
    assert(pending[pending.len() - 1].1 > 0);
    let es = tree[dir];
    let specs = found_specs(es, names);
    let base = pending.drop_last();
    assert(levels_positive(base)) by {
        assert forall|i: int| 0 <= i < base.len() implies #[trigger] base[i].1 > 0 by {
            assert(base[i] == pending[i]);
        }
    }
    let rest = outstanding(tree, names, base);
    if specs.len() > 0 {
        assert(found.push((dir, specs)) + rest =~= found + (seq![(dir, specs)] + rest));
    } else {
        let ch = children(sub_dirs(es), levels);
        lemma_outstanding_append(tree, names, base, ch);
        if levels > 1 {
            lemma_outstanding_children(tree, names, sub_dirs(es), levels);
        } else {
            lemma_projects_in_no_level(tree, names, sub_dirs(es));
            assert(ch =~= Seq::<(Seq<char>, nat)>::empty());
        }
        assert(levels_positive(base + ch)) by {
            assert forall|i: int| 0 <= i < (base + ch).len() implies #[trigger] (base + ch)[i].1 > 0 by {
                if i < base.len() {
                    assert((base + ch)[i] == base[i]);
                } else {
                    assert((base + ch)[i] == ch[i - base.len()]);
                }
            }
        }
    }
}

proof fn lemma_walk(
    tree: DirTree,
    names: Seq<Seq<char>>,
    pending: Seq<(Seq<char>, nat)>,
    found: Seq<(Seq<char>, Seq<Seq<char>>)>,
    steps: nat,
)
    requires
        levels_positive(pending),
    ensures
        ({
            let end = walk(tree, names, pending, found, steps);
            end.1 + outstanding(tree, names, end.0) == found + outstanding(tree, names, pending)
        }),
    decreases steps,
{
    if steps > 0 && pending.len() > 0 {
        lemma_discovery_step(tree, names, pending, found);
        let next = discovery_step(pending, found, tree[pending.last().0], names);
        lemma_walk(tree, names, next.0, next.1, (steps - 1) as nat);
    }
}

/// A search of `root`, `max_depth` levels deep, that reads each directory it names from
/// `tree` and runs until nothing is left to read, finds exactly the topmost directories within
/// that depth that hold spec files, in order, each with its spec files; it reads nothing
/// below a project.
pub proof fn law_discovery_finds_topmost_projects(
    tree: DirTree,
    names: Seq<Seq<char>>,
    root: Seq<char>,
    max_depth: nat,
    steps: nat,
)
    ensures
        ({
            let start = if max_depth > 0 {
                seq![(root, max_depth)]
            } else {
                Seq::<(Seq<char>, nat)>::empty()
            };
            let end = walk(tree, names, start, Seq::empty(), steps);
            end.0.len() == 0 ==> end.1 == projects_under(tree, names, root, max_depth)
        }),
{
    let start = if max_depth > 0 {
        seq![(root, max_depth)]
    } else {
        Seq::<(Seq<char>, nat)>::empty()
    };
    lemma_walk(tree, names, start, Seq::empty(), steps);
    let end = walk(tree, names, start, Seq::empty(), steps);
    if end.0.len() == 0 {
        assert(end.1 + outstanding(tree, names, end.0) =~= end.1);
        if max_depth > 0 {
            assert(start.drop_last() =~= Seq::<(Seq<char>, nat)>::empty());
            assert(outstanding(tree, names, start.drop_last()) =~= Seq::<(Seq<char>, Seq<Seq<char>>)>::empty());
            assert(start.last() == (root, max_depth));
            assert(outstanding(tree, names, start) =~= projects_under(tree, names, root, max_depth) + Seq::empty());
        }
        assert(Seq::<(Seq<char>, Seq<Seq<char>>)>::empty() + outstanding(tree, names, start) =~= projects_under(tree, names, root, max_depth));
    }
}

} // verus!
