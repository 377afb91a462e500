//! The runner's own configuration: where projects are found and where caches go.
use vstd::prelude::*;

use crate::error::MeriadocError;
use crate::saved_env::{join_path, joined_path};
use crate::text::{owned, str_eq};

verus! {

/// A directory searched for projects.
#[derive(Debug)]
pub struct DiscoveryRoot {
    /// The directory.
    pub path: String,
    /// A name for people to read, if one was given.
    pub name: Option<String>,
    /// Whether it is searched.
    pub enabled: bool,
}

impl View for DiscoveryRoot {
    type V = (Seq<char>, Option<Seq<char>>, bool);

    open spec fn view(&self) -> (Seq<char>, Option<Seq<char>>, bool) {
        (
            self.path@,
            match &self.name {
                Some(n) => Some(n@),
                None => None,
            },
            self.enabled,
        )
    }
}

/// How projects are discovered.
#[derive(Debug)]
pub struct DiscoveryConfig {
    /// The directories searched for spec files.
    pub roots: Vec<DiscoveryRoot>,
    /// How deep below a root the search goes.
    pub max_depth: usize,
    /// Whether specs are validated when they are found.
    pub validate_on_discovery: bool,
    /// The file names that spec files have.
    pub spec_files: Vec<String>,
}

/// The file names a spec file has unless configured otherwise.
pub open spec fn default_spec_files() -> Seq<Seq<char>> {
    seq!["meriadoc.yaml"@, "meriadoc.yml"@, "merry.yaml"@, "merry.yml"@]
}

impl Default for DiscoveryConfig {
    fn default() -> (r: Self)
        ensures
            r.roots@.len() == 0,
            r.max_depth == 3,
            r.validate_on_discovery,
            r.spec_files.deep_view() == default_spec_files(),
    {
        let spec_files = vec![
            owned("meriadoc.yaml"),
            owned("meriadoc.yml"),
            owned("merry.yaml"),
            owned("merry.yml"),
        ];
        assert(spec_files.deep_view() =~= default_spec_files());
        DiscoveryConfig { roots: Vec::new(), max_depth: 3, validate_on_discovery: true, spec_files }
    }
}

/// Where validation results are cached.
#[derive(Debug)]
pub struct CacheConfig {
    /// Whether the cache is used at all.
    pub enabled: bool,
    /// The directory of the cache.
    pub dir: String,
}

impl Default for CacheConfig {
    fn default() -> (r: Self)
        ensures
            r.enabled,
            r.dir@ == ".meriadoc/cache"@,
    {
        CacheConfig { enabled: true, dir: owned(".meriadoc/cache") }
    }
}

/// The configuration file's contents.
#[derive(Debug)]
pub struct MeriadocConfig {
    pub discovery: DiscoveryConfig,
    pub cache: CacheConfig,
}

impl Default for MeriadocConfig {
    fn default() -> (r: Self)
        ensures
            r.discovery.roots@.len() == 0,
            r.discovery.max_depth == 3,
            r.discovery.validate_on_discovery,
            r.discovery.spec_files.deep_view() == default_spec_files(),
            r.cache.enabled,
            r.cache.dir@ == ".meriadoc/cache"@,
    {
        MeriadocConfig { discovery: DiscoveryConfig::default(), cache: CacheConfig::default() }
    }
}

/// The views of a list of roots.
pub open spec fn root_views(roots: Seq<DiscoveryRoot>) -> Seq<(Seq<char>, Option<Seq<char>>, bool)> {
    roots.map_values(|r: DiscoveryRoot| r@)
}

/// The position of the first root with path `p`, if any.
pub open spec fn first_root(roots: Seq<(Seq<char>, Option<Seq<char>>, bool)>, p: Seq<char>) -> Option<
    int,
> {
    if exists|i: int| 0 <= i < roots.len() && roots[i].0 == p {
        Some(
            choose|i: int|
                0 <= i < roots.len() && roots[i].0 == p && forall|j: int|
                    0 <= j < i ==> roots[j].0 != p,
        )
    } else {
        None
    }
}

/// The roots after `p` is added: the first root with that path is enabled, or a new
/// enabled root without a name is appended.
pub open spec fn with_root_enabled(roots: Seq<(Seq<char>, Option<Seq<char>>, bool)>, p: Seq<char>) -> Seq<
    (Seq<char>, Option<Seq<char>>, bool),
> {
    match first_root(roots, p) {
        Some(i) => roots.update(i, (roots[i].0, roots[i].1, true)),
        None => roots.push((p, None, true)),
    }
}

/// The roots after each path of `ps` is added, in order.
pub open spec fn with_roots_enabled(
    roots: Seq<(Seq<char>, Option<Seq<char>>, bool)>,
    ps: Seq<Seq<char>>,
) -> Seq<(Seq<char>, Option<Seq<char>>, bool)>
    decreases ps.len(),
{
    if ps.len() == 0 {
        roots
    } else {
        with_root_enabled(with_roots_enabled(roots, ps.drop_last()), ps.last())
    }
}

/// The roots after `p` is disabled: the first root with that path, if any.
pub open spec fn with_root_disabled(roots: Seq<(Seq<char>, Option<Seq<char>>, bool)>, p: Seq<char>) -> Seq<
    (Seq<char>, Option<Seq<char>>, bool),
> {
    match first_root(roots, p) {
        Some(i) => roots.update(i, (roots[i].0, roots[i].1, false)),
        None => roots,
    }
}

/// The position of the first root with path `p`.
fn find_root(roots: &Vec<DiscoveryRoot>, p: &str) -> (r: Option<usize>)
    ensures
        match r {
            Some(i) => first_root(root_views(roots@), p@) == Some(i as int) && i < roots@.len(),
            None => first_root(root_views(roots@), p@) is None,
        },
{
    let ghost rv = root_views(roots@);
    let mut i: usize = 0;
    while i < roots.len()
        invariant
            0 <= i <= roots.len(),
            rv == root_views(roots@),
            forall|j: int| 0 <= j < i ==> rv[j].0 != p@,
        decreases roots.len() - i,
    {
        if str_eq(roots[i].path.as_str(), p) {
            proof {
                let k = choose|k: int|
                    0 <= k < rv.len() && rv[k].0 == p@ && forall|j: int| 0 <= j < k ==> rv[j].0 != p@;
                assert(rv[i as int].0 == p@);
                if k < i {
                    assert(rv[k].0 != p@);
                } else if k > i {
                    assert(rv[i as int].0 != p@);
                }
            }
            return Some(i);
        }
        i = i + 1;
    }
    None
}

/// Sets whether the root at `i` is searched.
fn set_enabled(roots: &mut Vec<DiscoveryRoot>, i: usize, enabled: bool)
    requires
        i < old(roots)@.len(),
    ensures
        root_views(final(roots)@) == root_views(old(roots)@).update(
            i as int,
            (old(roots)@[i as int]@.0, old(roots)@[i as int]@.1, enabled),
        ),
{
    let ghost before = root_views(roots@);
    let mut root = roots.remove(i);
    root.enabled = enabled;
    roots.insert(i, root);
    assert(root_views(roots@) =~= before.update(i as int, (before[i as int].0, before[i as int].1, enabled)));
}

/// Changes to the configured discovery roots.
pub struct ConfigActions;

impl ConfigActions {
    /// Adds the roots of the projects discovered under a directory: a root already listed
    /// is enabled, a new one is appended enabled and without a name.
    pub fn add_path(config: &mut MeriadocConfig, discovered: &Vec<String>)
        ensures
            root_views(final(config).discovery.roots@) == with_roots_enabled(
                root_views(old(config).discovery.roots@),
                discovered.deep_view(),
            ),
            final(config).discovery.max_depth == old(config).discovery.max_depth,
            final(config).discovery.validate_on_discovery == old(config).discovery.validate_on_discovery,
            final(config).discovery.spec_files@ == old(config).discovery.spec_files@,
            final(config).cache == old(config).cache,
    {
        let ghost start = root_views(config.discovery.roots@);
        let mut k: usize = 0;
        while k < discovered.len()
            invariant
                0 <= k <= discovered.len(),
                root_views(config.discovery.roots@) == with_roots_enabled(
                    start,
                    discovered.deep_view().take(k as int),
                ),
                config.discovery.max_depth == old(config).discovery.max_depth,
                config.discovery.validate_on_discovery == old(config).discovery.validate_on_discovery,
                config.discovery.spec_files@ == old(config).discovery.spec_files@,
                config.cache == old(config).cache,
            decreases discovered.len() - k,
        {
            let ghost t = discovered.deep_view().take(k + 1);
            assert(t.drop_last() =~= discovered.deep_view().take(k as int));
            assert(t.last() == discovered@[k as int]@);
            match find_root(&config.discovery.roots, discovered[k].as_str()) {
                Some(i) => {
                    set_enabled(&mut config.discovery.roots, i, true);
                },
                None => {
                    let ghost before = root_views(config.discovery.roots@);
                    config.discovery.roots.push(
                        DiscoveryRoot { path: discovered[k].clone(), name: None, enabled: true },
                    );
                    assert(root_views(config.discovery.roots@) =~= before.push(
                        (discovered@[k as int]@, None, true),
                    ));
                },
            }
            k = k + 1;
        }
        assert(discovered.deep_view().take(discovered.len() as int) =~= discovered.deep_view());
    }

    /// Stops searching the root with path `path`; false when no root has that path.
    pub fn disable_path(config: &mut MeriadocConfig, path: &str) -> (found: bool)
        ensures
            found == (first_root(root_views(old(config).discovery.roots@), path@) is Some),
            root_views(final(config).discovery.roots@) == with_root_disabled(
                root_views(old(config).discovery.roots@),
                path@,
            ),
            final(config).discovery.max_depth == old(config).discovery.max_depth,
            final(config).discovery.validate_on_discovery == old(config).discovery.validate_on_discovery,
            final(config).discovery.spec_files@ == old(config).discovery.spec_files@,
            final(config).cache == old(config).cache,
    {
        match find_root(&config.discovery.roots, path) {
            Some(i) => {
                set_enabled(&mut config.discovery.roots, i, false);
                true
            },
            None => false,
        }
    }
}

/// Where the configuration file is: the path in `MERIADOC_CONFIG` when it is set, else
/// `config.yaml` in the `meriadoc` directory of the user's configuration directory.
pub open spec fn config_path_of(env_override: Option<Seq<char>>, config_dir: Option<Seq<char>>) -> Option<
    Seq<char>,
> {
    match env_override {
        Some(p) => Some(p),
        None => match config_dir {
            Some(d) => Some(joined_path(joined_path(d, "meriadoc"@), "config.yaml"@)),
            None => None,
        },
    }
}

/// Reads and writes the configuration file.
pub struct ConfigLoader;

impl ConfigLoader {
    /// The configuration file's path, given the value of `MERIADOC_CONFIG` and the user's
    /// configuration directory; an I/O error when neither is known.
    pub fn config_path(env_override: Option<String>, config_dir: Option<String>) -> (r: Result<
        String,
        MeriadocError,
    >)
        ensures
            match r {
                Ok(p) => config_path_of(
                    match env_override {
                        Some(s) => Some(s@),
                        None => None,
                    },
                    match config_dir {
                        Some(s) => Some(s@),
                        None => None,
                    },
                ) == Some(p@),
                Err(e) => env_override is None && config_dir is None && e is Io,
            },
    {
        match env_override {
            Some(p) => Ok(p),
            None => match config_dir {
                Some(d) => {
                    let base = join_path(d.as_str(), "meriadoc");
                    Ok(join_path(base.as_str(), "config.yaml"))
                },
                None => Err(MeriadocError::Io(owned("Could not resolve config directory"))),
            },
        }
    }
}

/// Whether `i` is the first root of `roots` with path `p`.
pub open spec fn is_first_root(roots: Seq<(Seq<char>, Option<Seq<char>>, bool)>, p: Seq<char>, i: int) -> bool {
    &&& 0 <= i < roots.len()
    &&& roots[i].0 == p
    &&& forall|j: int| 0 <= j < i ==> #[trigger] roots[j].0 != p
}

/// Whether the root with path `p` is searched: the first root with that path is enabled.
pub open spec fn root_enabled(roots: Seq<(Seq<char>, Option<Seq<char>>, bool)>, p: Seq<char>) -> bool {
    match first_root(roots, p) {
        Some(i) => roots[i].2,
        None => false,
    }
}

/// What [`first_root`] gives: the first root with the path, or none when no root has it.
proof fn lemma_first_root(roots: Seq<(Seq<char>, Option<Seq<char>>, bool)>, p: Seq<char>)
    ensures
        match first_root(roots, p) {
            Some(i) => is_first_root(roots, p, i),
            None => forall|j: int| 0 <= j < roots.len() ==> #[trigger] roots[j].0 != p,
        },
        forall|i: int| is_first_root(roots, p, i) ==> first_root(roots, p) == Some(i),
{
    if exists|i: int| 0 <= i < roots.len() && roots[i].0 == p {
        let k = choose|i: int| 0 <= i < roots.len() && roots[i].0 == p;
        lemma_has_first(roots, p, k);
        let c = choose|i: int|
            0 <= i < roots.len() && roots[i].0 == p && forall|j: int| 0 <= j < i ==> roots[j].0 != p;
        assert(is_first_root(roots, p, c));
    }
    assert forall|i: int| is_first_root(roots, p, i) implies first_root(roots, p) == Some(i) by {
        let c = first_root(roots, p)->0;
        assert(is_first_root(roots, p, c));
        if c < i {
            assert(roots[c].0 != p);
        } else if c > i {
            assert(roots[i].0 != p);
        }
    }
}

proof fn lemma_has_first(roots: Seq<(Seq<char>, Option<Seq<char>>, bool)>, p: Seq<char>, k: int)
    requires
        0 <= k < roots.len(),
        roots[k].0 == p,
    ensures
        exists|i: int| is_first_root(roots, p, i),
    decreases k,
{
    if exists|j: int| 0 <= j < k && roots[j].0 == p {
        let j = choose|j: int| 0 <= j < k && roots[j].0 == p;
        lemma_has_first(roots, p, j);
    } else {
        assert(is_first_root(roots, p, k));
    }
}

/// Adding a path enables it and leaves whether every other path is searched as it was.
proof fn lemma_enable_one(roots: Seq<(Seq<char>, Option<Seq<char>>, bool)>, p: Seq<char>, q: Seq<char>)
    ensures
        root_enabled(with_root_enabled(roots, p), p),
        q != p ==> root_enabled(with_root_enabled(roots, p), q) == root_enabled(roots, q),
{
    let r = with_root_enabled(roots, p);
    lemma_first_root(roots, p);
    lemma_first_root(roots, q);
    lemma_first_root(r, p);
    lemma_first_root(r, q);
    match first_root(roots, p) {
        Some(i) => {
            assert(is_first_root(r, p, i));
            match first_root(roots, q) {
                Some(j) => {
                    if q != p {
                        assert(is_first_root(r, q, j));
                    }
                },
                None => {
                    if q != p {
                        assert forall|j: int| 0 <= j < r.len() implies #[trigger] r[j].0 != q by {
                            assert(r[j].0 == roots[j].0);
                        }
                        assert(first_root(r, q) is None);
                    }
                },
            }
        },
        None => {
            assert(is_first_root(r, p, roots.len() as int));
            match first_root(roots, q) {
                Some(j) => {
                    assert(is_first_root(r, q, j));
                },
                None => {
                    if q != p {
                        assert forall|j: int| 0 <= j < r.len() implies #[trigger] r[j].0 != q by {
                            if j < roots.len() {
                                assert(r[j] == roots[j]);
                            }
                        }
                        assert(first_root(r, q) is None);
                    }
                },
            }
        },
    }
}

/// Adding directories enables each of them, and leaves whether every other path is searched
/// as it was.
pub proof fn law_added_roots_enabled(roots: Seq<(Seq<char>, Option<Seq<char>>, bool)>, ps: Seq<Seq<char>>)
    ensures
        forall|j: int| 0 <= j < ps.len() ==> root_enabled(with_roots_enabled(roots, ps), #[trigger] ps[j]),
        forall|q: Seq<char>|
            !ps.contains(q) ==> root_enabled(with_roots_enabled(roots, ps), q) == root_enabled(roots, q),
    decreases ps.len(),
{
    if ps.len() > 0 {
        let before = ps.drop_last();
        let last = ps.last();
        law_added_roots_enabled(roots, before);
        let mid = with_roots_enabled(roots, before);
        assert forall|j: int| 0 <= j < ps.len() implies root_enabled(with_roots_enabled(roots, ps), #[trigger] ps[j]) by {
            lemma_enable_one(mid, last, ps[j]);
            if ps[j] != last {
                assert(before[j] == ps[j]);
            }
        }
        assert forall|q: Seq<char>| !ps.contains(q) implies root_enabled(with_roots_enabled(roots, ps), q) == root_enabled(roots, q) by {
            lemma_enable_one(mid, last, q);
            assert(q != ps[ps.len() - 1]);
            if before.contains(q) {
                let j = choose|j: int| 0 <= j < before.len() && before[j] == q;
                assert(ps[j] == q);
            }
        }
    }
}

/// Removing a directory stops its search and leaves whether every other path is searched as
/// it was.
pub proof fn law_removed_root_disabled(roots: Seq<(Seq<char>, Option<Seq<char>>, bool)>, p: Seq<char>, q: Seq<char>)
    ensures
        !root_enabled(with_root_disabled(roots, p), p),
        q != p ==> root_enabled(with_root_disabled(roots, p), q) == root_enabled(roots, q),
{
    let r = with_root_disabled(roots, p);
    lemma_first_root(roots, p);
    lemma_first_root(roots, q);
    lemma_first_root(r, p);
    lemma_first_root(r, q);
    match first_root(roots, p) {
        Some(i) => {
            assert(is_first_root(r, p, i));
            match first_root(roots, q) {
                Some(j) => {
                    if q != p {
                        assert(is_first_root(r, q, j));
                    }
                },
                None => {
                    if q != p {
                        assert forall|j: int| 0 <= j < r.len() implies #[trigger] r[j].0 != q by {
                            assert(r[j].0 == roots[j].0);
                        }
                        assert(first_root(r, q) is None);
                    }
                },
            }
        },
        None => {},
    }
}

/// Adding a directory twice is adding it once.
pub proof fn law_add_idempotent(roots: Seq<(Seq<char>, Option<Seq<char>>, bool)>, p: Seq<char>)
    ensures
        with_root_enabled(with_root_enabled(roots, p), p) == with_root_enabled(roots, p),
{
    let r = with_root_enabled(roots, p);
    lemma_first_root(roots, p);
    lemma_first_root(r, p);
    match first_root(roots, p) {
        Some(i) => {
            assert(is_first_root(r, p, i));
            assert(r.update(i, (r[i].0, r[i].1, true)) =~= r);
        },
        None => {
            assert(is_first_root(r, p, roots.len() as int));
            assert(r.update(roots.len() as int, (r[roots.len() as int].0, r[roots.len() as int].1, true)) =~= r);
        },
    }
}

} // verus!
