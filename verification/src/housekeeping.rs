//! What `config ls`, `cache ls` and `cache clear` show and do.
use vstd::prelude::*;

use crate::app::App;
use crate::cache::ValidationCache;
use crate::checkup::cached_entries;
use crate::config::{root_views, MeriadocConfig};
use crate::project::Project;
use crate::resolver::{project_name_of, EntityResolver};
use crate::strmap::{has_key, key_in_prefix, StrMap};
use crate::text::{concat, decimal, decimal_string, decimal_string_wide, owned, str_eq};

verus! {

fn append(out: &mut String, t: &str)
    ensures
        final(out)@ == old(out)@ + t@,
{
    *out = concat(out.as_str(), t);
}

/// `enabled` or `disabled`.
pub open spec fn root_status(enabled: bool) -> Seq<char> {
    if enabled {
        "enabled"@
    } else {
        "disabled"@
    }
}

/// One `PATH [enabled|disabled]` line per discovery root.
pub open spec fn config_lines(rs: Seq<(Seq<char>, Option<Seq<char>>, bool)>) -> Seq<char>
    decreases rs.len(),
{
    if rs.len() == 0 {
        Seq::empty()
    } else {
        config_lines(rs.drop_last()) + rs.last().0 + " ["@ + root_status(rs.last().2) + "]\n"@
    }
}

/// What `config ls` prints: every discovery root with whether it is searched.
pub fn config_list_text(config: &MeriadocConfig) -> (r: String)
    ensures
        r@ == config_lines(root_views(config.discovery.roots@)),
{
    let roots = &config.discovery.roots;
    let ghost rs = root_views(roots@);
    proof {
        reveal_strlit("");
    }
    let mut out = owned("");
    assert(out@ =~= config_lines(rs.take(0)));
    let mut i: usize = 0;
    while i < roots.len()
        invariant
            0 <= i <= roots.len(),
            rs == root_views(roots@),
            out@ == config_lines(rs.take(i as int)),
        decreases roots.len() - i,
    {
        assert(rs.take(i + 1).drop_last() =~= rs.take(i as int));
        let r = &roots[i];
        append(&mut out, r.path.as_str());
        append(&mut out, " [");
        if r.enabled {
            append(&mut out, "enabled");
        } else {
            append(&mut out, "disabled");
        }
        append(&mut out, "]\n");
        assert(out@ =~= config_lines(rs.take(i + 1)));
        i = i + 1;
    }
    assert(rs.take(roots.len() as int) =~= rs);
    out
}

/// The number of projects of `ps` named `n`.
pub open spec fn name_count(ps: Seq<Project>, n: Seq<char>) -> nat
    decreases ps.len(),
{
    if ps.len() == 0 {
        0
    } else {
        name_count(ps.drop_last(), n) + if project_name_of(ps.last().root@) == n {
            1nat
        } else {
            0nat
        }
    }
}

fn count_named(projects: &Vec<Project>, n: &str) -> (r: usize)
    ensures
        r == name_count(projects@, n@),
{
    let mut c: usize = 0;
    let mut i: usize = 0;
    while i < projects.len()
        invariant
            0 <= i <= projects.len(),
            c == name_count(projects@.take(i as int), n@),
            c <= i,
        decreases projects.len() - i,
    {
        assert(projects@.take(i + 1).drop_last() =~= projects@.take(i as int));
        let name = EntityResolver::project_name(&projects[i]);
        if str_eq(name.as_str(), n) {
            c = c + 1;
        }
        i = i + 1;
    }
    assert(projects@.take(projects.len() as int) =~= projects@);
    c
}

/// How a project is named in the cache listing: by name, and with its root when another
/// project has the same name.
pub open spec fn project_label(ps: Seq<Project>, p: Project) -> Seq<char> {
    let n = project_name_of(p.root@);
    if name_count(ps, n) > 1 {
        n + " ("@ + p.root@ + ")"@
    } else {
        n
    }
}

/// `valid` or `invalid`.
pub open spec fn validity(valid: bool) -> Seq<char> {
    if valid {
        "valid"@
    } else {
        "invalid"@
    }
}

/// One `    PATH [valid|invalid]` line per cached path of `paths`.
pub open spec fn entry_lines(paths: Seq<Seq<char>>, m: Map<Seq<char>, (Seq<char>, u64, bool)>) -> Seq<char>
    decreases paths.len(),
{
    if paths.len() == 0 {
        Seq::empty()
    } else {
        entry_lines(paths.drop_last(), m) + "    "@ + paths.last() + " ["@ + validity(
            m[paths.last()].2,
        ) + "]\n"@
    }
}

/// The block of a project in the cache listing: its label, number of entries and their
/// lines, when it has a cache that is not empty.
pub open spec fn cache_block(all: Seq<Project>, p: Project, caches: Map<Seq<char>, ValidationCache>) -> Seq<char> {
    if caches.dom().contains(p.root@) && caches[p.root@]@.dom().len() > 0 {
        let c = caches[p.root@];
        "  ["@ + project_label(all, p) + "] ("@ + decimal(c@.dom().len()) + " entries)\n"@
            + entry_lines(c.paths(), c@)
    } else {
        Seq::empty()
    }
}

/// The blocks of the projects of `ps`, in order.
pub open spec fn cache_blocks(all: Seq<Project>, ps: Seq<Project>, caches: Map<Seq<char>, ValidationCache>) -> Seq<char>
    decreases ps.len(),
{
    if ps.len() == 0 {
        Seq::empty()
    } else {
        cache_blocks(all, ps.drop_last(), caches) + cache_block(all, ps.last(), caches)
    }
}

/// What `cache ls` prints.
pub open spec fn cache_list(ps: Seq<Project>, caches: Map<Seq<char>, ValidationCache>, total: nat) -> Seq<char> {
    if total == 0 {
        "Cache is empty.\n"@
    } else {
        "Cached validations ("@ + decimal(total) + " entries):\n"@ + cache_blocks(ps, ps, caches)
    }
}

fn push_entry_lines(out: &mut String, cache: &ValidationCache)
    ensures
        final(out)@ == old(out)@ + entry_lines(cache.paths(), cache@),
{
    let list = cache.list();
    let ghost paths = cache.paths();
    let ghost head = out@;
    let mut i: usize = 0;
    while i < list.len()
        invariant
            0 <= i <= list.len(),
            paths == cache.paths(),
            list@.len() == paths.len(),
            forall|j: int| 0 <= j < list@.len() ==> #[trigger] list@[j].0@ == paths[j],
            forall|j: int|
                #![trigger list@[j]]
                0 <= j < list@.len() ==> cache@.dom().contains(list@[j].0@) && list@[j].1@
                    == cache@[list@[j].0@],
            out@ == head + entry_lines(paths.take(i as int), cache@),
        decreases list.len() - i,
    {
        assert(paths.take(i + 1).drop_last() =~= paths.take(i as int));
        let (path, entry) = list[i];
        assert(list@[i as int].0@ == paths[i as int]);
        append(out, "    ");
        append(out, path.as_str());
        append(out, " [");
        if entry.is_valid {
            append(out, "valid");
        } else {
            append(out, "invalid");
        }
        append(out, "]\n");
        assert(out@ =~= head + entry_lines(paths.take(i + 1), cache@));
        i = i + 1;
    }
    assert(paths.take(list.len() as int) =~= paths);
}

/// What `cache ls` prints: every project's cached validations, or that there are none.
pub fn cache_list_text(app: &App) -> (r: String)
    ensures
        r@ == cache_list(app.projects@, app.caches@, cached_entries(app.caches.pairs())),
{
    let total = crate::checkup::count_cached(&app.caches);
    if total == 0 {
        return owned("Cache is empty.\n");
    }
    let ghost ps = app.projects@;
    let mut out = owned("Cached validations (");
    let n = decimal_string_wide(total);
    append(&mut out, n.as_str());
    append(&mut out, " entries):\n");
    let ghost head = out@;
    let mut i: usize = 0;
    while i < app.projects.len()
        invariant
            0 <= i <= app.projects.len(),
            ps == app.projects@,
            out@ == head + cache_blocks(ps, ps.take(i as int), app.caches@),
        decreases app.projects.len() - i,
    {
        assert(ps.take(i + 1).drop_last() =~= ps.take(i as int));
        let p = &app.projects[i];
        let ghost before = out@;
        match app.caches.get(p.root.as_str()) {
            Some(cache) => {
                if !cache.is_empty() {
                    let name = EntityResolver::project_name(p);
                    let same = count_named(&app.projects, name.as_str());
                    append(&mut out, "  [");
                    append(&mut out, name.as_str());
                    if same > 1 {
                        append(&mut out, " (");
                        append(&mut out, p.root.as_str());
                        append(&mut out, ")");
                    }
                    append(&mut out, "] (");
                    let k = decimal_string(cache.len() as u64);
                    append(&mut out, k.as_str());
                    append(&mut out, " entries)\n");
                    push_entry_lines(&mut out, cache);
                }
            },
            None => {},
        }
        assert(out@ =~= before + cache_block(ps, ps[i as int], app.caches@));
        assert(out@ =~= head + cache_blocks(ps, ps.take(i + 1), app.caches@));
        i = i + 1;
    }
    assert(ps.take(app.projects.len() as int) =~= ps);
    out
}

impl App {
    /// Forgets every cached validation: every project keeps a cache, now empty.
    pub fn clear_caches(&mut self)
        ensures
            final(self).caches@.dom() == old(self).caches@.dom(),
            forall|k: Seq<char>|
                #[trigger] final(self).caches@.dom().contains(k) ==> final(self).caches@[k]@
                    == Map::<Seq<char>, (Seq<char>, u64, bool)>::empty(),
            final(self).projects == old(self).projects,
            final(self).config == old(self).config,
    {
        let keys = self.caches.keys();
        let ghost ks = keys.deep_view();
        let mut fresh: StrMap<ValidationCache> = StrMap::new();
        let mut i: usize = 0;
        while i < keys.len()
            invariant
                0 <= i <= keys.len(),
                ks == keys.deep_view(),
                forall|k: Seq<char>|
                    #[trigger] fresh@.dom().contains(k) == (exists|j: int| 0 <= j < i && ks[j] == k),
                forall|k: Seq<char>|
                    #[trigger] fresh@.dom().contains(k) ==> fresh@[k]@ == Map::<
                        Seq<char>,
                        (Seq<char>, u64, bool),
                    >::empty(),
            decreases keys.len() - i,
        {
            let ghost kk = keys@[i as int]@;
            fresh.insert(keys[i].clone(), ValidationCache::new());
            assert forall|k: Seq<char>|
                #[trigger] fresh@.dom().contains(k) == (exists|j: int| 0 <= j < i + 1 && ks[j] == k) by {
                if k == kk {
                    assert(ks[i as int] == k);
                } else if exists|j: int| 0 <= j < i + 1 && ks[j] == k {
                    let j = choose|j: int| 0 <= j < i + 1 && ks[j] == k;
                    assert(j < i);
                }
            }
            i = i + 1;
        }
        let _n = self.caches.len();
        proof {
            let ps = self.caches.pairs();
            self.caches.lemma_view();
            assert forall|k: Seq<char>|
                #[trigger] self.caches@.dom().contains(k) == (exists|j: int| 0 <= j < ks.len() && ks[j] == k) by {
                if self.caches@.dom().contains(k) {
                    assert(has_key(ps, k));
                    let j = choose|j: int| 0 <= j < ps.len() && ps[j].0@ == k;
                    assert(ks[j] == ps[j].0@);
                }
                if exists|j: int| 0 <= j < ks.len() && ks[j] == k {
                    let j = choose|j: int| 0 <= j < ks.len() && ks[j] == k;
                    assert(ps[j].0@ == k);
                    assert(has_key(ps, k));
                }
            }
            assert(fresh@.dom() =~= self.caches@.dom());
        }
        self.caches = fresh;
    }
}

} // verus!
