//! What `validate` and `doctor` report.
use vstd::prelude::*;

use crate::app::App;
use crate::cache::ValidationCache;
use crate::config::{root_views, DiscoveryRoot};
use crate::output::{count_entities, entity_counts};
use crate::report::counts_fit;
use crate::cli::ValidateTarget;
use crate::env::views;
use crate::error::{validation_message, ContextualValidationError, MeriadocError, ValidationErrorModel};
use crate::info::{find_project, first_named};
use crate::project::Project;
use crate::report::no_projects_text;
use crate::resolver::{project_name_of, EntityResolver};
use crate::text::{concat, decimal, decimal_string, decimal_string_wide, owned};
use crate::validation::{project_errors, spec_files_of, ProjectValidator};

verus! {

fn append(out: &mut String, t: &str)
    ensures
        final(out)@ == old(out)@ + t@,
{
    *out = concat(out.as_str(), t);
}

/// One `    [context] message` line per error.
pub open spec fn error_lines(es: Seq<(Seq<char>, ValidationErrorModel)>) -> Seq<char>
    decreases es.len(),
{
    if es.len() == 0 {
        Seq::empty()
    } else {
        error_lines(es.drop_last()) + "    ["@ + es.last().0 + "] "@ + validation_message(es.last().1)
            + "\n"@
    }
}

fn push_error_lines(out: &mut String, errors: &[ContextualValidationError])
    ensures
        final(out)@ == old(out)@ + error_lines(views(errors@)),
{
    let ghost head = out@;
    let ghost es = views(errors@);
    let mut i: usize = 0;
    while i < errors.len()
        invariant
            0 <= i <= errors.len(),
            es == views(errors@),
            out@ == head + error_lines(es.take(i as int)),
        decreases errors.len() - i,
    {
        assert(es.take(i + 1).drop_last() =~= es.take(i as int));
        let e = &errors[i];
        append(out, "    [");
        append(out, e.context.as_str());
        append(out, "] ");
        let m = e.error.message();
        append(out, m.as_str());
        append(out, "\n");
        assert(out@ =~= head + error_lines(es.take(i + 1)));
        i = i + 1;
    }
    assert(es.take(errors.len() as int) =~= es);
}

/// The errors found in a project's spec files.
pub open spec fn errors_of(p: Project) -> Seq<(Seq<char>, ValidationErrorModel)> {
    project_errors(spec_files_of(p.specs@))
}

/// What `validate project NAME` prints for project `p`.
pub open spec fn validate_project_text(name: Seq<char>, p: Project) -> Seq<char> {
    "Validating project: "@ + name + "\n"@ + if errors_of(p).len() == 0 {
        "  All specs valid.\n"@
    } else {
        "  Validation errors:\n"@ + error_lines(errors_of(p))
    }
}

/// What `validate` prints for one project among all.
pub open spec fn validate_block(p: Project) -> Seq<char> {
    "Validating project: "@ + project_name_of(p.root@) + "\n"@ + if errors_of(p).len() == 0 {
        "  "@ + decimal(p.specs@.len()) + " spec file(s) valid.\n"@
    } else {
        "  "@ + decimal(errors_of(p).len()) + " error(s):\n"@ + error_lines(errors_of(p))
    }
}

/// The blocks of every project, in order.
pub open spec fn validate_blocks(ps: Seq<Project>) -> Seq<char>
    decreases ps.len(),
{
    if ps.len() == 0 {
        Seq::empty()
    } else {
        validate_blocks(ps.drop_last()) + validate_block(ps.last())
    }
}

/// The number of spec files of every project.
pub open spec fn total_spec_files(ps: Seq<Project>) -> nat
    decreases ps.len(),
{
    if ps.len() == 0 {
        0
    } else {
        total_spec_files(ps.drop_last()) + ps.last().specs@.len()
    }
}

/// The number of errors of every project.
pub open spec fn total_errors(ps: Seq<Project>) -> nat
    decreases ps.len(),
{
    if ps.len() == 0 {
        0
    } else {
        total_errors(ps.drop_last()) + errors_of(ps.last()).len()
    }
}

/// What `validate` prints for all projects.
pub open spec fn validate_all_text(ps: Seq<Project>) -> Seq<char> {
    if ps.len() == 0 {
        no_projects_text()
    } else {
        validate_blocks(ps) + "\n"@ + if total_errors(ps) == 0 {
            "Validation complete: "@ + decimal(total_spec_files(ps)) + " spec file(s), no errors.\n"@
        } else {
            "Validation complete: "@ + decimal(total_spec_files(ps)) + " spec file(s), "@ + decimal(
                total_errors(ps),
            ) + " error(s).\n"@
        }
    }
}

/// The report of one named project.
fn validate_project(name: &str, p: &Project) -> (r: String)
    ensures
        r@ == validate_project_text(name@, *p),
{
    let result = ProjectValidator::validate_loaded(p.specs.as_slice());
    let mut out = owned("Validating project: ");
    append(&mut out, name);
    append(&mut out, "\n");
    if result.is_ok() {
        append(&mut out, "  All specs valid.\n");
    } else {
        append(&mut out, "  Validation errors:\n");
        push_error_lines(&mut out, result.errors());
    }
    out
}

/// The report of every project, with the totals.
fn validate_all(projects: &Vec<Project>) -> (r: String)
    ensures
        r@ == validate_all_text(projects@),
{
    if projects.len() == 0 {
        return owned("No projects found. Use 'meriadoc config add <path>' to add a discovery root.\n");
    }
    let ghost ps = projects@;
    proof {
        reveal_strlit("");
    }
    let mut out = owned("");
    let mut ts: u128 = 0;
    let mut te: u128 = 0;
    let mut i: usize = 0;
    while i < projects.len()
        invariant
            0 <= i <= projects.len(),
            ps == projects@,
            out@ == validate_blocks(ps.take(i as int)),
            ts == total_spec_files(ps.take(i as int)),
            te == total_errors(ps.take(i as int)),
            ts <= i * 0x1_0000_0000_0000_0000,
            te <= i * 0x1_0000_0000_0000_0000,
        decreases projects.len() - i,
    {
        assert(ps.take(i + 1).drop_last() =~= ps.take(i as int));
        let p = &projects[i];
        let result = ProjectValidator::validate_loaded(p.specs.as_slice());
        let ghost before = out@;
        let name = EntityResolver::project_name(p);
        append(&mut out, "Validating project: ");
        append(&mut out, name.as_str());
        append(&mut out, "\n");
        let errors = result.errors();
        if result.is_ok() {
            append(&mut out, "  ");
            let n = decimal_string(p.specs.len() as u64);
            append(&mut out, n.as_str());
            append(&mut out, " spec file(s) valid.\n");
        } else {
            append(&mut out, "  ");
            let n = decimal_string(errors.len() as u64);
            append(&mut out, n.as_str());
            append(&mut out, " error(s):\n");
            push_error_lines(&mut out, errors);
        }
        assert(out@ =~= before + validate_block(ps[i as int]));
        assert(out@ =~= validate_blocks(ps.take(i + 1)));
        ts = ts + p.specs.len() as u128;
        te = te + errors.len() as u128;
        i = i + 1;
    }
    assert(ps.take(projects.len() as int) =~= ps);
    append(&mut out, "\n");
    if te == 0 {
        append(&mut out, "Validation complete: ");
        let a = decimal_string_wide(ts);
        append(&mut out, a.as_str());
        append(&mut out, " spec file(s), no errors.\n");
    } else {
        append(&mut out, "Validation complete: ");
        let a = decimal_string_wide(ts);
        append(&mut out, a.as_str());
        append(&mut out, " spec file(s), ");
        let b = decimal_string_wide(te);
        append(&mut out, b.as_str());
        append(&mut out, " error(s).\n");
    }
    proof {
        reveal_strlit("");
        assert(""@ =~= Seq::<char>::empty());
    }
    assert(out@ =~= validate_all_text(ps));
    out
}

/// Validates one named project, or every project with totals, and gives the report.
pub fn handle_validate(target: Option<ValidateTarget>, app: &App) -> (r: Result<String, MeriadocError>)
    ensures
        match target {
            Some(ValidateTarget::Project { name }) => {
                &&& (r is Ok) == (first_named(app.projects@, name@) is Some)
                &&& r matches Ok(s) ==> s@ == validate_project_text(
                    name@,
                    app.projects@[first_named(app.projects@, name@)->0],
                )
                &&& r matches Err(e) ==> (e matches MeriadocError::EntityNotFound { kind, name: n }
                    && kind@ == "project"@ && n@ == name@)
            },
            None => r matches Ok(s) && s@ == validate_all_text(app.projects@),
        },
{
    match target {
        Some(ValidateTarget::Project { name }) => {
            let p = find_project(name.as_str(), app.projects.as_slice())?;
            Ok(validate_project(name.as_str(), p))
        },
        None => Ok(validate_all(&app.projects)),
    }
}

/// The view of a discovery root: its path, its name and whether it is enabled.
pub open spec fn enabled_count(rs: Seq<(Seq<char>, Option<Seq<char>>, bool)>) -> nat
    decreases rs.len(),
{
    if rs.len() == 0 {
        0
    } else {
        enabled_count(rs.drop_last()) + if rs.last().2 {
            1nat
        } else {
            0nat
        }
    }
}

/// The number of disabled roots.
pub open spec fn disabled_count(rs: Seq<(Seq<char>, Option<Seq<char>>, bool)>) -> nat
    decreases rs.len(),
{
    if rs.len() == 0 {
        0
    } else {
        disabled_count(rs.drop_last()) + if rs.last().2 {
            0nat
        } else {
            1nat
        }
    }
}

/// One line per enabled root: whether its directory exists (`ex`, root by root).
pub open spec fn root_lines(rs: Seq<(Seq<char>, Option<Seq<char>>, bool)>, ex: Seq<bool>) -> Seq<char>
    decreases rs.len(),
{
    if rs.len() == 0 || ex.len() == 0 {
        Seq::empty()
    } else {
        let before = root_lines(rs.drop_last(), ex.drop_last());
        if rs.last().2 {
            if ex.last() {
                before + "  [✓] "@ + rs.last().0 + " exists\n"@
            } else {
                before + "  [!] "@ + rs.last().0 + " does not exist\n"@
            }
        } else {
            before
        }
    }
}

/// The number of enabled roots whose directory does not exist.
pub open spec fn missing_count(rs: Seq<(Seq<char>, Option<Seq<char>>, bool)>, ex: Seq<bool>) -> nat
    decreases rs.len(),
{
    if rs.len() == 0 || ex.len() == 0 {
        0
    } else {
        missing_count(rs.drop_last(), ex.drop_last()) + if rs.last().2 && !ex.last() {
            1nat
        } else {
            0nat
        }
    }
}

/// The tasks, jobs and shells of every project.
pub open spec fn all_counts(ps: Seq<Project>) -> (nat, nat, nat)
    decreases ps.len(),
{
    if ps.len() == 0 {
        (0, 0, 0)
    } else {
        let a = all_counts(ps.drop_last());
        let c = entity_counts(ps.last().specs@);
        (a.0 + c.0, a.1 + c.1, a.2 + c.2)
    }
}

/// The number of entries of every cache.
pub open spec fn cached_entries(cs: Seq<(String, ValidationCache)>) -> nat
    decreases cs.len(),
{
    if cs.len() == 0 {
        0
    } else {
        cached_entries(cs.drop_last()) + cs.last().1@.dom().len()
    }
}

/// The configuration part of the doctor's report.
pub open spec fn config_section(rs: Seq<(Seq<char>, Option<Seq<char>>, bool)>) -> Seq<char> {
    "Configuration:\n"@ + (if enabled_count(rs) == 0 {
        "  [!] No discovery roots configured\n"@
            + "      Run 'meriadoc config add <path>' to add a project directory\n"@
    } else {
        "  [✓] "@ + decimal(enabled_count(rs)) + " discovery root(s) enabled\n"@
    }) + if disabled_count(rs) > 0 {
        "  [i] "@ + decimal(disabled_count(rs)) + " discovery root(s) disabled\n"@
    } else {
        Seq::empty()
    }
}

/// The projects part of the doctor's report.
pub open spec fn projects_section(ps: Seq<Project>, enabled: nat) -> Seq<char> {
    "\nProjects:\n"@ + if ps.len() == 0 {
        "  [!] No projects discovered\n"@ + if enabled > 0 {
            "      Check that spec files (meriadoc.yaml, merry.yaml) exist in your projects\n"@
        } else {
            Seq::empty()
        }
    } else {
        "  [✓] "@ + decimal(ps.len()) + " project(s) discovered\n"@ + "  [i] "@ + decimal(
            total_spec_files(ps),
        ) + " spec file(s)\n"@ + "  [i] "@ + decimal(all_counts(ps).0) + " task(s), "@ + decimal(
            all_counts(ps).1,
        ) + " job(s), "@ + decimal(all_counts(ps).2) + " shell(s)\n"@
    }
}

/// The validation part of the doctor's report.
pub open spec fn validation_section(ps: Seq<Project>) -> Seq<char> {
    "\nValidation:\n"@ + if total_errors(ps) == 0 {
        "  [✓] All specs valid\n"@
    } else {
        "  [!] "@ + decimal(total_errors(ps)) + " validation error(s)\n"@
            + "      Run 'meriadoc validate' for details\n"@
    }
}

/// The cache part of the doctor's report.
pub open spec fn cache_section(enabled: bool, dir: Seq<char>, entries: nat) -> Seq<char> {
    "\nCache:\n"@ + if enabled {
        "  [✓] Validation cache enabled\n"@ + "  [i] "@ + decimal(entries) + " cached entries\n"@
            + "  [i] Cache dir: "@ + dir + "\n"@
    } else {
        "  [i] Validation cache disabled\n"@
    }
}

/// The number of issues the doctor finds: no enabled root, each missing root, no project,
/// and validation errors each count once.
pub open spec fn doctor_issues(
    rs: Seq<(Seq<char>, Option<Seq<char>>, bool)>,
    ex: Seq<bool>,
    ps: Seq<Project>,
) -> nat {
    (if enabled_count(rs) == 0 {
        1nat
    } else {
        0nat
    }) + missing_count(rs, ex) + (if ps.len() == 0 {
        1nat
    } else {
        0nat
    }) + (if total_errors(ps) > 0 {
        1nat
    } else {
        0nat
    })
}

/// The doctor's whole report.
pub open spec fn doctor_text(
    rs: Seq<(Seq<char>, Option<Seq<char>>, bool)>,
    ex: Seq<bool>,
    ps: Seq<Project>,
    cache_enabled: bool,
    cache_dir: Seq<char>,
    entries: nat,
) -> Seq<char> {
    let issues = doctor_issues(rs, ex, ps);
    "Meriadoc Doctor\n===============\n\n"@ + config_section(rs) + "\nDiscovery roots:\n"@
        + root_lines(rs, ex) + projects_section(ps, enabled_count(rs)) + validation_section(ps)
        + cache_section(cache_enabled, cache_dir, entries) + "\n===============\n"@ + if issues
        == 0 {
        "No issues found. Meriadoc is ready to use.\n"@
    } else {
        decimal(issues) + " issue(s) found.\n"@
    }
}

/// Counts the enabled and disabled roots.
fn count_roots(roots: &Vec<DiscoveryRoot>) -> (r: (usize, usize))
    ensures
        r.0 == enabled_count(root_views(roots@)),
        r.1 == disabled_count(root_views(roots@)),
{
    let ghost rs = root_views(roots@);
    let mut en: usize = 0;
    let mut dis: usize = 0;
    let mut i: usize = 0;
    while i < roots.len()
        invariant
            0 <= i <= roots.len(),
            rs == root_views(roots@),
            en == enabled_count(rs.take(i as int)),
            dis == disabled_count(rs.take(i as int)),
            en + dis == i,
        decreases roots.len() - i,
    {
        assert(rs.take(i + 1).drop_last() =~= rs.take(i as int));
        if roots[i].enabled {
            en = en + 1;
        } else {
            dis = dis + 1;
        }
        i = i + 1;
    }
    assert(rs.take(roots.len() as int) =~= rs);
    (en, dis)
}

/// Writes the line of each enabled root and counts those that are missing.
fn push_root_lines(out: &mut String, roots: &Vec<DiscoveryRoot>, exists: &Vec<bool>) -> (r: usize)
    requires
        exists@.len() == roots@.len(),
    ensures
        final(out)@ == old(out)@ + root_lines(root_views(roots@), exists@),
        r == missing_count(root_views(roots@), exists@),
{
    let ghost rs = root_views(roots@);
    let ghost head = out@;
    let mut missing: usize = 0;
    let mut i: usize = 0;
    while i < roots.len()
        invariant
            0 <= i <= roots.len(),
            exists@.len() == roots@.len(),
            rs == root_views(roots@),
            out@ == head + root_lines(rs.take(i as int), exists@.take(i as int)),
            missing == missing_count(rs.take(i as int), exists@.take(i as int)),
            missing <= i,
        decreases roots.len() - i,
    {
        assert(rs.take(i + 1).drop_last() =~= rs.take(i as int));
        assert(exists@.take(i + 1).drop_last() =~= exists@.take(i as int));
        let r = &roots[i];
        if r.enabled {
            if exists[i] {
                append(out, "  [✓] ");
                append(out, r.path.as_str());
                append(out, " exists\n");
            } else {
                append(out, "  [!] ");
                append(out, r.path.as_str());
                append(out, " does not exist\n");
                missing = missing + 1;
            }
        }
        assert(out@ =~= head + root_lines(rs.take(i + 1), exists@.take(i + 1)));
        i = i + 1;
    }
    assert(rs.take(roots.len() as int) =~= rs);
    assert(exists@.take(roots.len() as int) =~= exists@);
    missing
}

/// The totals over every project: spec files, tasks, jobs, shells and validation errors.
fn project_totals(projects: &Vec<Project>) -> (r: (u128, u128, u128, u128, u128))
    requires
        counts_fit(projects@),
    ensures
        r.0 == total_spec_files(projects@),
        r.1 == all_counts(projects@).0,
        r.2 == all_counts(projects@).1,
        r.3 == all_counts(projects@).2,
        r.4 == total_errors(projects@),
{
    let ghost ps = projects@;
    let mut ts: u128 = 0;
    let mut tt: u128 = 0;
    let mut tj: u128 = 0;
    let mut tsh: u128 = 0;
    let mut te: u128 = 0;
    let mut i: usize = 0;
    while i < projects.len()
        invariant
            0 <= i <= projects.len(),
            ps == projects@,
            counts_fit(ps),
            ts == total_spec_files(ps.take(i as int)),
            tt == all_counts(ps.take(i as int)).0,
            tj == all_counts(ps.take(i as int)).1,
            tsh == all_counts(ps.take(i as int)).2,
            te == total_errors(ps.take(i as int)),
            ts <= i * 0x1_0000_0000_0000_0000,
            tt <= i * 0x1_0000_0000_0000_0000,
            tj <= i * 0x1_0000_0000_0000_0000,
            tsh <= i * 0x1_0000_0000_0000_0000,
            te <= i * 0x1_0000_0000_0000_0000,
        decreases projects.len() - i,
    {
        assert(ps.take(i + 1).drop_last() =~= ps.take(i as int));
        let p = &projects[i];
        assert(entity_counts(ps[i as int].specs@).0 <= usize::MAX);
        let (t, j, s) = count_entities(p);
        let result = ProjectValidator::validate_loaded(p.specs.as_slice());
        ts = ts + p.specs.len() as u128;
        tt = tt + t as u128;
        tj = tj + j as u128;
        tsh = tsh + s as u128;
        te = te + result.errors().len() as u128;
        i = i + 1;
    }
    assert(ps.take(projects.len() as int) =~= ps);
    (ts, tt, tj, tsh, te)
}

/// The number of entries of every cache.
pub(crate) fn count_cached(caches: &crate::strmap::StrMap<ValidationCache>) -> (r: u128)
    ensures
        r == cached_entries(caches.pairs()),
{
    let n = caches.len();
    let mut total: u128 = 0;
    let mut i: usize = 0;
    while i < n
        invariant
            0 <= i <= n,
            n == caches.pairs().len(),
            total == cached_entries(caches.pairs().take(i as int)),
            total <= i * 0x1_0000_0000_0000_0000,
        decreases n - i,
    {
        assert(caches.pairs().take(i + 1).drop_last() =~= caches.pairs().take(i as int));
        let (_, c) = caches.entry(i);
        total = total + c.len() as u128;
        i = i + 1;
    }
    assert(caches.pairs().take(n as int) =~= caches.pairs());
    total
}

fn push_config_section(out: &mut String, en: usize, dis: usize, Ghost(rs): Ghost<Seq<(Seq<char>, Option<Seq<char>>, bool)>>)
    requires
        en == enabled_count(rs),
        dis == disabled_count(rs),
    ensures
        final(out)@ == old(out)@ + config_section(rs),
{
    let ghost s0 = out@;
    append(out, "Configuration:\n");
    if en == 0 {
        append(out, "  [!] No discovery roots configured\n");
        append(out, "      Run 'meriadoc config add <path>' to add a project directory\n");
    } else {
        append(out, "  [✓] ");
        let n = decimal_string(en as u64);
        append(out, n.as_str());
        append(out, " discovery root(s) enabled\n");
    }
    if dis > 0 {
        append(out, "  [i] ");
        let n = decimal_string(dis as u64);
        append(out, n.as_str());
        append(out, " discovery root(s) disabled\n");
    }
    assert(out@ =~= s0 + config_section(rs));
}

fn push_projects_section(out: &mut String, projects: &Vec<Project>, en: usize, totals: (u128, u128, u128, u128))
    requires
        totals.0 == total_spec_files(projects@),
        totals.1 == all_counts(projects@).0,
        totals.2 == all_counts(projects@).1,
        totals.3 == all_counts(projects@).2,
    ensures
        final(out)@ == old(out)@ + projects_section(projects@, en as nat),
{
    let ghost s0 = out@;
    append(out, "\nProjects:\n");
    if projects.len() == 0 {
        append(out, "  [!] No projects discovered\n");
        if en > 0 {
            append(
                out,
                "      Check that spec files (meriadoc.yaml, merry.yaml) exist in your projects\n",
            );
        }
    } else {
        append(out, "  [✓] ");
        let n = decimal_string(projects.len() as u64);
        append(out, n.as_str());
        append(out, " project(s) discovered\n");
        append(out, "  [i] ");
        let a = decimal_string_wide(totals.0);
        append(out, a.as_str());
        append(out, " spec file(s)\n");
        append(out, "  [i] ");
        let b = decimal_string_wide(totals.1);
        append(out, b.as_str());
        append(out, " task(s), ");
        let c = decimal_string_wide(totals.2);
        append(out, c.as_str());
        append(out, " job(s), ");
        let d = decimal_string_wide(totals.3);
        append(out, d.as_str());
        append(out, " shell(s)\n");
    }
    assert(out@ =~= s0 + projects_section(projects@, en as nat));
}

fn push_validation_section(out: &mut String, te: u128, Ghost(ps): Ghost<Seq<Project>>)
    requires
        te == total_errors(ps),
    ensures
        final(out)@ == old(out)@ + validation_section(ps),
{
    let ghost s0 = out@;
    append(out, "\nValidation:\n");
    if te == 0 {
        append(out, "  [✓] All specs valid\n");
    } else {
        append(out, "  [!] ");
        let n = decimal_string_wide(te);
        append(out, n.as_str());
        append(out, " validation error(s)\n");
        append(out, "      Run 'meriadoc validate' for details\n");
    }
    assert(out@ =~= s0 + validation_section(ps));
}

fn push_cache_section(out: &mut String, enabled: bool, dir: &str, entries: u128)
    ensures
        final(out)@ == old(out)@ + cache_section(enabled, dir@, entries as nat),
{
    let ghost s0 = out@;
    append(out, "\nCache:\n");
    if enabled {
        append(out, "  [✓] Validation cache enabled\n");
        append(out, "  [i] ");
        let n = decimal_string_wide(entries);
        append(out, n.as_str());
        append(out, " cached entries\n");
        append(out, "  [i] Cache dir: ");
        append(out, dir);
        append(out, "\n");
    } else {
        append(out, "  [i] Validation cache disabled\n");
    }
    assert(out@ =~= s0 + cache_section(enabled, dir@, entries as nat));
}

fn push_summary(out: &mut String, issues: u128)
    ensures
        final(out)@ == old(out)@ + "\n===============\n"@ + if issues == 0 {
            "No issues found. Meriadoc is ready to use.\n"@
        } else {
            decimal(issues as nat) + " issue(s) found.\n"@
        },
{
    let ghost s0 = out@;
    append(out, "\n===============\n");
    if issues == 0 {
        append(out, "No issues found. Meriadoc is ready to use.\n");
    } else {
        let n = decimal_string_wide(issues);
        append(out, n.as_str());
        append(out, " issue(s) found.\n");
    }
    assert(out@ =~= s0 + "\n===============\n"@ + if issues == 0 {
        "No issues found. Meriadoc is ready to use.\n"@
    } else {
        decimal(issues as nat) + " issue(s) found.\n"@
    });
}

/// Checks the configuration, the discovery roots, the projects, their validity and the
/// cache, and reports each with the number of issues found. `root_exists` tells, root by
/// root, whether its directory exists.
pub fn handle_doctor(app: &App, root_exists: &Vec<bool>) -> (r: String)
    requires
        counts_fit(app.projects@),
        root_exists@.len() == app.config.discovery.roots@.len(),
    ensures
        r@ == doctor_text(
            root_views(app.config.discovery.roots@),
            root_exists@,
            app.projects@,
            app.config.cache.enabled,
            app.config.cache.dir@,
            cached_entries(app.caches.pairs()),
        ),
{
    let roots = &app.config.discovery.roots;
    let ghost rs = root_views(roots@);
    let (en, dis) = count_roots(roots);
    let mut out = owned("Meriadoc Doctor\n===============\n\n");
    let ghost s0 = out@;
    push_config_section(&mut out, en, dis, Ghost(rs));
    let ghost s1 = out@;
    append(&mut out, "\nDiscovery roots:\n");
    let missing = push_root_lines(&mut out, roots, root_exists);
    let ghost s2 = out@;
    let (ts, tt, tj, tsh, te) = project_totals(&app.projects);
    push_projects_section(&mut out, &app.projects, en, (ts, tt, tj, tsh));
    let ghost s3 = out@;
    push_validation_section(&mut out, te, Ghost(app.projects@));
    let ghost s4 = out@;
    let entries = count_cached(&app.caches);
    push_cache_section(&mut out, app.config.cache.enabled, app.config.cache.dir.as_str(), entries);
    let ghost s5 = out@;
    let issues: u128 = (if en == 0 {
        1u128
    } else {
        0u128
    }) + missing as u128 + (if app.projects.len() == 0 {
        1u128
    } else {
        0u128
    }) + (if te > 0 {
        1u128
    } else {
        0u128
    });
    assert(issues == doctor_issues(rs, root_exists@, app.projects@));
    push_summary(&mut out, issues);
    assert(out@ =~= doctor_text(
        rs,
        root_exists@,
        app.projects@,
        app.config.cache.enabled,
        app.config.cache.dir@,
        entries as nat,
    ));
    out
}

} // verus!
