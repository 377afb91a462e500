//! Running tasks, jobs and shells: where their variables come from, what stops a run, and
//! what a dry run shows.
use vstd::prelude::*;
use vstd::relations::sorted_by;

use crate::cli::InteractiveMode;
use crate::dotenv::{dotenv_map, dotenv_well_formed, parse_dotenv, texts};
use crate::env::{
    contains_string, inline_default, views, EnvResolver, MissingVar, ResolvedEnv,
};
use crate::error::{MeriadocError, ValidationError, ValidationErrorModel};
use crate::order::{lemma_ordered, ordered, sort_strings, text_order};
use crate::prompt::{EditableVar, PromptResult};
use crate::spec::{clone_strings, opt_view, EnvVarModel, EnvVarSpec, VarType};
use crate::strmap::{distinct_keys, StrMap};
use crate::executor::{gathered, law_commands_stop_at_first_failure, mask_secrets, masked, CommandResult, CommandRunner};
use crate::interpolate::interp;
use crate::spec::{var_type_name, ConditionSpec, FailurePolicySpec, JobSpec, TaskSpec};
use crate::text::{concat, decimal, decimal_string, join_strings, join_with, owned, str_eq};

verus! {

/// The maps laid over each other in order: a later map wins.
pub open spec fn overlay(ms: Seq<Map<Seq<char>, Seq<char>>>) -> Map<Seq<char>, Seq<char>>
    decreases ms.len(),
{
    if ms.len() == 0 {
        Map::empty()
    } else {
        overlay(ms.drop_last()).union_prefer_right(ms.last())
    }
}

/// The defaults that an inline spec gives.
pub open spec fn defaults_of(inline: Map<Seq<char>, EnvVarSpec>) -> Map<Seq<char>, Seq<char>> {
    Map::new(
        |k: Seq<char>| inline_default(inline, k) is Some,
        |k: Seq<char>| inline_default(inline, k)->0,
    )
}

/// The variables set by `KEY=VALUE` pairs; a later pair wins.
pub open spec fn pairs_map(ps: Seq<(String, String)>) -> Map<Seq<char>, Seq<char>>
    decreases ps.len(),
{
    if ps.len() == 0 {
        Map::empty()
    } else {
        pairs_map(ps.drop_last()).insert(ps.last().0@, ps.last().1@)
    }
}

/// The variables of the env files that exist, in order, a later file winning.
pub open spec fn files_overlay(files: Seq<Option<String>>) -> Map<Seq<char>, Seq<char>>
    decreases files.len(),
{
    if files.len() == 0 {
        Map::empty()
    } else {
        match files.last() {
            Some(c) => files_overlay(files.drop_last()).union_prefer_right(dotenv_map(c@)),
            None => files_overlay(files.drop_last()),
        }
    }
}

/// The variables of an optional dotenv text.
pub open spec fn optional_file(f: Option<Seq<char>>) -> Map<Seq<char>, Seq<char>> {
    match f {
        Some(c) => dotenv_map(c),
        None => Map::empty(),
    }
}

/// The variables a run gets, lowest priority first: the project's `.env`, the env files of
/// the spec (a later file winning), the inline defaults, the saved values, the command
/// line's env file, and the command line's `KEY=VALUE` pairs.
pub open spec fn run_env(
    dotenv: Option<Seq<char>>,
    env_files: Seq<Option<String>>,
    inline: Map<Seq<char>, EnvVarSpec>,
    saved: Map<Seq<char>, Seq<char>>,
    cli_file: Option<Seq<char>>,
    cli_env: Seq<(String, String)>,
) -> Map<Seq<char>, Seq<char>> {
    optional_file(dotenv).union_prefer_right(files_overlay(env_files)).union_prefer_right(
        defaults_of(inline),
    ).union_prefer_right(saved).union_prefer_right(optional_file(cli_file)).union_prefer_right(
        pairs_map(cli_env),
    )
}

/// Lays every variable of `src` over `target`.
pub fn overlay_env(target: &mut ResolvedEnv, src: &ResolvedEnv)
    ensures
        texts(final(target)@) == texts(old(target)@).union_prefer_right(texts(src@)),
{
    let ghost start = texts(target@);
    let n = src.len();
    let mut i: usize = 0;
    proof {
        src.lemma_view();
    }
    while i < n
        invariant
            0 <= i <= n,
            n == src.pairs().len(),
            distinct_keys(src.pairs()),
            texts(target@) == start.union_prefer_right(
                texts(crate::strmap::map_of(src.pairs().take(i as int))),
            ),
        decreases n - i,
    {
        let (k, v) = src.entry(i);
        let ghost before = texts(target@);
        target.insert(k.clone(), v.clone());
        assert(texts(target@) =~= before.insert(k@, v@));
        proof {
            lemma_map_of_push(src.pairs(), i as int);
            let prev = crate::strmap::map_of(src.pairs().take(i as int));
            assert(texts(prev.insert(k@, *v)) =~= texts(prev).insert(k@, v@));
        }
        assert(texts(target@) =~= start.union_prefer_right(
            texts(crate::strmap::map_of(src.pairs().take(i + 1))),
        ));
        i = i + 1;
    }
    proof {
        assert(src.pairs().take(n as int) =~= src.pairs());
        src.lemma_view();
    }
}

/// Entries with distinct keys: the map of one more entry is the map of the fewer with that
/// entry added.
proof fn lemma_map_of_push<V>(ps: Seq<(String, V)>, i: int)
    requires
        distinct_keys(ps),
        0 <= i < ps.len(),
    ensures
        crate::strmap::map_of(ps.take(i + 1)) == crate::strmap::map_of(ps.take(i)).insert(
            ps[i].0@,
            ps[i].1,
        ),
{
    let a = ps.take(i);
    let b = ps.take(i + 1);
    assert forall|k: Seq<char>|
        crate::strmap::has_key(b, k) == (crate::strmap::has_key(a, k) || k == ps[i].0@) by {
        if crate::strmap::has_key(a, k) {
            let j = choose|j: int| 0 <= j < a.len() && a[j].0@ == k;
            assert(b[j].0@ == k);
        }
        if k == ps[i].0@ {
            assert(b[i].0@ == k);
        }
        if crate::strmap::has_key(b, k) && k != ps[i].0@ {
            let j = choose|j: int| 0 <= j < b.len() && b[j].0@ == k;
            assert(j < i);
            assert(a[j].0@ == k);
        }
    }
    assert forall|k: Seq<char>|
        crate::strmap::has_key(b, k) implies #[trigger] crate::strmap::map_of(b)[k]
        == crate::strmap::map_of(a).insert(ps[i].0@, ps[i].1)[k] by {
        let jb = crate::strmap::index_of_key(b, k);
        if k == ps[i].0@ {
            assert(b[i].0@ == k);
            assert(jb == i);
        } else {
            let ja = crate::strmap::index_of_key(a, k);
            assert(b[ja].0@ == k);
            assert(jb == ja);
        }
    }
    assert(crate::strmap::map_of(b) =~= crate::strmap::map_of(a).insert(ps[i].0@, ps[i].1));
}

/// The defaults of the first `j` entries, a later entry winning.
pub open spec fn prefix_defaults(ps: Seq<(String, EnvVarSpec)>, j: int) -> Map<Seq<char>, Seq<char>>
    decreases j,
{
    if j <= 0 {
        Map::empty()
    } else {
        let m = prefix_defaults(ps, j - 1);
        match ps[j - 1].1.default {
            Some(d) => m.insert(ps[j - 1].0@, d@),
            None => m,
        }
    }
}

/// The defaults of the first `j` entries are those of the map they stand for.
proof fn lemma_prefix_defaults(ps: Seq<(String, EnvVarSpec)>, j: int)
    requires
        distinct_keys(ps),
        0 <= j <= ps.len(),
    ensures
        prefix_defaults(ps, j) == defaults_of(crate::strmap::map_of(ps.take(j))),
    decreases j,
{
    if j == 0 {
        assert(defaults_of(crate::strmap::map_of(ps.take(0))) =~= Map::<Seq<char>, Seq<char>>::empty())
            by {
            assert forall|k: Seq<char>| !crate::strmap::has_key(ps.take(0), k) by {}
        }
    } else {
        lemma_prefix_defaults(ps, j - 1);
        lemma_map_of_push(ps, j - 1);
        let m = crate::strmap::map_of(ps.take(j - 1));
        let k = ps[j - 1].0@;
        assert(!m.dom().contains(k)) by {
            if crate::strmap::has_key(ps.take(j - 1), k) {
                let t = ps.take(j - 1);
                let i = choose|i: int| 0 <= i < t.len() && t[i].0@ == k;
                assert(ps[i].0@ == ps[j - 1].0@);
            }
        }
        assert(defaults_of(m.insert(k, ps[j - 1].1)) =~= match ps[j - 1].1.default {
            Some(d) => defaults_of(m).insert(k, d@),
            None => defaults_of(m),
        });
    }
}

/// Whether every env file that exists is well formed.
pub open spec fn present_files_ok(files: Seq<Option<String>>) -> bool {
    forall|i: int|
        0 <= i < files.len() ==> (#[trigger] files[i] matches Some(c) ==> dotenv_well_formed(c@))
}

/// Whether an optional dotenv text is well formed.
pub open spec fn optional_ok(f: Option<Seq<char>>) -> bool {
    match f {
        Some(c) => dotenv_well_formed(c),
        None => true,
    }
}

/// The text of an optional string slice.
pub open spec fn opt_text(o: Option<&str>) -> Option<Seq<char>> {
    match o {
        Some(s) => Some(s@),
        None => None,
    }
}

/// Lays the variables of a dotenv text, if there is one, over `env`.
fn overlay_file(env: &mut ResolvedEnv, contents: Option<&str>)
    requires
        optional_ok(opt_text(contents)),
    ensures
        texts(final(env)@) == texts(old(env)@).union_prefer_right(optional_file(opt_text(contents))),
{
    match contents {
        Some(c) => {
            let m = parse_dotenv(c);
            overlay_env(env, &m);
        },
        None => {
            assert(texts(env@).union_prefer_right(Map::<Seq<char>, Seq<char>>::empty()) =~= texts(
                env@,
            ));
        },
    }
}

/// The tasks, jobs and shells that run.
pub struct RunActions;

impl RunActions {
    /// The variables of a run, from the project's `.env`, the spec's env files, the inline
    /// defaults, the saved values, the command line's env file and its `KEY=VALUE` pairs, each
    /// overriding the ones before.
    pub fn layered_env(
        dotenv: Option<&str>,
        env_files: &[Option<String>],
        inline_env: &StrMap<EnvVarSpec>,
        saved: &ResolvedEnv,
        cli_file: Option<&str>,
        cli_env: &[(String, String)],
    ) -> (r: ResolvedEnv)
        requires
            optional_ok(opt_text(dotenv)),
            present_files_ok(env_files@),
            optional_ok(opt_text(cli_file)),
        ensures
            texts(r@) == run_env(
                opt_text(dotenv),
                env_files@,
                inline_env@,
                texts(saved@),
                opt_text(cli_file),
                cli_env@,
            ),
    {
        let mut env: ResolvedEnv = StrMap::new();
        assert(texts(env@) =~= Map::<Seq<char>, Seq<char>>::empty());
        overlay_file(&mut env, dotenv);
        assert(texts(env@) =~= optional_file(opt_text(dotenv)));
        let ghost base = texts(env@);
        let mut i: usize = 0;
        assert(files_overlay(env_files@.take(0)) =~= Map::<Seq<char>, Seq<char>>::empty());
        while i < env_files.len()
            invariant
                0 <= i <= env_files.len(),
                present_files_ok(env_files@),
                texts(env@) == base.union_prefer_right(files_overlay(env_files@.take(i as int))),
            decreases env_files.len() - i,
        {
            assert(env_files@.take(i + 1).drop_last() =~= env_files@.take(i as int));
            let ghost before = texts(env@);
            match &env_files[i] {
                Some(c) => {
                    assert(env_files@[i as int] matches Some(x) ==> dotenv_well_formed(x@));
                    overlay_file(&mut env, Some(c.as_str()));
                },
                None => {},
            }
            assert(texts(env@) =~= base.union_prefer_right(files_overlay(env_files@.take(i + 1))));
            i = i + 1;
        }
        assert(env_files@.take(env_files.len() as int) =~= env_files@);
        let ghost after_files = texts(env@);
        let n = inline_env.len();
        let mut j: usize = 0;
        proof {
            inline_env.lemma_view();
        }
        while j < n
            invariant
                0 <= j <= n,
                n == inline_env.pairs().len(),
                distinct_keys(inline_env.pairs()),
                texts(env@) == after_files.union_prefer_right(prefix_defaults(inline_env.pairs(), j as int)),
            decreases n - j,
        {
            let (k, spec) = inline_env.entry(j);
            let ghost before = texts(env@);
            match &spec.default {
                Some(d) => {
                    env.insert(k.clone(), d.clone());
                    assert(texts(env@) =~= before.insert(k@, d@));
                },
                None => {},
            }
            assert(texts(env@) =~= after_files.union_prefer_right(
                prefix_defaults(inline_env.pairs(), j + 1),
            ));
            j = j + 1;
        }
        proof {
            lemma_prefix_defaults(inline_env.pairs(), n as int);
            assert(inline_env.pairs().take(n as int) =~= inline_env.pairs());
            inline_env.lemma_view();
        }
        overlay_env(&mut env, saved);
        overlay_file(&mut env, cli_file);
        let ghost before_cli = texts(env@);
        let mut c: usize = 0;
        assert(pairs_map(cli_env@.take(0)) =~= Map::<Seq<char>, Seq<char>>::empty());
        while c < cli_env.len()
            invariant
                0 <= c <= cli_env.len(),
                texts(env@) == before_cli.union_prefer_right(pairs_map(cli_env@.take(c as int))),
            decreases cli_env.len() - c,
        {
            assert(cli_env@.take(c + 1).drop_last() =~= cli_env@.take(c as int));
            let ghost before = texts(env@);
            env.insert(cli_env[c].0.clone(), cli_env[c].1.clone());
            assert(texts(env@) =~= before.insert(cli_env@[c as int].0@, cli_env@[c as int].1@));
            assert(texts(env@) =~= before_cli.union_prefer_right(pairs_map(cli_env@.take(c + 1))));
            c = c + 1;
        }
        assert(cli_env@.take(cli_env.len() as int) =~= cli_env@);
        env
    }
}

/// The keys of a map, in increasing order.
pub fn sorted_keys<V>(m: &StrMap<V>) -> (r: Vec<String>)
    ensures
        r.deep_view() == ordered(m.key_seq()),
{
    let r = sort_strings(m.keys());
    proof {
        lemma_ordered(m.key_seq(), r.deep_view());
    }
    r
}

/// The required variables, taken in the order of `keys`, that `res` leaves without a value.
pub open spec fn missing_in(
    keys: Seq<Seq<char>>,
    inline: Map<Seq<char>, EnvVarSpec>,
    res: Map<Seq<char>, Seq<char>>,
) -> Seq<(Seq<char>, EnvVarModel)>
    decreases keys.len(),
{
    if keys.len() == 0 {
        Seq::empty()
    } else {
        let r = missing_in(keys.drop_last(), inline, res);
        let k = keys.last();
        if inline.dom().contains(k) && inline[k].required && !res.dom().contains(k) {
            r.push((k, inline[k]@))
        } else {
            r
        }
    }
}

/// A variable whose value is not one of its options.
#[derive(Debug)]
pub struct InvalidChoice {
    pub var: String,
    pub value: String,
    pub options: Vec<String>,
}

impl View for InvalidChoice {
    type V = (Seq<char>, Seq<char>, Seq<Seq<char>>);

    open spec fn view(&self) -> (Seq<char>, Seq<char>, Seq<Seq<char>>) {
        (self.var@, self.value@, self.options.deep_view())
    }
}

/// The variables with options, taken in the order of `keys`, whose value in `res` is none
/// of them.
pub open spec fn invalid_in(
    keys: Seq<Seq<char>>,
    inline: Map<Seq<char>, EnvVarSpec>,
    res: Map<Seq<char>, Seq<char>>,
) -> Seq<(Seq<char>, Seq<char>, Seq<Seq<char>>)>
    decreases keys.len(),
{
    if keys.len() == 0 {
        Seq::empty()
    } else {
        let r = invalid_in(keys.drop_last(), inline, res);
        let k = keys.last();
        if inline.dom().contains(k) && inline[k].options@.len() > 0 && res.dom().contains(k)
            && !inline[k].options.deep_view().contains(res[k]) {
            r.push((k, res[k], inline[k].options.deep_view()))
        } else {
            r
        }
    }
}

/// The required variables that `resolved` lacks, in order of name.
pub fn find_missing_required_vars(inline_env: &StrMap<EnvVarSpec>, resolved: &ResolvedEnv) -> (r:
    Vec<MissingVar>)
    ensures
        views(r@) == missing_in(ordered(inline_env.key_seq()), inline_env@, texts(resolved@)),
{
    let keys = sorted_keys(inline_env);
    let mut out: Vec<MissingVar> = Vec::new();
    let mut i: usize = 0;
    while i < keys.len()
        invariant
            0 <= i <= keys.len(),
            views(out@) == missing_in(keys.deep_view().take(i as int), inline_env@, texts(resolved@)),
        decreases keys.len() - i,
    {
        let ghost t = keys.deep_view().take(i + 1);
        assert(t.drop_last() =~= keys.deep_view().take(i as int));
        assert(t.last() == keys@[i as int]@);
        match inline_env.get(keys[i].as_str()) {
            Some(spec) => {
                if spec.required && !resolved.contains_key(keys[i].as_str()) {
                    let ghost before = out@;
                    out.push(MissingVar { name: keys[i].clone(), spec: spec.clone() });
                    assert(views(out@) =~= views(before).push((keys@[i as int]@, spec@)));
                }
            },
            None => {},
        }
        i = i + 1;
    }
    assert(keys.deep_view().take(keys.len() as int) =~= keys.deep_view());
    out
}

/// The variables whose values are none of their options, in order of name.
pub fn find_invalid_choices(inline_env: &StrMap<EnvVarSpec>, resolved: &ResolvedEnv) -> (r: Vec<
    InvalidChoice,
>)
    ensures
        views(r@) == invalid_in(ordered(inline_env.key_seq()), inline_env@, texts(resolved@)),
{
    let keys = sorted_keys(inline_env);
    let mut out: Vec<InvalidChoice> = Vec::new();
    let mut i: usize = 0;
    while i < keys.len()
        invariant
            0 <= i <= keys.len(),
            views(out@) == invalid_in(keys.deep_view().take(i as int), inline_env@, texts(resolved@)),
        decreases keys.len() - i,
    {
        let ghost t = keys.deep_view().take(i + 1);
        assert(t.drop_last() =~= keys.deep_view().take(i as int));
        assert(t.last() == keys@[i as int]@);
        match inline_env.get(keys[i].as_str()) {
            Some(spec) => {
                if spec.options.len() > 0 {
                    match resolved.get(keys[i].as_str()) {
                        Some(value) => {
                            if !contains_string(&spec.options, value.as_str()) {
                                let ghost before = out@;
                                out.push(
                                    InvalidChoice {
                                        var: keys[i].clone(),
                                        value: value.clone(),
                                        options: clone_strings(&spec.options),
                                    },
                                );
                                assert(views(out@) =~= views(before).push(
                                    (keys@[i as int]@, value@, spec.options.deep_view()),
                                ));
                            }
                        },
                        None => {},
                    }
                }
            },
            None => {},
        }
        i = i + 1;
    }
    assert(keys.deep_view().take(keys.len() as int) =~= keys.deep_view());
    out
}

/// The names of the secret variables of `ps`, in order.
pub open spec fn secrets_of(ps: Seq<(String, EnvVarSpec)>) -> Seq<Seq<char>>
    decreases ps.len(),
{
    if ps.len() == 0 {
        Seq::empty()
    } else {
        let r = secrets_of(ps.drop_last());
        if ps.last().1.var_type == VarType::Secret {
            r.push(ps.last().0@)
        } else {
            r
        }
    }
}

/// The names of the secret variables of an inline spec.
pub fn extract_secrets(inline_env: &StrMap<EnvVarSpec>) -> (r: Vec<String>)
    ensures
        r.deep_view() == secrets_of(inline_env.pairs()),
{
    let n = inline_env.len();
    let mut out: Vec<String> = Vec::new();
    let mut i: usize = 0;
    while i < n
        invariant
            0 <= i <= n,
            n == inline_env.pairs().len(),
            out.deep_view() == secrets_of(inline_env.pairs().take(i as int)),
        decreases n - i,
    {
        let (k, spec) = inline_env.entry(i);
        assert(inline_env.pairs().take(i + 1).drop_last() =~= inline_env.pairs().take(i as int));
        if spec.var_type == VarType::Secret {
            let ghost before = out.deep_view();
            out.push(k.clone());
            assert(out.deep_view() =~= before.push(k@));
        }
        i = i + 1;
    }
    assert(inline_env.pairs().take(n as int) =~= inline_env.pairs());
    out
}

/// Whether no text occurs twice in `s`.
pub open spec fn no_dups(s: Seq<Seq<char>>) -> bool {
    forall|i: int, j: int| 0 <= i < j < s.len() ==> s[i] != s[j]
}

/// Adds each name of `more` that `names` lacks.
pub fn add_names(names: &mut Vec<String>, more: &Vec<String>)
    ensures
        final(names).deep_view().to_set() == old(names).deep_view().to_set() + more.deep_view().to_set(),
        no_dups(old(names).deep_view()) ==> no_dups(final(names).deep_view()),
{
    let ghost start = names.deep_view();
    let mut i: usize = 0;
    while i < more.len()
        invariant
            0 <= i <= more.len(),
            names.deep_view().to_set() == start.to_set() + more.deep_view().take(i as int).to_set(),
            no_dups(start) ==> no_dups(names.deep_view()),
        decreases more.len() - i,
    {
        let ghost before = names.deep_view();
        assert(more.deep_view().take(i + 1) =~= more.deep_view().take(i as int).push(
            more@[i as int]@,
        ));
        if !contains_string(names, more[i].as_str()) {
            names.push(more[i].clone());
            assert(names.deep_view() =~= before.push(more@[i as int]@));
            proof {
                before.lemma_push_to_set_commute(more@[i as int]@);
            }
            assert(names.deep_view().to_set() =~= before.to_set().insert(more@[i as int]@));
        } else {
            assert(before.to_set().contains(more@[i as int]@));
        }
        proof {
            more.deep_view().take(i as int).lemma_push_to_set_commute(more@[i as int]@);
        }
        assert(names.deep_view().to_set() =~= start.to_set() + more.deep_view().take(i + 1).to_set());
        i = i + 1;
    }
    assert(more.deep_view().take(more.len() as int) =~= more.deep_view());
}

/// The variables of a run, with the problems found in them.
#[derive(Debug)]
pub struct EnvResult {
    pub env: ResolvedEnv,
    pub missing: Vec<MissingVar>,
    pub invalid_choices: Vec<InvalidChoice>,
}

/// What a run does with its variables next.
pub enum EnvStep {
    /// They are settled: the variables, or why the run cannot go on.
    Done(Result<EnvResult, MeriadocError>),
    /// Ask the user to review every variable, then call [`RunActions::after_prompt`].
    PromptAll(ResolvedEnv, Vec<EditableVar>),
    /// Ask the user for the missing variables, then call [`RunActions::after_prompt`].
    PromptMissing(ResolvedEnv, Vec<MissingVar>),
}

/// The error for the first problem left: a missing variable before a wrong choice.
pub open spec fn env_problem(
    missing: Seq<(Seq<char>, EnvVarModel)>,
    invalid: Seq<(Seq<char>, Seq<char>, Seq<Seq<char>>)>,
) -> Option<ValidationErrorModel> {
    if missing.len() > 0 {
        Some(ValidationErrorModel::MissingRequiredEnv { var: missing[0].0 })
    } else if invalid.len() > 0 {
        Some(
            ValidationErrorModel::InvalidChoice {
                var: invalid[0].0,
                value: invalid[0].1,
                options: invalid[0].2,
            },
        )
    } else {
        None
    }
}

/// Whether `r` is what a settled run gives: the variables, or the error for its first
/// problem.
pub open spec fn settled(
    r: Result<EnvResult, MeriadocError>,
    inline: Map<Seq<char>, EnvVarSpec>,
    keys: Seq<Seq<char>>,
    res: Map<Seq<char>, Seq<char>>,
) -> bool {
    match env_problem(missing_in(keys, inline, res), invalid_in(keys, inline, res)) {
        Some(e) => r matches Err(MeriadocError::Validation(v)) && v@ == e,
        None => r matches Ok(er) && texts(er.env@) == res && er.missing@.len() == 0
            && er.invalid_choices@.len() == 0,
    }
}

impl RunActions {
    /// Sets `MERIADOC_PROJECT_ROOT` and `MERIADOC_SPEC_DIR`.
    pub fn add_special_vars(env: &mut ResolvedEnv, project_root: &str, spec_file_dir: &str)
        ensures
            texts(final(env)@) == texts(old(env)@).insert("MERIADOC_PROJECT_ROOT"@, project_root@).insert(
                "MERIADOC_SPEC_DIR"@,
                spec_file_dir@,
            ),
    {
        let ghost start = texts(env@);
        env.insert(owned("MERIADOC_PROJECT_ROOT"), owned(project_root));
        let ghost mid = texts(env@);
        assert(mid =~= start.insert("MERIADOC_PROJECT_ROOT"@, project_root@));
        env.insert(owned("MERIADOC_SPEC_DIR"), owned(spec_file_dir));
        assert(texts(env@) =~= mid.insert("MERIADOC_SPEC_DIR"@, spec_file_dir@));
    }

    /// The variables after a check for problems: the first missing variable, or else the
    /// first value that is none of its options, stops the run.
    pub fn settle(inline_env: &StrMap<EnvVarSpec>, resolved: ResolvedEnv) -> (r: Result<
        EnvResult,
        MeriadocError,
    >)
        ensures
            settled(r, inline_env@, ordered(inline_env.key_seq()), texts(resolved@)),
    {
        let missing = find_missing_required_vars(inline_env, &resolved);
        let invalid = find_invalid_choices(inline_env, &resolved);
        if missing.len() > 0 {
            assert(views(missing@)[0] == missing@[0]@);
            return Err(
                MeriadocError::Validation(
                    ValidationError::MissingRequiredEnv { var: missing[0].name.clone() },
                ),
            );
        }
        if invalid.len() > 0 {
            assert(views(invalid@)[0] == invalid@[0]@);
            return Err(
                MeriadocError::Validation(
                    ValidationError::InvalidChoice {
                        var: invalid[0].var.clone(),
                        value: invalid[0].value.clone(),
                        options: clone_strings(&invalid[0].options),
                    },
                ),
            );
        }
        Ok(EnvResult { env: resolved, missing: Vec::new(), invalid_choices: Vec::new() })
    }
}

/// The variables to review, in order of name, each with its current value.
pub open spec fn review_of(
    keys: Seq<Seq<char>>,
    inline: Map<Seq<char>, EnvVarSpec>,
    res: Map<Seq<char>, Seq<char>>,
) -> Seq<(Seq<char>, EnvVarModel, Option<Seq<char>>)>
    decreases keys.len(),
{
    if keys.len() == 0 {
        Seq::empty()
    } else {
        let r = review_of(keys.drop_last(), inline, res);
        let k = keys.last();
        if inline.dom().contains(k) {
            r.push(
                (
                    k,
                    inline[k]@,
                    if res.dom().contains(k) {
                        Some(res[k])
                    } else {
                        None
                    },
                ),
            )
        } else {
            r
        }
    }
}

impl RunActions {
    /// Every variable of the inline spec, in order of name, with its current value.
    pub fn review_vars(inline_env: &StrMap<EnvVarSpec>, resolved: &ResolvedEnv) -> (r: Vec<
        EditableVar,
    >)
        ensures
            crate::prompt::session_vars(r@) == review_of(
                ordered(inline_env.key_seq()),
                inline_env@,
                texts(resolved@),
            ),
    {
        let keys = sorted_keys(inline_env);
        let mut out: Vec<EditableVar> = Vec::new();
        let mut i: usize = 0;
        while i < keys.len()
            invariant
                0 <= i <= keys.len(),
                crate::prompt::session_vars(out@) == review_of(
                    keys.deep_view().take(i as int),
                    inline_env@,
                    texts(resolved@),
                ),
            decreases keys.len() - i,
        {
            let ghost t = keys.deep_view().take(i + 1);
            assert(t.drop_last() =~= keys.deep_view().take(i as int));
            assert(t.last() == keys@[i as int]@);
            match inline_env.get(keys[i].as_str()) {
                Some(spec) => {
                    let current = match resolved.get(keys[i].as_str()) {
                        Some(v) => Some(v.clone()),
                        None => None,
                    };
                    let ghost before = out@;
                    let var = EditableVar { name: keys[i].clone(), spec: spec.clone(), current_value: current };
                    let ghost vv = var@;
                    out.push(var);
                    assert(crate::prompt::session_vars(out@) =~= crate::prompt::session_vars(before).push(vv));
                },
                None => {},
            }
            i = i + 1;
        }
        assert(keys.deep_view().take(keys.len() as int) =~= keys.deep_view());
        out
    }

    /// What a run does with its variables: in a dry run, keeps them with their problems;
    /// when every variable is to be asked for, asks for review; when some are missing and
    /// the user may be asked, asks for them; else settles them.
    pub fn env_step(
        inline_env: &StrMap<EnvVarSpec>,
        resolved: ResolvedEnv,
        dry_run: bool,
        mode: InteractiveMode,
        stdin_is_terminal: bool,
    ) -> (r: EnvStep)
        ensures
            ({
                let keys = ordered(inline_env.key_seq());
                let res = texts(resolved@);
                let missing = missing_in(keys, inline_env@, res);
                if dry_run {
                    r matches EnvStep::Done(Ok(er)) && texts(er.env@) == res && views(er.missing@)
                        == missing && views(er.invalid_choices@) == invalid_in(keys, inline_env@, res)
                } else if mode.prompt_all && !mode.no_interactive {
                    r matches EnvStep::PromptAll(env, vars) && texts(env@) == res
                        && crate::prompt::session_vars(vars@) == review_of(keys, inline_env@, res)
                } else if missing.len() > 0 && !mode.no_interactive && (mode.interactive
                    || mode.prompt_all || stdin_is_terminal) {
                    r matches EnvStep::PromptMissing(env, ms) && texts(env@) == res && views(ms@)
                        == missing
                } else {
                    r matches EnvStep::Done(d) && settled(d, inline_env@, keys, res)
                }
            }),
    {
        let missing = find_missing_required_vars(inline_env, &resolved);
        if dry_run {
            let invalid = find_invalid_choices(inline_env, &resolved);
            return EnvStep::Done(Ok(EnvResult { env: resolved, missing, invalid_choices: invalid }));
        }
        if mode.should_prompt_all() {
            let vars = Self::review_vars(inline_env, &resolved);
            return EnvStep::PromptAll(resolved, vars);
        }
        if missing.len() > 0 && mode.should_prompt_on(stdin_is_terminal) {
            return EnvStep::PromptMissing(resolved, missing);
        }
        EnvStep::Done(Self::settle(inline_env, resolved))
    }

    /// The variables after the user's answers are laid over them, settled.
    pub fn after_prompt(inline_env: &StrMap<EnvVarSpec>, resolved: ResolvedEnv, prompted: &PromptResult) -> (r: Result<
        EnvResult,
        MeriadocError,
    >)
        ensures
            settled(
                r,
                inline_env@,
                ordered(inline_env.key_seq()),
                texts(resolved@).union_prefer_right(texts(prompted.values@)),
            ),
    {
        let mut env = resolved;
        overlay_env(&mut env, &prompted.values);
        Self::settle(inline_env, env)
    }
}

/// One command of a dry run: its number and text, then what it becomes when the two differ.
pub open spec fn command_line(index: nat, raw: Seq<char>, interpolated: Seq<char>) -> Seq<char> {
    if raw == interpolated {
        "    "@ + decimal(index) + ". "@ + raw + "\n"@
    } else {
        "    "@ + decimal(index) + ". "@ + raw + "\n       → "@ + interpolated + "\n"@
    }
}

/// Formats one command of a dry run.
pub fn format_command_with_interpolation(index: usize, raw: &str, interpolated: &str) -> (r: String)
    ensures
        r@ == command_line(index as nat, raw@, interpolated@),
{
    let n = decimal_string(index as u64);
    let a = concat("    ", n.as_str());
    let b = concat(a.as_str(), ". ");
    let c = concat(b.as_str(), raw);
    if str_eq(raw, interpolated) {
        concat(c.as_str(), "\n")
    } else {
        let d = concat(c.as_str(), "\n       → ");
        let e = concat(d.as_str(), interpolated);
        concat(e.as_str(), "\n")
    }
}

/// The commands of `cmds`, numbered from 1, each with what it becomes in `env`.
pub open spec fn command_lines(cmds: Seq<Seq<char>>, env: Map<Seq<char>, String>) -> Seq<char>
    decreases cmds.len(),
{
    if cmds.len() == 0 {
        Seq::empty()
    } else {
        command_lines(cmds.drop_last(), env) + command_line(
            cmds.len(),
            cmds.last(),
            interp(cmds.last(), env, Map::empty()),
        )
    }
}

/// The commands of `cmds`, all numbered `index`, each with what it becomes in `env`.
pub open spec fn numbered_lines(cmds: Seq<Seq<char>>, index: nat, env: Map<Seq<char>, String>) -> Seq<
    char,
>
    decreases cmds.len(),
{
    if cmds.len() == 0 {
        Seq::empty()
    } else {
        numbered_lines(cmds.drop_last(), index, env) + command_line(
            index,
            cmds.last(),
            interp(cmds.last(), env, Map::empty()),
        )
    }
}

/// The commands of the preconditions, each numbered by its precondition.
pub open spec fn condition_lines(conds: Seq<ConditionSpec>, env: Map<Seq<char>, String>) -> Seq<char>
    decreases conds.len(),
{
    if conds.len() == 0 {
        Seq::empty()
    } else {
        condition_lines(conds.drop_last(), env) + numbered_lines(
            conds.last().cmds.deep_view(),
            conds.len(),
            env,
        )
    }
}

/// Appends the commands of `cmds`, all numbered `index`.
fn push_numbered(out: &mut String, cmds: &Vec<String>, index: usize, env: &ResolvedEnv)
    ensures
        final(out)@ == old(out)@ + numbered_lines(cmds.deep_view(), index as nat, env@),
{
    let ghost start = out@;
    let mut i: usize = 0;
    while i < cmds.len()
        invariant
            0 <= i <= cmds.len(),
            out@ == start + numbered_lines(cmds.deep_view().take(i as int), index as nat, env@),
        decreases cmds.len() - i,
    {
        let ghost t = cmds.deep_view().take(i + 1);
        assert(t.drop_last() =~= cmds.deep_view().take(i as int));
        assert(t.last() == cmds@[i as int]@);
        let interpolated = CommandRunner::interpolate_command(cmds[i].as_str(), env);
        let line = format_command_with_interpolation(index, cmds[i].as_str(), interpolated.as_str());
        *out = concat(out.as_str(), line.as_str());
        assert(out@ =~= start + numbered_lines(t, index as nat, env@));
        i = i + 1;
    }
    assert(cmds.deep_view().take(cmds.len() as int) =~= cmds.deep_view());
}

/// Appends the commands of `cmds`, numbered from 1.
fn push_commands(out: &mut String, cmds: &Vec<String>, env: &ResolvedEnv)
    ensures
        final(out)@ == old(out)@ + command_lines(cmds.deep_view(), env@),
{
    let ghost start = out@;
    let mut i: usize = 0;
    while i < cmds.len()
        invariant
            0 <= i <= cmds.len(),
            out@ == start + command_lines(cmds.deep_view().take(i as int), env@),
        decreases cmds.len() - i,
    {
        let ghost t = cmds.deep_view().take(i + 1);
        assert(t.drop_last() =~= cmds.deep_view().take(i as int));
        assert(t.last() == cmds@[i as int]@);
        let interpolated = CommandRunner::interpolate_command(cmds[i].as_str(), env);
        let line = format_command_with_interpolation(i + 1, cmds[i].as_str(), interpolated.as_str());
        *out = concat(out.as_str(), line.as_str());
        assert(out@ =~= start + command_lines(t, env@));
        i = i + 1;
    }
    assert(cmds.deep_view().take(cmds.len() as int) =~= cmds.deep_view());
}

/// One missing variable in a dry run: its options, or else its type.
pub open spec fn missing_line(name: Seq<char>, spec: EnvVarModel) -> Seq<char> {
    if spec.options.len() > 0 {
        "    "@ + name + " (options: "@ + join_with(spec.options, ", "@) + ")\n"@
    } else {
        "    "@ + name + " (type: "@ + var_type_name(spec.var_type) + ")\n"@
    }
}

/// The lines of the missing variables.
pub open spec fn missing_lines(ms: Seq<(Seq<char>, EnvVarModel)>) -> Seq<char>
    decreases ms.len(),
{
    if ms.len() == 0 {
        Seq::empty()
    } else {
        missing_lines(ms.drop_last()) + missing_line(ms.last().0, ms.last().1)
    }
}

/// The lines of the values that are none of their options.
pub open spec fn invalid_lines(is: Seq<(Seq<char>, Seq<char>, Seq<Seq<char>>)>) -> Seq<char>
    decreases is.len(),
{
    if is.len() == 0 {
        Seq::empty()
    } else {
        invalid_lines(is.drop_last()) + "    "@ + is.last().0 + "="@ + is.last().1
            + " (valid options: "@ + join_with(is.last().2, ", "@) + ")\n"@
    }
}

/// The problems shown by a dry run.
pub open spec fn env_issues_text(
    missing: Seq<(Seq<char>, EnvVarModel)>,
    invalid: Seq<(Seq<char>, Seq<char>, Seq<Seq<char>>)>,
) -> Seq<char> {
    (if missing.len() > 0 {
        "[dry-run] Missing required environment variables:\n"@ + missing_lines(missing)
    } else {
        Seq::empty()
    }) + (if invalid.len() > 0 {
        "[dry-run] Invalid environment variable values:\n"@ + invalid_lines(invalid)
    } else {
        Seq::empty()
    })
}

/// Formats the problems with the variables of a dry run.
pub fn format_env_issues(missing: &[MissingVar], invalid_choices: &[InvalidChoice]) -> (r: String)
    ensures
        r@ == env_issues_text(views(missing@), views(invalid_choices@)),
{
    let mut out = String::new();
    if missing.len() > 0 {
        out = concat(out.as_str(), "[dry-run] Missing required environment variables:\n");
        let ghost head = out@;
        let mut i: usize = 0;
        while i < missing.len()
            invariant
                0 <= i <= missing.len(),
                out@ == head + missing_lines(views(missing@).take(i as int)),
            decreases missing.len() - i,
        {
            let ghost t = views(missing@).take(i + 1);
            assert(t.drop_last() =~= views(missing@).take(i as int));
            assert(t.last() == missing@[i as int]@);
            let var = &missing[i];
            let line = if var.spec.options.len() > 0 {
                let all = join_strings(&var.spec.options, ", ");
                let a = concat("    ", var.name.as_str());
                let b = concat(a.as_str(), " (options: ");
                let c = concat(b.as_str(), all.as_str());
                concat(c.as_str(), ")\n")
            } else {
                let a = concat("    ", var.name.as_str());
                let b = concat(a.as_str(), " (type: ");
                let c = concat(b.as_str(), var.spec.var_type.as_str());
                concat(c.as_str(), ")\n")
            };
            out = concat(out.as_str(), line.as_str());
            assert(out@ =~= head + missing_lines(t));
            i = i + 1;
        }
        assert(views(missing@).take(missing.len() as int) =~= views(missing@));
    }
    let ghost mid = out@;
    if invalid_choices.len() > 0 {
        out = concat(out.as_str(), "[dry-run] Invalid environment variable values:\n");
        let ghost head = out@;
        let mut i: usize = 0;
        while i < invalid_choices.len()
            invariant
                0 <= i <= invalid_choices.len(),
                out@ == head + invalid_lines(views(invalid_choices@).take(i as int)),
            decreases invalid_choices.len() - i,
        {
            let ghost t = views(invalid_choices@).take(i + 1);
            assert(t.drop_last() =~= views(invalid_choices@).take(i as int));
            assert(t.last() == invalid_choices@[i as int]@);
            let ic = &invalid_choices[i];
            let all = join_strings(&ic.options, ", ");
            let a = concat("    ", ic.var.as_str());
            let b = concat(a.as_str(), "=");
            let c = concat(b.as_str(), ic.value.as_str());
            let d = concat(c.as_str(), " (valid options: ");
            let e = concat(d.as_str(), all.as_str());
            let line = concat(e.as_str(), ")\n");
            out = concat(out.as_str(), line.as_str());
            assert(out@ =~= head + invalid_lines(t));
            i = i + 1;
        }
        assert(views(invalid_choices@).take(invalid_choices.len() as int) =~= views(invalid_choices@));
    }
    proof {
        reveal_strlit("");
    }
    assert(out@ =~= env_issues_text(views(missing@), views(invalid_choices@)));
    out
}

/// The lines `    KEY=VALUE` of the variables named in `keys`.
pub open spec fn env_block(keys: Seq<Seq<char>>, env: Map<Seq<char>, String>) -> Seq<char>
    decreases keys.len(),
{
    if keys.len() == 0 {
        Seq::empty()
    } else {
        env_block(keys.drop_last(), env) + "    "@ + keys.last() + "="@ + env[keys.last()]@
            + "\n"@
    }
}

/// Appends the variables of `env` in order of name, one `    KEY=VALUE` line each.
fn push_env_block(out: &mut String, env: &ResolvedEnv)
    ensures
        final(out)@ == old(out)@ + env_block(ordered(env.key_seq()), env@),
{
    let ghost start = out@;
    let keys = sorted_keys(env);
    let _n = env.len();
    let mut i: usize = 0;
    while i < keys.len()
        invariant
            0 <= i <= keys.len(),
            distinct_keys(env.pairs()),
            keys.deep_view() == ordered(env.key_seq()),
            out@ == start + env_block(keys.deep_view().take(i as int), env@),
        decreases keys.len() - i,
    {
        let ghost t = keys.deep_view().take(i + 1);
        assert(t.drop_last() =~= keys.deep_view().take(i as int));
        assert(t.last() == keys@[i as int]@);
        let v = match env.get(keys[i].as_str()) {
            Some(v) => v.clone(),
            None => String::new(),
        };
        proof {
            if !env@.dom().contains(keys@[i as int]@) {
                let k = keys@[i as int]@;
                crate::order::lemma_ordered_members(env.key_seq(), k);
                assert(keys.deep_view()[i as int] == k);
                assert(env.key_seq().contains(k));
                let j = choose|j: int| 0 <= j < env.key_seq().len() && env.key_seq()[j] == k;
                assert(env.pairs()[j].0@ == k);
                env.lemma_view();
                assert(crate::strmap::has_key(env.pairs(), k));
                assert(false);
            }
        }
        let a = concat(out.as_str(), "    ");
        let b = concat(a.as_str(), keys[i].as_str());
        let c = concat(b.as_str(), "=");
        let d = concat(c.as_str(), v.as_str());
        *out = concat(d.as_str(), "\n");
        assert(out@ =~= start + env_block(t, env@));
        i = i + 1;
    }
    assert(keys.deep_view().take(keys.len() as int) =~= keys.deep_view());
}

/// What a dry run of a task shows.
pub open spec fn task_dry_run_text(
    name: Seq<char>,
    project_name: Seq<char>,
    workdir: Seq<char>,
    env: Map<Seq<char>, String>,
    env_keys: Seq<Seq<char>>,
    missing: Seq<(Seq<char>, EnvVarModel)>,
    invalid: Seq<(Seq<char>, Seq<char>, Seq<Seq<char>>)>,
    preconditions: Seq<ConditionSpec>,
    cmds: Seq<Seq<char>>,
    on_failure: Option<Seq<Seq<char>>>,
) -> Seq<char> {
    "[dry-run] Task: "@ + name + "\n[dry-run] Project: "@ + project_name
        + "\n[dry-run] Working directory: "@ + workdir + "\n"@ + env_issues_text(missing, invalid)
        + (if env_keys.len() > 0 {
        "[dry-run] Environment:\n"@ + env_block(ordered(env_keys), env)
    } else {
        Seq::empty()
    }) + (if preconditions.len() > 0 {
        "[dry-run] Preconditions:\n"@ + condition_lines(preconditions, env)
    } else {
        Seq::empty()
    }) + "[dry-run] Commands:\n"@ + command_lines(cmds, env) + match on_failure {
        Some(fc) => if fc.len() > 0 {
            "[dry-run] On failure:\n"@ + command_lines(fc, env)
        } else {
            Seq::empty()
        },
        None => Seq::empty(),
    }
}

/// The text of [`format_task_dry_run`] before secrets are masked.
fn format_task_dry_run_clear(
    name: &str,
    project_name: &str,
    workdir: &str,
    env: &ResolvedEnv,
    missing: &[MissingVar],
    invalid_choices: &[InvalidChoice],
    preconditions: &[ConditionSpec],
    cmds: &Vec<String>,
    on_failure_cmds: Option<&Vec<String>>,
) -> (r: String)
    ensures
        r@ == task_dry_run_text(
            name@,
            project_name@,
            workdir@,
            env@,
            env.key_seq(),
            views(missing@),
            views(invalid_choices@),
            preconditions@,
            cmds.deep_view(),
            match on_failure_cmds {
                Some(c) => Some(c.deep_view()),
                None => None,
            },
        ),
{
    let a = concat("[dry-run] Task: ", name);
    let b = concat(a.as_str(), "\n[dry-run] Project: ");
    let c = concat(b.as_str(), project_name);
    let d = concat(c.as_str(), "\n[dry-run] Working directory: ");
    let e = concat(d.as_str(), workdir);
    let f = concat(e.as_str(), "\n");
    let issues = format_env_issues(missing, invalid_choices);
    let mut out = concat(f.as_str(), issues.as_str());
    let ghost s1 = out@;
    if env.len() > 0 {
        out = concat(out.as_str(), "[dry-run] Environment:\n");
        push_env_block(&mut out, env);
    }
    let ghost s2 = out@;
    if preconditions.len() > 0 {
        out = concat(out.as_str(), "[dry-run] Preconditions:\n");
        let ghost head = out@;
        let mut i: usize = 0;
        while i < preconditions.len()
            invariant
                0 <= i <= preconditions.len(),
                out@ == head + condition_lines(preconditions@.take(i as int), env@),
            decreases preconditions.len() - i,
        {
            assert(preconditions@.take(i + 1).drop_last() =~= preconditions@.take(i as int));
            push_numbered(&mut out, &preconditions[i].cmds, i + 1, env);
            i = i + 1;
        }
        assert(preconditions@.take(preconditions.len() as int) =~= preconditions@);
    }
    let ghost s3 = out@;
    out = concat(out.as_str(), "[dry-run] Commands:\n");
    push_commands(&mut out, cmds, env);
    let ghost s4 = out@;
    match on_failure_cmds {
        Some(fc) => {
            if fc.len() > 0 {
                out = concat(out.as_str(), "[dry-run] On failure:\n");
                push_commands(&mut out, fc, env);
            }
        },
        None => {},
    }
    proof {
        reveal_strlit("");
    }
    assert(out@ =~= task_dry_run_text(
        name@,
        project_name@,
        workdir@,
        env@,
        env.key_seq(),
        views(missing@),
        views(invalid_choices@),
        preconditions@,
        cmds.deep_view(),
        match on_failure_cmds {
            Some(c) => Some(c.deep_view()),
            None => None,
        },
    ));
    out
}

/// Formats what a dry run of a task shows: the task, project and working directory, the
/// problems with its variables, its variables, its preconditions, commands and failure
/// commands, each command with what it becomes; the non-empty value of every secret of
/// `secrets` is shown as `***`.
pub fn format_task_dry_run(
    name: &str,
    project_name: &str,
    workdir: &str,
    env: &ResolvedEnv,
    missing: &[MissingVar],
    invalid_choices: &[InvalidChoice],
    preconditions: &[ConditionSpec],
    cmds: &Vec<String>,
    on_failure_cmds: Option<&Vec<String>>,
    secrets: &Vec<String>,
) -> (r: String)
    ensures
        r@ == masked(
            task_dry_run_text(
                name@,
                project_name@,
                workdir@,
                env@,
                env.key_seq(),
                views(missing@),
                views(invalid_choices@),
                preconditions@,
                cmds.deep_view(),
                match on_failure_cmds {
                    Some(c) => Some(c.deep_view()),
                    None => None,
                },
            ),
            env@,
            secrets.deep_view(),
        ),
{
    let text = format_task_dry_run_clear(name, project_name, workdir, env, missing, invalid_choices, preconditions, cmds, on_failure_cmds);
    mask_secrets(text.as_str(), env, secrets)
}

/// The outcome of a task: the exit code of its failing command (0 when none failed), and
/// the output captured from its commands and failure commands.
#[derive(Debug)]
pub struct TaskRunResult {
    pub exit_code: i32,
    pub output: String,
}

/// The outcome of one command: exit code, success, captured standard output and error.
pub open spec fn result_view(r: CommandResult) -> (i32, bool, Seq<char>, Seq<char>) {
    (r.exit_code, r.success, r.stdout@, r.stderr@)
}

/// Whether some command of a batch failed.
pub open spec fn batch_failed(rs: Seq<(i32, bool, Seq<char>, Seq<char>)>) -> bool {
    exists|i: int| 0 <= i < rs.len() && !(#[trigger] rs[i]).1
}

/// The exit code left by a batch: that of its last failing command, else `code`.
pub open spec fn batch_exit(rs: Seq<(i32, bool, Seq<char>, Seq<char>)>, code: i32) -> i32
    decreases rs.len(),
{
    if rs.len() == 0 {
        code
    } else if !rs.last().1 {
        rs.last().0
    } else {
        batch_exit(rs.drop_last(), code)
    }
}

/// The output captured by a batch: each command's standard output, then its standard error.
pub open spec fn batch_output(rs: Seq<(i32, bool, Seq<char>, Seq<char>)>) -> Seq<char>
    decreases rs.len(),
{
    if rs.len() == 0 {
        Seq::empty()
    } else {
        batch_output(rs.drop_last()) + rs.last().2 + rs.last().3
    }
}

/// Where a task run stands.
pub enum TaskPhase {
    /// Running the commands of precondition `i`.
    Condition(usize),
    /// Running the failure commands of precondition `i`.
    ConditionPolicy(usize),
    /// Running the task's commands.
    Commands,
    /// Running the task's failure commands.
    FailurePolicy,
    /// Finished.
    Done,
}

/// What a task run asks for next.
pub enum TaskStep {
    /// Print `note` if there is one, run `cmds` in order until one fails, and report their
    /// results.
    Run { cmds: Vec<String>, note: Option<String> },
    /// The task ran.
    Finished(TaskRunResult),
    /// A precondition failed.
    Failed(MeriadocError),
}

/// The mathematical content of a [`TaskStep`].
pub enum TaskStepModel {
    Run { cmds: Seq<Seq<char>>, note: Option<Seq<char>> },
    Finished { exit_code: i32, output: Seq<char> },
    Failed { entity: Seq<char>, message: Seq<char> },
}

/// The model of a task step; `None` for an error other than a failed precondition.
pub open spec fn task_step_view(s: TaskStep) -> Option<TaskStepModel> {
    match s {
        TaskStep::Run { cmds, note } => Some(
            TaskStepModel::Run {
                cmds: cmds.deep_view(),
                note: match note {
                    Some(n) => Some(n@),
                    None => None,
                },
            },
        ),
        TaskStep::Finished(r) => Some(TaskStepModel::Finished { exit_code: r.exit_code, output: r.output@ }),
        TaskStep::Failed(MeriadocError::PreconditionFailed { entity, message }) => Some(
            TaskStepModel::Failed { entity: entity@, message: message@ },
        ),
        TaskStep::Failed(_) => None,
    }
}

/// The failed precondition of task `name`.
pub open spec fn precondition_failure(name: Seq<char>) -> TaskStepModel {
    TaskStepModel::Failed { entity: "task '"@ + name + "'"@, message: "precondition command failed"@ }
}

/// What a task run does from precondition `j` on.
pub open spec fn from_condition(
    name: Seq<char>,
    conds: Seq<ConditionSpec>,
    cmds: Seq<Seq<char>>,
    j: int,
) -> (TaskPhase, TaskStepModel) {
    if j < conds.len() {
        (TaskPhase::Condition(j as usize), TaskStepModel::Run { cmds: conds[j].cmds.deep_view(), note: None })
    } else {
        (TaskPhase::Commands, TaskStepModel::Run { cmds, note: Some("Running task: "@ + name) })
    }
}

/// A task run's next phase and step after a batch `rs` in `phase`, with the output and
/// exit code so far.
pub open spec fn task_transition(
    name: Seq<char>,
    conds: Seq<ConditionSpec>,
    cmds: Seq<Seq<char>>,
    on_failure: Option<FailurePolicySpec>,
    phase: TaskPhase,
    output: Seq<char>,
    exit_code: i32,
    rs: Seq<(i32, bool, Seq<char>, Seq<char>)>,
) -> (TaskPhase, Seq<char>, i32, TaskStepModel) {
    match phase {
        TaskPhase::Condition(i) => if !batch_failed(rs) {
            let (p, s) = from_condition(name, conds, cmds, i + 1);
            (p, output, exit_code, s)
        } else {
            match conds[i as int].on_failure {
                Some(pol) => if pol.cmds@.len() > 0 {
                    (
                        TaskPhase::ConditionPolicy(i),
                        output,
                        exit_code,
                        TaskStepModel::Run { cmds: pol.cmds.deep_view(), note: None },
                    )
                } else if pol.continues {
                    let (p, s) = from_condition(name, conds, cmds, i + 1);
                    (p, output, exit_code, s)
                } else {
                    (TaskPhase::Done, output, exit_code, precondition_failure(name))
                },
                None => (TaskPhase::Done, output, exit_code, precondition_failure(name)),
            }
        },
        TaskPhase::ConditionPolicy(i) => match conds[i as int].on_failure {
            Some(pol) => if pol.continues {
                let (p, s) = from_condition(name, conds, cmds, i + 1);
                (p, output, exit_code, s)
            } else {
                (TaskPhase::Done, output, exit_code, precondition_failure(name))
            },
            None => (TaskPhase::Done, output, exit_code, precondition_failure(name)),
        },
        TaskPhase::Commands => {
            let out = output + batch_output(rs);
            let code = batch_exit(rs, 0);
            match on_failure {
                Some(pol) => if code != 0 && pol.cmds@.len() > 0 {
                    (
                        TaskPhase::FailurePolicy,
                        out,
                        code,
                        TaskStepModel::Run { cmds: pol.cmds.deep_view(), note: None },
                    )
                } else {
                    (TaskPhase::Done, out, code, TaskStepModel::Finished { exit_code: code, output: out })
                },
                None => (TaskPhase::Done, out, code, TaskStepModel::Finished { exit_code: code, output: out }),
            }
        },
        TaskPhase::FailurePolicy => {
            let out = output + batch_output(rs);
            (TaskPhase::Done, out, exit_code, TaskStepModel::Finished { exit_code, output: out })
        },
        TaskPhase::Done => (
            TaskPhase::Done,
            output,
            exit_code,
            TaskStepModel::Finished { exit_code, output },
        ),
    }
}

/// The results of a batch, as values.
pub open spec fn results_view(rs: Seq<CommandResult>) -> Seq<(i32, bool, Seq<char>, Seq<char>)> {
    rs.map_values(|r: CommandResult| result_view(r))
}

fn any_failed(results: &[CommandResult]) -> (r: bool)
    ensures
        r == batch_failed(results_view(results@)),
{
    let ghost rv = results_view(results@);
    let mut i: usize = 0;
    while i < results.len()
        invariant
            0 <= i <= results.len(),
            rv == results_view(results@),
            forall|j: int| 0 <= j < i ==> (#[trigger] rv[j]).1,
        decreases results.len() - i,
    {
        if !results[i].success {
            assert(!rv[i as int].1);
            return true;
        }
        i = i + 1;
    }
    false
}

fn exit_after(results: &[CommandResult], code: i32) -> (r: i32)
    ensures
        r == batch_exit(results_view(results@), code),
{
    let mut c = code;
    let mut i: usize = 0;
    while i < results.len()
        invariant
            0 <= i <= results.len(),
            c == batch_exit(results_view(results@).take(i as int), code),
        decreases results.len() - i,
    {
        assert(results_view(results@).take(i + 1).drop_last() =~= results_view(results@).take(i as int));
        if !results[i].success {
            c = results[i].exit_code;
        }
        i = i + 1;
    }
    assert(results_view(results@).take(results.len() as int) =~= results_view(results@));
    c
}

fn output_of(results: &[CommandResult]) -> (r: String)
    ensures
        r@ == batch_output(results_view(results@)),
{
    let mut out = String::new();
    let mut i: usize = 0;
    while i < results.len()
        invariant
            0 <= i <= results.len(),
            out@ == batch_output(results_view(results@).take(i as int)),
        decreases results.len() - i,
    {
        assert(results_view(results@).take(i + 1).drop_last() =~= results_view(results@).take(i as int));
        let a = concat(out.as_str(), results[i].stdout.as_str());
        out = concat(a.as_str(), results[i].stderr.as_str());
        i = i + 1;
    }
    assert(results_view(results@).take(results.len() as int) =~= results_view(results@));
    out
}

/// A task being run: preconditions first, then its commands, then its failure commands when
/// it failed. It says which commands to run next and takes their results, so that whatever
/// runs commands can drive it.
pub struct TaskRun<'a> {
    name: String,
    task: &'a TaskSpec,
    phase: TaskPhase,
    output: String,
    exit_code: i32,
}

impl<'a> TaskRun<'a> {
    /// The task run.
    pub closed spec fn spec_task(&self) -> TaskSpec {
        *self.task
    }

    /// The task's name.
    pub closed spec fn spec_name(&self) -> Seq<char> {
        self.name@
    }

    /// Whether a precondition being run is one of the task's.
    pub closed spec fn wf(&self) -> bool {
        match self.phase {
            TaskPhase::Condition(i) => i < self.task.preconditions@.len(),
            TaskPhase::ConditionPolicy(i) => i < self.task.preconditions@.len(),
            _ => true,
        }
    }

    /// Where the run stands, the output so far and the exit code so far.
    pub closed spec fn state(&self) -> (TaskPhase, Seq<char>, i32) {
        (self.phase, self.output@, self.exit_code)
    }

    fn run_step(cmds: &Vec<String>, note: Option<String>) -> (r: TaskStep)
        ensures
            task_step_view(r) == Some(
                TaskStepModel::Run {
                    cmds: cmds.deep_view(),
                    note: match note {
                        Some(n) => Some(n@),
                        None => None,
                    },
                },
            ),
    {
        TaskStep::Run { cmds: clone_strings(cmds), note }
    }

    fn failed_step(name: &str) -> (r: TaskStep)
        ensures
            task_step_view(r) == Some(precondition_failure(name@)),
    {
        let a = concat("task '", name);
        let entity = concat(a.as_str(), "'");
        TaskStep::Failed(
            MeriadocError::PreconditionFailed {
                entity,
                message: owned("precondition command failed"),
            },
        )
    }

    fn from_condition_exec(&mut self, j: usize) -> (r: TaskStep)
        ensures
            final(self).wf(),
            final(self).spec_task() == old(self).spec_task(),
            final(self).spec_name() == old(self).spec_name(),
            final(self).state().1 == old(self).state().1,
            final(self).state().2 == old(self).state().2,
            ({
                let (p, s) = from_condition(
                    old(self).spec_name(),
                    old(self).spec_task().preconditions@,
                    old(self).spec_task().cmds.deep_view(),
                    j as int,
                );
                final(self).state().0 == p && task_step_view(r) == Some(s)
            }),
    {
        if j < self.task.preconditions.len() {
            self.phase = TaskPhase::Condition(j);
            Self::run_step(&self.task.preconditions[j].cmds, None)
        } else {
            self.phase = TaskPhase::Commands;
            let note = concat("Running task: ", self.name.as_str());
            Self::run_step(&self.task.cmds, Some(note))
        }
    }

    /// Starts running `task`: its first precondition, or its commands when it has none.
    pub fn start(name: &str, task: &'a TaskSpec) -> (r: (TaskRun<'a>, TaskStep))
        ensures
            r.0.wf(),
            r.0.spec_task() == *task,
            r.0.spec_name() == name@,
            ({
                let (p, s) = from_condition(name@, task.preconditions@, task.cmds.deep_view(), 0);
                r.0.state() == (p, Seq::<char>::empty(), 0i32) && task_step_view(r.1) == Some(s)
            }),
    {
        let mut run = TaskRun {
            name: owned(name),
            task,
            phase: TaskPhase::Done,
            output: String::new(),
            exit_code: 0,
        };
        let step = run.from_condition_exec(0);
        (run, step)
    }

    /// Takes the results of the commands asked for last, and says what comes next.
    pub fn report(&mut self, results: &[CommandResult]) -> (r: TaskStep)
        requires
            old(self).wf(),
        ensures
            final(self).wf(),
            final(self).spec_task() == old(self).spec_task(),
            final(self).spec_name() == old(self).spec_name(),
            ({
                let (p, o, c, s) = task_transition(
                    old(self).spec_name(),
                    old(self).spec_task().preconditions@,
                    old(self).spec_task().cmds.deep_view(),
                    old(self).spec_task().on_failure,
                    old(self).state().0,
                    old(self).state().1,
                    old(self).state().2,
                    results_view(results@),
                );
                final(self).state() == (p, o, c) && task_step_view(r) == Some(s)
            }),
    {
        let _count = self.task.preconditions.len();
        match self.phase {
            TaskPhase::Condition(i) => {
                if !any_failed(results) {
                    return self.from_condition_exec(i + 1);
                }
                match &self.task.preconditions[i].on_failure {
                    Some(pol) => {
                        if pol.cmds.len() > 0 {
                            self.phase = TaskPhase::ConditionPolicy(i);
                            Self::run_step(&pol.cmds, None)
                        } else if pol.continues {
                            self.from_condition_exec(i + 1)
                        } else {
                            self.phase = TaskPhase::Done;
                            Self::failed_step(self.name.as_str())
                        }
                    },
                    None => {
                        self.phase = TaskPhase::Done;
                        Self::failed_step(self.name.as_str())
                    },
                }
            },
            TaskPhase::ConditionPolicy(i) => {
                match &self.task.preconditions[i].on_failure {
                    Some(pol) => {
                        if pol.continues {
                            self.from_condition_exec(i + 1)
                        } else {
                            self.phase = TaskPhase::Done;
                            Self::failed_step(self.name.as_str())
                        }
                    },
                    None => {
                        self.phase = TaskPhase::Done;
                        Self::failed_step(self.name.as_str())
                    },
                }
            },
            TaskPhase::Commands => {
                let more = output_of(results);
                self.output = concat(self.output.as_str(), more.as_str());
                let code = exit_after(results, 0);
                self.exit_code = code;
                match &self.task.on_failure {
                    Some(pol) => {
                        if code != 0 && pol.cmds.len() > 0 {
                            self.phase = TaskPhase::FailurePolicy;
                            return Self::run_step(&pol.cmds, None);
                        }
                    },
                    None => {},
                }
                self.phase = TaskPhase::Done;
                TaskStep::Finished(TaskRunResult { exit_code: code, output: self.output.clone() })
            },
            TaskPhase::FailurePolicy => {
                let more = output_of(results);
                self.output = concat(self.output.as_str(), more.as_str());
                self.phase = TaskPhase::Done;
                TaskStep::Finished(
                    TaskRunResult { exit_code: self.exit_code, output: self.output.clone() },
                )
            },
            TaskPhase::Done => TaskStep::Finished(
                TaskRunResult { exit_code: self.exit_code, output: self.output.clone() },
            ),
        }
    }
}

/// The exit code of the first failing command of a batch, if one failed.
pub open spec fn first_failure(rs: Seq<(i32, bool, Seq<char>, Seq<char>)>) -> Option<i32>
    decreases rs.len(),
{
    if rs.len() == 0 {
        None
    } else if !rs[0].1 {
        Some(rs[0].0)
    } else {
        first_failure(rs.drop_first())
    }
}

fn first_failure_exec(results: &[CommandResult]) -> (r: Option<i32>)
    ensures
        r == first_failure(results_view(results@)),
{
    let ghost rv = results_view(results@);
    let mut i: usize = 0;
    assert(rv.skip(0) =~= rv);
    while i < results.len()
        invariant
            0 <= i <= results.len(),
            rv == results_view(results@),
            first_failure(rv) == first_failure(rv.skip(i as int)),
        decreases results.len() - i,
    {
        assert(rv.skip(i as int)[0] == rv[i as int]);
        assert(rv.skip(i as int).drop_first() =~= rv.skip(i + 1));
        if !results[i].success {
            return Some(results[i].exit_code);
        }
        i = i + 1;
    }
    None
}

/// Where a job run stands.
pub enum JobPhase {
    /// Running task `i` of the job.
    Task(usize),
    /// Running the job's failure commands after task `i` failed with `code`.
    Policy(usize, i32),
    /// Finished.
    Done,
}

/// What a job run asks for next.
pub enum JobStep<'a> {
    /// Print `note`, then run the commands of task `index` (named `name`) in the environment
    /// of that task, and report their results.
    RunTask { index: usize, name: String, task: &'a TaskSpec, note: String },
    /// Run the job's failure commands and report.
    RunPolicy(Vec<String>),
    /// The job ended with this exit code; print `note` if there is one.
    Finished { exit_code: i32, note: Option<String> },
    /// A task of the job is not in its spec file.
    Failed(MeriadocError),
}

/// The mathematical content of a [`JobStep`].
pub enum JobStepModel {
    RunTask { index: int, name: Seq<char>, task: TaskSpec, note: Seq<char> },
    RunPolicy(Seq<Seq<char>>),
    Finished { exit_code: i32, note: Option<Seq<char>> },
    Failed { kind: Seq<char>, name: Seq<char> },
}

/// The model of a job step; `None` for an error other than a missing task.
pub open spec fn job_step_view(s: JobStep) -> Option<JobStepModel> {
    match s {
        JobStep::RunTask { index, name, task, note } => Some(
            JobStepModel::RunTask { index: index as int, name: name@, task: *task, note: note@ },
        ),
        JobStep::RunPolicy(c) => Some(JobStepModel::RunPolicy(c.deep_view())),
        JobStep::Finished { exit_code, note } => Some(
            JobStepModel::Finished {
                exit_code,
                note: match note {
                    Some(n) => Some(n@),
                    None => None,
                },
            },
        ),
        JobStep::Failed(MeriadocError::EntityNotFound { kind, name }) => Some(
            JobStepModel::Failed { kind: kind@, name: name@ },
        ),
        JobStep::Failed(_) => None,
    }
}

/// What a job run does from task `i` on.
pub open spec fn job_from(
    name: Seq<char>,
    job: JobSpec,
    tasks: Map<Seq<char>, TaskSpec>,
    i: int,
) -> (JobPhase, JobStepModel) {
    if i < job.tasks@.len() {
        let t = job.tasks@[i]@;
        if tasks.dom().contains(t) {
            (
                JobPhase::Task(i as usize),
                JobStepModel::RunTask { index: i, name: t, task: tasks[t], note: "  Running task: "@ + t },
            )
        } else {
            (JobPhase::Done, JobStepModel::Failed { kind: "task"@, name: t })
        }
    } else {
        (
            JobPhase::Done,
            JobStepModel::Finished { exit_code: 0, note: Some("Job completed successfully: "@ + name) },
        )
    }
}

/// A job run's next phase and step after a batch `rs` in `phase`.
pub open spec fn job_transition(
    name: Seq<char>,
    job: JobSpec,
    tasks: Map<Seq<char>, TaskSpec>,
    phase: JobPhase,
    rs: Seq<(i32, bool, Seq<char>, Seq<char>)>,
) -> (JobPhase, JobStepModel) {
    match phase {
        JobPhase::Task(i) => match first_failure(rs) {
            None => job_from(name, job, tasks, i + 1),
            Some(code) => match job.on_failure {
                Some(pol) => if pol.cmds@.len() > 0 {
                    (JobPhase::Policy(i, code), JobStepModel::RunPolicy(pol.cmds.deep_view()))
                } else if pol.continues {
                    job_from(name, job, tasks, i + 1)
                } else {
                    (JobPhase::Done, JobStepModel::Finished { exit_code: code, note: None })
                },
                None => (JobPhase::Done, JobStepModel::Finished { exit_code: code, note: None }),
            },
        },
        JobPhase::Policy(i, code) => match job.on_failure {
            Some(pol) => if pol.continues {
                job_from(name, job, tasks, i + 1)
            } else {
                (JobPhase::Done, JobStepModel::Finished { exit_code: code, note: None })
            },
            None => (JobPhase::Done, JobStepModel::Finished { exit_code: code, note: None }),
        },
        JobPhase::Done => (JobPhase::Done, JobStepModel::Finished { exit_code: 0, note: None }),
    }
}

/// A job being run, task after task, each in its own environment; the job's failure
/// commands run after a task fails. It says what to run next and takes the results.
pub struct JobRun<'a> {
    name: String,
    job: &'a JobSpec,
    tasks: &'a StrMap<TaskSpec>,
    phase: JobPhase,
}

impl<'a> JobRun<'a> {
    /// The job's name.
    pub closed spec fn spec_name(&self) -> Seq<char> {
        self.name@
    }

    /// The job run.
    pub closed spec fn spec_job(&self) -> JobSpec {
        *self.job
    }

    /// The tasks of the job's spec file.
    pub closed spec fn spec_tasks(&self) -> Map<Seq<char>, TaskSpec> {
        self.tasks@
    }

    /// Where the run stands.
    pub closed spec fn phase(&self) -> JobPhase {
        self.phase
    }

    fn go_to(&mut self, i: usize) -> (r: JobStep<'a>)
        ensures
            final(self).spec_name() == old(self).spec_name(),
            final(self).spec_job() == old(self).spec_job(),
            final(self).spec_tasks() == old(self).spec_tasks(),
            ({
                let (p, s) = job_from(old(self).spec_name(), old(self).spec_job(), old(self).spec_tasks(), i as int);
                final(self).phase() == p && job_step_view(r) == Some(s)
            }),
    {
        if i < self.job.tasks.len() {
            let t = &self.job.tasks[i];
            match self.tasks.get(t.as_str()) {
                Some(task) => {
                    self.phase = JobPhase::Task(i);
                    let note = concat("  Running task: ", t.as_str());
                    JobStep::RunTask { index: i, name: t.clone(), task, note }
                },
                None => {
                    self.phase = JobPhase::Done;
                    JobStep::Failed(MeriadocError::EntityNotFound { kind: owned("task"), name: t.clone() })
                },
            }
        } else {
            self.phase = JobPhase::Done;
            let note = concat("Job completed successfully: ", self.name.as_str());
            JobStep::Finished { exit_code: 0, note: Some(note) }
        }
    }

    /// Starts running `job`, whose tasks are those of `tasks`: the line announcing it, and its
    /// first step.
    pub fn start(name: &str, job: &'a JobSpec, tasks: &'a StrMap<TaskSpec>) -> (r: (
        JobRun<'a>,
        String,
        JobStep<'a>,
    ))
        ensures
            r.0.spec_name() == name@,
            r.0.spec_job() == *job,
            r.0.spec_tasks() == tasks@,
            r.1@ == "Running job: "@ + name@ + " ("@ + decimal(job.tasks@.len()) + " tasks)"@,
            ({
                let (p, s) = job_from(name@, *job, tasks@, 0);
                r.0.phase() == p && job_step_view(r.2) == Some(s)
            }),
    {
        let mut run = JobRun { name: owned(name), job, tasks, phase: JobPhase::Done };
        let n = decimal_string(job.tasks.len() as u64);
        let a = concat("Running job: ", name);
        let b = concat(a.as_str(), " (");
        let c = concat(b.as_str(), n.as_str());
        let header = concat(c.as_str(), " tasks)");
        let step = run.go_to(0);
        (run, header, step)
    }

    /// Takes the results of the commands asked for last, and says what comes next.
    pub fn report(&mut self, results: &[CommandResult]) -> (r: JobStep<'a>)
        ensures
            final(self).spec_name() == old(self).spec_name(),
            final(self).spec_job() == old(self).spec_job(),
            final(self).spec_tasks() == old(self).spec_tasks(),
            ({
                let (p, s) = job_transition(
                    old(self).spec_name(),
                    old(self).spec_job(),
                    old(self).spec_tasks(),
                    old(self).phase(),
                    results_view(results@),
                );
                final(self).phase() == p && job_step_view(r) == Some(s)
            }),
    {
        let _count = self.job.tasks.len();
        match self.phase {
            JobPhase::Task(i) => match first_failure_exec(results) {
                None => if i < usize::MAX {
                    self.go_to(i + 1)
                } else {
                    self.go_to(i)
                },
                Some(code) => match &self.job.on_failure {
                    Some(pol) => {
                        if pol.cmds.len() > 0 {
                            self.phase = JobPhase::Policy(i, code);
                            JobStep::RunPolicy(clone_strings(&pol.cmds))
                        } else if pol.continues {
                            if i < usize::MAX {
                                self.go_to(i + 1)
                            } else {
                                self.go_to(i)
                            }
                        } else {
                            self.phase = JobPhase::Done;
                            JobStep::Finished { exit_code: code, note: None }
                        }
                    },
                    None => {
                        self.phase = JobPhase::Done;
                        JobStep::Finished { exit_code: code, note: None }
                    },
                },
            },
            JobPhase::Policy(i, code) => match &self.job.on_failure {
                Some(pol) => {
                    if pol.continues {
                        if i < usize::MAX {
                            self.go_to(i + 1)
                        } else {
                            self.go_to(i)
                        }
                    } else {
                        self.phase = JobPhase::Done;
                        JobStep::Finished { exit_code: code, note: None }
                    }
                },
                None => {
                    self.phase = JobPhase::Done;
                    JobStep::Finished { exit_code: code, note: None }
                },
            },
            JobPhase::Done => JobStep::Finished { exit_code: 0, note: None },
        }
    }
}

/// The head of what a dry run of a job shows: the job, its project and tasks, the problems
/// with its variables, its variables and its failure commands.
pub open spec fn job_dry_run_head(
    name: Seq<char>,
    project_name: Seq<char>,
    tasks: Seq<Seq<char>>,
    env: Map<Seq<char>, String>,
    env_keys: Seq<Seq<char>>,
    missing: Seq<(Seq<char>, EnvVarModel)>,
    invalid: Seq<(Seq<char>, Seq<char>, Seq<Seq<char>>)>,
    on_failure: Option<Seq<Seq<char>>>,
) -> Seq<char> {
    "[dry-run] Job: "@ + name + "\n[dry-run] Project: "@ + project_name + "\n[dry-run] Tasks: "@
        + join_with(tasks, " → "@) + "\n"@ + env_issues_text(missing, invalid) + (if env_keys.len()
        > 0 {
        "[dry-run] Job environment:\n"@ + env_block(ordered(env_keys), env)
    } else {
        Seq::empty()
    }) + match on_failure {
        Some(fc) => if fc.len() > 0 {
            "[dry-run] On failure:\n"@ + command_lines(fc, env)
        } else {
            Seq::empty()
        },
        None => Seq::empty(),
    }
}

/// The text of [`format_job_dry_run_head`] before secrets are masked.
fn format_job_dry_run_head_clear(
    name: &str,
    project_name: &str,
    job: &JobSpec,
    env: &ResolvedEnv,
    missing: &[MissingVar],
    invalid_choices: &[InvalidChoice],
) -> (r: String)
    ensures
        r@ == job_dry_run_head(
            name@,
            project_name@,
            job.tasks.deep_view(),
            env@,
            env.key_seq(),
            views(missing@),
            views(invalid_choices@),
            match job.on_failure {
                Some(p) => Some(p.cmds.deep_view()),
                None => None,
            },
        ),
{
    let a = concat("[dry-run] Job: ", name);
    let b = concat(a.as_str(), "\n[dry-run] Project: ");
    let c = concat(b.as_str(), project_name);
    let d = concat(c.as_str(), "\n[dry-run] Tasks: ");
    let tasks = join_strings(&job.tasks, " → ");
    let e = concat(d.as_str(), tasks.as_str());
    let f = concat(e.as_str(), "\n");
    let issues = format_env_issues(missing, invalid_choices);
    let mut out = concat(f.as_str(), issues.as_str());
    if env.len() > 0 {
        out = concat(out.as_str(), "[dry-run] Job environment:\n");
        push_env_block(&mut out, env);
    }
    match &job.on_failure {
        Some(pol) => {
            if pol.cmds.len() > 0 {
                out = concat(out.as_str(), "[dry-run] On failure:\n");
                push_commands(&mut out, &pol.cmds, env);
            }
        },
        None => {},
    }
    proof {
        reveal_strlit("");
    }
    assert(out@ =~= job_dry_run_head(
        name@,
        project_name@,
        job.tasks.deep_view(),
        env@,
        env.key_seq(),
        views(missing@),
        views(invalid_choices@),
        match job.on_failure {
            Some(p) => Some(p.cmds.deep_view()),
            None => None,
        },
    ));
    out
}

/// Formats the head of a job's dry run; the non-empty value of every secret of `secrets` is
/// shown as `***`.
pub fn format_job_dry_run_head(
    name: &str,
    project_name: &str,
    job: &JobSpec,
    env: &ResolvedEnv,
    missing: &[MissingVar],
    invalid_choices: &[InvalidChoice],
    secrets: &Vec<String>,
) -> (r: String)
    ensures
        r@ == masked(
            job_dry_run_head(
                name@,
                project_name@,
                job.tasks.deep_view(),
                env@,
                env.key_seq(),
                views(missing@),
                views(invalid_choices@),
                match job.on_failure {
                    Some(p) => Some(p.cmds.deep_view()),
                    None => None,
                },
            ),
            env@,
            secrets.deep_view(),
        ),
{
    let text = format_job_dry_run_head_clear(name, project_name, job, env, missing, invalid_choices);
    mask_secrets(text.as_str(), env, secrets)
}

/// What a job's dry run shows of its task number `index` (from 1) of `count`.
pub open spec fn job_dry_run_task(
    index: nat,
    count: nat,
    task_name: Seq<char>,
    cmds: Seq<Seq<char>>,
    env: Map<Seq<char>, String>,
) -> Seq<char> {
    "\n[dry-run] Task "@ + decimal(index) + "/"@ + decimal(count) + ": "@ + task_name
        + "\n[dry-run] Commands:\n"@ + command_lines(cmds, env)
}

/// The text of [`format_job_dry_run_task`] before secrets are masked.
fn format_job_dry_run_task_clear(
    index: usize,
    count: usize,
    task_name: &str,
    cmds: &Vec<String>,
    env: &ResolvedEnv,
) -> (r: String)
    ensures
        r@ == job_dry_run_task(index as nat, count as nat, task_name@, cmds.deep_view(), env@),
{
    let i = decimal_string(index as u64);
    let n = decimal_string(count as u64);
    let a = concat("\n[dry-run] Task ", i.as_str());
    let b = concat(a.as_str(), "/");
    let c = concat(b.as_str(), n.as_str());
    let d = concat(c.as_str(), ": ");
    let e = concat(d.as_str(), task_name);
    let mut out = concat(e.as_str(), "\n[dry-run] Commands:\n");
    push_commands(&mut out, cmds, env);
    out
}

/// Formats what a job's dry run shows of one of its tasks; the non-empty value of every secret
/// of `secrets` is shown as `***`.
pub fn format_job_dry_run_task(
    index: usize,
    count: usize,
    task_name: &str,
    cmds: &Vec<String>,
    env: &ResolvedEnv,
    secrets: &Vec<String>,
) -> (r: String)
    ensures
        r@ == masked(
            job_dry_run_task(index as nat, count as nat, task_name@, cmds.deep_view(), env@),
            env@,
            secrets.deep_view(),
        ),
{
    let text = format_job_dry_run_task_clear(index, count, task_name, cmds, env);
    mask_secrets(text.as_str(), env, secrets)
}

/// What a dry run of a shell shows.
pub open spec fn shell_dry_run_text(
    name: Seq<char>,
    project_name: Seq<char>,
    workdir: Seq<char>,
    program: Seq<char>,
    env: Map<Seq<char>, String>,
    env_keys: Seq<Seq<char>>,
    missing: Seq<(Seq<char>, EnvVarModel)>,
    invalid: Seq<(Seq<char>, Seq<char>, Seq<Seq<char>>)>,
    init_cmds: Seq<Seq<char>>,
) -> Seq<char> {
    "[dry-run] Shell: "@ + name + "\n[dry-run] Project: "@ + project_name
        + "\n[dry-run] Working directory: "@ + workdir + "\n[dry-run] Shell program: "@ + program
        + "\n"@ + env_issues_text(missing, invalid) + (if env_keys.len() > 0 {
        "[dry-run] Environment:\n"@ + env_block(ordered(env_keys), env)
    } else {
        Seq::empty()
    }) + (if init_cmds.len() > 0 {
        "[dry-run] Init commands:\n"@ + command_lines(init_cmds, env)
    } else {
        Seq::empty()
    }) + "[dry-run] Would start interactive "@ + program + " session\n"@
}

/// The text of [`format_shell_dry_run`] before secrets are masked.
fn format_shell_dry_run_clear(
    name: &str,
    project_name: &str,
    workdir: &str,
    program: &str,
    env: &ResolvedEnv,
    missing: &[MissingVar],
    invalid_choices: &[InvalidChoice],
    init_cmds: &Vec<String>,
) -> (r: String)
    ensures
        r@ == shell_dry_run_text(
            name@,
            project_name@,
            workdir@,
            program@,
            env@,
            env.key_seq(),
            views(missing@),
            views(invalid_choices@),
            init_cmds.deep_view(),
        ),
{
    let a = concat("[dry-run] Shell: ", name);
    let b = concat(a.as_str(), "\n[dry-run] Project: ");
    let c = concat(b.as_str(), project_name);
    let d = concat(c.as_str(), "\n[dry-run] Working directory: ");
    let e = concat(d.as_str(), workdir);
    let f = concat(e.as_str(), "\n[dry-run] Shell program: ");
    let g = concat(f.as_str(), program);
    let h = concat(g.as_str(), "\n");
    let issues = format_env_issues(missing, invalid_choices);
    let mut out = concat(h.as_str(), issues.as_str());
    if env.len() > 0 {
        out = concat(out.as_str(), "[dry-run] Environment:\n");
        push_env_block(&mut out, env);
    }
    if init_cmds.len() > 0 {
        out = concat(out.as_str(), "[dry-run] Init commands:\n");
        push_commands(&mut out, init_cmds, env);
    }
    let x = concat(out.as_str(), "[dry-run] Would start interactive ");
    let y = concat(x.as_str(), program);
    let r = concat(y.as_str(), " session\n");
    proof {
        reveal_strlit("");
    }
    assert(r@ =~= shell_dry_run_text(
        name@,
        project_name@,
        workdir@,
        program@,
        env@,
        env.key_seq(),
        views(missing@),
        views(invalid_choices@),
        init_cmds.deep_view(),
    ));
    r
}

/// Formats what a dry run of a shell shows; the non-empty value of every secret of `secrets`
/// is shown as `***`.
pub fn format_shell_dry_run(
    name: &str,
    project_name: &str,
    workdir: &str,
    program: &str,
    env: &ResolvedEnv,
    missing: &[MissingVar],
    invalid_choices: &[InvalidChoice],
    init_cmds: &Vec<String>,
    secrets: &Vec<String>,
) -> (r: String)
    ensures
        r@ == masked(
            shell_dry_run_text(
                name@,
                project_name@,
                workdir@,
                program@,
                env@,
                env.key_seq(),
                views(missing@),
                views(invalid_choices@),
                init_cmds.deep_view(),
            ),
            env@,
            secrets.deep_view(),
        ),
{
    let text = format_shell_dry_run_clear(name, project_name, workdir, program, env, missing, invalid_choices, init_cmds);
    mask_secrets(text.as_str(), env, secrets)
}

/// The decimal notation of a signed number.
pub open spec fn signed_decimal(n: int) -> Seq<char> {
    if n < 0 {
        "-"@ + decimal((-n) as nat)
    } else {
        decimal(n as nat)
    }
}

/// A signed number in decimal, as `to_string` writes it.
pub fn signed_string(n: i32) -> (r: String)
    ensures
        r@ == signed_decimal(n as int),
{
    if n < 0 {
        let m: u64 = (0i64 - (n as i64)) as u64;
        let d = decimal_string(m);
        concat("-", d.as_str())
    } else {
        decimal_string(n as u64)
    }
}

/// What an agent is told after a task ran: its output, ended by a newline, then whether it
/// succeeded or with which exit code it failed.
pub open spec fn run_response_text(name: Seq<char>, exit_code: i32, output: Seq<char>) -> Seq<char> {
    (if output.len() == 0 {
        Seq::empty()
    } else if output.last() == '\n' {
        output
    } else {
        output + "\n"@
    }) + if exit_code == 0 {
        "[Task '"@ + name + "' completed successfully]"@
    } else {
        "[Task '"@ + name + "' failed with exit code "@ + signed_decimal(exit_code as int) + "]"@
    }
}

/// Formats what an agent is told after a task ran.
pub fn run_task_response(name: &str, result: &TaskRunResult) -> (r: String)
    ensures
        r@ == run_response_text(name@, result.exit_code, result.output@),
{
    let mut out = String::new();
    let cs = crate::text::str_chars(result.output.as_str());
    if cs.len() > 0 {
        out = concat(out.as_str(), result.output.as_str());
        if cs[cs.len() - 1] != '\n' {
            out = concat(out.as_str(), "\n");
        }
    }
    let a = concat(out.as_str(), "[Task '");
    let b = concat(a.as_str(), name);
    let r = if result.exit_code == 0 {
        concat(b.as_str(), "' completed successfully]")
    } else {
        let c = concat(b.as_str(), "' failed with exit code ");
        let n = signed_string(result.exit_code);
        let d = concat(c.as_str(), n.as_str());
        concat(d.as_str(), "]")
    };
    proof {
        reveal_strlit("");
    }
    assert(r@ =~= run_response_text(name@, result.exit_code, result.output@));
    r
}

impl RunActions {
    /// The environment of a task of a job: the task's own variables, the job's defaults over
    /// them, the command line's `KEY=VALUE` pairs over those, and the two special variables.
    pub fn job_task_env(
        task_env: ResolvedEnv,
        job_env: &StrMap<EnvVarSpec>,
        cli_env: &[(String, String)],
        project_root: &str,
        spec_file_dir: &str,
    ) -> (r: ResolvedEnv)
        ensures
            texts(r@) == texts(task_env@).union_prefer_right(defaults_of(job_env@)).union_prefer_right(
                pairs_map(cli_env@),
            ).insert("MERIADOC_PROJECT_ROOT"@, project_root@).insert(
                "MERIADOC_SPEC_DIR"@,
                spec_file_dir@,
            ),
    {
        let ghost base = texts(task_env@);
        let merged = EnvResolver::merge_job_env(task_env, job_env);
        assert(texts(merged@) =~= base.union_prefer_right(defaults_of(job_env@)));
        let mut env = merged;
        let ghost before_cli = texts(env@);
        let mut c: usize = 0;
        assert(pairs_map(cli_env@.take(0)) =~= Map::<Seq<char>, Seq<char>>::empty());
        while c < cli_env.len()
            invariant
                0 <= c <= cli_env.len(),
                texts(env@) == before_cli.union_prefer_right(pairs_map(cli_env@.take(c as int))),
            decreases cli_env.len() - c,
        {
            assert(cli_env@.take(c + 1).drop_last() =~= cli_env@.take(c as int));
            let ghost before = texts(env@);
            env.insert(cli_env[c].0.clone(), cli_env[c].1.clone());
            assert(texts(env@) =~= before.insert(cli_env@[c as int].0@, cli_env@[c as int].1@));
            assert(texts(env@) =~= before_cli.union_prefer_right(pairs_map(cli_env@.take(c + 1))));
            c = c + 1;
        }
        assert(cli_env@.take(cli_env.len() as int) =~= cli_env@);
        Self::add_special_vars(&mut env, project_root, spec_file_dir);
        env
    }
}

/// Each source of a run's variables overrides the ones before it: a `KEY=VALUE` given on
/// the command line wins over everything; else the command line's env file; else a saved
/// value; else the inline default; else the spec's env files; else the project's `.env`.
pub proof fn law_run_env_precedence(
    dotenv: Option<Seq<char>>,
    env_files: Seq<Option<String>>,
    inline: Map<Seq<char>, EnvVarSpec>,
    saved: Map<Seq<char>, Seq<char>>,
    cli_file: Option<Seq<char>>,
    cli_env: Seq<(String, String)>,
    k: Seq<char>,
)
    ensures
        ({
            let r = run_env(dotenv, env_files, inline, saved, cli_file, cli_env);
            let cli = pairs_map(cli_env);
            let file = optional_file(cli_file);
            let defaults = defaults_of(inline);
            let files = files_overlay(env_files);
            let base = optional_file(dotenv);
            &&& r.dom().contains(k) == (cli.dom().contains(k) || file.dom().contains(k)
                || saved.dom().contains(k) || defaults.dom().contains(k) || files.dom().contains(k)
                || base.dom().contains(k))
            &&& if cli.dom().contains(k) {
                r[k] == cli[k]
            } else if file.dom().contains(k) {
                r[k] == file[k]
            } else if saved.dom().contains(k) {
                r[k] == saved[k]
            } else if defaults.dom().contains(k) {
                r[k] == defaults[k]
            } else if files.dom().contains(k) {
                r[k] == files[k]
            } else {
                base.dom().contains(k) ==> r[k] == base[k]
            }
        }),
{
}

/// In a task run by a job, a `KEY=VALUE` given on the command line wins over the job's
/// defaults, which win over the task's own variables; the two special variables are always
/// the project's root and the spec file's directory.
pub proof fn law_job_env_precedence(
    task_env: Map<Seq<char>, Seq<char>>,
    job_env: Map<Seq<char>, EnvVarSpec>,
    cli_env: Seq<(String, String)>,
    project_root: Seq<char>,
    spec_dir: Seq<char>,
    k: Seq<char>,
)
    ensures
        ({
            let r = task_env.union_prefer_right(defaults_of(job_env)).union_prefer_right(
                pairs_map(cli_env),
            ).insert("MERIADOC_PROJECT_ROOT"@, project_root).insert("MERIADOC_SPEC_DIR"@, spec_dir);
            &&& r["MERIADOC_SPEC_DIR"@] == spec_dir
            &&& r["MERIADOC_PROJECT_ROOT"@] == project_root
            &&& (k != "MERIADOC_PROJECT_ROOT"@ && k != "MERIADOC_SPEC_DIR"@) ==> if pairs_map(
                cli_env,
            ).dom().contains(k) {
                r[k] == pairs_map(cli_env)[k]
            } else if defaults_of(job_env).dom().contains(k) {
                r[k] == defaults_of(job_env)[k]
            } else {
                task_env.dom().contains(k) ==> r[k] == task_env[k]
            }
        }),
{
    reveal_strlit("MERIADOC_PROJECT_ROOT");
    reveal_strlit("MERIADOC_SPEC_DIR");
    assert("MERIADOC_PROJECT_ROOT"@[9] != "MERIADOC_SPEC_DIR"@[9]);
}

/// A failed precondition stops its task before any of the task's commands run, unless the
/// precondition's failure policy says to continue; then the task goes on with the next
/// precondition or its commands.
pub proof fn law_failed_precondition(
    name: Seq<char>,
    conds: Seq<ConditionSpec>,
    cmds: Seq<Seq<char>>,
    on_failure: Option<FailurePolicySpec>,
    i: usize,
    output: Seq<char>,
    exit_code: i32,
    rs: Seq<(i32, bool, Seq<char>, Seq<char>)>,
)
    requires
        i < conds.len(),
        batch_failed(rs),
    ensures
        ({
            let t = task_transition(name, conds, cmds, on_failure, TaskPhase::Condition(i), output, exit_code, rs);
            match conds[i as int].on_failure {
                None => t.0 == TaskPhase::Done && t.3 == precondition_failure(name),
                Some(pol) => if pol.cmds@.len() > 0 {
                    t.3 == TaskStepModel::Run { cmds: pol.cmds.deep_view(), note: None }
                } else if pol.continues {
                    (t.0, t.3) == from_condition(name, conds, cmds, i + 1)
                } else {
                    t.0 == TaskPhase::Done && t.3 == precondition_failure(name)
                },
            }
        }),
{
}

/// After a failed precondition's failure commands have run, whatever they gave back, the
/// task fails with its precondition error and none of its commands run, unless that
/// precondition's policy says to continue; then the task goes on with the next precondition
/// or its commands. Across the two steps: a failing precondition with failure commands first
/// asks for exactly those commands, and then stops the task unless the policy continues.
pub proof fn law_precondition_policy_decides(
    name: Seq<char>,
    conds: Seq<ConditionSpec>,
    cmds: Seq<Seq<char>>,
    on_failure: Option<FailurePolicySpec>,
    i: usize,
    output: Seq<char>,
    exit_code: i32,
    rs: Seq<(i32, bool, Seq<char>, Seq<char>)>,
    policy_rs: Seq<(i32, bool, Seq<char>, Seq<char>)>,
    pol: FailurePolicySpec,
)
    requires
        i < conds.len(),
        conds[i as int].on_failure == Some(pol),
    ensures
        ({
            let t = task_transition(name, conds, cmds, on_failure, TaskPhase::ConditionPolicy(i), output, exit_code, policy_rs);
            if pol.continues {
                (t.0, t.3) == from_condition(name, conds, cmds, i + 1)
            } else {
                t == (TaskPhase::Done, output, exit_code, precondition_failure(name))
            }
        }),
        batch_failed(rs) && pol.cmds@.len() > 0 ==> ({
            let first = task_transition(name, conds, cmds, on_failure, TaskPhase::Condition(i), output, exit_code, rs);
            let second = task_transition(name, conds, cmds, on_failure, first.0, first.1, first.2, policy_rs);
            &&& first.3 == TaskStepModel::Run { cmds: pol.cmds.deep_view(), note: None }
            &&& if pol.continues {
                (second.0, second.3) == from_condition(name, conds, cmds, i + 1)
            } else {
                second.0 == TaskPhase::Done && second.3 == precondition_failure(name)
            }
        }),
{
}

/// Whether variable `k` of `inline` has options and a value in `res` that is none of them.
pub open spec fn outside_options(inline: Map<Seq<char>, EnvVarSpec>, res: Map<Seq<char>, Seq<char>>, k: Seq<char>) -> bool {
    inline.dom().contains(k) && inline[k].options@.len() > 0 && res.dom().contains(k)
        && !inline[k].options.deep_view().contains(res[k])
}

/// Whether variable `k` of `inline` is required and has no value in `res`.
pub open spec fn lacking(inline: Map<Seq<char>, EnvVarSpec>, res: Map<Seq<char>, Seq<char>>, k: Seq<char>) -> bool {
    inline.dom().contains(k) && inline[k].required && !res.dom().contains(k)
}

/// Every variable with options whose value is none of them is reported as an invalid choice,
/// with its value and options, whatever its type; nothing else is reported.
pub proof fn law_invalid_choices_reported(
    keys: Seq<Seq<char>>,
    inline: Map<Seq<char>, EnvVarSpec>,
    res: Map<Seq<char>, Seq<char>>,
)
    ensures
        forall|k: Seq<char>, v: Seq<char>, o: Seq<Seq<char>>|
            #[trigger] invalid_in(keys, inline, res).contains((k, v, o)) <==> (keys.contains(k)
                && outside_options(inline, res, k) && v == res[k] && o == inline[k].options.deep_view()),
    decreases keys.len(),
{
    if keys.len() > 0 {
        let front = keys.drop_last();
        let last = keys.last();
        law_invalid_choices_reported(front, inline, res);
        let r = invalid_in(front, inline, res);
        let all = invalid_in(keys, inline, res);
        assert forall|k: Seq<char>, v: Seq<char>, o: Seq<Seq<char>>|
            #[trigger] all.contains((k, v, o)) <==> (keys.contains(k) && outside_options(inline, res, k)
                && v == res[k] && o == inline[k].options.deep_view()) by {
            let x = (k, v, o);
            let y = (last, res[last], inline[last].options.deep_view());
            if all.contains(x) {
                let j = choose|j: int| 0 <= j < all.len() && all[j] == x;
                if outside_options(inline, res, last) && j == r.len() {
                    assert(all[j] == y);
                    assert(keys[keys.len() - 1] == last);
                } else {
                    assert(all[j] == r[j]);
                    assert(r.contains(x));
                    let m = choose|m: int| 0 <= m < front.len() && front[m] == k;
                    assert(keys[m] == k);
                }
            }
            if keys.contains(k) && outside_options(inline, res, k) && v == res[k] && o == inline[k].options.deep_view() {
                let m = choose|m: int| 0 <= m < keys.len() && keys[m] == k;
                if m < front.len() {
                    assert(front[m] == k);
                    assert(r.contains(x));
                    let j = choose|j: int| 0 <= j < r.len() && r[j] == x;
                    assert(all[j] == x);
                } else {
                    assert(all[all.len() - 1] == x);
                }
            }
        }
    }
}

/// Every required variable without a value is reported missing, with its spec; nothing else
/// is.
pub proof fn law_missing_reported(
    keys: Seq<Seq<char>>,
    inline: Map<Seq<char>, EnvVarSpec>,
    res: Map<Seq<char>, Seq<char>>,
)
    ensures
        forall|k: Seq<char>, m: EnvVarModel|
            #[trigger] missing_in(keys, inline, res).contains((k, m)) <==> (keys.contains(k) && lacking(
                inline,
                res,
                k,
            ) && m == inline[k]@),
    decreases keys.len(),
{
    if keys.len() > 0 {
        let front = keys.drop_last();
        let last = keys.last();
        law_missing_reported(front, inline, res);
        let r = missing_in(front, inline, res);
        let all = missing_in(keys, inline, res);
        assert forall|k: Seq<char>, m: EnvVarModel|
            #[trigger] all.contains((k, m)) <==> (keys.contains(k) && lacking(inline, res, k) && m == inline[k]@) by {
            let x = (k, m);
            if all.contains(x) {
                let j = choose|j: int| 0 <= j < all.len() && all[j] == x;
                if lacking(inline, res, last) && j == r.len() {
                    assert(keys[keys.len() - 1] == last);
                } else {
                    assert(all[j] == r[j]);
                    assert(r.contains(x));
                    let i = choose|i: int| 0 <= i < front.len() && front[i] == k;
                    assert(keys[i] == k);
                }
            }
            if keys.contains(k) && lacking(inline, res, k) && m == inline[k]@ {
                let i = choose|i: int| 0 <= i < keys.len() && keys[i] == k;
                if i < front.len() {
                    assert(front[i] == k);
                    assert(r.contains(x));
                    let j = choose|j: int| 0 <= j < r.len() && r[j] == x;
                    assert(all[j] == x);
                } else {
                    assert(all[all.len() - 1] == x);
                }
            }
        }
    }
}

/// A run's variables settle into a value only when every required variable has a value and
/// every variable with options has one of them, whatever its type; otherwise the run stops
/// with the error for a missing variable, or, when none is missing, with an `InvalidChoice`
/// error naming a variable whose value is none of its options.
pub proof fn law_settled_variables_meet_their_specs(
    r: Result<EnvResult, MeriadocError>,
    inline: Map<Seq<char>, EnvVarSpec>,
    keys: Seq<Seq<char>>,
    res: Map<Seq<char>, Seq<char>>,
)
    requires
        settled(r, inline, keys, res),
    ensures
        (r is Ok) == (forall|k: Seq<char>|
            #[trigger] keys.contains(k) ==> !lacking(inline, res, k) && !outside_options(inline, res, k)),
        (forall|k: Seq<char>| #[trigger] keys.contains(k) ==> !lacking(inline, res, k)) ==> match r {
            Ok(_) => true,
            Err(MeriadocError::Validation(e)) => exists|k: Seq<char>|
                #[trigger] keys.contains(k) && outside_options(inline, res, k) && e@
                    == ValidationErrorModel::InvalidChoice {
                    var: k,
                    value: res[k],
                    options: inline[k].options.deep_view(),
                },
            Err(_) => false,
        },
{
    law_invalid_choices_reported(keys, inline, res);
    law_missing_reported(keys, inline, res);
    let mi = missing_in(keys, inline, res);
    let iv = invalid_in(keys, inline, res);
    if mi.len() > 0 {
        assert(mi[0] == (mi[0].0, mi[0].1));
        assert(mi.contains((mi[0].0, mi[0].1)));
        assert(keys.contains(mi[0].0) && lacking(inline, res, mi[0].0));
    } else {
        assert forall|k: Seq<char>| #[trigger] keys.contains(k) implies !lacking(inline, res, k) by {
            if lacking(inline, res, k) {
                assert(mi.contains((k, inline[k]@)));
            }
        }
    }
    if iv.len() > 0 {
        assert(iv[0] == (iv[0].0, iv[0].1, iv[0].2));
        assert(iv.contains((iv[0].0, iv[0].1, iv[0].2)));
        assert(keys.contains(iv[0].0) && outside_options(inline, res, iv[0].0));
    } else {
        assert forall|k: Seq<char>| #[trigger] keys.contains(k) implies !outside_options(inline, res, k) by {
            if outside_options(inline, res, k) {
                assert(iv.contains((k, res[k], inline[k].options.deep_view())));
            }
        }
    }
}

/// A batch whose commands all succeeded leaves the exit code as it was and has no failure.
proof fn lemma_batch_all_succeeded(rs: Seq<(i32, bool, Seq<char>, Seq<char>)>, code: i32)
    requires
        forall|i: int| 0 <= i < rs.len() ==> (#[trigger] rs[i]).1,
    ensures
        batch_exit(rs, code) == code,
        !batch_failed(rs),
    decreases rs.len(),
{
    if rs.len() > 0 {
        assert forall|i: int| 0 <= i < rs.drop_last().len() implies (#[trigger] rs.drop_last()[i]).1 by {
            assert(rs.drop_last()[i] == rs[i]);
        }
        lemma_batch_all_succeeded(rs.drop_last(), code);
        assert(rs.last().1);
    }
}

/// Over a whole batch of commands, run one after the other as a task runs them: the batch
/// failed exactly when its last command failed, and the exit code it leaves is that command's
/// code, or 0 when every command succeeded.
pub proof fn law_batch_exit_code(count: nat, rs: Seq<(i32, bool, Seq<char>, Seq<char>)>)
    requires
        gathered(count, rs.map_values(|r: (i32, bool, Seq<char>, Seq<char>)| r.1)),
    ensures
        batch_failed(rs) == (rs.len() > 0 && !rs.last().1),
        batch_exit(rs, 0) == if rs.len() > 0 && !rs.last().1 {
            rs.last().0
        } else {
            0
        },
{
    let ok = rs.map_values(|r: (i32, bool, Seq<char>, Seq<char>)| r.1);
    law_commands_stop_at_first_failure(count, ok);
    if rs.len() > 0 {
        let init = rs.drop_last();
        assert forall|i: int| 0 <= i < init.len() implies (#[trigger] init[i]).1 by {
            assert(ok[i] == rs[i].1);
        }
        lemma_batch_all_succeeded(init, 0);
        if rs.last().1 {
            assert forall|i: int| 0 <= i < rs.len() implies (#[trigger] rs[i]).1 by {
                if i < init.len() {
                    assert(init[i] == rs[i]);
                }
            }
            lemma_batch_all_succeeded(rs, 0);
        } else {
            assert(!rs[rs.len() - 1].1);
        }
    } else {
        lemma_batch_all_succeeded(rs, 0);
    }
}

/// When a task's commands fail, its failure commands run if it has any; otherwise, and
/// whenever they succeed, the task finishes with the exit code of its first failed command
/// and everything its commands printed.
pub proof fn law_task_exit_code(
    name: Seq<char>,
    conds: Seq<ConditionSpec>,
    cmds: Seq<Seq<char>>,
    on_failure: Option<FailurePolicySpec>,
    output: Seq<char>,
    exit_code: i32,
    rs: Seq<(i32, bool, Seq<char>, Seq<char>)>,
)
    ensures
        ({
            let t = task_transition(name, conds, cmds, on_failure, TaskPhase::Commands, output, exit_code, rs);
            let code = batch_exit(rs, 0);
            let out = output + batch_output(rs);
            if code != 0 && (on_failure matches Some(pol) && pol.cmds@.len() > 0) {
                t.0 == TaskPhase::FailurePolicy && t.1 == out && t.2 == code
                    && t.3 == TaskStepModel::Run { cmds: on_failure->0.cmds.deep_view(), note: None }
            } else {
                t.0 == TaskPhase::Done && t.3 == TaskStepModel::Finished { exit_code: code, output: out }
            }
        }),
{
}

/// Over a whole run of a task's commands, gathered one after the other as the command loop
/// runs them: nothing runs after the first failing command, whose exit code becomes the
/// task's; the task's failure commands then run if it has any (and the code stays whatever
/// they give back), else the task finishes. A run in which every command succeeded finishes
/// with exit code 0.
pub proof fn law_task_run_stops_at_first_failure(
    name: Seq<char>,
    conds: Seq<ConditionSpec>,
    cmds: Seq<Seq<char>>,
    on_failure: Option<FailurePolicySpec>,
    output: Seq<char>,
    exit_code: i32,
    rs: Seq<(i32, bool, Seq<char>, Seq<char>)>,
    policy_rs: Seq<(i32, bool, Seq<char>, Seq<char>)>,
)
    requires
        gathered(cmds.len(), rs.map_values(|r: (i32, bool, Seq<char>, Seq<char>)| r.1)),
    ensures
        rs.len() <= cmds.len(),
        forall|i: int| 0 <= i < rs.len() - 1 ==> (#[trigger] rs[i]).1,
        ({
            let failed = rs.len() > 0 && !rs.last().1;
            let code = if failed { rs.last().0 } else { 0i32 };
            let out = output + batch_output(rs);
            let t = task_transition(name, conds, cmds, on_failure, TaskPhase::Commands, output, exit_code, rs);
            &&& first_failure(rs) == if failed { Some(code) } else { None::<i32> }
            &&& if code != 0 && (on_failure matches Some(pol) && pol.cmds@.len() > 0) {
                &&& t == (
                    TaskPhase::FailurePolicy,
                    out,
                    code,
                    TaskStepModel::Run { cmds: on_failure->0.cmds.deep_view(), note: None },
                )
                &&& task_transition(name, conds, cmds, on_failure, t.0, t.1, t.2, policy_rs).3
                    == TaskStepModel::Finished { exit_code: code, output: out + batch_output(policy_rs) }
            } else {
                t == (TaskPhase::Done, out, code, TaskStepModel::Finished { exit_code: code, output: out })
            }
        }),
{
    let ok = rs.map_values(|r: (i32, bool, Seq<char>, Seq<char>)| r.1);
    law_commands_stop_at_first_failure(cmds.len(), ok);
    law_batch_exit_code(cmds.len(), rs);
    assert forall|i: int| 0 <= i < rs.len() - 1 implies (#[trigger] rs[i]).1 by {
        assert(ok[i] == rs[i].1);
    }
    lemma_first_failure_of_gathered(rs);
}

proof fn lemma_first_failure_of_gathered(rs: Seq<(i32, bool, Seq<char>, Seq<char>)>)
    requires
        forall|i: int| 0 <= i < rs.len() - 1 ==> (#[trigger] rs[i]).1,
    ensures
        first_failure(rs) == if rs.len() > 0 && !rs.last().1 { Some(rs.last().0) } else { None::<i32> },
    decreases rs.len(),
{
    if rs.len() > 0 {
        let rest = rs.drop_first();
        assert forall|i: int| 0 <= i < rest.len() - 1 implies (#[trigger] rest[i]).1 by {
            assert(rest[i] == rs[i + 1]);
        }
        lemma_first_failure_of_gathered(rest);
        if rs.len() > 1 {
            assert(rs[0].1);
            assert(rest.last() == rs.last());
        }
    }
}

/// A job stops at the first task that fails, with that task's exit code, unless the job's
/// failure policy says to continue (after its failure commands, if any); a job whose tasks
/// all succeed goes on with the next task.
pub proof fn law_job_stops_on_failure(
    name: Seq<char>,
    job: JobSpec,
    tasks: Map<Seq<char>, TaskSpec>,
    i: usize,
    rs: Seq<(i32, bool, Seq<char>, Seq<char>)>,
)
    ensures
        ({
            let t = job_transition(name, job, tasks, JobPhase::Task(i), rs);
            match first_failure(rs) {
                None => t == job_from(name, job, tasks, i + 1),
                Some(code) => match job.on_failure {
                    None => t == (JobPhase::Done, JobStepModel::Finished { exit_code: code, note: None }),
                    Some(pol) => if pol.cmds@.len() > 0 {
                        t.1 == JobStepModel::RunPolicy(pol.cmds.deep_view())
                            && job_transition(name, job, tasks, t.0, Seq::empty()) == if pol.continues {
                            job_from(name, job, tasks, i + 1)
                        } else {
                            (JobPhase::Done, JobStepModel::Finished { exit_code: code, note: None })
                        }
                    } else if pol.continues {
                        t == job_from(name, job, tasks, i + 1)
                    } else {
                        t == (JobPhase::Done, JobStepModel::Finished { exit_code: code, note: None })
                    },
                },
            }
        }),
{
}

/// Whether the cache spares validating a spec file: the cache is in use, the project has
/// a cache, and it holds the file as validated with the same contents.
pub open spec fn spared(
    caches: Map<Seq<char>, crate::cache::ValidationCache>,
    cache_enabled: bool,
    root: Seq<char>,
    path: Seq<char>,
    contents: Seq<u8>,
) -> bool {
    cache_enabled && caches.dom().contains(root) && !crate::cache::needs(caches[root]@, path, contents)
}

impl RunActions {
    /// Checks a spec file before something of it runs: nothing to do when the cache spares
    /// it; otherwise it is validated, the outcome is recorded at time `now` in its project's
    /// cache (when caches are in use), and an invalid file stops the run. The result says
    /// whether a cache changed, and on failure gives the error and what validation found.
    pub fn validate_spec_file(
        caches: &mut StrMap<crate::cache::ValidationCache>,
        cache_enabled: bool,
        project_root: &str,
        spec_path: &str,
        contents: &[u8],
        spec: &crate::spec::SpecFile,
        now: u64,
    ) -> (r: (bool, Result<(), (MeriadocError, crate::validation::ValidationResult)>))
        ensures
            spared(old(caches)@, cache_enabled, project_root@, spec_path@, contents@) ==> (
            final(caches)@ == old(caches)@ && !r.0 && r.1 is Ok),
            !spared(old(caches)@, cache_enabled, project_root@, spec_path@, contents@) ==> {
                let errs = crate::validation::project_errors(seq![*spec]);
                &&& (r.1 is Ok) == (errs.len() == 0)
                &&& r.1 matches Err((e, v)) ==> (v@ == errs && (e matches MeriadocError::Validation(
                    ValidationError::UnsupportedVersion { version, file },
                ) && version@ == "invalid"@ && file@ == spec_path@))
                &&& r.0 == cache_enabled
                &&& !cache_enabled ==> final(caches)@ == old(caches)@
                &&& cache_enabled ==> {
                    &&& final(caches)@.dom() == old(caches)@.dom().insert(project_root@)
                    &&& forall|k: Seq<char>|
                        k != project_root@ && #[trigger] old(caches)@.dom().contains(k)
                            ==> final(caches)@[k] == old(caches)@[k]
                    &&& final(caches)@[project_root@]@ == crate::cache::recorded(
                        if old(caches)@.dom().contains(project_root@) {
                            old(caches)@[project_root@]@
                        } else {
                            Map::empty()
                        },
                        spec_path@,
                        contents@,
                        errs.len() == 0,
                        now,
                    )
                }
            },
    {
        if cache_enabled {
            match caches.get(project_root) {
                Some(cache) => {
                    if !cache.needs_validation(spec_path, contents) {
                        return (false, Ok(()));
                    }
                },
                None => {},
            }
        }
        let result = crate::validation::ProjectValidator::validate_one(spec);
        let is_valid = result.is_ok();
        if cache_enabled {
            let previous = caches.replace(owned(project_root), crate::cache::ValidationCache::new());
            let mut cache = match previous {
                Some(c) => c,
                None => crate::cache::ValidationCache::new(),
            };
            cache.record_validation(spec_path, contents, is_valid, now);
            let ghost mid = caches@;
            caches.insert(owned(project_root), cache);
            assert(caches@.dom() =~= old(caches)@.dom().insert(project_root@));
        }
        if is_valid {
            (cache_enabled, Ok(()))
        } else {
            proof {
                reveal_strlit("invalid");
            }
            let e = MeriadocError::Validation(
                ValidationError::UnsupportedVersion { version: owned("invalid"), file: owned(spec_path) },
            );
            (cache_enabled, Err((e, result)))
        }
    }
}

} // verus!
