//! Environment resolution: env files, inline defaults and overrides, layered by priority.
use vstd::prelude::*;

use crate::dotenv::{dotenv_map, dotenv_well_formed, parse_dotenv, texts};
use crate::error::{MeriadocError, ValidationError};
use crate::spec::{clone_strings, opt_view, EnvVarModel, EnvVarSpec};
use crate::strmap::{distinct_keys, has_key, index_of_key, key_in_prefix, StrMap};
use crate::text::{owned, str_eq};

verus! {

/// Resolved environment variables ready for execution.
pub type ResolvedEnv = StrMap<String>;

/// A required environment variable that has no value.
#[derive(Debug)]
pub struct MissingVar {
    /// Variable name.
    pub name: String,
    /// The spec defining this variable.
    pub spec: EnvVarSpec,
}

impl View for MissingVar {
    type V = (Seq<char>, EnvVarModel);

    open spec fn view(&self) -> (Seq<char>, EnvVarModel) {
        (self.name@, self.spec@)
    }
}

impl Clone for MissingVar {
    fn clone(&self) -> (r: Self)
        ensures
            r@ == self@,
    {
        MissingVar { name: self.name.clone(), spec: self.spec.clone() }
    }
}

/// A variable whose value is not one of its options.
#[derive(Debug)]
pub struct InvalidChoiceVar {
    /// Variable name.
    pub name: String,
    /// The invalid value provided.
    pub value: String,
    /// Valid options.
    pub options: Vec<String>,
}

impl View for InvalidChoiceVar {
    type V = (Seq<char>, Seq<char>, Seq<Seq<char>>);

    open spec fn view(&self) -> (Seq<char>, Seq<char>, Seq<Seq<char>>) {
        (self.name@, self.value@, self.options.deep_view())
    }
}

impl Clone for InvalidChoiceVar {
    fn clone(&self) -> (r: Self)
        ensures
            r@ == self@,
    {
        InvalidChoiceVar {
            name: self.name.clone(),
            value: self.value.clone(),
            options: clone_strings(&self.options),
        }
    }
}

/// Result of environment resolution, before missing and invalid values are rejected.
#[derive(Debug)]
pub struct EnvResolution {
    /// Successfully resolved variables.
    pub resolved: ResolvedEnv,
    /// Required variables that are missing.
    pub missing: Vec<MissingVar>,
    /// Variables with invalid choice values.
    pub invalid_choices: Vec<InvalidChoiceVar>,
}

/// Whether `s` is one of the strings of `v`.
pub fn contains_string(v: &Vec<String>, s: &str) -> (r: bool)
    ensures
        r == v.deep_view().contains(s@),
{
    let mut i: usize = 0;
    while i < v.len()
        invariant
            0 <= i <= v.len(),
            forall|j: int| 0 <= j < i ==> v@[j]@ != s@,
        decreases v.len() - i,
    {
        if str_eq(v[i].as_str(), s) {
            assert(v.deep_view()[i as int] == s@);
            return true;
        }
        i = i + 1;
    }
    proof {
        if v.deep_view().contains(s@) {
            let j = choose|j: int| 0 <= j < v.deep_view().len() && v.deep_view()[j] == s@;
            assert(v@[j]@ == s@);
        }
    }
    false
}

/// The value of the last pair with key `k`.
pub open spec fn last_value(ps: Seq<(String, String)>, k: Seq<char>) -> Option<Seq<char>>
    decreases ps.len(),
{
    if ps.len() == 0 {
        None
    } else if ps.last().0@ == k {
        Some(ps.last().1@)
    } else {
        last_value(ps.drop_last(), k)
    }
}

/// The value of `k` in the first of the maps that defines it.
pub open spec fn first_value(fs: Seq<Map<Seq<char>, Seq<char>>>, k: Seq<char>) -> Option<Seq<char>>
    decreases fs.len(),
{
    if fs.len() == 0 {
        None
    } else if fs[0].dom().contains(k) {
        Some(fs[0][k])
    } else {
        first_value(fs.drop_first(), k)
    }
}

/// The variables of each env file that exists, in order.
pub open spec fn file_maps(files: Seq<Option<String>>) -> Seq<Map<Seq<char>, Seq<char>>>
    decreases files.len(),
{
    if files.len() == 0 {
        Seq::empty()
    } else {
        match files.last() {
            Some(c) => file_maps(files.drop_last()).push(dotenv_map(c@)),
            None => file_maps(files.drop_last()),
        }
    }
}

/// Whether every env file that exists is well formed.
pub open spec fn files_well_formed(files: Seq<Option<String>>) -> bool {
    forall|i: int| 0 <= i < files.len() ==> (#[trigger] files[i] matches Some(c) ==> dotenv_well_formed(c@))
}

/// The default that the inline spec gives `k`.
pub open spec fn inline_default(inline: Map<Seq<char>, EnvVarSpec>, k: Seq<char>) -> Option<
    Seq<char>,
> {
    if inline.dom().contains(k) {
        opt_view(inline[k].default)
    } else {
        None
    }
}

/// The value of `k` by priority: a CLI override (the last one given), else the inline
/// default, else the first env file that defines it.
pub open spec fn layered_value(
    files: Seq<Map<Seq<char>, Seq<char>>>,
    inline: Map<Seq<char>, EnvVarSpec>,
    cli: Seq<(String, String)>,
    k: Seq<char>,
) -> Option<Seq<char>> {
    match last_value(cli, k) {
        Some(v) => Some(v),
        None => match inline_default(inline, k) {
            Some(v) => Some(v),
            None => first_value(files, k),
        },
    }
}

/// Whether the environment `m` holds exactly the values that `f` gives.
pub open spec fn env_is(m: Map<Seq<char>, String>, f: spec_fn(Seq<char>) -> Option<Seq<char>>) -> bool {
    forall|k: Seq<char>|
        #![trigger m.dom().contains(k)]
        #![trigger f(k)]
        (m.dom().contains(k) <==> f(k) is Some) && (m.dom().contains(k) ==> m[k]@ == f(k)->0)
}

/// The required variables of `ps` that `res` leaves without a value, in order.
pub open spec fn missing_of(ps: Seq<(String, EnvVarSpec)>, res: Map<Seq<char>, String>) -> Seq<
    (Seq<char>, EnvVarModel),
>
    decreases ps.len(),
{
    if ps.len() == 0 {
        Seq::empty()
    } else {
        let rest = missing_of(ps.drop_last(), res);
        let p = ps.last();
        if p.1.required && !res.dom().contains(p.0@) {
            rest.push((p.0@, p.1@))
        } else {
            rest
        }
    }
}

/// The variables of `ps` with options whose value in `res` is not one of them, in order.
pub open spec fn invalid_of(ps: Seq<(String, EnvVarSpec)>, res: Map<Seq<char>, String>) -> Seq<
    (Seq<char>, Seq<char>, Seq<Seq<char>>),
>
    decreases ps.len(),
{
    if ps.len() == 0 {
        Seq::empty()
    } else {
        let rest = invalid_of(ps.drop_last(), res);
        let p = ps.last();
        let opts = p.1.options.deep_view();
        if opts.len() > 0 && res.dom().contains(p.0@) && !opts.contains(res[p.0@]@) {
            rest.push((p.0@, res[p.0@]@, opts))
        } else {
            rest
        }
    }
}

proof fn lemma_missing_of_members(ps: Seq<(String, EnvVarSpec)>, res: Map<Seq<char>, String>)
    ensures
        forall|x: (Seq<char>, EnvVarModel)|
            missing_of(ps, res).contains(x) <==> exists|i: int|
                0 <= i < ps.len() && (#[trigger] ps[i]).1.required && !res.dom().contains(ps[i].0@)
                    && x == (ps[i].0@, ps[i].1@),
    decreases ps.len(),
{
    if ps.len() > 0 {
        let front = ps.drop_last();
        lemma_missing_of_members(front, res);
        assert forall|x: (Seq<char>, EnvVarModel)|
            missing_of(ps, res).contains(x) <==> exists|i: int|
                0 <= i < ps.len() && (#[trigger] ps[i]).1.required && !res.dom().contains(ps[i].0@)
                    && x == (ps[i].0@, ps[i].1@) by {
            if exists|i: int|
                0 <= i < ps.len() && (#[trigger] ps[i]).1.required && !res.dom().contains(ps[i].0@)
                    && x == (ps[i].0@, ps[i].1@) {
                let i = choose|i: int|
                    0 <= i < ps.len() && (#[trigger] ps[i]).1.required && !res.dom().contains(ps[i].0@)
                        && x == (ps[i].0@, ps[i].1@);
                if i < front.len() {
                    assert(front[i] == ps[i]);
                    let r = missing_of(front, res);
                    assert(r.contains(x));
                    let j = choose|j: int| 0 <= j < r.len() && r[j] == x;
                    let p = ps.last();
                    if p.1.required && !res.dom().contains(p.0@) {
                        assert(r.push((p.0@, p.1@))[j] == x);
                    }
                    assert(missing_of(ps, res)[j] == x);
                } else {
                    assert(missing_of(ps, res).last() == x);
                }
            }
            if missing_of(ps, res).contains(x) {
                let r = missing_of(front, res);
                let p = ps.last();
                if p.1.required && !res.dom().contains(p.0@) && x == (p.0@, p.1@) {
                    assert(ps[ps.len() - 1] == p);
                } else {
                    let j = choose|j: int| 0 <= j < missing_of(ps, res).len() && missing_of(ps, res)[j] == x;
                    if p.1.required && !res.dom().contains(p.0@) {
                        assert(j < r.len());
                        assert(r[j] == x);
                    }
                    assert(r.contains(x));
                    let i = choose|i: int|
                        0 <= i < front.len() && (#[trigger] front[i]).1.required && !res.dom().contains(
                            front[i].0@,
                        ) && x == (front[i].0@, front[i].1@);
                    assert(ps[i] == front[i]);
                }
            }
        }
    }
}

proof fn lemma_invalid_of_members(ps: Seq<(String, EnvVarSpec)>, res: Map<Seq<char>, String>)
    ensures
        forall|x: (Seq<char>, Seq<char>, Seq<Seq<char>>)|
            invalid_of(ps, res).contains(x) <==> exists|i: int|
                0 <= i < ps.len() && is_invalid_entry(#[trigger] ps[i], res, x),
    decreases ps.len(),
{
    if ps.len() > 0 {
        let front = ps.drop_last();
        lemma_invalid_of_members(front, res);
        assert forall|x: (Seq<char>, Seq<char>, Seq<Seq<char>>)|
            invalid_of(ps, res).contains(x) <==> exists|i: int|
                0 <= i < ps.len() && is_invalid_entry(#[trigger] ps[i], res, x) by {
            let r = invalid_of(front, res);
            let p = ps.last();
            assert(ps[ps.len() - 1] == p);
            if exists|i: int| 0 <= i < ps.len() && is_invalid_entry(#[trigger] ps[i], res, x) {
                let i = choose|i: int| 0 <= i < ps.len() && is_invalid_entry(#[trigger] ps[i], res, x);
                if i < front.len() {
                    assert(front[i] == ps[i]);
                    assert(r.contains(x));
                    let j = choose|j: int| 0 <= j < r.len() && r[j] == x;
                    assert(invalid_of(ps, res)[j] == x);
                } else {
                    assert(invalid_of(ps, res).last() == x);
                }
            }
            if invalid_of(ps, res).contains(x) {
                if !is_invalid_entry(p, res, x) {
                    let j = choose|j: int| 0 <= j < invalid_of(ps, res).len() && invalid_of(ps, res)[j] == x;
                    if j == r.len() {
                        assert(is_invalid_entry(p, res, x));
                    }
                    assert(r[j] == x);
                    assert(r.contains(x));
                    let i = choose|i: int| 0 <= i < front.len() && is_invalid_entry(#[trigger] front[i], res, x);
                    assert(ps[i] == front[i]);
                }
            }
        }
    }
}

/// Whether entry `p` has options, a value in `res` that is none of them, and `x` reports it.
pub open spec fn is_invalid_entry(
    p: (String, EnvVarSpec),
    res: Map<Seq<char>, String>,
    x: (Seq<char>, Seq<char>, Seq<Seq<char>>),
) -> bool {
    let opts = p.1.options.deep_view();
    opts.len() > 0 && res.dom().contains(p.0@) && !opts.contains(res[p.0@]@) && x == (
        p.0@,
        res[p.0@]@,
        opts,
    )
}

/// The variables reported missing are exactly the required ones without a value, and those
/// reported as an invalid choice exactly the ones with options whose value is none of them;
/// a variable without a value is never an invalid choice.
pub proof fn law_resolution_reports(inline: StrMap<EnvVarSpec>, res: Map<Seq<char>, String>)
    requires
        distinct_keys(inline.pairs()),
    ensures
        forall|n: Seq<char>, m: EnvVarModel|
            #[trigger] missing_of(inline.pairs(), res).contains((n, m)) <==> (inline@.dom().contains(n)
                && inline@[n].required && !res.dom().contains(n) && m == inline@[n]@),
        forall|n: Seq<char>, v: Seq<char>, o: Seq<Seq<char>>|
            #[trigger] invalid_of(inline.pairs(), res).contains((n, v, o)) <==> (inline@.dom().contains(n)
                && o == inline@[n].options.deep_view() && o.len() > 0 && res.dom().contains(n)
                && v == res[n]@ && !o.contains(v)),
{
    let ps = inline.pairs();
    inline.lemma_view();
    lemma_missing_of_members(ps, res);
    lemma_invalid_of_members(ps, res);
    assert forall|n: Seq<char>, m: EnvVarModel|
        #[trigger] missing_of(ps, res).contains((n, m)) <==> (inline@.dom().contains(n)
            && inline@[n].required && !res.dom().contains(n) && m == inline@[n]@) by {
        if inline@.dom().contains(n) {
            let i = index_of_key(ps, n);
            assert(has_key(ps, n));
            assert(ps[i].0@ == n);
            assert(inline@[ps[i].0@] == ps[i].1);
        }
        if missing_of(ps, res).contains((n, m)) {
            let i = choose|i: int|
                0 <= i < ps.len() && (#[trigger] ps[i]).1.required && !res.dom().contains(ps[i].0@)
                    && (n, m) == (ps[i].0@, ps[i].1@);
            assert(inline@[ps[i].0@] == ps[i].1);
        }
    }
    assert forall|n: Seq<char>, v: Seq<char>, o: Seq<Seq<char>>|
        #[trigger] invalid_of(ps, res).contains((n, v, o)) <==> (inline@.dom().contains(n)
            && o == inline@[n].options.deep_view() && o.len() > 0 && res.dom().contains(n)
            && v == res[n]@ && !o.contains(v)) by {
        if inline@.dom().contains(n) {
            let i = index_of_key(ps, n);
            assert(has_key(ps, n));
            assert(ps[i].0@ == n);
            assert(inline@[ps[i].0@] == ps[i].1);
            if o == inline@[n].options.deep_view() && o.len() > 0 && res.dom().contains(n)
                && v == res[n]@ && !o.contains(v) {
                assert(is_invalid_entry(ps[i], res, (n, v, o)));
            }
        }
        if invalid_of(ps, res).contains((n, v, o)) {
            let i = choose|i: int| 0 <= i < ps.len() && is_invalid_entry(#[trigger] ps[i], res, (n, v, o));
            assert(inline@[ps[i].0@] == ps[i].1);
        }
    }
}

/// Whether one of the first `j` entries of `ps` has key `k` and a default.
pub open spec fn default_in_prefix(ps: Seq<(String, EnvVarSpec)>, j: int, k: Seq<char>) -> bool {
    exists|m: int| 0 <= m < j && ps[m].0@ == k && ps[m].1.default is Some
}

/// The views of the elements of `v`.
pub open spec fn views<T: View>(v: Seq<T>) -> Seq<T::V> {
    v.map_values(|x: T| x@)
}

/// The required variables of `inline` that `resolved` leaves without a value, in the order
/// of `inline`.
pub fn collect_missing(inline: &StrMap<EnvVarSpec>, resolved: &ResolvedEnv) -> (r: Vec<MissingVar>)
    ensures
        views(r@) == missing_of(inline.pairs(), resolved@),
{
    let mut out: Vec<MissingVar> = Vec::new();
    let n = inline.len();
    let mut i: usize = 0;
    while i < n
        invariant
            0 <= i <= n,
            n == inline.pairs().len(),
            views(out@) == missing_of(inline.pairs().take(i as int), resolved@),
        decreases n - i,
    {
        let (k, spec) = inline.entry(i);
        assert(inline.pairs().take(i + 1).drop_last() =~= inline.pairs().take(i as int));
        let ghost before = out@;
        if spec.required && !resolved.contains_key(k.as_str()) {
            out.push(MissingVar { name: k.clone(), spec: spec.clone() });
            assert(views(out@) =~= views(before).push((k@, spec@)));
        }
        i = i + 1;
    }
    assert(inline.pairs().take(n as int) =~= inline.pairs());
    out
}

/// The variables of `inline` with options whose value in `resolved` is not one of them, in
/// the order of `inline`.
pub fn collect_invalid(inline: &StrMap<EnvVarSpec>, resolved: &ResolvedEnv) -> (r: Vec<
    InvalidChoiceVar,
>)
    ensures
        views(r@) == invalid_of(inline.pairs(), resolved@),
{
    let mut out: Vec<InvalidChoiceVar> = Vec::new();
    let n = inline.len();
    let mut i: usize = 0;
    while i < n
        invariant
            0 <= i <= n,
            n == inline.pairs().len(),
            views(out@) == invalid_of(inline.pairs().take(i as int), resolved@),
        decreases n - i,
    {
        let (k, spec) = inline.entry(i);
        assert(inline.pairs().take(i + 1).drop_last() =~= inline.pairs().take(i as int));
        let ghost before = out@;
        if spec.options.len() > 0 {
            match resolved.get(k.as_str()) {
                Some(value) => {
                    if !contains_string(&spec.options, value.as_str()) {
                        out.push(
                            InvalidChoiceVar {
                                name: k.clone(),
                                value: value.clone(),
                                options: clone_strings(&spec.options),
                            },
                        );
                        assert(views(out@) =~= views(before).push(
                            (k@, value@, spec.options.deep_view()),
                        ));
                    }
                },
                None => {},
            }
        }
        i = i + 1;
    }
    assert(inline.pairs().take(n as int) =~= inline.pairs());
    out
}

impl EnvResolution {
    /// The resolved environment, or the first invalid choice, or else the first missing
    /// required variable.
    pub fn into_result(self) -> (r: Result<ResolvedEnv, MeriadocError>)
        ensures
            self.invalid_choices.len() > 0 ==> (r matches Err(
                MeriadocError::Validation(ValidationError::InvalidChoice { var, value, options }),
            ) && (var@, value@, options.deep_view()) == self.invalid_choices@[0]@),
            self.invalid_choices.len() == 0 && self.missing.len() > 0 ==> (r matches Err(
                MeriadocError::Validation(ValidationError::MissingRequiredEnv { var }),
            ) && var@ == self.missing@[0].name@),
            self.invalid_choices.len() == 0 && self.missing.len() == 0 ==> (r matches Ok(m) && m@
                == self.resolved@),
    {
        if self.invalid_choices.len() > 0 {
            let invalid = &self.invalid_choices[0];
            return Err(
                MeriadocError::Validation(
                    ValidationError::InvalidChoice {
                        var: invalid.name.clone(),
                        value: invalid.value.clone(),
                        options: clone_strings(&invalid.options),
                    },
                ),
            );
        }
        if self.missing.len() > 0 {
            return Err(
                MeriadocError::Validation(
                    ValidationError::MissingRequiredEnv { var: self.missing[0].name.clone() },
                ),
            );
        }
        Ok(self.resolved)
    }
}

/// Resolves environment variables by priority.
pub struct EnvResolver;

impl EnvResolver {
    /// Resolves variables without failing on missing or invalid ones.
    ///
    /// `env_files` holds the contents of the spec's env files in order, `None` for a file
    /// that does not exist. Priority: CLI `--env` (the last one of a name wins), then inline
    /// defaults, then env files (the first file that defines a name wins).
    pub fn resolve_partial(
        inline_env: &StrMap<EnvVarSpec>,
        env_files: &[Option<String>],
        cli_env: &[(String, String)],
    ) -> (r: EnvResolution)
        requires
            files_well_formed(env_files@),
        ensures
            env_is(
                r.resolved@,
                |k: Seq<char>| layered_value(file_maps(env_files@), inline_env@, cli_env@, k),
            ),
            views(r.missing@) == missing_of(inline_env.pairs(), r.resolved@),
            views(r.invalid_choices@) == invalid_of(inline_env.pairs(), r.resolved@),
    {
        let mut resolved: ResolvedEnv = StrMap::new();
        let ghost f0 = |k: Seq<char>| first_value(file_maps(env_files@.take(0)), k);
        assert(file_maps(env_files@.take(0)) =~= Seq::<Map<Seq<char>, Seq<char>>>::empty());
        // 1. env files, lowest priority: the first file that defines a name wins.
        let mut i: usize = 0;
        while i < env_files.len()
            invariant
                0 <= i <= env_files.len(),
                files_well_formed(env_files@),
                env_is(resolved@, |k: Seq<char>| first_value(file_maps(env_files@.take(i as int)), k)),
            decreases env_files.len() - i,
        {
            let ghost before = resolved@;
            assert(env_files@.take(i + 1).drop_last() =~= env_files@.take(i as int));
            match &env_files[i] {
                Some(contents) => {
                    assert(env_files@[i as int] matches Some(c) ==> dotenv_well_formed(c@));
                    let file_env = parse_dotenv(contents.as_str());
                    Self::add_missing_entries(&mut resolved, &file_env);
                    proof {
                        let fm = file_maps(env_files@.take(i as int));
                        assert(file_maps(env_files@.take(i + 1)) == fm.push(dotenv_map(contents@)));
                        lemma_first_value_push(fm, dotenv_map(contents@));
                    }
                },
                None => {
                    assert(file_maps(env_files@.take(i + 1)) == file_maps(env_files@.take(i as int)));
                },
            }
            i = i + 1;
        }
        assert(env_files@.take(env_files.len() as int) =~= env_files@);
        // 2. inline defaults override env files.
        let n = inline_env.len();
        let mut j: usize = 0;
        while j < n
            invariant
                0 <= j <= n,
                n == inline_env.pairs().len(),
                distinct_keys(inline_env.pairs()),
                env_is(resolved@, |k: Seq<char>| {
                    let d = if key_in_prefix(inline_env.pairs(), j as int, k) {
                        opt_view(inline_env@[k].default)
                    } else {
                        None
                    };
                    match d {
                        Some(v) => Some(v),
                        None => first_value(file_maps(env_files@), k),
                    }
                }),
            decreases n - j,
        {
            let (k, spec) = inline_env.entry(j);
            proof {
                inline_env.lemma_view();
            }
            match &spec.default {
                Some(d) => {
                    resolved.insert(k.clone(), d.clone());
                },
                None => {},
            }
            proof {
                assert forall|x: Seq<char>|
                    #[trigger] key_in_prefix(inline_env.pairs(), j + 1, x) == (key_in_prefix(
                        inline_env.pairs(),
                        j as int,
                        x,
                    ) || x == k@) by {
                    if x == k@ {
                        assert(inline_env.pairs()[j as int].0@ == x);
                    }
                    if exists|m: int| 0 <= m < j + 1 && inline_env.pairs()[m].0@ == x {
                        let m = choose|m: int| 0 <= m < j + 1 && inline_env.pairs()[m].0@ == x;
                        if m < j {
                        }
                    }
                }
                assert forall|m: int| 0 <= m < j implies inline_env.pairs()[m].0@ != k@ by {
                    assert(m != j);
                }
            }
            j = j + 1;
        }
        proof {
            inline_env.lemma_view();
            assert forall|x: Seq<char>|
                #[trigger] key_in_prefix(inline_env.pairs(), n as int, x)
                    == inline_env@.dom().contains(x) by {
                if inline_env@.dom().contains(x) {
                    let m = crate::strmap::index_of_key(inline_env.pairs(), x);
                    assert(0 <= m < n && inline_env.pairs()[m].0@ == x);
                }
            }
        }
        // 3. CLI overrides, highest priority.
        let mut c: usize = 0;
        while c < cli_env.len()
            invariant
                0 <= c <= cli_env.len(),
                env_is(resolved@, |k: Seq<char>| {
                    match last_value(cli_env@.take(c as int), k) {
                        Some(v) => Some(v),
                        None => match inline_default(inline_env@, k) {
                            Some(v) => Some(v),
                            None => first_value(file_maps(env_files@), k),
                        },
                    }
                }),
            decreases cli_env.len() - c,
        {
            let key = owned(cli_env[c].0.as_str());
            let value = owned(cli_env[c].1.as_str());
            resolved.insert(key, value);
            assert(cli_env@.take(c + 1).drop_last() =~= cli_env@.take(c as int));
            c = c + 1;
        }
        assert(cli_env@.take(cli_env.len() as int) =~= cli_env@);
        let missing = collect_missing(inline_env, &resolved);
        let invalid_choices = collect_invalid(inline_env, &resolved);
        EnvResolution { resolved, missing, invalid_choices }
    }

    /// Adds the entries of `file_env` whose names `resolved` does not have yet.
    fn add_missing_entries(resolved: &mut ResolvedEnv, file_env: &ResolvedEnv)
        ensures
            forall|k: Seq<char>| #[trigger]
                final(resolved)@.dom().contains(k) == (old(resolved)@.dom().contains(k)
                    || file_env@.dom().contains(k)),
            forall|k: Seq<char>| #[trigger]
                final(resolved)@.dom().contains(k) ==> final(resolved)@[k]@ == if old(
                    resolved,
                )@.dom().contains(k) {
                    old(resolved)@[k]@
                } else {
                    file_env@[k]@
                },
    {
        let n = file_env.len();
        let ghost start = resolved@;
        let mut i: usize = 0;
        while i < n
            invariant
                0 <= i <= n,
                n == file_env.pairs().len(),
                distinct_keys(file_env.pairs()),
                forall|k: Seq<char>| #[trigger]
                    resolved@.dom().contains(k) == (start.dom().contains(k) || exists|m: int|
                        0 <= m < i && file_env.pairs()[m].0@ == k),
                forall|k: Seq<char>| #[trigger]
                    resolved@.dom().contains(k) ==> resolved@[k]@ == if start.dom().contains(k) {
                        start[k]@
                    } else {
                        file_env@[k]@
                    },
            decreases n - i,
        {
            let (k, v) = file_env.entry(i);
            if !resolved.contains_key(k.as_str()) {
                resolved.insert(k.clone(), v.clone());
            }
            assert forall|x: Seq<char>| #[trigger]
                resolved@.dom().contains(x) == (start.dom().contains(x) || exists|m: int|
                    0 <= m < i + 1 && file_env.pairs()[m].0@ == x) by {
                if x == k@ {
                    assert(file_env.pairs()[i as int].0@ == x);
                }
                if exists|m: int| 0 <= m < i + 1 && file_env.pairs()[m].0@ == x {
                    let m = choose|m: int| 0 <= m < i + 1 && file_env.pairs()[m].0@ == x;
                    if m == i {
                    }
                }
            }
            i = i + 1;
        }
        proof {
            file_env.lemma_view();
            assert forall|k: Seq<char>| #[trigger]
                resolved@.dom().contains(k) == (start.dom().contains(k) || file_env@.dom().contains(
                    k,
                )) by {
                if file_env@.dom().contains(k) {
                    let m = crate::strmap::index_of_key(file_env.pairs(), k);
                    assert(0 <= m < n && file_env.pairs()[m].0@ == k);
                }
                if exists|m: int| 0 <= m < n && file_env.pairs()[m].0@ == k {
                    let m = choose|m: int| 0 <= m < n && file_env.pairs()[m].0@ == k;
                    assert(file_env@.dom().contains(file_env.pairs()[m].0@));
                }
            }
        }
    }

    /// Resolves variables by priority, failing on the first invalid choice, else on the first
    /// missing required variable.
    pub fn resolve(
        inline_env: &StrMap<EnvVarSpec>,
        env_files: &[Option<String>],
        cli_env: &[(String, String)],
    ) -> (r: Result<ResolvedEnv, MeriadocError>)
        requires
            files_well_formed(env_files@),
        ensures
            ({
                let layered = |k: Seq<char>|
                    layered_value(file_maps(env_files@), inline_env@, cli_env@, k);
                exists|res: Map<Seq<char>, String>|
                    {
                        &&& env_is(res, layered)
                        &&& invalid_of(inline_env.pairs(), res).len() > 0 ==> (r matches Err(
                            MeriadocError::Validation(
                                ValidationError::InvalidChoice { var, value, options },
                            ),
                        ) && (var@, value@, options.deep_view()) == invalid_of(
                            inline_env.pairs(),
                            res,
                        )[0])
                        &&& invalid_of(inline_env.pairs(), res).len() == 0 && missing_of(
                            inline_env.pairs(),
                            res,
                        ).len() > 0 ==> (r matches Err(
                            MeriadocError::Validation(ValidationError::MissingRequiredEnv { var }),
                        ) && var@ == missing_of(inline_env.pairs(), res)[0].0)
                        &&& invalid_of(inline_env.pairs(), res).len() == 0 && missing_of(
                            inline_env.pairs(),
                            res,
                        ).len() == 0 ==> (r matches Ok(m) && m@ == res)
                    }
            }),
    {
        let resolution = Self::resolve_partial(inline_env, env_files, cli_env);
        let ghost res = resolution.resolved@;
        proof {
            assert(views(resolution.invalid_choices@).len() == resolution.invalid_choices@.len());
            assert(views(resolution.missing@).len() == resolution.missing@.len());
            if resolution.invalid_choices@.len() > 0 {
                assert(views(resolution.invalid_choices@)[0] == resolution.invalid_choices@[0]@);
            }
            if resolution.missing@.len() > 0 {
                assert(views(resolution.missing@)[0] == resolution.missing@[0]@);
            }
        }
        resolution.into_result()
    }

    /// Job-level defaults override task-level values; other task values stay.
    pub fn merge_job_env(task_env: ResolvedEnv, job_env: &StrMap<EnvVarSpec>) -> (r: ResolvedEnv)
        ensures
            forall|k: Seq<char>|
                #![trigger r@.dom().contains(k)]
                r@.dom().contains(k) == (task_env@.dom().contains(k) || inline_default(
                    job_env@,
                    k,
                ) is Some),
            forall|k: Seq<char>|
                #![trigger r@.dom().contains(k)]
                r@.dom().contains(k) ==> r@[k]@ == match inline_default(job_env@, k) {
                    Some(v) => v,
                    None => task_env@[k]@,
                },
    {
        let mut env = task_env;
        let ghost start = env@;
        let n = job_env.len();
        let mut i: usize = 0;
        while i < n
            invariant
                0 <= i <= n,
                n == job_env.pairs().len(),
                distinct_keys(job_env.pairs()),
                forall|k: Seq<char>|
                    #![trigger env@.dom().contains(k)]
                    env@.dom().contains(k) == (start.dom().contains(k) || default_in_prefix(job_env.pairs(), i as int, k)),
                forall|k: Seq<char>|
                    #![trigger env@.dom().contains(k)]
                    env@.dom().contains(k) ==> env@[k]@ == if default_in_prefix(job_env.pairs(), i as int, k) {
                        opt_view(job_env@[k].default)->0
                    } else {
                        start[k]@
                    },
            decreases n - i,
        {
            let (k, spec) = job_env.entry(i);
            proof {
                job_env.lemma_view();
            }
            match &spec.default {
                Some(d) => {
                    env.insert(k.clone(), d.clone());
                },
                None => {},
            }
            proof {
                assert forall|x: Seq<char>|
                    #[trigger] default_in_prefix(job_env.pairs(), i + 1, x) == (default_in_prefix(
                        job_env.pairs(),
                        i as int,
                        x,
                    ) || (x == k@ && spec.default is Some)) by {
                    if x == k@ && spec.default is Some {
                        assert(job_env.pairs()[i as int].0@ == x);
                    }
                    if exists|m: int|
                        0 <= m < i + 1 && job_env.pairs()[m].0@ == x && job_env.pairs()[m].1.default
                            is Some {
                        let m = choose|m: int|
                            0 <= m < i + 1 && job_env.pairs()[m].0@ == x && job_env.pairs()[m].1.default
                                is Some;
                        if m == i {
                        }
                    }
                }
                assert forall|m: int| 0 <= m < i implies job_env.pairs()[m].0@ != k@ by {
                    assert(m != i);
                }
            }
            i = i + 1;
        }
        proof {
            job_env.lemma_view();
            assert forall|x: Seq<char>|
                #[trigger] default_in_prefix(job_env.pairs(), n as int, x) == (inline_default(
                    job_env@,
                    x,
                ) is Some) by {
                if inline_default(job_env@, x) is Some {
                    let m = crate::strmap::index_of_key(job_env.pairs(), x);
                    assert(0 <= m < n && job_env.pairs()[m].0@ == x);
                }
            }
        }
        env
    }
}

/// Looking `k` up in `fs` followed by `m` finds it in `fs` first.
pub proof fn lemma_first_value_push(fs: Seq<Map<Seq<char>, Seq<char>>>, m: Map<Seq<char>, Seq<char>>)
    ensures
        forall|k: Seq<char>|
            #[trigger] first_value(fs.push(m), k) == match first_value(fs, k) {
                Some(v) => Some(v),
                None => if m.dom().contains(k) {
                    Some(m[k])
                } else {
                    None
                },
            },
    decreases fs.len(),
{
    assert forall|k: Seq<char>|
        #[trigger] first_value(fs.push(m), k) == match first_value(fs, k) {
            Some(v) => Some(v),
            None => if m.dom().contains(k) {
                Some(m[k])
            } else {
                None
            },
        } by {
        let e = Seq::<Map<Seq<char>, Seq<char>>>::empty();
        assert(first_value(e, k) is None);
        if fs.len() > 0 {
            lemma_first_value_push(fs.drop_first(), m);
            let g = fs.push(m);
            assert(g[0] == fs[0]);
            assert(g.drop_first() =~= fs.drop_first().push(m));
            if fs[0].dom().contains(k) {
                assert(first_value(g, k) == Some(fs[0][k]));
                assert(first_value(fs, k) == Some(fs[0][k]));
            } else {
                assert(first_value(g, k) == first_value(g.drop_first(), k));
                assert(first_value(fs, k) == first_value(fs.drop_first(), k));
            }
        } else {
            assert(fs.push(m)[0] == m);
            assert(fs.push(m).drop_first() =~= e);
        }
    }
}

} // verus!
