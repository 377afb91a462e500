//! Running commands: what is shown, what is kept of their output, and when a run stops.
use vstd::prelude::*;
use vstd::utf8::encode_utf8;

use crate::env::ResolvedEnv;
use crate::interpolate::{interp, Interpolator};
use crate::error::MeriadocError;
use crate::saved_env::{join_path, joined_path};
use crate::text::{
    contains_seq, lemma_replaced_absent, lemma_replaced_by_stars, owned, concat, decimal,
    decimal_string, replace_all, replaced, star_free, str_chars, string_from_chars,
};

verus! {

/// The outcome of one command.
#[derive(Debug)]
pub struct CommandResult {
    pub exit_code: i32,
    pub success: bool,
    /// Captured standard output (empty when output is not captured).
    pub stdout: String,
    /// Captured standard error (empty when output is not captured).
    pub stderr: String,
}

/// Where a command runs when no working directory is given.
pub enum WorkdirMode {
    /// The directory of the spec file (tasks and jobs).
    SpecFileDir,
    /// The current directory (shells).
    CurrentDir,
}

/// How commands are run.
#[derive(Debug)]
pub struct ExecutionOptions {
    /// Print each command before running it.
    pub verbose: bool,
    /// The longest a command may run (none: no limit).
    pub timeout: Option<std::time::Duration>,
    /// Capture standard output and error instead of passing them through.
    pub capture_output: bool,
    /// The names of the variables whose values are masked in what is printed.
    pub secrets: Vec<String>,
}

impl Default for ExecutionOptions {
    fn default() -> (r: Self)
        ensures
            !r.verbose,
            r.timeout is None,
            !r.capture_output,
            r.secrets@.len() == 0,
    {
        ExecutionOptions { verbose: false, timeout: None, capture_output: false, secrets: Vec::new() }
    }
}

/// The text shown in place of a secret value.
pub open spec fn mask_text() -> Seq<char> {
    "***"@
}

/// `text` with the non-empty value of each secret of `secrets` replaced by `***`, secret by
/// secret in order.
pub open spec fn masked(text: Seq<char>, env: Map<Seq<char>, String>, secrets: Seq<Seq<char>>) -> Seq<
    char,
>
    decreases secrets.len(),
{
    if secrets.len() == 0 {
        text
    } else {
        let t = masked(text, env, secrets.drop_last());
        let n = secrets.last();
        if env.dom().contains(n) && env[n]@.len() > 0 {
            replaced(t, env[n]@, mask_text())
        } else {
            t
        }
    }
}

/// Replaces the value of every secret variable in `text` by `***`; empty values are left.
pub fn mask_secrets(text: &str, env: &ResolvedEnv, secrets: &Vec<String>) -> (r: String)
    ensures
        r@ == masked(text@, env@, secrets.deep_view()),
{
    let mut out = concat(text, "");
    proof {
        reveal_strlit("");
        assert(text@ + ""@ =~= text@);
    }
    let mut i: usize = 0;
    while i < secrets.len()
        invariant
            0 <= i <= secrets.len(),
            out@ == masked(text@, env@, secrets.deep_view().take(i as int)),
        decreases secrets.len() - i,
    {
        assert(secrets.deep_view().take(i + 1).drop_last() =~= secrets.deep_view().take(i as int));
        assert(secrets.deep_view().take(i + 1).last() == secrets@[i as int]@);
        match env.get(secrets[i].as_str()) {
            Some(value) => {
                if !value.as_str().is_empty() {
                    proof {
                        reveal_strlit("***");
                    }
                    out = replace_all(out.as_str(), value.as_str(), "***");
                }
            },
            None => {},
        }
        i = i + 1;
    }
    assert(secrets.deep_view().take(secrets.len() as int) =~= secrets.deep_view());
    out
}

/// Whether `secrets` names, among the variables of `env`, a non-empty value `v`.
pub open spec fn secret_value(env: Map<Seq<char>, String>, secrets: Seq<Seq<char>>, v: Seq<char>) -> bool {
    exists|k: int|
        0 <= k < secrets.len() && env.dom().contains(secrets[k]) && env[secrets[k]]@ == v && v.len() > 0
}

/// Masking leaves no non-empty secret value in the text, provided no such value holds a `*`
/// itself.
pub proof fn law_mask_hides_secret_values(
    text: Seq<char>,
    env: Map<Seq<char>, String>,
    secrets: Seq<Seq<char>>,
)
    requires
        forall|v: Seq<char>| secret_value(env, secrets, v) ==> star_free(v),
    ensures
        forall|v: Seq<char>| secret_value(env, secrets, v) ==> !contains_seq(masked(text, env, secrets), v),
    decreases secrets.len(),
{
    if secrets.len() > 0 {
        let front = secrets.drop_last();
        assert forall|v: Seq<char>| secret_value(env, front, v) implies secret_value(env, secrets, v) by {
            let k = choose|k: int|
                0 <= k < front.len() && env.dom().contains(front[k]) && env[front[k]]@ == v && v.len() > 0;
            assert(secrets[k] == front[k]);
        }
        law_mask_hides_secret_values(text, env, front);
        let t = masked(text, env, front);
        let n = secrets.last();
        reveal_strlit("***");
        if env.dom().contains(n) && env[n]@.len() > 0 {
            let p = env[n]@;
            assert(secret_value(env, secrets, p)) by {
                assert(secrets[secrets.len() - 1] == n);
            }
            assert forall|v: Seq<char>| secret_value(env, secrets, v) implies !contains_seq(
                replaced(t, p, mask_text()),
                v,
            ) by {
                lemma_replaced_by_stars(t, p, mask_text(), v);
                if v != p {
                    let k = choose|k: int|
                        0 <= k < secrets.len() && env.dom().contains(secrets[k]) && env[secrets[k]]@ == v
                            && v.len() > 0;
                    assert(k != secrets.len() - 1);
                    assert(front[k] == secrets[k]);
                    assert(secret_value(env, front, v));
                }
            }
        } else {
            assert forall|v: Seq<char>| secret_value(env, secrets, v) implies secret_value(env, front, v) by {
                let k = choose|k: int|
                    0 <= k < secrets.len() && env.dom().contains(secrets[k]) && env[secrets[k]]@ == v
                        && v.len() > 0;
                assert(k != secrets.len() - 1);
                assert(front[k] == secrets[k]);
            }
        }
    }
}

/// Masking leaves text in which no non-empty secret value occurs unchanged.
pub proof fn law_mask_keeps_text_without_secrets(
    text: Seq<char>,
    env: Map<Seq<char>, String>,
    secrets: Seq<Seq<char>>,
)
    requires
        forall|v: Seq<char>| secret_value(env, secrets, v) ==> !contains_seq(text, v),
    ensures
        masked(text, env, secrets) == text,
    decreases secrets.len(),
{
    if secrets.len() > 0 {
        let front = secrets.drop_last();
        assert forall|v: Seq<char>| secret_value(env, front, v) implies secret_value(env, secrets, v) by {
            let k = choose|k: int|
                0 <= k < front.len() && env.dom().contains(front[k]) && env[front[k]]@ == v && v.len() > 0;
            assert(secrets[k] == front[k]);
        }
        law_mask_keeps_text_without_secrets(text, env, front);
        let n = secrets.last();
        if env.dom().contains(n) && env[n]@.len() > 0 {
            assert(secret_value(env, secrets, env[n]@)) by {
                assert(secrets[secrets.len() - 1] == n);
            }
            lemma_replaced_absent(text, env[n]@, mask_text());
        }
    }
}

/// How many bytes UTF-8 gives `c`.
pub open spec fn char_width(c: char) -> nat {
    let u = c as u32;
    if u <= 0x7f {
        1
    } else if u <= 0x7ff {
        2
    } else if u <= 0xffff {
        3
    } else {
        4
    }
}

/// The longest prefix of `cs` whose UTF-8 encoding takes at most `max` bytes.
pub open spec fn fitting_prefix(cs: Seq<char>, max: int) -> Seq<char>
    decreases cs.len(),
{
    if cs.len() == 0 || char_width(cs[0]) > max {
        Seq::empty()
    } else {
        seq![cs[0]] + fitting_prefix(cs.drop_first(), max - char_width(cs[0]))
    }
}

/// The length in bytes that `str::len` reports for text `s`.
pub open spec fn byte_count(s: Seq<char>) -> usize {
    encode_utf8(s).len() as usize
}

/// The note put after output that was cut: `... [truncated, N bytes total]`.
pub open spec fn truncation_note(total: nat) -> Seq<char> {
    "... [truncated, "@ + decimal(total) + " bytes total]"@
}

/// Output longer than `max_bytes` bytes is cut at the last character that ends within
/// `max_bytes`, and a note with the full length follows it; shorter output is kept whole.
pub fn truncate_output(output: String, max_bytes: usize) -> (r: String)
    ensures
        byte_count(output@) <= max_bytes ==> r@ == output@,
        byte_count(output@) > max_bytes ==> r@ == fitting_prefix(output@, max_bytes as int)
            + truncation_note(byte_count(output@) as nat),
{
    let total = output.as_str().len();
    if total <= max_bytes {
        return output;
    }
    let cs = str_chars(output.as_str());
    let mut kept: Vec<char> = Vec::new();
    let mut used: usize = 0;
    let mut i: usize = 0;
    let mut fits = true;
    assert(cs@.skip(0) =~= cs@);
    while i < cs.len() && fits
        invariant
            0 <= i <= cs.len(),
            used <= max_bytes,
            fitting_prefix(cs@, max_bytes as int) == kept@ + (if fits {
                fitting_prefix(cs@.skip(i as int), max_bytes - used)
            } else {
                Seq::empty()
            }),
        decreases cs.len() - i + (if fits { 1int } else { 0int }),
    {
        let c = cs[i];
        let u = c as u32;
        let w: usize = if u <= 0x7f {
            1
        } else if u <= 0x7ff {
            2
        } else if u <= 0xffff {
            3
        } else {
            4
        };
        let ghost rest = cs@.skip(i as int);
        assert(rest[0] == c);
        assert(rest.drop_first() =~= cs@.skip(i + 1));
        if w <= max_bytes - used {
            kept.push(c);
            used = used + w;
            i = i + 1;
        } else {
            fits = false;
        }
    }
    proof {
        if fits {
            assert(cs@.skip(i as int) =~= Seq::<char>::empty());
        }
        assert(kept@ =~= fitting_prefix(output@, max_bytes as int));
    }
    let head = string_from_chars(kept.as_slice());
    let n = decimal_string(total as u64);
    let a = concat(head.as_str(), "... [truncated, ");
    let b = concat(a.as_str(), n.as_str());
    let r = concat(b.as_str(), " bytes total]");
    proof {
        reveal_strlit("... [truncated, ");
        reveal_strlit(" bytes total]");
        assert(r@ =~= fitting_prefix(output@, max_bytes as int) + truncation_note(
            byte_count(output@) as nat,
        ));
    }
    r
}

/// Whether each command of a batch succeeded, in order.
pub open spec fn successes(rs: Seq<CommandResult>) -> Seq<bool> {
    rs.map_values(|r: CommandResult| r.success)
}

/// Of `count` commands, the one that runs next after commands whose successes are `ok`: the
/// next in order, unless the last one failed or all have run.
pub open spec fn next_after(count: nat, ok: Seq<bool>) -> Option<nat> {
    if ok.len() > 0 && !ok.last() {
        None
    } else if ok.len() < count {
        Some(ok.len())
    } else {
        None
    }
}

/// Whether the successes `ok` are what running `count` commands one after the other gathers:
/// every command run was the one named next.
pub open spec fn gathered(count: nat, ok: Seq<bool>) -> bool {
    forall|i: int| 0 <= i < ok.len() ==> next_after(count, #[trigger] ok.take(i)) == Some(i as nat)
}

/// A batch of commands runs them in order and nothing after the first that fails: of what it
/// gathers, every command but the last succeeded, no more commands ran than there are, and
/// when nothing is left to run either all ran or the last one failed.
pub proof fn law_commands_stop_at_first_failure(count: nat, ok: Seq<bool>)
    requires
        gathered(count, ok),
    ensures
        ok.len() <= count,
        forall|i: int| 0 <= i < ok.len() - 1 ==> ok[i],
        next_after(count, ok) is None ==> (ok.len() == count || (ok.len() > 0 && !ok.last())),
{
    if ok.len() > 0 {
        assert(next_after(count, ok.take(ok.len() - 1)) == Some((ok.len() - 1) as nat));
    }
    assert forall|i: int| 0 <= i < ok.len() - 1 implies ok[i] by {
        assert(next_after(count, ok.take(i + 1)) == Some((i + 1) as nat));
        assert(ok.take(i + 1).last() == ok[i]);
    }
}

/// Runs commands.
pub struct CommandRunner;

impl CommandRunner {
    /// The command with its variables replaced, as it would run.
    pub fn interpolate_command(cmd: &str, env: &ResolvedEnv) -> (r: String)
        ensures
            r@ == interp(cmd@, env@, Map::empty()),
    {
        Interpolator::interpolate(cmd, env)
    }

    /// Where commands run: the directory the spec names, below the project root, or else
    /// `base` (the spec file's directory for tasks and jobs, the current one for shells).
    pub fn workdir_path(workdir_override: Option<&str>, project_root: &str, base: &str) -> (r:
        String)
        ensures
            r@ == match workdir_override {
                Some(p) => joined_path(project_root@, p@),
                None => base@,
            },
    {
        match workdir_override {
            Some(p) => join_path(project_root, p),
            None => owned(base),
        }
    }

    /// The error for a working directory that does not exist.
    pub fn missing_workdir(path: &str) -> (r: MeriadocError)
        ensures
            r matches MeriadocError::Execution(m) && m@ == "workdir does not exist: "@ + path@,
    {
        MeriadocError::Execution(concat("workdir does not exist: ", path))
    }

    /// Of `count` commands, the one to run next given the results so far: the next in
    /// order, unless the last one failed or all have run.
    pub fn next_command(count: usize, results: &[CommandResult]) -> (r: Option<usize>)
        ensures
            r == (if results@.len() > 0 && !results@.last().success {
                None
            } else if results@.len() < count {
                Some(results@.len() as usize)
            } else {
                None::<usize>
            }),
            next_after(count as nat, successes(results@)) == match r {
                Some(n) => Some(n as nat),
                None => None,
            },
    {
        let n = results.len();
        if n > 0 && !results[n - 1].success {
            None
        } else if n < count {
            Some(n)
        } else {
            None
        }
    }

    /// The result of a finished command: its exit code (128 when it has none, as when a
    /// signal ended it), and the captured streams, each cut to 100 KiB.
    pub fn finished(code: Option<i32>, success: bool, captured: Option<(String, String)>) -> (r:
        CommandResult)
        ensures
            r.exit_code == (match code {
                Some(c) => c,
                None => 128,
            }),
            r.success == success,
            match captured {
                Some((out, err)) => {
                    &&& byte_count(out@) <= 102400 ==> r.stdout@ == out@
                    &&& byte_count(out@) > 102400 ==> r.stdout@ == fitting_prefix(out@, 102400)
                        + truncation_note(byte_count(out@) as nat)
                    &&& byte_count(err@) <= 102400 ==> r.stderr@ == err@
                    &&& byte_count(err@) > 102400 ==> r.stderr@ == fitting_prefix(err@, 102400)
                        + truncation_note(byte_count(err@) as nat)
                },
                None => r.stdout@.len() == 0 && r.stderr@.len() == 0,
            },
    {
        let exit_code = match code {
            Some(c) => c,
            None => 128,
        };
        match captured {
            Some((out, err)) => {
                let stdout = truncate_output(out, 100 * 1024);
                let stderr = truncate_output(err, 100 * 1024);
                CommandResult { exit_code, success, stdout, stderr }
            },
            None => CommandResult {
                exit_code,
                success,
                stdout: String::new(),
                stderr: String::new(),
            },
        }
    }
}

} // verus!
