//! The command line: its commands and options, and how option values are read.
use vstd::prelude::*;

use crate::text::{
    concat, decimal, find_char, first_char, is_digit, lemma_decimal_digits, parse_u64, parsed_u64,
    str_chars, substring, unsigned_digits,
};

verus! {

/// What to run.
#[derive(Debug, Clone, Copy, PartialEq, Eq, Structural)]
pub enum RunKind {
    Task,
    Job,
    Shell,
}

/// What to list.
#[derive(Debug, Clone, Copy, PartialEq, Eq, Structural)]
pub enum ListTarget {
    Projects,
    Tasks,
    Jobs,
    Shells,
}

/// What to show in detail.
#[derive(Debug, Clone, Copy, PartialEq, Eq, Structural)]
pub enum InfoTarget {
    Project,
    Task,
    Job,
    Shell,
}

/// What to validate.
#[derive(Debug)]
pub enum ValidateTarget {
    Project { name: String },
}

/// Changes to the configuration.
#[derive(Debug)]
pub enum ConfigCommand {
    Ls,
    Add { path: String },
    Rm { path: String },
}

/// Cache operations.
#[derive(Debug)]
pub enum CacheCommand {
    Ls,
    Clear,
}

/// Whose variables an `env` command is about.
#[derive(Debug, Clone, Copy, PartialEq, Eq, Structural)]
pub enum EnvTarget {
    Task,
    Job,
    Shell,
}

/// Variable operations.
#[derive(Debug)]
pub enum EnvCommand {
    /// Show the variables of a task, job or shell.
    Show { target: EnvTarget, name: String },
    /// List the saved variable files.
    Ls,
    /// Write a template variable file for a task, job or shell.
    Init { target: EnvTarget, name: String },
    /// Delete a saved variable file.
    Rm { project: String, entity: String },
}

/// Options shared by the commands that run something.
#[derive(Debug)]
pub struct RunOptions {
    /// Variables set on the command line (`KEY=VALUE`).
    pub env: Vec<(String, String)>,
    /// A dotenv file to read variables from.
    pub env_file: Option<String>,
    /// Show what would run without running it.
    pub dry_run: bool,
    /// Never ask for missing variables.
    pub no_interactive: bool,
    /// Ask for missing variables even without a terminal.
    pub interactive: bool,
    /// Ask for every variable, showing its current value.
    pub prompt_all: bool,
    /// Print each command before it runs.
    pub verbose: bool,
    /// The longest a command may run, in seconds (none: no limit).
    pub timeout: Option<u64>,
}

/// A command of the command line.
#[derive(Debug)]
pub enum Commands {
    Run { kind: RunKind, name: String, options: RunOptions },
    Task { name: String, options: RunOptions },
    Job { name: String, options: RunOptions },
    Shell { name: String, options: RunOptions },
    Ls { target: Option<ListTarget> },
    Info { target: InfoTarget, name: String },
    Validate { target: Option<ValidateTarget> },
    Config { command: ConfigCommand },
    Cache { command: CacheCommand },
    Env { command: EnvCommand },
    Doctor,
    Serve,
    Server { port: u16 },
}

/// The parsed command line.
#[derive(Debug)]
pub struct Cli {
    /// A configuration file to use instead of the usual one.
    pub config: Option<String>,
    /// Write JSON for programs to read.
    pub json: bool,
    pub command: Commands,
}

/// `s` split at its first `=`, if it has one.
pub open spec fn key_val_parts(s: Seq<char>) -> Option<(Seq<char>, Seq<char>)> {
    match first_char(s, '=') {
        Some(i) => Some((s.take(i), s.skip(i + 1))),
        None => None,
    }
}

/// The complaint about an argument that is not `KEY=VALUE`.
pub open spec fn key_val_error(s: Seq<char>) -> Seq<char> {
    "invalid KEY=VALUE: `"@ + s + "`"@
}

/// Reads `KEY=VALUE`: the key is the text before the first `=`, the value all after it.
pub fn parse_key_val(s: &str) -> (r: Result<(String, String), String>)
    ensures
        match key_val_parts(s@) {
            Some((k, v)) => r matches Ok(p) && p.0@ == k && p.1@ == v,
            None => r matches Err(e) && e@ == key_val_error(s@),
        },
{
    let cs = str_chars(s);
    match find_char(&cs, '=') {
        Some(i) => {
            let k = substring(&cs, 0, i);
            let v = substring(&cs, i + 1, cs.len());
            assert(cs@.subrange(0, i as int) =~= s@.take(i as int));
            assert(cs@.subrange(i + 1, cs.len() as int) =~= s@.skip(i + 1));
            Ok((k, v))
        },
        None => {
            let a = concat("invalid KEY=VALUE: `", s);
            Err(concat(a.as_str(), "`"))
        },
    }
}

/// A key without `=`, joined to any value by `=`, reads back as that key and that value.
pub proof fn law_key_val_round_trip(k: Seq<char>, v: Seq<char>)
    requires
        !k.contains('='),
    ensures
        key_val_parts(k + "="@ + v) == Some((k, v)),
{
    reveal_strlit("=");
    let s = k + "="@ + v;
    assert(s[k.len() as int] == '=');
    let i = choose|i: int| 0 <= i < s.len() && s[i] == '=' && forall|j: int| 0 <= j < i ==> s[j] != '=';
    if i < k.len() {
        assert(s[i] == k[i]);
        assert(k.contains('='));
    }
    if i > k.len() {
        assert(s[k.len() as int] != '=');
    }
    assert(i == k.len());
    assert(s.take(i) =~= k);
    assert(s.skip(i + 1) =~= v);
}

/// What a timeout argument gives: a whole number of seconds; a positive number is that
/// limit, and 0 means no limit.
pub open spec fn timeout_of(s: Seq<char>) -> Result<Option<u64>, Seq<char>> {
    match parsed_u64(s) {
        None => Err("invalid timeout: "@ + s),
        Some(n) => if n == 0 {
            Ok(None)
        } else {
            Ok(Some(n))
        },
    }
}

/// Any whole number of seconds, written in decimal, is read back as that timeout: a positive
/// number as that limit, 0 as no limit.
pub proof fn law_timeout_round_trip(n: u64)
    ensures
        timeout_of(decimal(n as nat)) == Ok::<Option<u64>, Seq<char>>(
            if n == 0 {
                None
            } else {
                Some(n)
            },
        ),
{
    lemma_decimal_digits(n as nat);
    let ds = decimal(n as nat);
    assert(is_digit(ds[0]));
    assert(unsigned_digits(ds) == ds);
}

/// Reads a timeout in seconds: a positive number is the limit, 0 means no limit.
pub fn parse_timeout(s: &str) -> (r: Result<Option<u64>, String>)
    ensures
        match timeout_of(s@) {
            Ok(t) => r == Ok::<Option<u64>, String>(t),
            Err(m) => r matches Err(e) && e@ == m,
        },
{
    match parse_u64(s) {
        None => Err(concat("invalid timeout: ", s)),
        Some(n) => if n == 0 {
            Ok(None)
        } else {
            Ok(Some(n))
        },
    }
}

/// When to ask the user for values.
#[derive(Debug, Clone, Copy)]
pub struct InteractiveMode {
    /// Never ask: missing values are errors.
    pub no_interactive: bool,
    /// Ask for missing values even without a terminal.
    pub interactive: bool,
    /// Ask for every value, showing its current one.
    pub prompt_all: bool,
}

impl InteractiveMode {
    /// The mode the run options ask for.
    pub fn from_options(options: &RunOptions) -> (r: Self)
        ensures
            r.no_interactive == options.no_interactive,
            r.interactive == options.interactive,
            r.prompt_all == options.prompt_all,
    {
        InteractiveMode {
            no_interactive: options.no_interactive,
            interactive: options.interactive,
            prompt_all: options.prompt_all,
        }
    }

    /// Whether to ask for missing values, given whether input comes from a terminal: never
    /// when told not to; always when told to ask or to ask for everything; else when it does.
    pub fn should_prompt_on(&self, stdin_is_terminal: bool) -> (r: bool)
        ensures
            r == (!self.no_interactive && (self.interactive || self.prompt_all
                || stdin_is_terminal)),
    {
        if self.no_interactive {
            return false;
        }
        if self.interactive || self.prompt_all {
            return true;
        }
        stdin_is_terminal
    }

    /// Whether to ask for every value.
    pub fn should_prompt_all(&self) -> (r: bool)
        ensures
            r == (self.prompt_all && !self.no_interactive),
    {
        self.prompt_all && !self.no_interactive
    }
}

} // verus!
