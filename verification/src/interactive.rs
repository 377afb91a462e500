//! Interactive shells: which shell it is, what it starts with and what it is told.
use vstd::prelude::*;

use crate::env::ResolvedEnv;
use crate::paths::{file_name_of, path_file_name};
use crate::text::{concat, contains_seq, contains_str, lowercase, owned, to_lower};

verus! {

/// The shells that get their own start-up file.
#[derive(Debug, Clone, Copy, PartialEq, Eq, Structural)]
pub enum ShellType {
    Zsh,
    Bash,
    Other,
}

/// The kind of a shell, from the lower-cased name of its program.
pub open spec fn shell_kind(name: Seq<char>) -> ShellType {
    if contains_seq(name, "zsh"@) {
        ShellType::Zsh
    } else if contains_seq(name, "bash"@) {
        ShellType::Bash
    } else {
        ShellType::Other
    }
}

/// The program name of a shell path: its last component, or nothing.
pub open spec fn shell_program(path: Seq<char>) -> Seq<char> {
    match path_file_name(path) {
        Some(n) => n,
        None => Seq::empty(),
    }
}

/// The commands joined by ` && `, each followed by ` && ` (nothing when there is none).
pub open spec fn init_script_of(cmds: Seq<Seq<char>>) -> Seq<char>
    decreases cmds.len(),
{
    if cmds.len() == 0 {
        Seq::empty()
    } else {
        init_script_of(cmds.drop_last()) + cmds.last() + " && "@
    }
}

/// The start-up file given to zsh.
pub open spec fn zshrc_text(home: Seq<char>, init_script: Seq<char>, name: Seq<char>) -> Seq<char> {
    "# Meriadoc shell wrapper\n# Source original zshrc if it exists\nif [[ -f \""@ + home
        + "/.zshrc\" ]]; then\n    source \""@ + home + "/.zshrc\"\nfi\n\n# Run init commands\n"@
        + init_script + "true\n\n# Modify prompt with green prefix\nPROMPT=\"%F{green}("@ + name
        + ")%f $PROMPT\"\n"@
}

/// The environment file given to zsh.
pub open spec fn zshenv_text(home: Seq<char>) -> Seq<char> {
    "# Meriadoc shell wrapper\nif [[ -f \""@ + home + "/.zshenv\" ]]; then\n    source \""@ + home
        + "/.zshenv\"\nfi\n"@
}

/// The start-up file given to bash.
pub open spec fn bashrc_text(home: Seq<char>, init_script: Seq<char>, name: Seq<char>) -> Seq<char> {
    "# Meriadoc shell wrapper\n# Source original bashrc if it exists\nif [[ -f \""@ + home
        + "/.bashrc\" ]]; then\n    source \""@ + home + "/.bashrc\"\nfi\n\n# Run init commands\n"@
        + init_script + "true\n\n# Modify prompt with green prefix\nPS1=\"\\[\\033[32m\\]("@ + name
        + ")\\[\\033[0m\\] $PS1\"\n"@
}

/// Starts interactive shells.
pub struct InteractiveShell;

impl InteractiveShell {
    /// Zsh when the lower-cased program name contains `zsh`, else Bash when it contains
    /// `bash`, else Other.
    pub fn detect_shell_type(shell_path: &str) -> (r: ShellType)
        ensures
            r == shell_kind(lowercase(shell_program(shell_path@))),
    {
        let name = match file_name_of(shell_path) {
            Some(n) => n,
            None => {
                proof {
                    reveal_strlit("");
                    assert(""@ =~= Seq::<char>::empty());
                }
                owned("")
            },
        };
        let lower = to_lower(name.as_str());
        if contains_str(lower.as_str(), "zsh") {
            ShellType::Zsh
        } else if contains_str(lower.as_str(), "bash") {
            ShellType::Bash
        } else {
            ShellType::Other
        }
    }

    /// The environment of the shell: `env` with `MERIADOC_SHELL` and `MERIADOC_PROJECT` set.
    pub fn shell_env(env: &ResolvedEnv, shell_name: &str, project_name: &str) -> (r: ResolvedEnv)
        ensures
            r@.dom() == env@.dom().insert("MERIADOC_SHELL"@).insert("MERIADOC_PROJECT"@),
            forall|k: Seq<char>|
                #![trigger r@[k]]
                env@.dom().contains(k) && k != "MERIADOC_SHELL"@ && k != "MERIADOC_PROJECT"@ ==> r@[k]
                    == env@[k],
            r@["MERIADOC_SHELL"@]@ == shell_name@,
            r@["MERIADOC_PROJECT"@]@ == project_name@,
    {
        let mut out = env.clone_strings();
        proof {
            reveal_strlit("MERIADOC_SHELL");
            reveal_strlit("MERIADOC_PROJECT");
            assert("MERIADOC_SHELL"@[9] != "MERIADOC_PROJECT"@[9]);
        }
        out.insert(owned("MERIADOC_SHELL"), owned(shell_name));
        out.insert(owned("MERIADOC_PROJECT"), owned(project_name));
        out
    }

    /// What runs before the shell starts: each command followed by ` && `.
    pub fn init_script(init_cmds: &[String]) -> (r: String)
        ensures
            r@ == init_script_of(init_cmds@.map_values(|c: String| c@)),
    {
        let mut out = owned("");
        proof {
            reveal_strlit("");
            assert(""@ =~= Seq::<char>::empty());
        }
        let mut i: usize = 0;
        while i < init_cmds.len()
            invariant
                0 <= i <= init_cmds.len(),
                out@ == init_script_of(init_cmds@.map_values(|c: String| c@).take(i as int)),
            decreases init_cmds.len() - i,
        {
            let ghost cs = init_cmds@.map_values(|c: String| c@);
            assert(cs.take(i + 1).drop_last() =~= cs.take(i as int));
            let a = concat(out.as_str(), init_cmds[i].as_str());
            out = concat(a.as_str(), " && ");
            i = i + 1;
        }
        assert(init_cmds@.map_values(|c: String| c@).take(init_cmds.len() as int)
            =~= init_cmds@.map_values(|c: String| c@));
        out
    }

    /// The zsh start-up file: the user's own, the init commands, then a green prompt prefix.
    pub fn zshrc_content(home: &str, init_script: &str, shell_name: &str) -> (r: String)
        ensures
            r@ == zshrc_text(home@, init_script@, shell_name@),
    {
        let a = concat("# Meriadoc shell wrapper\n# Source original zshrc if it exists\nif [[ -f \"", home);
        let b = concat(a.as_str(), "/.zshrc\" ]]; then\n    source \"");
        let c = concat(b.as_str(), home);
        let d = concat(c.as_str(), "/.zshrc\"\nfi\n\n# Run init commands\n");
        let e = concat(d.as_str(), init_script);
        let f = concat(e.as_str(), "true\n\n# Modify prompt with green prefix\nPROMPT=\"%F{green}(");
        let g = concat(f.as_str(), shell_name);
        concat(g.as_str(), ")%f $PROMPT\"\n")
    }

    /// The zsh environment file: the user's own.
    pub fn zshenv_content(home: &str) -> (r: String)
        ensures
            r@ == zshenv_text(home@),
    {
        let a = concat("# Meriadoc shell wrapper\nif [[ -f \"", home);
        let b = concat(a.as_str(), "/.zshenv\" ]]; then\n    source \"");
        let c = concat(b.as_str(), home);
        concat(c.as_str(), "/.zshenv\"\nfi\n")
    }

    /// The bash start-up file: the user's own, the init commands, then a green prompt prefix.
    pub fn bashrc_content(home: &str, init_script: &str, shell_name: &str) -> (r: String)
        ensures
            r@ == bashrc_text(home@, init_script@, shell_name@),
    {
        let a = concat("# Meriadoc shell wrapper\n# Source original bashrc if it exists\nif [[ -f \"", home);
        let b = concat(a.as_str(), "/.bashrc\" ]]; then\n    source \"");
        let c = concat(b.as_str(), home);
        let d = concat(c.as_str(), "/.bashrc\"\nfi\n\n# Run init commands\n");
        let e = concat(d.as_str(), init_script);
        let f = concat(e.as_str(), "true\n\n# Modify prompt with green prefix\nPS1=\"\\[\\033[32m\\](");
        let g = concat(f.as_str(), shell_name);
        concat(g.as_str(), ")\\[\\033[0m\\] $PS1\"\n")
    }

    /// The script that starts any other shell: the init commands, then `exec {shell} -i`.
    pub fn generic_script(init_script: &str, shell: &str) -> (r: String)
        ensures
            r@ == init_script@ + "exec "@ + shell@ + " -i"@,
    {
        let a = concat(init_script, "exec ");
        let b = concat(a.as_str(), shell);
        concat(b.as_str(), " -i")
    }
}

} // verus!
