//! Shell dialect adapter: the three supported shells, their names, hook
//! script text, profile paths, default `cd` replacement and the two-part
//! alias template.

use vstd::prelude::*;

verus! {

use crate::strutil::str_eq;

#[derive(Clone, Copy, Debug, PartialEq, Eq, Structural)]
pub enum Shell {
    Bash,
    Fish,
    Zsh,
}

/// The shell identifier used in configuration files and in the cache.
pub open spec fn spec_shell_name(s: Shell) -> Seq<char> {
    match s {
        Shell::Bash => ("bash")@,
        Shell::Fish => ("fish")@,
        Shell::Zsh => ("zsh")@,
    }
}

/// The hook script text for a shell, with `{{{exec_path}}}` and
/// `{{{cd_command}}}` placeholders still unfilled.
pub open spec fn spec_shell_script(s: Shell) -> Seq<char> {
    match s {
        Shell::Bash => (BASH_SCRIPT)@,
        Shell::Fish => (FISH_SCRIPT)@,
        Shell::Zsh => (ZSH_SCRIPT)@,
    }
}

/// The start of an alias definition, before the alias name is substituted
/// for `{{{alias_name}}}`.
pub open spec fn spec_alias_start(s: Shell) -> Seq<char> {
    match s {
        Shell::Bash => ("{{{alias_name}}}() {")@,
        Shell::Zsh => ("{{{alias_name}}}() {")@,
        Shell::Fish => ("function {{{alias_name}}}")@,
    }
}

/// The line closing an alias definition.
pub open spec fn spec_alias_end(s: Shell) -> Seq<char> {
    match s {
        Shell::Bash => ("}")@,
        Shell::Zsh => ("}")@,
        Shell::Fish => ("end")@,
    }
}

pub const BASH_SCRIPT: &'static str = "cdwe() {\n    {{{cd_command}}} \"$@\" || return $?\n    eval \"$({{{exec_path}}} run --old_dir \"$CDWE_OLD_DIR\" --new_dir \"$PWD\")\"\n    export CDWE_OLD_DIR=\"$PWD\"\n}\nalias cd=\"cdwe\"\nexport CDWE_OLD_DIR=\"$PWD\"\n";

pub const ZSH_SCRIPT: &'static str = "cdwe() {\n    {{{cd_command}}} \"$@\" || return $?\n    eval \"$({{{exec_path}}} run --old_dir \"$CDWE_OLD_DIR\" --new_dir \"$PWD\")\"\n    export CDWE_OLD_DIR=\"$PWD\"\n}\nalias cd=\"cdwe\"\nexport CDWE_OLD_DIR=\"$PWD\"\n";

pub const FISH_SCRIPT: &'static str = "function cdwe\n    {{{cd_command}}} $argv; or return $status\n    eval ({{{exec_path}}} run --old_dir \"$CDWE_OLD_DIR\" --new_dir \"$PWD\")\n    set -gx CDWE_OLD_DIR $PWD\nend\nalias cd=\"cdwe\"\nset -gx CDWE_OLD_DIR $PWD\n";

/// The shell identifier was not one of `bash`, `fish` or `zsh`.
#[derive(Clone, Copy, Debug, PartialEq, Eq, Structural)]
pub struct ShellParseError;

impl Shell {
    /// The shell's identifier.
    pub fn to_string(&self) -> (r: String)
        ensures
            r@ == spec_shell_name(*self),
    {
        match self {
            Shell::Bash => "bash".to_owned(),
            Shell::Fish => "fish".to_owned(),
            Shell::Zsh => "zsh".to_owned(),
        }
    }

    /// Parses a shell identifier; exactly `bash`, `fish` and `zsh` are
    /// accepted.
    pub fn from_string(s: &str) -> (r: Result<Shell, ShellParseError>)
        ensures
            s@ == spec_shell_name(Shell::Bash) ==> r == Ok::<Shell, ShellParseError>(Shell::Bash),
            s@ == spec_shell_name(Shell::Fish) ==> r == Ok::<Shell, ShellParseError>(Shell::Fish),
            s@ == spec_shell_name(Shell::Zsh) ==> r == Ok::<Shell, ShellParseError>(Shell::Zsh),
            r is Err <==> (s@ != spec_shell_name(Shell::Bash) && s@ != spec_shell_name(Shell::Fish)
                && s@ != spec_shell_name(Shell::Zsh)),
    {
        proof {
            reveal_strlit("bash");
            reveal_strlit("fish");
            reveal_strlit("zsh");
            assert(("bash")@[0] == 'b' && ("fish")@[0] == 'f');
            assert(("bash")@.len() == 4 && ("zsh")@.len() == 3);
            assert(("bash")@ != ("fish")@);
            assert(("bash")@ != ("zsh")@);
            assert(("fish")@ != ("zsh")@);
        }
        if str_eq(s, "bash") {
            Ok(Shell::Bash)
        } else if str_eq(s, "fish") {
            Ok(Shell::Fish)
        } else if str_eq(s, "zsh") {
            Ok(Shell::Zsh)
        } else {
            Err(ShellParseError)
        }
    }

    /// The embedded hook script for this shell, placeholders unfilled.
    pub fn get_shell_script(&self) -> (r: String)
        ensures
            r@ == spec_shell_script(*self),
    {
        match self {
            Shell::Bash => BASH_SCRIPT.to_owned(),
            Shell::Fish => FISH_SCRIPT.to_owned(),
            Shell::Zsh => ZSH_SCRIPT.to_owned(),
        }
    }

    /// The shell's profile file inside the given home directory.
    pub fn get_config_path(&self, home: &str) -> (r: String)
        ensures
            match *self {
                Shell::Bash => r@ == home@ + ("/.bashrc")@,
                Shell::Fish => r@ == home@ + ("/.config/fish/config.fish")@,
                Shell::Zsh => r@ == home@ + ("/.zshrc")@,
            },
    {
        let mut out = home.to_owned();
        match self {
            Shell::Bash => out.append("/.bashrc"),
            Shell::Fish => out.append("/.config/fish/config.fish"),
            Shell::Zsh => out.append("/.zshrc"),
        }
        out
    }

    /// Where the hook script is installed inside the given home directory.
    pub fn get_shell_script_target(&self, home: &str) -> (r: String)
        ensures
            match *self {
                Shell::Bash => r@ == home@ + ("/.cdwe.bash")@,
                Shell::Fish => r@ == home@ + ("/.cdwe.fish")@,
                Shell::Zsh => r@ == home@ + ("/.cdwe.zsh")@,
            },
    {
        let mut out = home.to_owned();
        match self {
            Shell::Bash => out.append("/.cdwe.bash"),
            Shell::Fish => out.append("/.cdwe.fish"),
            Shell::Zsh => out.append("/.cdwe.zsh"),
        }
        out
    }

    /// The `cd` replacement the hook uses when the configuration names none.
    pub fn get_default_command(&self) -> (r: String)
        ensures
            match *self {
                Shell::Bash => r@ == ("builtin cd")@,
                Shell::Fish => r@ == ("cd")@,
                Shell::Zsh => r@ == ("builtin cd")@,
            },
    {
        match self {
            Shell::Bash => "builtin cd".to_owned(),
            Shell::Fish => "cd".to_owned(),
            Shell::Zsh => "builtin cd".to_owned(),
        }
    }

    /// The two-part alias template: the definition's first line with the
    /// `{{{alias_name}}}` placeholder, and its closing line.
    pub fn get_alias_command(&self) -> (r: (String, String))
        ensures
            r.0@ == spec_alias_start(*self),
            r.1@ == spec_alias_end(*self),
    {
        match self {
            Shell::Bash => ("{{{alias_name}}}() {".to_owned(), "}".to_owned()),
            Shell::Zsh => ("{{{alias_name}}}() {".to_owned(), "}".to_owned()),
            Shell::Fish => ("function {{{alias_name}}}".to_owned(), "end".to_owned()),
        }
    }
}

} // verus!
