//! Shell-completion support: which shell a completion script is for.

use vstd::prelude::*;

use crate::errors::ConfigError;
use crate::text::{ascii_lowercase, lower_chars};
use crate::yaml::string_eq_str;

verus! {

/// A shell the tool can generate completion scripts for.
#[derive(Clone, Copy, Debug, PartialEq, Eq, Structural)]
pub enum ShellKind {
    /// zsh.
    Zsh,
    /// bash.
    Bash,
    /// fish.
    Fish,
    /// PowerShell.
    PowerShell,
    /// elvish.
    Elvish,
}

/// Which shell a (case-insensitively compared) name selects, if any.
pub open spec fn shell_of(s: Seq<char>) -> Option<ShellKind> {
    let l = lower_chars(s);
    if l == "zsh"@ {
        Some(ShellKind::Zsh)
    } else if l == "bash"@ {
        Some(ShellKind::Bash)
    } else if l == "fish"@ {
        Some(ShellKind::Fish)
    } else if l == "powershell"@ {
        Some(ShellKind::PowerShell)
    } else if l == "elvish"@ {
        Some(ShellKind::Elvish)
    } else {
        None
    }
}

/// Parses the `SHELL` argument of the completion subcommand,
/// case-insensitively. An unknown shell name is a fatal usage error.
pub fn parse_shell_name(name: &str) -> (r: Result<ShellKind, ConfigError>)
    ensures
        shell_of(name@) matches Some(k) ==> r == Ok::<ShellKind, ConfigError>(k),
        shell_of(name@) is None ==> (r matches Err(e) && (e
            matches ConfigError::ShellNotSupported(n) && n@ == name@)),
{
    let lower = ascii_lowercase(name);
    if string_eq_str(&lower, "zsh") {
        Ok(ShellKind::Zsh)
    } else if string_eq_str(&lower, "bash") {
        Ok(ShellKind::Bash)
    } else if string_eq_str(&lower, "fish") {
        Ok(ShellKind::Fish)
    } else if string_eq_str(&lower, "powershell") {
        Ok(ShellKind::PowerShell)
    } else if string_eq_str(&lower, "elvish") {
        Ok(ShellKind::Elvish)
    } else {
        Err(ConfigError::ShellNotSupported(name.to_owned()))
    }
}

} // verus!
