//! Per-invocation dispatch: which terminal path a subcommand takes.

use vstd::prelude::*;

use crate::yaml::{has_key, lookup, string_eq_str, Yaml};

verus! {

/// The terminal path of one invocation.
#[derive(Clone, Copy, Debug, PartialEq, Eq, Structural)]
pub enum ExecutionKind {
    /// The tool's own `init` subcommand, which writes a starter
    /// configuration file.
    ToolInit,
    /// The synthetic `auto_complete` subcommand.
    AutoComplete,
    /// A script subcommand: spawn a shell with the rendered script.
    Script,
    /// A request subcommand: build and send an HTTP request.
    Request,
}

/// Whether the selected subcommand declares a script: a `script` value
/// that is present and non-empty. A missing, null or empty script sends
/// the invocation down the request path.
pub open spec fn is_script_scmd(subcmd: Yaml) -> bool {
    &&& subcmd is Hash
    &&& has_key(subcmd->Hash_0@, "script"@)
    &&& {
        let v = lookup(subcmd->Hash_0@, "script"@);
        &&& !(v is Bad)
        &&& !(v is Null)
        &&& (v matches Yaml::Str(s) ==> s@.len() > 0)
    }
}

/// Decides the invocation's path: the tool's own `init` when invoked
/// under its own identity, the completion generator for
/// `auto_complete`, the script path when the subcommand declares a
/// present, non-empty `script`, and the request path otherwise.
pub fn choose_execution(app_name: &str, tool_name: &str, cmd_name: &str, subcmd: &Yaml) -> (r:
    ExecutionKind)
    ensures
        app_name@ == tool_name@ && cmd_name@ == "init"@ ==> r == ExecutionKind::ToolInit,
        !(app_name@ == tool_name@ && cmd_name@ == "init"@) && cmd_name@ == "auto_complete"@ ==> r
            == ExecutionKind::AutoComplete,
        !(app_name@ == tool_name@ && cmd_name@ == "init"@) && cmd_name@ != "auto_complete"@ ==> {
            &&& is_script_scmd(*subcmd) ==> r == ExecutionKind::Script
            &&& !is_script_scmd(*subcmd) ==> r == ExecutionKind::Request
        },
{
    let app = app_name.to_owned();
    let cmd = cmd_name.to_owned();
    if string_eq_str(&app, tool_name) && string_eq_str(&cmd, "init") {
        return ExecutionKind::ToolInit;
    }
    if string_eq_str(&cmd, "auto_complete") {
        return ExecutionKind::AutoComplete;
    }
    match subcmd.lookup("script") {
        Some(Yaml::Str(s)) => {
            if vstd::string::StrSliceExecFns::unicode_len(s.as_str()) == 0 {
                ExecutionKind::Request
            } else {
                ExecutionKind::Script
            }
        },
        Some(Yaml::Bad) => ExecutionKind::Request,
        Some(Yaml::Null) => ExecutionKind::Request,
        Some(_) => ExecutionKind::Script,
        None => {
            proof {
                if *subcmd is Hash && !has_key(subcmd->Hash_0@, "script"@) {
                    crate::yaml::lemma_lookup_absent(subcmd->Hash_0@, "script"@);
                }
            }
            ExecutionKind::Request
        },
    }
}

} // verus!
