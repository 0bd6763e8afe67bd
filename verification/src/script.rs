//! Script subcommand preparation: the recursion guard and the terminal
//! width carried into the child process's environment.

use vstd::prelude::*;

use crate::errors::ConfigError;
use crate::text::{dec_literal_val, is_dec_literal, parse_i64, parse_u16};
use crate::yaml::{has_key, lookup, Yaml};

verus! {

/// The recursion bound when the configuration declares none.
pub const DEFAULT_MAX_RECURSION: i64 = 100;

/// The configured recursion bound: the tree's `max_recursion_count`
/// when it is an integer, 100 when the tree does not declare one, and
/// nothing when it declares something that is not an integer.
pub open spec fn max_recursion_of(tree: Yaml) -> Option<int> {
    if tree is Hash && has_key(tree->Hash_0@, "max_recursion_count"@) {
        match lookup(tree->Hash_0@, "max_recursion_count"@) {
            Yaml::Int(m) => Some(m as int),
            _ => None,
        }
    } else {
        Some(100)
    }
}

/// The recursion counter carried in the environment: 0 when the
/// variable is absent, its value when it is a decimal integer in range,
/// and nothing otherwise.
pub open spec fn counter_of(env_value: Option<String>) -> Option<int> {
    match env_value {
        None => Some(0),
        Some(s) => if is_dec_literal(s@) && i64::MIN <= dec_literal_val(s@) <= i64::MAX {
            Some(dec_literal_val(s@))
        } else {
            None
        },
    }
}

/// Whether the guard admits an invocation: the counter must still be
/// below the bound.
pub open spec fn recursion_guard_passes(counter: int, max: int) -> bool {
    counter < max
}

/// Validates the recursion counter against the configured bound and
/// yields the counter for the child invocation: the parent's counter
/// plus one. Fails with the bound named when the counter has reached
/// it, and with a diagnostic when the bound or the counter is not an
/// integer.
pub fn check_recursion_count(tree: &Yaml, counter_env: Option<String>) -> (r: Result<
    i64,
    ConfigError,
>)
    ensures
        max_recursion_of(*tree) is None <==> r == Err::<i64, ConfigError>(
            ConfigError::MaxRecursionNotInt,
        ),
        max_recursion_of(*tree) is Some && counter_of(counter_env) is None <==> r == Err::<
            i64,
            ConfigError,
        >(ConfigError::RecursionCountNotInt),
        max_recursion_of(*tree) matches Some(m) ==> counter_of(counter_env) matches Some(c) ==> {
            &&& recursion_guard_passes(c, m) <==> r is Ok
            &&& r matches Ok(next) ==> next as int == c + 1
            &&& !recursion_guard_passes(c, m) ==> r == Err::<i64, ConfigError>(
                ConfigError::RecursionLimit(m as i64),
            )
        },
{
    let max_recursion_count: i64 = match tree.lookup("max_recursion_count") {
        Some(Yaml::Int(m)) => *m,
        Some(_) => {
            return Err(ConfigError::MaxRecursionNotInt);
        },
        None => {
            proof {
                if *tree is Hash && !has_key(tree->Hash_0@, "max_recursion_count"@) {
                    crate::yaml::lemma_lookup_absent(tree->Hash_0@, "max_recursion_count"@);
                }
            }
            DEFAULT_MAX_RECURSION
        },
    };
    let recursion_count: i64 = match counter_env {
        None => 0,
        Some(s) => match parse_i64(s.as_str()) {
            Some(c) => c,
            None => {
                return Err(ConfigError::RecursionCountNotInt);
            },
        },
    };
    if recursion_count >= max_recursion_count {
        return Err(ConfigError::RecursionLimit(max_recursion_count));
    }
    Ok(recursion_count + 1)
}

/// Recursion-guard law: with bound `n`, an invocation chain starting
/// from a fresh counter carries counter `d - 1` at depth `d`; every
/// depth up to `n` passes the guard and hands its child the counter
/// `d`, and depth `n + 1` is refused before any work is done.
pub proof fn lemma_recursion_chain(n: int, d: int)
    requires
        1 <= d,
        1 <= n,
    ensures
        d <= n ==> recursion_guard_passes(d - 1, n),
        d == n + 1 ==> !recursion_guard_passes(d - 1, n),
{
}

/// The terminal width for a script's environment: the `COLUMNS`
/// variable when it is set and a 16-bit integer (anything else set
/// there is fatal), else the queried terminal width, else 80.
pub fn get_terminal_width(columns_env: Option<String>, queried: Option<u16>) -> (r: Result<
    u16,
    ConfigError,
>)
    ensures
        columns_env is None ==> r == Ok::<u16, ConfigError>(
            match queried {
                Some(w) => w,
                None => 80u16,
            },
        ),
        columns_env matches Some(s) ==> {
            &&& r matches Ok(w) ==> is_dec_literal(s@) && s@[0] != '-' && w as int
                == dec_literal_val(s@)
            &&& r is Err ==> r == Err::<u16, ConfigError>(ConfigError::ColumnsNotInt) && !(
            is_dec_literal(s@) && s@.len() > 0 && s@[0] != '-' && 0 <= dec_literal_val(s@)
                <= u16::MAX)
        },
{
    match columns_env {
        Some(s) => match parse_u16(s.as_str()) {
            Some(w) => Ok(w),
            None => Err(ConfigError::ColumnsNotInt),
        },
        None => match queried {
            Some(w) => Ok(w),
            None => Ok(80),
        },
    }
}

/// Everything a script invocation needs from the core: the rendered
/// command line, the environment extensions, and whether output is
/// suppressed.
#[derive(Debug, PartialEq)]
pub struct ScriptPlan {
    /// The rendered script, run as a shell command line.
    pub script: String,
    /// The terminal width handed to the child under `COLUMNS`.
    pub columns: u16,
    /// The incremented recursion counter handed to the child.
    pub recursion_count: i64,
    /// Whether the child's output is buffered and discarded.
    pub quiet: bool,
}

/// Prepares a script invocation: renders the subcommand's `script`
/// template against the scope, validates the recursion counter against
/// the tree's bound, and fixes the terminal width. `quiet` follows the
/// `args` namespace of the scope. Success is owed unless an
/// input-determined failure exists or the template engine refuses the
/// script; each failure surfaces under its own error.
pub fn prepare_script(
    tree: &Yaml,
    subcmd: &Yaml,
    context: &crate::context::Context,
    counter_env: Option<String>,
    columns_env: Option<String>,
    queried_width: Option<u16>,
) -> (r: Result<ScriptPlan, ConfigError>)
    ensures
        r matches Ok(plan) ==> {
            &&& *subcmd is Hash && lookup(subcmd->Hash_0@, "script"@) is Str
            &&& max_recursion_of(*tree) matches Some(m) && counter_of(counter_env) matches Some(c)
                && recursion_guard_passes(c, m) && plan.recursion_count as int == c + 1
            &&& (columns_env is None ==> plan.columns == (match queried_width {
                Some(w) => w,
                None => 80u16,
            }))
            &&& (columns_env matches Some(s) ==> is_dec_literal(s@) && s@[0] != '-'
                && plan.columns as int == dec_literal_val(s@))
            &&& plan.quiet == (crate::json::json_lookup(context@, "args"@)
                matches crate::json::JsonValue::Object(aes) && crate::json::json_has_key(
                aes@,
                "quiet"@,
            ))
        },
        !(*subcmd is Hash && lookup(subcmd->Hash_0@, "script"@) is Str) <==> (r matches Err(e)
            && (e matches ConfigError::KeyNotString(kk) && kk@ == "script"@)),
        max_recursion_of(*tree) is None ==> r is Err,
        counter_of(counter_env) is None ==> r is Err,
        (max_recursion_of(*tree) matches Some(m) && counter_of(counter_env) matches Some(c)
            && !recursion_guard_passes(c, m)) ==> r is Err,
        (columns_env matches Some(s) && !(is_dec_literal(s@) && s@.len() > 0 && s@[0] != '-' && 0
            <= dec_literal_val(s@) <= u16::MAX)) ==> r is Err,
        r matches Err(e) ==> {
            &&& (e matches ConfigError::RecursionLimit(m) ==> (max_recursion_of(*tree) == Some(
                m as int,
            ) && (counter_of(counter_env) matches Some(c) && c >= m)))
            &&& (e is MaxRecursionNotInt ==> max_recursion_of(*tree) is None)
            &&& (e is RecursionCountNotInt ==> counter_of(counter_env) is None)
            &&& (e is ColumnsNotInt ==> (columns_env matches Some(s) && !(is_dec_literal(s@)
                && s@.len() > 0 && s@[0] != '-' && 0 <= dec_literal_val(s@) <= u16::MAX)))
            &&& (e is NotAMapping ==> !(crate::json::json_lookup(context@, "args"@) is Object))
            &&& {
                ||| e is KeyNotString
                ||| e is TemplateFailed
                ||| e is ColumnsNotInt
                ||| e is MaxRecursionNotInt
                ||| e is RecursionCountNotInt
                ||| e matches ConfigError::RecursionLimit(_)
                ||| e is NotAMapping
            }
        },
{
    let script_template: String = match subcmd.lookup("script") {
        Some(Yaml::Str(s)) => s.clone(),
        Some(_) => {
            return Err(ConfigError::KeyNotString("script".to_owned()));
        },
        None => {
            proof {
                if *subcmd is Hash && !has_key(subcmd->Hash_0@, "script"@) {
                    crate::yaml::lemma_lookup_absent(subcmd->Hash_0@, "script"@);
                }
            }
            return Err(ConfigError::KeyNotString("script".to_owned()));
        },
    };
    let script = match crate::template::get_compiled_template_str_with_context(
        &script_template,
        context,
    ) {
        Ok(s) => s,
        Err(e) => {
            return Err(e);
        },
    };
    let columns = match get_terminal_width(columns_env, queried_width) {
        Ok(w) => w,
        Err(e) => {
            return Err(e);
        },
    };
    let recursion_count = match check_recursion_count(tree, counter_env) {
        Ok(c) => c,
        Err(e) => {
            return Err(e);
        },
    };
    let quiet: bool = match context.get("args") {
        Some(crate::json::JsonValue::Object(aes)) => match crate::json::json_find_key_index(
            aes,
            "quiet",
        ) {
            Some(_) => true,
            None => false,
        },
        _ => {
            proof {
                if !crate::json::json_has_key(context@, "args"@) {
                    crate::json::lemma_json_lookup_absent(context@, "args"@);
                }
            }
            return Err(ConfigError::NotAMapping);
        },
    };
    Ok(ScriptPlan { script, columns, recursion_count, quiet })
}

} // verus!
