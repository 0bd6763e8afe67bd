//! Augmentation of a merged command tree.
//!
//! Every subcommand receives the default `quiet` and `raw_response` flags,
//! every non-script subcommand also receives the `template` flag, a
//! synthetic `auto_complete` subcommand is appended, and the declared
//! version string is resolved against the tool's own identity. A declared
//! flag that reuses a reserved short letter or long name is a fatal
//! configuration error.

use vstd::prelude::*;

use crate::errors::ConfigError;
use crate::merge::find_key_index;
use crate::yaml::{get_yaml_string, has_key, lemma_lookup_at_first_match, lookup, string_eq_str,
    Yaml};

verus! {

/// The entry list of a default flag declaration: its short letter, long
/// name, help text, and whether the flag takes a value.
pub open spec fn is_arg_option(
    opts: Seq<(String, Yaml)>,
    short: Seq<char>,
    long: Seq<char>,
    help: Seq<char>,
    takes_value: bool,
) -> bool {
    &&& opts.len() == 4
    &&& opts[0].0@ == "short"@ && (opts[0].1 matches Yaml::Str(s) && s@ == short)
    &&& opts[1].0@ == "long"@ && (opts[1].1 matches Yaml::Str(l) && l@ == long)
    &&& opts[2].0@ == "help"@ && (opts[2].1 matches Yaml::Str(h) && h@ == help)
    &&& opts[3].0@ == "takes_value"@ && (opts[3].1 matches Yaml::Bool(b) && b == takes_value)
}

/// Builds the option mapping of one flag declaration.
fn get_arg_option(short: &str, long: &str, help: &str, takes_value: bool) -> (opts: Vec<
    (String, Yaml),
>)
    ensures
        is_arg_option(opts@, short@, long@, help@, takes_value),
{
    let mut opts: Vec<(String, Yaml)> = Vec::new();
    opts.push(("short".to_owned(), get_yaml_string(short)));
    opts.push(("long".to_owned(), get_yaml_string(long)));
    opts.push(("help".to_owned(), get_yaml_string(help)));
    opts.push(("takes_value".to_owned(), Yaml::Bool(takes_value)));
    opts
}

/// A flag declaration as it stands in a subcommand's `args` list: a
/// single-entry mapping from the flag's name to its options.
pub open spec fn is_arg_decl(
    y: Yaml,
    name: Seq<char>,
    short: Seq<char>,
    long: Seq<char>,
    takes_value: bool,
) -> bool {
    &&& y matches Yaml::Hash(es)
    &&& es@.len() == 1
    &&& es@[0].0@ == name
    &&& es@[0].1 matches Yaml::Hash(opts)
    &&& exists|h: Seq<char>| is_arg_option(opts@, short, long, h, takes_value)
}

/// Wraps a flag's option mapping under the flag's name.
fn get_arg_yaml(name: &str, options: Vec<(String, Yaml)>) -> (y: Yaml)
    ensures
        y matches Yaml::Hash(es) && es@.len() == 1 && es@[0].0@ == name@ && (es@[0].1
            matches Yaml::Hash(opts) && opts@ == options@),
{
    let mut es: Vec<(String, Yaml)> = Vec::new();
    es.push((name.to_owned(), Yaml::Hash(options)));
    Yaml::Hash(es)
}

/// The injected `--template/-t` flag, which selects the output template.
fn get_template_arg_yaml() -> (y: Yaml)
    ensures
        is_arg_decl(y, "template"@, "t"@, "template"@, true),
{
    get_arg_yaml("template", get_arg_option("t", "template", "Change the output template", true))
}

/// The injected `--quiet/-q` flag, which suppresses all output.
fn get_quiet_arg_yaml() -> (y: Yaml)
    ensures
        is_arg_decl(y, "quiet"@, "q"@, "quiet"@, false),
{
    get_arg_yaml("quiet", get_arg_option("q", "quiet", "Do not output", false))
}

/// The injected `--raw_response/-R` flag, which prints the response as-is.
fn get_raw_arg_yaml() -> (y: Yaml)
    ensures
        is_arg_decl(y, "raw_response"@, "R"@, "raw_response"@, false),
{
    get_arg_yaml(
        "raw_response",
        get_arg_option("R", "raw_response", "Do not parse response with template", false),
    )
}

/// Holds when the flag entry `(name, options)` sets option `okey` (the
/// flag's `short` or `long` option) to the string `oval`.
pub open spec fn entry_sets_option(entry: (String, Yaml), okey: Seq<char>, oval: Seq<char>) -> bool {
    entry.1 matches Yaml::Hash(opts) && (lookup(opts@, okey) matches Yaml::Str(v) && v@ == oval)
}

/// Holds when some flag of the declaration `arg` sets option `okey` to
/// the string `oval`.
pub open spec fn arg_sets_option(arg: Yaml, okey: Seq<char>, oval: Seq<char>) -> bool {
    arg matches Yaml::Hash(es) && (exists|i: int|
        0 <= i < es@.len() && entry_sets_option(#[trigger] es@[i], okey, oval))
}

/// Holds when some declaration in `args` uses the reserved short letter
/// `short` or the reserved long name `long`, under any flag name.
pub open spec fn args_use_reserved(args: Seq<Yaml>, short: Seq<char>, long: Seq<char>) -> bool {
    exists|i: int|
        0 <= i < args.len() && (arg_sets_option(#[trigger] args[i], "short"@, short)
            || arg_sets_option(args[i], "long"@, long))
}

/// Holds when a flag of the declaration `arg` that is *not* itself named
/// `name` uses the reserved short letter or long name: the fatal
/// collision of the collision rule.
pub open spec fn arg_conflicts_reserved(
    arg: Yaml,
    name: Seq<char>,
    short: Seq<char>,
    long: Seq<char>,
) -> bool {
    arg matches Yaml::Hash(es) && (exists|i: int|
        0 <= i < es@.len() && (#[trigger] es@[i]).0@ != name && (entry_sets_option(
            es@[i],
            "short"@,
            short,
        ) || entry_sets_option(es@[i], "long"@, long)))
}

/// Holds when some declaration in `args` collides fatally with the
/// reserved flag `name`: a differently-named flag uses its short letter
/// or long name.
pub open spec fn args_conflict_reserved(
    args: Seq<Yaml>,
    name: Seq<char>,
    short: Seq<char>,
    long: Seq<char>,
) -> bool {
    exists|i: int|
        0 <= i < args.len() && arg_conflicts_reserved(#[trigger] args[i], name, short, long)
}

/// Reports whether the flag entry sets option `okey` to `oval`.
fn entry_sets_option_exec(entry: &(String, Yaml), okey: &str, oval: &str) -> (r: bool)
    ensures
        r == entry_sets_option(*entry, okey@, oval@),
{
    match (&entry.1).lookup(okey) {
        Some(Yaml::Str(v)) => string_eq_str(v, oval),
        Some(_) => false,
        None => {
            proof {
                if entry.1 is Hash && !has_key(entry.1->Hash_0@, okey@) {
                    crate::yaml::lemma_lookup_absent(entry.1->Hash_0@, okey@);
                }
            }
            false
        },
    }
}

/// Checks the declared `args` against one reserved flag, by the
/// collision rule: a flag that itself is named `name` and uses the
/// reserved short letter or long name is reported as already declared,
/// so injection is skipped; a *differently*-named flag that uses them is
/// a fatal configuration error, never a silent skip.
fn check_existing_options(args: &Vec<Yaml>, name: &str, short: &str, long: &str) -> (r: Result<
    bool,
    ConfigError,
>)
    ensures
        r is Err <==> args_conflict_reserved(args@, name@, short@, long@),
        r matches Err(e) ==> (e matches ConfigError::ReservedShortFlag(s) && s@ == short@) || (
        e matches ConfigError::ReservedLongFlag(l) && l@ == long@),
        r matches Ok(b) ==> b == args_use_reserved(args@, short@, long@),
{
    let n = args.len();
    let mut found: bool = false;
    let mut i: usize = 0;
    while i < n
        invariant
            n == args.len(),
            i <= n,
            forall|x: int|
                0 <= x < i ==> !arg_conflicts_reserved(#[trigger] args@[x], name@, short@, long@),
            found == (exists|x: int|
                0 <= x < i && (arg_sets_option(#[trigger] args@[x], "short"@, short@)
                    || arg_sets_option(args@[x], "long"@, long@))),
        decreases n - i,
    {
        let mut arg_found: bool = false;
        match &args[i] {
            Yaml::Hash(es) => {
                let m = es.len();
                let mut j: usize = 0;
                while j < m
                    invariant
                        m == es.len(),
                        j <= m,
                        0 <= i < n,
                        n == args.len(),
                        args@[i as int] is Hash && args@[i as int]->Hash_0@ == es@,
                        forall|y: int|
                            0 <= y < j ==> !((#[trigger] es@[y]).0@ != name@ && (
                            entry_sets_option(es@[y], "short"@, short@) || entry_sets_option(
                                es@[y],
                                "long"@,
                                long@,
                            ))),
                        arg_found == (exists|y: int|
                            0 <= y < j && (entry_sets_option(#[trigger] es@[y], "short"@, short@)
                                || entry_sets_option(es@[y], "long"@, long@))),
                        forall|x: int|
                            0 <= x < i ==> !arg_conflicts_reserved(
                                #[trigger] args@[x],
                                name@,
                                short@,
                                long@,
                            ),
                    decreases m - j,
                {
                    let s_hit = entry_sets_option_exec(&es[j], "short", short);
                    let l_hit = entry_sets_option_exec(&es[j], "long", long);
                    if s_hit || l_hit {
                        if !string_eq_str(&es[j].0, name) {
                            proof {
                                assert(arg_conflicts_reserved(
                                    args@[i as int],
                                    name@,
                                    short@,
                                    long@,
                                ));
                            }
                            if s_hit {
                                return Err(ConfigError::ReservedShortFlag(short.to_owned()));
                            }
                            return Err(ConfigError::ReservedLongFlag(long.to_owned()));
                        }
                        arg_found = true;
                    }
                    j = j + 1;
                }
                proof {
                    assert(arg_found == (arg_sets_option(args@[i as int], "short"@, short@)
                        || arg_sets_option(args@[i as int], "long"@, long@)));
                }
            },
            _ => {},
        }
        if arg_found {
            found = true;
        }
        proof {
            assert(found == (exists|x: int|
                0 <= x < i + 1 && (arg_sets_option(#[trigger] args@[x], "short"@, short@)
                    || arg_sets_option(args@[x], "long"@, long@))));
        }
        i = i + 1;
    }
    Ok(found)
}

/// The reserved flag names and option keys are pairwise distinct.
proof fn lemma_flag_literals_distinct()
    ensures
        "q"@ != "t"@,
        "R"@ != "t"@,
        "R"@ != "q"@,
        "quiet"@ != "template"@,
        "raw_response"@ != "template"@,
        "raw_response"@ != "quiet"@,
        "short"@ != "long"@,
{
    reveal_strlit("q");
    reveal_strlit("t");
    reveal_strlit("R");
    reveal_strlit("quiet");
    reveal_strlit("template");
    reveal_strlit("raw_response");
    reveal_strlit("short");
    reveal_strlit("long");
    assert("q"@[0] == 'q' && "t"@[0] == 't' && "R"@[0] == 'R');
    assert("quiet"@.len() == 5 && "template"@.len() == 8 && "raw_response"@.len() == 12);
    assert("short"@.len() == 5 && "long"@.len() == 4);
    assert("quiet"@[0] == 'q' && "raw_response"@[0] == 'r');
}

/// The synthetic shell-completion subcommand that augmentation appends:
/// named `auto_complete`, with a single required `SHELL` argument.
pub open spec fn is_auto_complete_scmd(y: Yaml) -> bool {
    &&& y matches Yaml::Hash(es)
    &&& es@.len() == 1
    &&& es@[0].0@ == "auto_complete"@
    &&& es@[0].1 matches Yaml::Hash(opts)
    &&& lookup(opts@, "about"@) matches Yaml::Str(d) && d@ == "Create auto complete script"@
    &&& lookup(opts@, "args"@) matches Yaml::Array(args) && args@.len() == 1 && (args@[0]
        matches Yaml::Hash(sh) && sh@.len() == 1 && sh@[0].0@ == "SHELL"@ && (sh@[0].1
        matches Yaml::Hash(shopts) && (lookup(shopts@, "help"@) matches Yaml::Str(h) && h@
        == "Which shell"@) && lookup(shopts@, "required"@) == Yaml::Bool(true)))
}

/// Builds the synthetic `auto_complete` subcommand.
fn add_auto_complete_cmd() -> (y: Yaml)
    ensures
        is_auto_complete_scmd(y),
{
    let mut shell_arg_options: Vec<(String, Yaml)> = Vec::new();
    shell_arg_options.push(("help".to_owned(), get_yaml_string("Which shell")));
    shell_arg_options.push(("required".to_owned(), Yaml::Bool(true)));

    let mut shell_arg: Vec<(String, Yaml)> = Vec::new();
    shell_arg.push(("SHELL".to_owned(), Yaml::Hash(shell_arg_options)));

    let mut args: Vec<Yaml> = Vec::new();
    args.push(Yaml::Hash(shell_arg));

    let mut opts: Vec<(String, Yaml)> = Vec::new();
    opts.push(("about".to_owned(), get_yaml_string("Create auto complete script")));
    opts.push(("args".to_owned(), Yaml::Array(args)));

    let mut es: Vec<(String, Yaml)> = Vec::new();
    es.push(("auto_complete".to_owned(), Yaml::Hash(opts)));
    proof {
        reveal_strlit("about");
        reveal_strlit("args");
        reveal_strlit("help");
        reveal_strlit("required");
        let o = es@[0].1->Hash_0@;
        assert(o.len() == 2);
        assert(o[0].0@ == "about"@);
        assert(lookup(o, "about"@) == o[0].1);
        assert(o.drop_first()[0] == o[1]);
        assert("about"@ != "args"@);
        assert(lookup(o, "args"@) == lookup(o.drop_first(), "args"@));
        assert(lookup(o.drop_first(), "args"@) == o[1].1);
        let sh = o[1].1->Array_0@[0]->Hash_0@[0].1->Hash_0@;
        assert(sh.len() == 2);
        assert(sh[0].0@ == "help"@);
        assert(lookup(sh, "help"@) == sh[0].1);
        assert(sh.drop_first()[0] == sh[1]);
        assert("help"@ != "required"@);
        assert(lookup(sh, "required"@) == lookup(sh.drop_first(), "required"@));
        assert(lookup(sh.drop_first(), "required"@) == sh[1].1);
    }
    Yaml::Hash(es)
}

/// The declared `args` of a subcommand's option mapping; missing `args`
/// counts as an empty list.
pub open spec fn scmd_args_of(oldo: Seq<(String, Yaml)>) -> Seq<Yaml> {
    if has_key(oldo, "args"@) {
        lookup(oldo, "args"@)->Array_0@
    } else {
        Seq::empty()
    }
}

/// A subcommand's option mapping can be augmented: it is a mapping, a
/// declared `args` value is an array, and no differently-named flag
/// collides with a reserved flag — `q`/`quiet` and `R`/`raw_response`
/// always, and `t`/`template` additionally for non-script subcommands.
/// A flag the subcommand declares itself under the reserved name is no
/// collision: its injection is skipped instead.
pub open spec fn options_augmentable(oldy: Yaml) -> bool {
    &&& oldy matches Yaml::Hash(oldo)
    &&& (has_key(oldo@, "args"@) ==> lookup(oldo@, "args"@) is Array)
    &&& !args_conflict_reserved(scmd_args_of(oldo@), "quiet"@, "q"@, "quiet"@)
    &&& !args_conflict_reserved(scmd_args_of(oldo@), "raw_response"@, "R"@, "raw_response"@)
    &&& (!has_key(oldo@, "script"@) ==> !args_conflict_reserved(
        scmd_args_of(oldo@),
        "template"@,
        "t"@,
        "template"@,
    ))
}

/// How augmentation rewrites one subcommand's option mapping `oldy` into
/// `newy`: the declared `args` keep their order and gain the missing
/// default flags at the end — `template` first (non-script subcommands
/// only), then `quiet`, then `raw_response`. A default flag the mapping
/// already uses, under its own name, is skipped rather than injected
/// again. Every other key is unchanged.
pub open spec fn augmented_options_ok(oldy: Yaml, newy: Yaml) -> bool {
    &&& oldy is Hash
    &&& newy is Hash
    &&& {
        let oldo = oldy->Hash_0@;
        let newo = newy->Hash_0@;
        let oa = scmd_args_of(oldo);
        let script = has_key(oldo, "script"@);
        let want_template = !script && !args_use_reserved(oa, "t"@, "template"@);
        let want_quiet = !args_use_reserved(oa, "q"@, "quiet"@);
        let want_raw = !args_use_reserved(oa, "R"@, "raw_response"@);
        let n_t: int = if want_template {
            1
        } else {
            0
        };
        let n_q: int = if want_quiet {
            1
        } else {
            0
        };
        let n_r: int = if want_raw {
            1
        } else {
            0
        };
        &&& lookup(newo, "args"@) matches Yaml::Array(na) && {
            &&& na@.len() == oa.len() + n_t + n_q + n_r
            &&& na@.take(oa.len() as int) == oa
            &&& (want_template ==> is_arg_decl(
                na@[oa.len() as int],
                "template"@,
                "t"@,
                "template"@,
                true,
            ))
            &&& (want_quiet ==> is_arg_decl(
                na@[oa.len() as int + n_t],
                "quiet"@,
                "q"@,
                "quiet"@,
                false,
            ))
            &&& (want_raw ==> is_arg_decl(
                na@[oa.len() as int + n_t + n_q],
                "raw_response"@,
                "R"@,
                "raw_response"@,
                false,
            ))
        }
        &&& has_key(newo, "args"@)
        &&& forall|k: Seq<char>| k != "args"@ ==> (has_key(newo, k) <==> has_key(oldo, k))
        &&& forall|k: Seq<char>| k != "args"@ ==> lookup(newo, k) == lookup(oldo, k)
    }
}

/// An injected flag declaration uses its own reserved short letter and
/// long name.
proof fn lemma_decl_sets_its_options(
    y: Yaml,
    name: Seq<char>,
    short: Seq<char>,
    long: Seq<char>,
    takes_value: bool,
)
    requires
        is_arg_decl(y, name, short, long, takes_value),
    ensures
        arg_sets_option(y, "short"@, short),
        arg_sets_option(y, "long"@, long),
{
    let es = y->Hash_0;
    let opts = es@[0].1->Hash_0;
    let h = choose|h: Seq<char>| is_arg_option(opts@, short, long, h, takes_value);
    lemma_flag_literals_distinct();
    assert(opts@[0].0@ == "short"@);
    assert(opts@[1].0@ == "long"@);
    assert(lookup(opts@, "short"@) == opts@[0].1);
    assert(opts@.drop_first()[0] == opts@[1]);
    assert(lookup(opts@, "long"@) == lookup(opts@.drop_first(), "long"@));
    assert(lookup(opts@.drop_first(), "long"@) == opts@[1].1);
    assert(entry_sets_option(es@[0], "short"@, short));
    assert(entry_sets_option(es@[0], "long"@, long));
}

/// A reserved name that is used in a prefix is used in the whole.
proof fn lemma_reserved_use_prefix(
    oa: Seq<Yaml>,
    extended: Seq<Yaml>,
    short: Seq<char>,
    long: Seq<char>,
)
    requires
        oa.len() <= extended.len(),
        forall|i: int| 0 <= i < oa.len() ==> extended[i] == oa[i],
        args_use_reserved(oa, short, long),
    ensures
        args_use_reserved(extended, short, long),
{
    let i = choose|i: int|
        0 <= i < oa.len() && (arg_sets_option(#[trigger] oa[i], "short"@, short)
            || arg_sets_option(oa[i], "long"@, long));
    assert(arg_sets_option(extended[i], "short"@, short) || arg_sets_option(
        extended[i],
        "long"@,
        long,
    ));
}

/// Injects the missing default flags into one subcommand's option
/// mapping, by the collision rule: a default flag the mapping already
/// declares under its own name is skipped; a differently-named flag
/// that uses a reserved short letter or long name is fatal. Fails
/// exactly when the mapping cannot be augmented.
fn augment_scmd_options(options: Yaml) -> (r: Result<Yaml, ConfigError>)
    ensures
        r matches Ok(newy) ==> options_augmentable(options) && augmented_options_ok(options, newy),
        r is Err ==> !options_augmentable(options),
{
    let mut entries = match options {
        Yaml::Hash(es) => es,
        _ => {
            return Err(ConfigError::NotAMapping);
        },
    };
    let ghost oldo = entries@;
    let script = match find_key_index(&entries, "script") {
        Some(_) => true,
        None => false,
    };
    proof {
        if script {
            assert(has_key(oldo, "script"@));
        } else {
            assert(!has_key(oldo, "script"@));
        }
    }
    let mut args: Vec<Yaml>;
    let ghost mut removed_at: Option<int> = None;
    match find_key_index(&entries, "args") {
        Some(i) => {
            let e = entries.remove(i);
            proof {
                lemma_lookup_at_first_match(oldo, "args"@, i as int);
                removed_at = Some(i as int);
            }
            args = match e.1 {
                Yaml::Array(v) => v,
                _ => {
                    return Err(ConfigError::ArgsNotArray);
                },
            };
        },
        None => {
            proof {
                crate::yaml::lemma_lookup_absent(oldo, "args"@);
            }
            args = Vec::new();
        },
    }
    proof {
        assert(args@ =~= scmd_args_of(oldo));
    }
    let ghost oa = args@;

    let want_template: bool = if script {
        false
    } else {
        match check_existing_options(&args, "template", "t", "template") {
            Ok(used) => !used,
            Err(e) => {
                return Err(e);
            },
        }
    };
    let want_quiet: bool = match check_existing_options(&args, "quiet", "q", "quiet") {
        Ok(used) => !used,
        Err(e) => {
            return Err(e);
        },
    };
    let want_raw: bool = match check_existing_options(
        &args,
        "raw_response",
        "R",
        "raw_response",
    ) {
        Ok(used) => !used,
        Err(e) => {
            return Err(e);
        },
    };

    if want_template {
        args.push(get_template_arg_yaml());
    }
    if want_quiet {
        args.push(get_quiet_arg_yaml());
    }
    if want_raw {
        args.push(get_raw_arg_yaml());
    }
    let ghost na = args@;
    crate::merge::entries_insert(&mut entries, "args".to_owned(), Yaml::Array(args));
    proof {
        assert forall|k: Seq<char>| k != "args"@ implies (has_key(entries@, k) <==> has_key(
            oldo,
            k,
        )) && lookup(entries@, k) == lookup(oldo, k) by {
            match removed_at {
                Some(i) => {
                    crate::merge::lemma_lookup_erase(oldo, i, k);
                },
                None => {},
            }
        }
        assert(na.take(oa.len() as int) =~= oa);
    }
    Ok(Yaml::Hash(entries))
}

/// Flag-injection idempotence: a second augmentation of an option
/// mapping injects nothing further — the flags the first pass injected
/// are recognized as already declared, so the args list and every other
/// key are observably unchanged. (A second augmentation of a whole tree
/// still appends another shell-completion subcommand and augments the
/// first copy; the augmenter runs exactly once per invocation.)
pub proof fn lemma_flag_injection_idempotent(o: Yaml, o1: Yaml, o2: Yaml)
    requires
        augmented_options_ok(o, o1),
        augmented_options_ok(o1, o2),
    ensures
        lookup(o1->Hash_0@, "args"@) is Array,
        lookup(o2->Hash_0@, "args"@) is Array,
        lookup(o2->Hash_0@, "args"@)->Array_0@ == lookup(o1->Hash_0@, "args"@)->Array_0@,
        forall|k: Seq<char>|
            k != "args"@ ==> (has_key(o2->Hash_0@, k) <==> has_key(o1->Hash_0@, k)),
        forall|k: Seq<char>| k != "args"@ ==> lookup(o2->Hash_0@, k) == lookup(o1->Hash_0@, k),
{
    let oldo = o->Hash_0@;
    let o1h = o1->Hash_0@;
    let oa = scmd_args_of(oldo);
    let na1 = lookup(o1h, "args"@)->Array_0@;
    let script = has_key(oldo, "script"@);
    reveal_strlit("script");
    reveal_strlit("args");
    assert("script"@.len() == 6 && "args"@.len() == 4);
    assert(has_key(o1h, "script"@) == script);
    assert(scmd_args_of(o1h) == na1);
    assert(forall|i: int| 0 <= i < oa.len() ==> na1[i] == oa[i]) by {
        assert(forall|i: int| 0 <= i < oa.len() ==> na1.take(oa.len() as int)[i] == na1[i]);
    }
    let want_template = !script && !args_use_reserved(oa, "t"@, "template"@);
    let want_quiet = !args_use_reserved(oa, "q"@, "quiet"@);
    let want_raw = !args_use_reserved(oa, "R"@, "raw_response"@);
    let n_t: int = if want_template {
        1
    } else {
        0
    };
    let n_q: int = if want_quiet {
        1
    } else {
        0
    };
    if !script {
        if want_template {
            lemma_decl_sets_its_options(
                na1[oa.len() as int],
                "template"@,
                "t"@,
                "template"@,
                true,
            );
            assert(args_use_reserved(na1, "t"@, "template"@));
        } else {
            lemma_reserved_use_prefix(oa, na1, "t"@, "template"@);
        }
    }
    if want_quiet {
        lemma_decl_sets_its_options(na1[oa.len() as int + n_t], "quiet"@, "q"@, "quiet"@, false);
        assert(args_use_reserved(na1, "q"@, "quiet"@));
    } else {
        lemma_reserved_use_prefix(oa, na1, "q"@, "quiet"@);
    }
    if want_raw {
        lemma_decl_sets_its_options(
            na1[oa.len() as int + n_t + n_q],
            "raw_response"@,
            "R"@,
            "raw_response"@,
            false,
        );
        assert(args_use_reserved(na1, "R"@, "raw_response"@));
    } else {
        lemma_reserved_use_prefix(oa, na1, "R"@, "raw_response"@);
    }
    let na2 = lookup(o2->Hash_0@, "args"@)->Array_0@;
    assert(na2.len() == na1.len());
    assert(na2 =~= na1);
}

/// Tree-level idempotence of the flag-injection step: augmenting an
/// already augmented tree injects nothing further into the subcommands
/// the first pass produced — at every position, the flag names and each
/// option mapping are observably unchanged. A second pass still appends
/// another shell-completion subcommand and augments the first copy,
/// which is why the augmenter runs exactly once per invocation.
pub proof fn lemma_augmentation_idempotent_on_flags(c1: Yaml, c2: Yaml, c3: Yaml, i: int, j: int)
    requires
        augmented_config_ok(c1, c2),
        augmented_config_ok(c2, c3),
        0 <= i < config_scmds(c1).len(),
        0 <= j < config_scmds(c2)[i]->Hash_0@.len(),
    ensures
        config_scmds(c3)[i] is Hash,
        config_scmds(c3)[i]->Hash_0@.len() == config_scmds(c2)[i]->Hash_0@.len(),
        ({
            let o1 = config_scmds(c2)[i]->Hash_0@[j].1;
            let o2 = config_scmds(c3)[i]->Hash_0@[j].1;
            &&& config_scmds(c3)[i]->Hash_0@[j].0@ == config_scmds(c2)[i]->Hash_0@[j].0@
            &&& lookup(o1->Hash_0@, "args"@) is Array
            &&& lookup(o2->Hash_0@, "args"@) is Array
            &&& lookup(o2->Hash_0@, "args"@)->Array_0@ == lookup(o1->Hash_0@, "args"@)->Array_0@
            &&& forall|k: Seq<char>|
                k != "args"@ ==> (has_key(o2->Hash_0@, k) <==> has_key(o1->Hash_0@, k))
            &&& forall|k: Seq<char>| k != "args"@ ==> lookup(o2->Hash_0@, k) == lookup(o1->Hash_0@, k)
        }),
{
    let sc1 = config_scmds(c1);
    let sc2 = config_scmds(c2);
    let sc3 = config_scmds(c3);
    assert(sc2.len() == sc1.len() + 1);
    assert(augmented_scmd_ok(sc1[i], sc2[i]));
    assert(augmented_scmd_ok(sc2[i], sc3[i]));
    let o0 = sc1[i]->Hash_0@[j].1;
    let o1 = sc2[i]->Hash_0@[j].1;
    let o2 = sc3[i]->Hash_0@[j].1;
    assert(augmented_options_ok(o0, o1));
    assert(augmented_options_ok(o1, o2));
    lemma_flag_injection_idempotent(o0, o1, o2);
}

/// A subcommand whose every option mapping can be augmented.
pub open spec fn scmd_augmentable(s: Yaml) -> bool {
    s matches Yaml::Hash(es) && forall|j: int|
        0 <= j < es@.len() ==> options_augmentable((#[trigger] es@[j]).1)
}

/// The subcommand array of a command tree, as a sequence.
pub open spec fn config_scmds(c: Yaml) -> Seq<Yaml> {
    lookup(c->Hash_0@, crate::merge::subcommands_key())->Array_0@
}

/// In an augmentable tree every subcommand is augmentable.
proof fn lemma_augmentable_at(c: Yaml, t: int)
    requires
        config_augmentable(c),
        0 <= t < config_scmds(c).len(),
    ensures
        scmd_augmentable(config_scmds(c)[t]),
{
}

/// A command tree the augmenter accepts: a mapping whose `subcommands`
/// is an array of augmentable subcommands.
pub open spec fn config_augmentable(c: Yaml) -> bool {
    &&& c is Hash
    &&& lookup(c->Hash_0@, crate::merge::subcommands_key()) is Array
    &&& forall|i: int|
        0 <= i < config_scmds(c).len() ==> scmd_augmentable(#[trigger] config_scmds(c)[i])
}

/// How augmentation rewrites one subcommand: the names stay, in order,
/// and each option mapping gains the injected flags.
pub open spec fn augmented_scmd_ok(olds: Yaml, news: Yaml) -> bool {
    &&& olds is Hash
    &&& news is Hash
    &&& news->Hash_0@.len() == olds->Hash_0@.len()
    &&& forall|j: int|
        0 <= j < olds->Hash_0@.len() ==> (#[trigger] news->Hash_0@[j]).0@ == olds->Hash_0@[j].0@
            && augmented_options_ok(olds->Hash_0@[j].1, news->Hash_0@[j].1)
}

/// How augmentation rewrites the whole tree: every subcommand gains the
/// missing default flags in place, the synthetic `auto_complete`
/// subcommand is appended, and every other top-level key is unchanged.
pub open spec fn augmented_config_ok(config: Yaml, augmented: Yaml) -> bool {
    &&& config_augmentable(config)
    &&& {
        let oldes = config->Hash_0@;
        let osc = lookup(oldes, crate::merge::subcommands_key())->Array_0@;
        &&& augmented matches Yaml::Hash(newes)
        &&& has_key(newes@, crate::merge::subcommands_key())
        &&& lookup(newes@, crate::merge::subcommands_key()) matches Yaml::Array(nsc) && {
            &&& nsc@.len() == osc.len() + 1
            &&& (forall|i: int|
                0 <= i < osc.len() ==> augmented_scmd_ok(osc[i], #[trigger] nsc@[i]))
            &&& is_auto_complete_scmd(nsc@[osc.len() as int])
        }
        &&& forall|k: Seq<char>|
            k != crate::merge::subcommands_key() ==> (has_key(newes@, k) <==> has_key(oldes, k))
        &&& forall|k: Seq<char>|
            k != crate::merge::subcommands_key() ==> lookup(newes@, k) == lookup(oldes, k)
    }
}

/// Augments a merged command tree: injects the missing default flags
/// into every subcommand and appends the synthetic `auto_complete`
/// subcommand. Every other top-level key is unchanged. Fails exactly
/// when the tree has no `subcommands` array of augmentable subcommands.
pub fn add_default_options(config: Yaml) -> (r: Result<Yaml, ConfigError>)
    ensures
        r matches Ok(newc) ==> augmented_config_ok(config, newc),
        r is Err <==> !config_augmentable(config),
{
    let ghost cfg = config;
    let mut entries = match config {
        Yaml::Hash(es) => es,
        _ => {
            return Err(ConfigError::NotAMapping);
        },
    };
    let ghost oldes = entries@;
    let i_sub = match find_key_index(&entries, "subcommands") {
        Some(i) => i,
        None => {
            proof {
                crate::yaml::lemma_lookup_absent(oldes, "subcommands"@);
            }
            return Err(ConfigError::SubcommandsMissing);
        },
    };
    let e = entries.remove(i_sub);
    proof {
        lemma_lookup_at_first_match(oldes, "subcommands"@, i_sub as int);
    }
    let scmds: Vec<Yaml> = match e.1 {
        Yaml::Array(v) => v,
        _ => {
            return Err(ConfigError::SubcommandsNotArray);
        },
    };
    let ghost sc = scmds@;
    let mut out: Vec<Yaml> = Vec::new();
    let mut restv = scmds;
    let ghost mut t: int = 0;
    let ghost m = sc.len() as int;
    while restv.len() > 0
        invariant
            0 <= t <= m,
            m == sc.len(),
            restv@ == sc.skip(t),
            out@.len() == t,
            forall|i: int| 0 <= i < t ==> augmented_scmd_ok(sc[i], #[trigger] out@[i]),
            forall|i: int| 0 <= i < t ==> scmd_augmentable(#[trigger] sc[i]),
            cfg == config,
                cfg matches Yaml::Hash(ces) && ces@ == oldes,
            lookup(oldes, crate::merge::subcommands_key()) matches Yaml::Array(scv) && scv@ == sc,
        decreases restv.len(),
    {
        proof {
            assert(restv@.len() == m - t);
            assert(0 <= t < m);
        }
        let s = restv.remove(0);
        proof {
            assert(s == sc[t]);
            assert(restv@ =~= sc.skip(t + 1));
        }
        let mut s_entries = match s {
            Yaml::Hash(es) => es,
            _ => {
                proof {
                    assert(!scmd_augmentable(sc[t]));
                    if config_augmentable(cfg) {
                        assert(cfg->Hash_0@ == oldes);
                        assert(lookup(cfg->Hash_0@, crate::merge::subcommands_key()) == lookup(
                            oldes,
                            crate::merge::subcommands_key(),
                        ));
                        assert(config_scmds(cfg) == sc);
                        lemma_augmentable_at(cfg, t);
                        assert(scmd_augmentable(sc[t]));
                    }
                    assert(!config_augmentable(cfg));
                }
                return Err(ConfigError::SubcommandNotMapping);
            },
        };
        let ghost se = s_entries@;
        let mut new_entries: Vec<(String, Yaml)> = Vec::new();
        let ghost mut u: int = 0;
        let ghost mu = se.len() as int;
        while s_entries.len() > 0
            invariant
                0 <= u <= mu,
                mu == se.len(),
                s_entries@ == se.skip(u),
                new_entries@.len() == u,
                forall|j: int|
                    0 <= j < u ==> (#[trigger] new_entries@[j]).0@ == se[j].0@
                        && augmented_options_ok(se[j].1, new_entries@[j].1),
                forall|j: int| 0 <= j < u ==> options_augmentable((#[trigger] se[j]).1),
                0 <= t < m,
                m == sc.len(),
                sc[t] matches Yaml::Hash(sev) && sev@ == se,
                cfg == config,
                cfg matches Yaml::Hash(ces) && ces@ == oldes,
                lookup(oldes, crate::merge::subcommands_key()) matches Yaml::Array(scv) && scv@
                    == sc,
            decreases s_entries.len(),
        {
            proof {
                assert(s_entries@.len() == mu - u);
                assert(0 <= u < mu);
            }
            let pair = s_entries.remove(0);
            proof {
                assert(pair == se[u]);
                assert(s_entries@ =~= se.skip(u + 1));
            }
            let new_opts = match augment_scmd_options(pair.1) {
                Ok(o) => o,
                Err(err) => {
                    proof {
                        assert(!options_augmentable(se[u].1));
                        assert(sc[t]->Hash_0@[u] == se[u]);
                        assert(!scmd_augmentable(sc[t]));
                        if config_augmentable(cfg) {
                            assert(cfg->Hash_0@ == oldes);
                            assert(lookup(cfg->Hash_0@, crate::merge::subcommands_key())
                                == lookup(oldes, crate::merge::subcommands_key()));
                            assert(lookup(
                                oldes,
                                crate::merge::subcommands_key(),
                            )->Array_0@ == sc);
                            assert(config_scmds(cfg) == sc);
                            assert(config_scmds(cfg).len() == m);
                            assert(0 <= t < config_scmds(cfg).len());
                            lemma_augmentable_at(cfg, t);
                            assert(scmd_augmentable(sc[t]));
                        }
                        assert(!config_augmentable(cfg));
                    }
                    return Err(err);
                },
            };
            new_entries.push((pair.0, new_opts));
            proof {
                u = u + 1;
            }
        }
        proof {
            assert(u == mu);
        }
        out.push(Yaml::Hash(new_entries));
        proof {
            assert(augmented_scmd_ok(sc[t], out@[t]));
            assert(scmd_augmentable(sc[t]));
            t = t + 1;
        }
    }
    proof {
        assert(t == m);
    }
    let ghost transformed = out@;
    out.push(add_auto_complete_cmd());
    crate::merge::entries_insert(&mut entries, "subcommands".to_owned(), Yaml::Array(out));
    proof {
        assert forall|k: Seq<char>| k != "subcommands"@ implies (has_key(entries@, k) <==> has_key(
            oldes,
            k,
        )) && lookup(entries@, k) == lookup(oldes, k) by {
            crate::merge::lemma_lookup_erase(oldes, i_sub as int, k);
        }
        assert(config_scmds(cfg) == sc);
        assert(forall|i: int|
            0 <= i < sc.len() ==> scmd_augmentable(#[trigger] config_scmds(cfg)[i]));
        assert(config_augmentable(cfg));
    }
    Ok(Yaml::Hash(entries))
}

/// The version step accepts this tree: a mapping with a string `version`.
pub open spec fn version_resolvable(config: Yaml) -> bool {
    config is Hash && lookup(config->Hash_0@, "version"@) is Str
}

/// How the version step rewrites the tree: `version` becomes the
/// resolved version string — the declared version as-is under the tool's
/// own identity, `<declared> (<tool> <tool-version>)` for a personality —
/// and every other key is unchanged.
pub open spec fn version_resolved_ok(
    app_name: Seq<char>,
    tool_name: Seq<char>,
    tool_version: Seq<char>,
    config: Yaml,
    resolved: Yaml,
) -> bool {
    &&& config matches Yaml::Hash(es)
    &&& lookup(es@, "version"@) matches Yaml::Str(v) && {
        &&& resolved matches Yaml::Hash(nes)
        &&& has_key(nes@, "version"@)
        &&& lookup(nes@, "version"@) matches Yaml::Str(nv) && nv@ == (if app_name == tool_name {
            v@
        } else {
            v@ + " ("@ + tool_name + " "@ + tool_version + ")"@
        })
        &&& forall|k: Seq<char>| k != "version"@ ==> (has_key(nes@, k) <==> has_key(es@, k))
        &&& forall|k: Seq<char>| k != "version"@ ==> lookup(nes@, k) == lookup(es@, k)
    }
}

/// Resolves the tree's `version` string: a personality whose name differs
/// from the tool's own identity reports its declared version together
/// with the tool's, as `<declared> (<tool> <tool-version>)`. Fails
/// exactly when the tree declares no string `version`.
pub fn override_version(app_name: &str, tool_name: &str, tool_version: &str, config: Yaml) -> (r:
    Result<Yaml, ConfigError>)
    ensures
        r matches Ok(y) ==> version_resolved_ok(app_name@, tool_name@, tool_version@, config, y),
        r is Err <==> !version_resolvable(config),
{
    let mut entries = match config {
        Yaml::Hash(es) => es,
        _ => {
            return Err(ConfigError::NotAMapping);
        },
    };
    let ghost oldes = entries@;
    let iv = match find_key_index(&entries, "version") {
        Some(i) => i,
        None => {
            proof {
                crate::yaml::lemma_lookup_absent(oldes, "version"@);
            }
            return Err(ConfigError::VersionMissing);
        },
    };
    proof {
        lemma_lookup_at_first_match(oldes, "version"@, iv as int);
    }
    let declared: String = match &entries[iv].1 {
        Yaml::Str(s) => s.clone(),
        _ => {
            return Err(ConfigError::VersionMissing);
        },
    };
    let same = string_eq_str(&tool_name.to_owned(), app_name);
    let version: String = if same {
        declared
    } else {
        let mut v = declared;
        v.append(" (");
        v.append(tool_name);
        v.append(" ");
        v.append(tool_version);
        v.append(")");
        v
    };
    crate::merge::entries_insert(&mut entries, "version".to_owned(), Yaml::Str(version));
    proof {
        assert forall|k: Seq<char>| k != "version"@ implies (has_key(entries@, k) <==> has_key(
            oldes,
            k,
        )) && lookup(entries@, k) == lookup(oldes, k) by {}
    }
    Ok(Yaml::Hash(entries))
}

/// Tags every subcommand of a freshly parsed layer with the directory the
/// layer was loaded from, under `scmd_config_base_path`, so that the
/// template resolver can find subcommand-local template folders.
pub fn add_subcommands_path(config: Yaml, path: &str) -> (r: Result<Yaml, ConfigError>)
    ensures
        r matches Ok(newc) ==> config_taggable(config) && {
            let oldes = config->Hash_0@;
            let osc = lookup(oldes, crate::merge::subcommands_key())->Array_0@;
            &&& newc matches Yaml::Hash(newes)
            &&& has_key(newes@, crate::merge::subcommands_key())
            &&& lookup(newes@, crate::merge::subcommands_key()) matches Yaml::Array(nsc) && {
                &&& nsc@.len() == osc.len()
                &&& (forall|i: int|
                    0 <= i < osc.len() ==> tagged_scmd_ok(osc[i], #[trigger] nsc@[i], path@))
            }
            &&& forall|k: Seq<char>|
                k != crate::merge::subcommands_key() ==> (has_key(newes@, k) <==> has_key(
                    oldes,
                    k,
                ))
            &&& forall|k: Seq<char>|
                k != crate::merge::subcommands_key() ==> lookup(newes@, k) == lookup(oldes, k)
        },
        r is Err ==> !config_taggable(config),
{
    let ghost cfg = config;
    let mut entries = match config {
        Yaml::Hash(es) => es,
        _ => {
            return Err(ConfigError::NotAMapping);
        },
    };
    let ghost oldes = entries@;
    let i_sub = match find_key_index(&entries, "subcommands") {
        Some(i) => i,
        None => {
            proof {
                crate::yaml::lemma_lookup_absent(oldes, "subcommands"@);
            }
            return Err(ConfigError::SubcommandsMissing);
        },
    };
    let e = entries.remove(i_sub);
    proof {
        lemma_lookup_at_first_match(oldes, "subcommands"@, i_sub as int);
    }
    let scmds: Vec<Yaml> = match e.1 {
        Yaml::Array(v) => v,
        _ => {
            return Err(ConfigError::SubcommandsNotArray);
        },
    };
    let ghost sc = scmds@;
    let mut out: Vec<Yaml> = Vec::new();
    let mut restv = scmds;
    let ghost mut t: int = 0;
    let ghost m = sc.len() as int;
    while restv.len() > 0
        invariant
            0 <= t <= m,
            m == sc.len(),
            restv@ == sc.skip(t),
            out@.len() == t,
            forall|i: int| 0 <= i < t ==> tagged_scmd_ok(sc[i], #[trigger] out@[i], path@),
            forall|i: int| 0 <= i < t ==> scmd_taggable(#[trigger] sc[i]),
            cfg == config,
                cfg matches Yaml::Hash(ces) && ces@ == oldes,
            lookup(oldes, crate::merge::subcommands_key()) matches Yaml::Array(scv) && scv@ == sc,
        decreases restv.len(),
    {
        proof {
            assert(restv@.len() == m - t);
            assert(0 <= t < m);
        }
        let s = restv.remove(0);
        proof {
            assert(s == sc[t]);
            assert(restv@ =~= sc.skip(t + 1));
        }
        let mut s_entries = match s {
            Yaml::Hash(es) => es,
            _ => {
                proof {
                    assert(!scmd_taggable(sc[t]));
                    if config_taggable(cfg) {
                        assert(cfg->Hash_0@ == oldes);
                        assert(lookup(cfg->Hash_0@, crate::merge::subcommands_key()) == lookup(
                            oldes,
                            crate::merge::subcommands_key(),
                        ));
                        assert(config_scmds(cfg) == sc);
                        lemma_taggable_at(cfg, t);
                        assert(scmd_taggable(sc[t]));
                    }
                    assert(!config_taggable(cfg));
                }
                return Err(ConfigError::SubcommandNotMapping);
            },
        };
        let ghost se = s_entries@;
        let mut new_entries: Vec<(String, Yaml)> = Vec::new();
        let ghost mut u: int = 0;
        let ghost mu = se.len() as int;
        while s_entries.len() > 0
            invariant
                0 <= u <= mu,
                mu == se.len(),
                s_entries@ == se.skip(u),
                new_entries@.len() == u,
                forall|j: int|
                    0 <= j < u ==> (#[trigger] new_entries@[j]).0@ == se[j].0@ && tagged_options_ok(
                        se[j].1,
                        new_entries@[j].1,
                        path@,
                    ),
                forall|j: int| 0 <= j < u ==> (#[trigger] se[j]).1 is Hash,
                0 <= t < m,
                m == sc.len(),
                sc[t] matches Yaml::Hash(sev) && sev@ == se,
                cfg == config,
                cfg matches Yaml::Hash(ces) && ces@ == oldes,
                lookup(oldes, crate::merge::subcommands_key()) matches Yaml::Array(scv) && scv@
                    == sc,
            decreases s_entries.len(),
        {
            proof {
                assert(s_entries@.len() == mu - u);
                assert(0 <= u < mu);
            }
            let pair = s_entries.remove(0);
            proof {
                assert(pair == se[u]);
                assert(s_entries@ =~= se.skip(u + 1));
            }
            let mut opt_entries = match pair.1 {
                Yaml::Hash(es) => es,
                _ => {
                    proof {
                        assert(!(se[u].1 is Hash));
                        assert(sc[t]->Hash_0@[u] == se[u]);
                        assert(!scmd_taggable(sc[t]));
                        if config_taggable(cfg) {
                            assert(cfg->Hash_0@ == oldes);
                            assert(lookup(cfg->Hash_0@, crate::merge::subcommands_key())
                                == lookup(oldes, crate::merge::subcommands_key()));
                            assert(config_scmds(cfg) == sc);
                            lemma_taggable_at(cfg, t);
                            assert(scmd_taggable(sc[t]));
                        }
                        assert(!config_taggable(cfg));
                    }
                    return Err(ConfigError::NotAMapping);
                },
            };
            crate::merge::entries_insert(
                &mut opt_entries,
                "scmd_config_base_path".to_owned(),
                crate::yaml::get_yaml_string(path),
            );
            new_entries.push((pair.0, Yaml::Hash(opt_entries)));
            proof {
                u = u + 1;
            }
        }
        proof {
            assert(u == mu);
        }
        out.push(Yaml::Hash(new_entries));
        proof {
            assert(tagged_scmd_ok(sc[t], out@[t], path@));
            assert(scmd_taggable(sc[t]));
            t = t + 1;
        }
    }
    proof {
        assert(t == m);
    }
    crate::merge::entries_insert(&mut entries, "subcommands".to_owned(), Yaml::Array(out));
    proof {
        assert forall|k: Seq<char>| k != "subcommands"@ implies (has_key(entries@, k) <==> has_key(
            oldes,
            k,
        )) && lookup(entries@, k) == lookup(oldes, k) by {
            crate::merge::lemma_lookup_erase(oldes, i_sub as int, k);
        }
        assert(config_scmds(cfg) == sc);
        assert(forall|i: int|
            0 <= i < sc.len() ==> scmd_taggable(#[trigger] config_scmds(cfg)[i]));
        assert(config_taggable(cfg));
    }
    Ok(Yaml::Hash(entries))
}

/// A subcommand whose every option value is a mapping, so it can be
/// tagged with its layer's directory.
pub open spec fn scmd_taggable(s: Yaml) -> bool {
    s matches Yaml::Hash(es) && forall|j: int| 0 <= j < es@.len() ==> (#[trigger] es@[j]).1 is Hash
}

/// In a taggable layer every subcommand is taggable.
proof fn lemma_taggable_at(c: Yaml, t: int)
    requires
        config_taggable(c),
        0 <= t < config_scmds(c).len(),
    ensures
        scmd_taggable(config_scmds(c)[t]),
{
}

/// A parsed layer the tagging pass accepts: a mapping whose
/// `subcommands` is an array of taggable subcommands.
pub open spec fn config_taggable(c: Yaml) -> bool {
    &&& c is Hash
    &&& lookup(c->Hash_0@, crate::merge::subcommands_key()) is Array
    &&& forall|i: int|
        0 <= i < config_scmds(c).len() ==> scmd_taggable(#[trigger] config_scmds(c)[i])
}

/// How tagging rewrites one option mapping: `scmd_config_base_path`
/// becomes the layer's directory and every other key is unchanged.
pub open spec fn tagged_options_ok(oldy: Yaml, newy: Yaml, path: Seq<char>) -> bool {
    &&& oldy is Hash
    &&& newy is Hash
    &&& {
        let newo = newy->Hash_0@;
        let oldo = oldy->Hash_0@;
        &&& has_key(newo, "scmd_config_base_path"@)
        &&& lookup(newo, "scmd_config_base_path"@) matches Yaml::Str(p) && p@ == path
        &&& forall|k: Seq<char>|
            k != "scmd_config_base_path"@ ==> (has_key(newo, k) <==> has_key(oldo, k))
        &&& forall|k: Seq<char>|
            k != "scmd_config_base_path"@ ==> lookup(newo, k) == lookup(oldo, k)
    }
}

/// How tagging rewrites one subcommand: the names stay, in order, and
/// each option mapping gains the layer's directory.
pub open spec fn tagged_scmd_ok(olds: Yaml, news: Yaml, path: Seq<char>) -> bool {
    &&& olds is Hash
    &&& news is Hash
    &&& news->Hash_0@.len() == olds->Hash_0@.len()
    &&& forall|j: int|
        0 <= j < olds->Hash_0@.len() ==> (#[trigger] news->Hash_0@[j]).0@ == olds->Hash_0@[j].0@
            && tagged_options_ok(olds->Hash_0@[j].1, news->Hash_0@[j].1, path)
}

} // verus!
