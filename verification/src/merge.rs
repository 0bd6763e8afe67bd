//! Override-wins merging of configuration layers.
//!
//! Two mapping documents merge key by key: the overrider's entry wins
//! whenever both sides define a key, and keys unique to the overridden side
//! survive. The `subcommands` array merges by subcommand name instead: the
//! overrider's subcommands come first, in their order, followed by the
//! overridden side's subcommands whose names the overrider did not use.

use vstd::prelude::*;
use vstd::pervasive::VecAdditionalExecFns;

use crate::errors::ConfigError;
use crate::yaml::{has_key, lemma_lookup_at_first_match, lookup, string_eq_str, Yaml};

verus! {

/// The reserved key under which a layer lists its subcommands.
pub open spec fn subcommands_key() -> Seq<char> {
    "subcommands"@
}

/// The entries of `b` whose keys do not occur in `a`, in `b`'s order.
pub open spec fn entries_kept(b: Seq<(String, Yaml)>, a: Seq<(String, Yaml)>) -> Seq<
    (String, Yaml),
>
    decreases b.len(),
{
    if b.len() == 0 {
        Seq::empty()
    } else {
        let rest = entries_kept(b.drop_first(), a);
        if has_key(a, b[0].0@) {
            rest
        } else {
            seq![b[0]] + rest
        }
    }
}

/// The merge of two entry lists: all of `a`, then the entries of `b`
/// whose keys `a` does not define.
pub open spec fn merged_entries(a: Seq<(String, Yaml)>, b: Seq<(String, Yaml)>) -> Seq<
    (String, Yaml),
> {
    a + entries_kept(b, a)
}

pub proof fn lemma_entries_kept_push(b: Seq<(String, Yaml)>, x: (String, Yaml), a: Seq<(String, Yaml)>)
    ensures
        entries_kept(b.push(x), a) == entries_kept(b, a) + if has_key(a, x.0@) {
            Seq::<(String, Yaml)>::empty()
        } else {
            seq![x]
        },
    decreases b.len(),
{
    if b.len() == 0 {
        assert(b.push(x).drop_first() =~= b);
        assert(entries_kept(b.push(x), a) =~= entries_kept(b, a) + if has_key(a, x.0@) {
            Seq::<(String, Yaml)>::empty()
        } else {
            seq![x]
        });
    } else {
        assert(b.push(x).drop_first() =~= b.drop_first().push(x));
        lemma_entries_kept_push(b.drop_first(), x, a);
        assert(entries_kept(b.push(x), a) =~= entries_kept(b, a) + if has_key(a, x.0@) {
            Seq::<(String, Yaml)>::empty()
        } else {
            seq![x]
        });
    }
}

/// Whether the keys of `keys` include `k`.
pub open spec fn keys_include(keys: Seq<String>, k: Seq<char>) -> bool {
    exists|i: int| 0 <= i < keys.len() && (#[trigger] keys[i])@ == k
}

/// Reports whether one of `keys` equals `k`, by contents.
fn keys_contain(keys: &Vec<String>, k: &String) -> (r: bool)
    ensures
        r == keys_include(keys@, k@),
{
    let n = keys.len();
    let mut i: usize = 0;
    while i < n
        invariant
            n == keys.len(),
            i <= n,
            forall|j: int| 0 <= j < i ==> (#[trigger] keys@[j])@ != k@,
        decreases n - i,
    {
        if keys[i] == *k {
            return true;
        }
        i = i + 1;
    }
    false
}

/// Merges two entry lists with override-wins semantics: every entry of
/// `overrider` is kept, and an entry of `overridden` is kept exactly when
/// `overrider` does not define its key. This is the merge-override rule:
/// for every key, the merged value is the overrider's when the overrider
/// defines the key, and the overridden side's otherwise.
pub fn merge_entries(overrider: Vec<(String, Yaml)>, overridden: Vec<(String, Yaml)>) -> (merged:
    Vec<(String, Yaml)>)
    ensures
        merged@ == merged_entries(overrider@, overridden@),
{
    let ghost a = overrider@;
    let ghost b = overridden@;
    let mut keys: Vec<String> = Vec::new();
    let mut i: usize = 0;
    let n = overrider.len();
    while i < n
        invariant
            n == overrider.len(),
            overrider@ == a,
            i <= n,
            keys@.len() == i,
            forall|j: int| 0 <= j < i ==> (#[trigger] keys@[j])@ == a[j].0@,
        decreases n - i,
    {
        keys.push(overrider[i].0.clone());
        i = i + 1;
    }
    proof {
        assert(forall|k: Seq<char>| keys_include(keys@, k) == has_key(a, k)) by {
            assert(forall|k: Seq<char>| keys_include(keys@, k) ==> has_key(a, k)) by {
                assert(forall|j: int| 0 <= j < a.len() ==> (#[trigger] keys@[j])@ == a[j].0@);
            }
            assert(forall|k: Seq<char>| has_key(a, k) ==> keys_include(keys@, k)) by {
                assert(forall|j: int| 0 <= j < a.len() ==> (#[trigger] a[j]).0@ == keys@[j]@);
            }
        }
    }
    let mut merged = overrider;
    let mut rest = overridden;
    let ghost mut t: int = 0;
    let ghost m = b.len() as int;
    while rest.len() > 0
        invariant
            0 <= t <= m,
            m == b.len(),
            rest@ == b.skip(t),
            merged@ == a + entries_kept(b.take(t), a),
            keys@.len() == a.len(),
            forall|k: Seq<char>| keys_include(keys@, k) == has_key(a, k),
        decreases rest.len(),
    {
        proof {
            assert(rest@.len() == m - t);
            assert(0 <= t < m);
        }
        let e = rest.remove(0);
        proof {
            assert(e == b[t]);
            assert(rest@ =~= b.skip(t + 1));
            assert(b.take(t + 1) =~= b.take(t).push(b[t]));
            lemma_entries_kept_push(b.take(t), b[t], a);
        }
        if !keys_contain(&keys, &e.0) {
            merged.push(e);
        }
        proof {
            t = t + 1;
        }
    }
    proof {
        assert(t == m);
        assert(b.take(m) =~= b);
    }
    merged
}

/// Merges two trees when both are mappings; otherwise the overrider wins
/// verbatim. A missing side (`Yaml::Bad`) behaves as an empty mapping.
pub fn combine_hash_yaml(overrider: Yaml, overridden: Yaml) -> (combined: Yaml)
    ensures
        overrider matches Yaml::Hash(a) ==> overridden matches Yaml::Hash(b) ==> combined
            matches Yaml::Hash(c) && c@ == merged_entries(a@, b@),
        overrider is Hash && overridden is Bad ==> combined == overrider,
        overrider is Bad && overridden is Hash ==> combined == overridden,
        !(overrider is Hash) && !(overrider is Bad && overridden is Hash) ==> combined
            == overrider,
{
    match (overrider, overridden) {
        (Yaml::Hash(a), Yaml::Hash(b)) => {
            proof {
                assert(entries_kept(Seq::<(String, Yaml)>::empty(), a@) =~= Seq::<(
                    String,
                    Yaml,
                )>::empty());
            }
            Yaml::Hash(merge_entries(a, b))
        },
        (Yaml::Hash(a), Yaml::Bad) => Yaml::Hash(a),
        (Yaml::Bad, Yaml::Hash(b)) => Yaml::Hash(b),
        (other, _) => other,
    }
}

/// Merge-override rule: for any key `k`, the merged entry list defines `k`
/// exactly when one of the sides does; its value for `k` is the
/// overrider's when the overrider defines `k`, else the overridden
/// side's value.
pub proof fn lemma_merge_override(a: Seq<(String, Yaml)>, b: Seq<(String, Yaml)>, k: Seq<char>)
    ensures
        has_key(merged_entries(a, b), k) <==> has_key(a, k) || has_key(b, k),
        has_key(a, k) ==> lookup(merged_entries(a, b), k) == lookup(a, k),
        !has_key(a, k) ==> lookup(merged_entries(a, b), k) == lookup(b, k),
{
    lemma_kept_lookup(b, a, k);
    lemma_lookup_concat(a, entries_kept(b, a), k);
    if !has_key(a, k) && !has_key(b, k) {
        crate::yaml::lemma_lookup_absent(b, k);
        crate::yaml::lemma_lookup_absent(entries_kept(b, a), k);
    }
}

/// Looking a key up in a concatenation searches the front first.
proof fn lemma_lookup_concat(a: Seq<(String, Yaml)>, c: Seq<(String, Yaml)>, k: Seq<char>)
    ensures
        has_key(a + c, k) <==> has_key(a, k) || has_key(c, k),
        has_key(a, k) ==> lookup(a + c, k) == lookup(a, k),
        !has_key(a, k) ==> lookup(a + c, k) == lookup(c, k),
    decreases a.len(),
{
    if a.len() == 0 {
        assert(a + c =~= c);
    } else {
        assert((a + c).drop_first() =~= a.drop_first() + c);
        lemma_lookup_concat(a.drop_first(), c, k);
        assert(has_key(a, k) <==> (a[0].0@ == k || has_key(a.drop_first(), k))) by {
            assert(forall|i: int|
                0 <= i < a.drop_first().len() ==> a.drop_first()[i] == a[i + 1]);
            if has_key(a, k) {
                let i = choose|i: int| 0 <= i < a.len() && (#[trigger] a[i]).0@ == k;
                if i > 0 {
                    assert(a.drop_first()[i - 1].0@ == k);
                }
            }
        }
        assert((a + c)[0] == a[0]);
    }
}

/// Holds when `y` has the shape of a subcommand list element: a mapping
/// with at least one entry, whose first key is the subcommand's name.
pub open spec fn scmd_wf(y: Yaml) -> bool {
    y is Hash && y->Hash_0@.len() > 0
}

/// The name of a subcommand list element: its first key.
pub open spec fn scmd_name(y: Yaml) -> Seq<char>
    recommends
        scmd_wf(y),
{
    y->Hash_0@[0].0@
}

/// Holds when some element of `arr` is a subcommand named `name`.
pub open spec fn has_scmd_named(arr: Seq<Yaml>, name: Seq<char>) -> bool {
    exists|i: int| 0 <= i < arr.len() && scmd_name(#[trigger] arr[i]) == name
}

/// Every element of `arr` has the shape of a subcommand.
pub open spec fn all_scmds_wf(arr: Seq<Yaml>) -> bool {
    forall|i: int| 0 <= i < arr.len() ==> scmd_wf(#[trigger] arr[i])
}

/// The elements of `b` whose names do not occur in `a`, in `b`'s order.
pub open spec fn scmds_kept(b: Seq<Yaml>, a: Seq<Yaml>) -> Seq<Yaml>
    decreases b.len(),
{
    if b.len() == 0 {
        Seq::empty()
    } else {
        let rest = scmds_kept(b.drop_first(), a);
        if has_scmd_named(a, scmd_name(b[0])) {
            rest
        } else {
            seq![b[0]] + rest
        }
    }
}

/// The merge of two subcommand arrays: all of `a`, in order, then the
/// elements of `b` whose names `a` does not use, in order.
pub open spec fn merged_scmds(a: Seq<Yaml>, b: Seq<Yaml>) -> Seq<Yaml> {
    a + scmds_kept(b, a)
}

/// How many elements of `arr` are subcommands named `name`.
pub open spec fn scmd_count(arr: Seq<Yaml>, name: Seq<char>) -> nat
    decreases arr.len(),
{
    if arr.len() == 0 {
        0
    } else {
        (if scmd_name(arr[0]) == name {
            1nat
        } else {
            0nat
        }) + scmd_count(arr.drop_first(), name)
    }
}

/// The first element of `arr` that is a subcommand named `name`,
/// or `Yaml::Bad` when there is none.
pub open spec fn scmd_find(arr: Seq<Yaml>, name: Seq<char>) -> Yaml
    decreases arr.len(),
{
    if arr.len() == 0 {
        Yaml::Bad
    } else if scmd_name(arr[0]) == name {
        arr[0]
    } else {
        scmd_find(arr.drop_first(), name)
    }
}

proof fn lemma_scmds_kept_push(b: Seq<Yaml>, x: Yaml, a: Seq<Yaml>)
    ensures
        scmds_kept(b.push(x), a) == scmds_kept(b, a) + if has_scmd_named(a, scmd_name(x)) {
            Seq::<Yaml>::empty()
        } else {
            seq![x]
        },
    decreases b.len(),
{
    if b.len() == 0 {
        assert(b.push(x).drop_first() =~= b);
        assert(scmds_kept(b.push(x), a) =~= scmds_kept(b, a) + if has_scmd_named(
            a,
            scmd_name(x),
        ) {
            Seq::<Yaml>::empty()
        } else {
            seq![x]
        });
    } else {
        assert(b.push(x).drop_first() =~= b.drop_first().push(x));
        lemma_scmds_kept_push(b.drop_first(), x, a);
        assert(scmds_kept(b.push(x), a) =~= scmds_kept(b, a) + if has_scmd_named(
            a,
            scmd_name(x),
        ) {
            Seq::<Yaml>::empty()
        } else {
            seq![x]
        });
    }
}

/// Counting and finding by name over a concatenation.
proof fn lemma_scmd_concat(a: Seq<Yaml>, c: Seq<Yaml>, name: Seq<char>)
    ensures
        scmd_count(a + c, name) == scmd_count(a, name) + scmd_count(c, name),
        has_scmd_named(a + c, name) <==> has_scmd_named(a, name) || has_scmd_named(c, name),
        has_scmd_named(a, name) ==> scmd_find(a + c, name) == scmd_find(a, name),
        !has_scmd_named(a, name) ==> scmd_find(a + c, name) == scmd_find(c, name),
    decreases a.len(),
{
    if a.len() == 0 {
        assert(a + c =~= c);
    } else {
        assert((a + c).drop_first() =~= a.drop_first() + c);
        lemma_scmd_concat(a.drop_first(), c, name);
        assert(has_scmd_named(a, name) <==> (scmd_name(a[0]) == name || has_scmd_named(
            a.drop_first(),
            name,
        ))) by {
            assert(forall|i: int|
                0 <= i < a.drop_first().len() ==> a.drop_first()[i] == a[i + 1]);
            if has_scmd_named(a, name) {
                let i = choose|i: int|
                    0 <= i < a.len() && scmd_name(#[trigger] a[i]) == name;
                if i > 0 {
                    assert(scmd_name(a.drop_first()[i - 1]) == name);
                }
            }
        }
        assert((a + c)[0] == a[0]);
    }
}

/// Absent names are found as `Yaml::Bad` and counted zero times.
proof fn lemma_scmd_absent(arr: Seq<Yaml>, name: Seq<char>)
    requires
        !has_scmd_named(arr, name),
    ensures
        scmd_count(arr, name) == 0,
        scmd_find(arr, name) == Yaml::Bad,
    decreases arr.len(),
{
    if arr.len() > 0 {
        assert(scmd_name(arr[0]) != name);
        assert(!has_scmd_named(arr.drop_first(), name)) by {
            assert(forall|i: int|
                0 <= i < arr.drop_first().len() ==> arr.drop_first()[i] == arr[i + 1]);
        }
        lemma_scmd_absent(arr.drop_first(), name);
    }
}

/// Counting and finding by name over the kept part of the overridden side.
proof fn lemma_scmds_kept_facts(b: Seq<Yaml>, a: Seq<Yaml>, name: Seq<char>)
    ensures
        has_scmd_named(a, name) ==> !has_scmd_named(scmds_kept(b, a), name),
        has_scmd_named(a, name) ==> scmd_count(scmds_kept(b, a), name) == 0,
        !has_scmd_named(a, name) ==> scmd_count(scmds_kept(b, a), name) == scmd_count(b, name),
        !has_scmd_named(a, name) ==> (has_scmd_named(scmds_kept(b, a), name) <==> has_scmd_named(
            b,
            name,
        )),
        !has_scmd_named(a, name) && has_scmd_named(b, name) ==> scmd_find(scmds_kept(b, a), name)
            == scmd_find(b, name),
    decreases b.len(),
{
    if b.len() == 0 {
        assert(!has_scmd_named(scmds_kept(b, a), name));
        assert(!has_scmd_named(b, name));
        lemma_scmd_absent(scmds_kept(b, a), name);
        lemma_scmd_absent(b, name);
    } else {
        lemma_scmds_kept_facts(b.drop_first(), a, name);
        let rest = scmds_kept(b.drop_first(), a);
        assert(has_scmd_named(b, name) <==> (scmd_name(b[0]) == name || has_scmd_named(
            b.drop_first(),
            name,
        ))) by {
            assert(forall|i: int|
                0 <= i < b.drop_first().len() ==> b.drop_first()[i] == b[i + 1]);
            if has_scmd_named(b, name) {
                let i = choose|i: int|
                    0 <= i < b.len() && scmd_name(#[trigger] b[i]) == name;
                if i > 0 {
                    assert(scmd_name(b.drop_first()[i - 1]) == name);
                }
            }
        }
        assert(scmd_count(b, name) == (if scmd_name(b[0]) == name {
            1nat
        } else {
            0nat
        }) + scmd_count(b.drop_first(), name));
        if has_scmd_named(a, scmd_name(b[0])) {
            assert(scmds_kept(b, a) == rest);
            if has_scmd_named(a, name) {
            } else {
                assert(scmd_name(b[0]) != name);
            }
        } else {
            assert(scmds_kept(b, a) == seq![b[0]] + rest);
            lemma_scmd_concat(seq![b[0]], rest, name);
            let s0 = seq![b[0]];
            assert(s0.len() == 1 && s0[0] == b[0]);
            assert(s0.drop_first() =~= Seq::<Yaml>::empty());
            assert(scmd_count(s0.drop_first(), name) == 0);
            assert(has_scmd_named(s0, name) <==> scmd_name(b[0]) == name);
            assert(scmd_count(s0, name) == if scmd_name(b[0]) == name {
                1nat
            } else {
                0nat
            });
            if scmd_name(b[0]) == name {
                assert(scmd_find(s0, name) == b[0]);
            }
        }
    }
}

/// Subcommand-merge rule: every name the overrider uses keeps the
/// overrider's definitions and multiplicity, and every other name keeps
/// the overridden side's. In a merged tree, where each side uses a name
/// at most once, every name therefore appears exactly once, with the
/// overrider's definition when the overrider has it.
pub proof fn lemma_subcommand_merge(a: Seq<Yaml>, b: Seq<Yaml>, name: Seq<char>)
    ensures
        has_scmd_named(merged_scmds(a, b), name) <==> has_scmd_named(a, name) || has_scmd_named(
            b,
            name,
        ),
        has_scmd_named(a, name) ==> scmd_count(merged_scmds(a, b), name) == scmd_count(a, name)
            && scmd_find(merged_scmds(a, b), name) == scmd_find(a, name),
        !has_scmd_named(a, name) ==> scmd_count(merged_scmds(a, b), name) == scmd_count(b, name)
            && (has_scmd_named(b, name) ==> scmd_find(merged_scmds(a, b), name) == scmd_find(
            b,
            name,
        )),
{
    lemma_scmds_kept_facts(b, a, name);
    lemma_scmd_concat(a, scmds_kept(b, a), name);
    if has_scmd_named(a, name) {
        lemma_scmd_absent(scmds_kept(b, a), name);
    } else {
        lemma_scmd_absent(a, name);
        if !has_scmd_named(b, name) {
            lemma_scmd_absent(scmds_kept(b, a), name);
        }
    }
}

/// The name of a subcommand element: the first key of its mapping.
fn scmd_name_of(y: &Yaml) -> (r: Result<String, ConfigError>)
    ensures
        r matches Ok(s) ==> scmd_wf(*y) && s@ == scmd_name(*y),
        r matches Err(e) ==> !scmd_wf(*y) && (e == ConfigError::SubcommandNotMapping || e
            == ConfigError::SubcommandUnnamed),
{
    match y {
        Yaml::Hash(entries) => {
            if entries.len() == 0 {
                Err(ConfigError::SubcommandUnnamed)
            } else {
                Ok(entries[0].0.clone())
            }
        },
        _ => Err(ConfigError::SubcommandNotMapping),
    }
}

/// Reports whether one of `names` equals the name `n`, by contents.
fn names_contain(names: &Vec<String>, n: &String) -> (r: bool)
    ensures
        r == keys_include(names@, n@),
{
    let ln = names.len();
    let mut i: usize = 0;
    while i < ln
        invariant
            ln == names.len(),
            i <= ln,
            forall|j: int| 0 <= j < i ==> (#[trigger] names@[j])@ != n@,
        decreases ln - i,
    {
        if names[i] == *n {
            return true;
        }
        i = i + 1;
    }
    false
}

/// Merges two subcommand arrays by name: every element of `overrider`
/// is kept in order, then every element of `overridden` whose name the
/// overrider does not use, in order. Fails exactly when an element of
/// either side is not a named mapping.
pub fn combine_yaml_scmd_arrays(overrider: Vec<Yaml>, overridden: Vec<Yaml>) -> (r: Result<
    Vec<Yaml>,
    ConfigError,
>)
    ensures
        r matches Ok(c) ==> all_scmds_wf(overrider@) && all_scmds_wf(overridden@) && c@
            == merged_scmds(overrider@, overridden@),
        r matches Err(e) ==> !(all_scmds_wf(overrider@) && all_scmds_wf(overridden@)) && (e
            == ConfigError::SubcommandNotMapping || e == ConfigError::SubcommandUnnamed),
{
    let ghost a = overrider@;
    let ghost b = overridden@;
    let mut names: Vec<String> = Vec::new();
    let mut i: usize = 0;
    let n = overrider.len();
    while i < n
        invariant
            n == overrider.len(),
            overrider@ == a,
            i <= n,
            names@.len() == i,
            forall|j: int| 0 <= j < i ==> scmd_wf(#[trigger] a[j]),
            forall|j: int| 0 <= j < i ==> (#[trigger] names@[j])@ == scmd_name(a[j]),
        decreases n - i,
    {
        match scmd_name_of(&overrider[i]) {
            Ok(s) => names.push(s),
            Err(e) => {
                return Err(e);
            },
        }
        i = i + 1;
    }
    proof {
        assert(forall|k: Seq<char>| keys_include(names@, k) == has_scmd_named(a, k)) by {
            assert(forall|j: int| 0 <= j < a.len() ==> (#[trigger] names@[j])@ == scmd_name(
                a[j],
            ));
            assert(forall|j: int| 0 <= j < a.len() ==> scmd_name(#[trigger] a[j]) == names@[j]@);
        }
    }
    let mut merged = overrider;
    let mut rest = overridden;
    let ghost mut t: int = 0;
    let ghost m = b.len() as int;
    while rest.len() > 0
        invariant
            0 <= t <= m,
            m == b.len(),
            a == overrider@,
            b == overridden@,
            rest@ == b.skip(t),
            merged@ == a + scmds_kept(b.take(t), a),
            forall|j: int| 0 <= j < t ==> scmd_wf(#[trigger] b[j]),
            names@.len() == a.len(),
            all_scmds_wf(a),
            forall|k: Seq<char>| keys_include(names@, k) == has_scmd_named(a, k),
        decreases rest.len(),
    {
        proof {
            assert(rest@.len() == m - t);
            assert(0 <= t < m);
        }
        let e = rest.remove(0);
        proof {
            assert(e == b[t]);
            assert(rest@ =~= b.skip(t + 1));
            assert(b.take(t + 1) =~= b.take(t).push(b[t]));
            lemma_scmds_kept_push(b.take(t), b[t], a);
        }
        let ename = match scmd_name_of(&e) {
            Ok(s) => s,
            Err(err) => {
                return Err(err);
            },
        };
        if !names_contain(&names, &ename) {
            merged.push(e);
        }
        proof {
            t = t + 1;
        }
    }
    proof {
        assert(t == m);
        assert(b.take(m) =~= b);
        assert(all_scmds_wf(b));
    }
    Ok(merged)
}

/// Filtering by the overrider's keys keeps the overridden side's lookup
/// for every key the overrider does not define, and drops every key it
/// does define.
proof fn lemma_kept_lookup(b: Seq<(String, Yaml)>, a: Seq<(String, Yaml)>, k: Seq<char>)
    ensures
        has_key(a, k) ==> !has_key(entries_kept(b, a), k),
        !has_key(a, k) ==> (has_key(entries_kept(b, a), k) <==> has_key(b, k)),
        !has_key(a, k) && has_key(b, k) ==> lookup(entries_kept(b, a), k) == lookup(b, k),
    decreases b.len(),
{
    if b.len() == 0 {
        assert(!has_key(entries_kept(b, a), k));
        assert(!has_key(b, k));
    } else {
        lemma_kept_lookup(b.drop_first(), a, k);
        let rest = entries_kept(b.drop_first(), a);
        assert(has_key(b, k) <==> (b[0].0@ == k || has_key(b.drop_first(), k))) by {
            assert(forall|i: int|
                0 <= i < b.drop_first().len() ==> b.drop_first()[i] == b[i + 1]);
            if has_key(b, k) {
                let i = choose|i: int| 0 <= i < b.len() && (#[trigger] b[i]).0@ == k;
                if i > 0 {
                    assert(b.drop_first()[i - 1].0@ == k);
                }
            }
        }
        if has_key(a, b[0].0@) {
            assert(entries_kept(b, a) == rest);
        } else {
            assert(entries_kept(b, a) == seq![b[0]] + rest);
            lemma_lookup_concat(seq![b[0]], rest, k);
            assert(has_key(seq![b[0]], k) <==> b[0].0@ == k);
            if b[0].0@ == k {
                assert(lookup(seq![b[0]], k) == b[0].1);
                assert(lookup(b, k) == b[0].1);
            }
        }
    }
}

/// A non-empty entry list defines `k` exactly when its head does or
/// its tail does.
proof fn lemma_has_key_unfold(s: Seq<(String, Yaml)>, k: Seq<char>)
    requires
        s.len() > 0,
    ensures
        has_key(s, k) <==> (s[0].0@ == k || has_key(s.drop_first(), k)),
{
    assert(forall|i: int| 0 <= i < s.drop_first().len() ==> s.drop_first()[i] == s[i + 1]);
    if has_key(s, k) {
        let i = choose|i: int| 0 <= i < s.len() && (#[trigger] s[i]).0@ == k;
        if i > 0 {
            assert(s.drop_first()[i - 1].0@ == k);
        }
    }
}

/// Two entry lists with the same keys everywhere, and the same values
/// wherever the key is `k`, agree on `k`.
proof fn lemma_lookup_same_keys(s1: Seq<(String, Yaml)>, s2: Seq<(String, Yaml)>, k: Seq<char>)
    requires
        s1.len() == s2.len(),
        forall|j: int| 0 <= j < s1.len() ==> (#[trigger] s1[j]).0@ == s2[j].0@,
        forall|j: int| 0 <= j < s1.len() && (#[trigger] s1[j]).0@ == k ==> s1[j].1 == s2[j].1,
    ensures
        has_key(s1, k) == has_key(s2, k),
        lookup(s1, k) == lookup(s2, k),
    decreases s1.len(),
{
    assert(has_key(s1, k) == has_key(s2, k)) by {
        if has_key(s1, k) {
            let i = choose|i: int| 0 <= i < s1.len() && (#[trigger] s1[i]).0@ == k;
            assert(s2[i].0@ == k);
        }
        if has_key(s2, k) {
            let i = choose|i: int| 0 <= i < s2.len() && (#[trigger] s2[i]).0@ == k;
            assert(s1[i].0@ == k);
        }
    }
    if s1.len() > 0 {
        assert(forall|j: int| 0 <= j < s1.drop_first().len() ==> s1.drop_first()[j] == s1[j + 1]);
        assert(forall|j: int| 0 <= j < s2.drop_first().len() ==> s2.drop_first()[j] == s2[j + 1]);
        lemma_lookup_same_keys(s1.drop_first(), s2.drop_first(), k);
    }
}

/// Removing an entry whose key is not `k` leaves lookups of `k` unchanged.
pub proof fn lemma_lookup_erase(s: Seq<(String, Yaml)>, i: int, k: Seq<char>)
    requires
        0 <= i < s.len(),
        s[i].0@ != k,
    ensures
        has_key(s.remove(i), k) == has_key(s, k),
        lookup(s.remove(i), k) == lookup(s, k),
    decreases s.len(),
{
    lemma_has_key_unfold(s, k);
    if i == 0 {
        assert(s.remove(0) =~= s.drop_first());
    } else {
        let r = s.remove(i);
        assert(r.len() == s.len() - 1);
        assert(r[0] == s[0]);
        if r.len() > 0 {
            lemma_has_key_unfold(r, k);
        }
        assert(r.drop_first() =~= s.drop_first().remove(i - 1));
        lemma_lookup_erase(s.drop_first(), i - 1, k);
        if s[0].0@ == k {
        }
    }
}

/// The position of the first entry of `entries` whose key is `key`.
pub fn find_key_index(entries: &Vec<(String, Yaml)>, key: &str) -> (r: Option<usize>)
    ensures
        match r {
            Some(i) => i < entries@.len() && entries@[i as int].0@ == key@ && (forall|j: int|
                0 <= j < i ==> (#[trigger] entries@[j]).0@ != key@),
            None => !has_key(entries@, key@),
        },
{
    let n = entries.len();
    let mut i: usize = 0;
    while i < n
        invariant
            n == entries.len(),
            i <= n,
            forall|j: int| 0 <= j < i ==> (#[trigger] entries@[j]).0@ != key@,
        decreases n - i,
    {
        if string_eq_str(&entries[i].0, key) {
            return Some(i);
        }
        i = i + 1;
    }
    None
}

/// Inserts `value` under `key`, replacing the first entry with that key
/// if one exists and appending otherwise. Lookups of every other key are
/// unchanged.
pub fn entries_insert(entries: &mut Vec<(String, Yaml)>, key: String, value: Yaml)
    ensures
        has_key(final(entries)@, key@),
        lookup(final(entries)@, key@) == value,
        forall|k: Seq<char>|
            k != key@ ==> (has_key(final(entries)@, k) <==> has_key(old(entries)@, k)),
        forall|k: Seq<char>|
            k != key@ ==> lookup(final(entries)@, k) == lookup(old(entries)@, k),
{
    let ghost s = entries@;
    match find_key_index(entries, key.as_str()) {
        Some(i) => {
            let ghost kview = key@;
            entries.set(i, (key, value));
            proof {
                assert(entries@ =~= s.update(i as int, (key, value)));
                lemma_lookup_at_first_match(entries@, kview, i as int);
                assert forall|k: Seq<char>| k != kview implies has_key(entries@, k) == has_key(
                    s,
                    k,
                ) && lookup(entries@, k) == lookup(s, k) by {
                    lemma_lookup_same_keys(s, entries@, k);
                }
            }
        },
        None => {
            let ghost kview = key@;
            let ghost e = (key, value);
            entries.push((key, value));
            proof {
                assert(entries@ =~= s + seq![e]);
                lemma_lookup_concat(s, seq![e], kview);
                assert(seq![e][0] == e);
                assert(has_key(seq![e], kview));
                assert(lookup(seq![e], kview) == value);
                assert forall|k: Seq<char>| k != kview implies has_key(entries@, k) == has_key(
                    s,
                    k,
                ) && lookup(entries@, k) == lookup(s, k) by {
                    lemma_lookup_concat(s, seq![e], k);
                    assert(seq![e].drop_first() =~= Seq::<(String, Yaml)>::empty());
                    if !has_key(s, k) {
                        assert(!has_key(seq![e], k)) by {
                            assert(seq![e][0] == e);
                        }
                        crate::yaml::lemma_lookup_absent(s, k);
                        crate::yaml::lemma_lookup_absent(seq![e], k);
                    }
                }
            }
        },
    }
}

/// Both sides hold a `subcommands` array of well-formed subcommands, so
/// their trees can merge.
pub open spec fn scmd_tree_mergeable(a: Seq<(String, Yaml)>, b: Seq<(String, Yaml)>) -> bool {
    &&& lookup(a, subcommands_key()) matches Yaml::Array(sa) && all_scmds_wf(sa@)
    &&& lookup(b, subcommands_key()) matches Yaml::Array(sb) && all_scmds_wf(sb@)
}

/// The merged tree `y` of entry lists `a` (overrider) and `b`:
/// its `subcommands` is the by-name merge of the two arrays, and every
/// other key obeys the merge-override rule.
pub open spec fn merged_tree_ok(a: Seq<(String, Yaml)>, b: Seq<(String, Yaml)>, y: Yaml) -> bool {
    &&& y is Hash
    &&& lookup(a, subcommands_key()) matches Yaml::Array(sa) ==> lookup(b, subcommands_key())
        matches Yaml::Array(sb) ==> lookup(y->Hash_0@, subcommands_key()) matches Yaml::Array(sc)
        && sc@ == merged_scmds(sa@, sb@)
    &&& has_key(y->Hash_0@, subcommands_key())
    &&& forall|k: Seq<char>|
        k != subcommands_key() ==> (has_key(y->Hash_0@, k) <==> (has_key(a, k) || has_key(b, k)))
    &&& forall|k: Seq<char>|
        k != subcommands_key() && has_key(a, k) ==> lookup(y->Hash_0@, k) == lookup(a, k)
    &&& forall|k: Seq<char>|
        k != subcommands_key() && !has_key(a, k) && has_key(b, k) ==> lookup(y->Hash_0@, k)
            == lookup(b, k)
}

/// Merges two mapping layers that both declare subcommands: the
/// `subcommands` arrays merge by name, every other key by override-wins.
fn merge_scmd_hash(overrider: Vec<(String, Yaml)>, overridden: Vec<(String, Yaml)>) -> (r: Result<
    Yaml,
    ConfigError,
>)
    ensures
        r matches Ok(y) ==> scmd_tree_mergeable(overrider@, overridden@) && merged_tree_ok(
            overrider@,
            overridden@,
            y,
        ),
        r is Err ==> !scmd_tree_mergeable(overrider@, overridden@),
{
    let ghost a = overrider@;
    let ghost b = overridden@;
    let mut overrider = overrider;
    let mut overridden = overridden;
    let ia = match find_key_index(&overrider, "subcommands") {
        Some(i) => i,
        None => {
            proof {
                crate::yaml::lemma_lookup_absent(a, "subcommands"@);
            }
            return Err(ConfigError::SubcommandsMissing);
        },
    };
    let a_sub = overrider.remove(ia);
    proof {
        lemma_lookup_at_first_match(a, "subcommands"@, ia as int);
    }
    let sa = match a_sub.1 {
        Yaml::Array(v) => v,
        _ => {
            return Err(ConfigError::SubcommandsNotArray);
        },
    };
    let ib = match find_key_index(&overridden, "subcommands") {
        Some(i) => i,
        None => {
            proof {
                crate::yaml::lemma_lookup_absent(b, "subcommands"@);
            }
            return Err(ConfigError::SubcommandsMissing);
        },
    };
    let b_sub = overridden.remove(ib);
    proof {
        lemma_lookup_at_first_match(b, "subcommands"@, ib as int);
    }
    let sb = match b_sub.1 {
        Yaml::Array(v) => v,
        _ => {
            return Err(ConfigError::SubcommandsNotArray);
        },
    };
    let scmds = match combine_yaml_scmd_arrays(sa, sb) {
        Ok(v) => v,
        Err(e) => {
            return Err(e);
        },
    };
    let mut merged = merge_entries(overrider, overridden);
    proof {
        assert forall|k: Seq<char>| k != subcommands_key() implies (has_key(merged@, k) <==> (
        has_key(a, k) || has_key(b, k))) && (has_key(a, k) ==> lookup(merged@, k) == lookup(
            a,
            k,
        )) && (!has_key(a, k) && has_key(b, k) ==> lookup(merged@, k) == lookup(b, k)) by {
            lemma_lookup_erase(a, ia as int, k);
            lemma_lookup_erase(b, ib as int, k);
            lemma_merge_override(a.remove(ia as int), b.remove(ib as int), k);
        }
    }
    entries_insert(&mut merged, "subcommands".to_owned(), Yaml::Array(scmds));
    Ok(Yaml::Hash(merged))
}

/// Layer-override law at the tree level: in a merged tree, every
/// top-level key other than `subcommands` carries the overrider's value
/// when the overrider defines it, and the overridden side's value
/// otherwise; keys unique to either side survive.
pub proof fn lemma_layer_override(
    a: Seq<(String, Yaml)>,
    b: Seq<(String, Yaml)>,
    y: Yaml,
    k: Seq<char>,
)
    requires
        merged_tree_ok(a, b, y),
        k != subcommands_key(),
    ensures
        has_key(y->Hash_0@, k) <==> has_key(a, k) || has_key(b, k),
        has_key(a, k) ==> lookup(y->Hash_0@, k) == lookup(a, k),
        !has_key(a, k) && has_key(b, k) ==> lookup(y->Hash_0@, k) == lookup(b, k),
{
}

/// A merge step accepts these operands: two mappings must both hold a
/// `subcommands` array of well-formed subcommands; anything else passes
/// the overrider through verbatim, which always succeeds.
pub open spec fn combinable(overrider: Yaml, overridden: Yaml) -> bool {
    overrider is Hash && overridden is Hash ==> scmd_tree_mergeable(
        overrider->Hash_0@,
        overridden->Hash_0@,
    )
}

/// How one merge step rewrites the accumulator: two mappings merge as
/// command trees (see [`merged_tree_ok`]); any other overrider passes
/// through verbatim.
pub open spec fn combined_layers_ok(overrider: Yaml, overridden: Yaml, combined: Yaml) -> bool {
    if overrider is Hash && overridden is Hash {
        &&& scmd_tree_mergeable(overrider->Hash_0@, overridden->Hash_0@)
        &&& merged_tree_ok(overrider->Hash_0@, overridden->Hash_0@, combined)
    } else {
        combined == overrider
    }
}

/// Merges two layer documents. When both are mappings they merge as
/// command trees; otherwise the overrider is returned verbatim. Fails
/// exactly when two mappings are not mergeable.
pub fn combine_scmd_yaml(overrider: Yaml, overridden: Yaml) -> (r: Result<Yaml, ConfigError>)
    ensures
        r matches Ok(y) ==> combined_layers_ok(overrider, overridden, y),
        r is Err <==> !combinable(overrider, overridden),
        !(overrider is Hash && overridden is Hash) ==> r == Ok::<Yaml, ConfigError>(overrider),
{
    match (overrider, overridden) {
        (Yaml::Hash(a), Yaml::Hash(b)) => merge_scmd_hash(a, b),
        (other, _) => Ok(other),
    }
}

} // verus!
