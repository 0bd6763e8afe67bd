//! The configuration document model.
//!
//! A configuration layer is a YAML-like tree of plain values. Mappings are
//! kept as ordered lists of `(key, value)` entries; a lookup returns the
//! first entry whose key matches, so earlier entries win over later ones.

use vstd::prelude::*;

verus! {

/// One node of a configuration document.
#[derive(Debug, PartialEq)]
pub enum Yaml {
    /// A string scalar.
    Str(String),
    /// An integer scalar.
    Int(i64),
    /// A boolean scalar.
    Bool(bool),
    /// A floating-point scalar, kept as its literal text.
    Real(String),
    /// A sequence of nodes.
    Array(Vec<Yaml>),
    /// A mapping, as ordered `(key, value)` entries.
    Hash(Vec<(String, Yaml)>),
    /// An explicit null.
    Null,
    /// A missing or invalid value.
    Bad,
}

/// Holds when some entry of `entries` has key `k`.
pub open spec fn has_key(entries: Seq<(String, Yaml)>, k: Seq<char>) -> bool {
    exists|i: int| 0 <= i < entries.len() && (#[trigger] entries[i]).0@ == k
}

/// The value of the first entry of `entries` whose key is `k`,
/// or `Yaml::Bad` when no entry has that key.
pub open spec fn lookup(entries: Seq<(String, Yaml)>, k: Seq<char>) -> Yaml
    decreases entries.len(),
{
    if entries.len() == 0 {
        Yaml::Bad
    } else if entries[0].0@ == k {
        entries[0].1
    } else {
        lookup(entries.drop_first(), k)
    }
}

/// A lookup that finds no entry returns `Yaml::Bad`.
pub proof fn lemma_lookup_absent(entries: Seq<(String, Yaml)>, k: Seq<char>)
    requires
        !has_key(entries, k),
    ensures
        lookup(entries, k) == Yaml::Bad,
    decreases entries.len(),
{
    if entries.len() > 0 {
        assert(entries[0].0@ != k);
        assert(forall|i: int|
            0 <= i < entries.drop_first().len() ==> (#[trigger] entries.drop_first()[i]).0@
                != k) by {
            assert(forall|i: int|
                0 <= i < entries.drop_first().len() ==> entries.drop_first()[i] == entries[i
                    + 1]);
        }
        lemma_lookup_absent(entries.drop_first(), k);
    }
}

/// A lookup returns the value at the first position whose key matches.
pub proof fn lemma_lookup_at_first_match(entries: Seq<(String, Yaml)>, k: Seq<char>, i: int)
    requires
        0 <= i < entries.len(),
        entries[i].0@ == k,
        forall|j: int| 0 <= j < i ==> (#[trigger] entries[j]).0@ != k,
    ensures
        has_key(entries, k),
        lookup(entries, k) == entries[i].1,
    decreases i,
{
    if i > 0 {
        assert(entries.drop_first()[i - 1] == entries[i]);
        assert(forall|j: int|
            0 <= j < i - 1 ==> (#[trigger] entries.drop_first()[j]).0@ != k) by {
            assert(forall|j: int|
                0 <= j < i - 1 ==> entries.drop_first()[j] == entries[j + 1]);
        }
        lemma_lookup_at_first_match(entries.drop_first(), k, i - 1);
    }
}

/// Compares a `String` with a string slice, by contents.
pub fn string_eq_str(a: &String, b: &str) -> (r: bool)
    ensures
        r == (a@ == b@),
{
    let bs: String = b.to_owned();
    *a == bs
}

/// Builds a string scalar from a string slice.
pub fn get_yaml_string(rust_str: &str) -> (y: Yaml)
    ensures
        y matches Yaml::Str(s) && s@ == rust_str@,
{
    Yaml::Str(rust_str.to_owned())
}

/// Extracts the text of a string scalar; any other node yields `None`.
pub fn get_string_from_yaml(yaml: &Yaml) -> (r: Option<String>)
    ensures
        match r {
            Some(s) => yaml matches Yaml::Str(t) && s@ == t@,
            None => !(yaml matches Yaml::Str(_)),
        },
{
    match yaml {
        Yaml::Str(s) => Some(s.clone()),
        _ => None,
    }
}

impl Yaml {
    /// Holds when this node is a missing or invalid value.
    pub open spec fn spec_is_badvalue(&self) -> bool {
        *self is Bad
    }

    /// Reports whether this node is a missing or invalid value.
    #[verifier::when_used_as_spec(spec_is_badvalue)]
    pub fn is_badvalue(&self) -> (r: bool)
        ensures
            r == self.spec_is_badvalue(),
    {
        match self {
            Yaml::Bad => true,
            _ => false,
        }
    }

    /// The entries of a mapping node, in spec form.
    pub open spec fn spec_entries(&self) -> Seq<(String, Yaml)>
        recommends
            *self is Hash,
    {
        self->Hash_0@
    }

    /// Looks up `key` in a mapping node; the first matching entry wins.
    /// Any node that is not a mapping, and any missing key, yields `None`.
    pub fn lookup<'a>(&'a self, key: &str) -> (r: Option<&'a Yaml>)
        ensures
            match r {
                Some(v) => *self is Hash && has_key(self.spec_entries(), key@) && *v == lookup(
                    self.spec_entries(),
                    key@,
                ),
                None => !(*self is Hash) || !has_key(self.spec_entries(), key@),
            },
    {
        match self {
            Yaml::Hash(entries) => {
                let n = entries.len();
                let mut i: usize = 0;
                while i < n
                    invariant
                        *self is Hash && self.spec_entries() == entries@,
                        n == entries.len(),
                        i <= n,
                        forall|j: int| 0 <= j < i ==> (#[trigger] entries@[j]).0@ != key@,
                    decreases n - i,
                {
                    if string_eq_str(&entries[i].0, key) {
                        proof {
                            assert(self.spec_entries() =~= entries@);
                            lemma_lookup_at_first_match(entries@, key@, i as int);
                            assert(lookup(entries@, key@) == entries@[i as int].1);
                        }
                        return Some(&entries[i].1);
                    }
                    i = i + 1;
                }
                None
            },
            _ => None,
        }
    }
}

/// Holds when the subcommand element `y` declares the name `name`:
/// it is a mapping with an entry under that name.
pub open spec fn scmd_declares(y: Yaml, name: Seq<char>) -> bool {
    y is Hash && has_key(y->Hash_0@, name)
}

/// Selects the options of the subcommand named `cmd_name`: the first
/// element of the tree's `subcommands` array that declares the name,
/// looked up under it. Yields nothing when the tree has no
/// `subcommands` array or no element declares the name.
pub fn get_subcommand_from_yaml<'a>(cmd_name: &str, yaml: &'a Yaml) -> (r: Option<&'a Yaml>)
    ensures
        match r {
            Some(opts) => *yaml is Hash && (lookup(yaml->Hash_0@, "subcommands"@)
                matches Yaml::Array(arr) && (exists|i: int|
                0 <= i < arr@.len() && scmd_declares(#[trigger] arr@[i], cmd_name@) && *opts
                    == lookup(arr@[i]->Hash_0@, cmd_name@))),
            None => {
                ||| !(*yaml is Hash && lookup(yaml->Hash_0@, "subcommands"@) is Array)
                ||| (lookup(yaml->Hash_0@, "subcommands"@) matches Yaml::Array(arr) && (forall|
                    i: int,
                |
                    0 <= i < arr@.len() ==> !scmd_declares(#[trigger] arr@[i], cmd_name@)))
            },
        },
{
    let subcommands = match yaml.lookup("subcommands") {
        Some(s) => s,
        None => {
            proof {
                if *yaml is Hash && !has_key(yaml->Hash_0@, "subcommands"@) {
                    lemma_lookup_absent(yaml->Hash_0@, "subcommands"@);
                }
            }
            return None;
        },
    };
    let arr = match subcommands {
        Yaml::Array(a) => a,
        _ => {
            return None;
        },
    };
    let n = arr.len();
    let mut i: usize = 0;
    while i < n
        invariant
            i <= n,
            n == arr.len(),
            *yaml is Hash,
            lookup(yaml->Hash_0@, "subcommands"@) matches Yaml::Array(av) && av@ == arr@,
            forall|j: int| 0 <= j < i ==> !scmd_declares(#[trigger] arr@[j], cmd_name@),
        decreases n - i,
    {
        match (&arr[i]).lookup(cmd_name) {
            Some(opts) => {
                return Some(opts);
            },
            None => {},
        }
        i = i + 1;
    }
    None
}

} // verus!
