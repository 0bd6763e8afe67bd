//! JSON-like values: request bodies, template scopes, and responses.
//!
//! A value is a tree of plain data. Numbers are kept either as signed
//! integers or as validated number literals, so that a value prints
//! exactly as it was written. The two writers — compact and pretty —
//! are specified character by character.

use vstd::prelude::*;

use crate::text::{dec_str_int, hex_digit_char, hex_digit_char_exec, i64_to_dec};
use crate::yaml::string_eq_str;

verus! {

/// One JSON value.
#[derive(Debug, PartialEq)]
pub enum JsonValue {
    /// The null value.
    Null,
    /// A boolean.
    Bool(bool),
    /// An integer.
    Int(i64),
    /// A number kept as its literal text, as written in a template.
    NumLit(String),
    /// A string.
    Str(String),
    /// An array of values.
    Array(Vec<JsonValue>),
    /// An object, as ordered `(key, value)` entries.
    Object(Vec<(String, JsonValue)>),
}

/// Holds when some entry of `entries` has key `k`.
pub open spec fn json_has_key(entries: Seq<(String, JsonValue)>, k: Seq<char>) -> bool {
    exists|i: int| 0 <= i < entries.len() && (#[trigger] entries[i]).0@ == k
}

/// The value of the first entry of `entries` whose key is `k`,
/// or `JsonValue::Null` when no entry has that key.
pub open spec fn json_lookup(entries: Seq<(String, JsonValue)>, k: Seq<char>) -> JsonValue
    decreases entries.len(),
{
    if entries.len() == 0 {
        JsonValue::Null
    } else if entries[0].0@ == k {
        entries[0].1
    } else {
        json_lookup(entries.drop_first(), k)
    }
}

/// A lookup that finds no entry returns `JsonValue::Null`.
pub proof fn lemma_json_lookup_absent(entries: Seq<(String, JsonValue)>, k: Seq<char>)
    requires
        !json_has_key(entries, k),
    ensures
        json_lookup(entries, k) == JsonValue::Null,
    decreases entries.len(),
{
    if entries.len() > 0 {
        assert(entries[0].0@ != k);
        assert(forall|i: int|
            0 <= i < entries.drop_first().len() ==> (#[trigger] entries.drop_first()[i]).0@
                != k) by {
            assert(forall|i: int|
                0 <= i < entries.drop_first().len() ==> entries.drop_first()[i] == entries[i
                    + 1]);
        }
        lemma_json_lookup_absent(entries.drop_first(), k);
    }
}

/// A lookup returns the value at the first position whose key matches.
pub proof fn lemma_json_lookup_at_first_match(
    entries: Seq<(String, JsonValue)>,
    k: Seq<char>,
    i: int,
)
    requires
        0 <= i < entries.len(),
        entries[i].0@ == k,
        forall|j: int| 0 <= j < i ==> (#[trigger] entries[j]).0@ != k,
    ensures
        json_has_key(entries, k),
        json_lookup(entries, k) == entries[i].1,
    decreases i,
{
    if i > 0 {
        assert(entries.drop_first()[i - 1] == entries[i]);
        assert(forall|j: int|
            0 <= j < i - 1 ==> (#[trigger] entries.drop_first()[j]).0@ != k) by {
            assert(forall|j: int|
                0 <= j < i - 1 ==> entries.drop_first()[j] == entries[j + 1]);
        }
        lemma_json_lookup_at_first_match(entries.drop_first(), k, i - 1);
    }
}

/// The position of the first entry of `entries` whose key is `key`.
pub fn json_find_key_index(entries: &Vec<(String, JsonValue)>, key: &str) -> (r: Option<usize>)
    ensures
        match r {
            Some(i) => i < entries@.len() && entries@[i as int].0@ == key@ && (forall|j: int|
                0 <= j < i ==> (#[trigger] entries@[j]).0@ != key@),
            None => !json_has_key(entries@, key@),
        },
{
    let n = entries.len();
    let mut i: usize = 0;
    while i < n
        invariant
            n == entries.len(),
            i <= n,
            forall|j: int| 0 <= j < i ==> (#[trigger] entries@[j]).0@ != key@,
        decreases n - i,
    {
        if string_eq_str(&entries[i].0, key) {
            return Some(i);
        }
        i = i + 1;
    }
    None
}

/// Looks `key` up in an object's entries; the first matching entry wins.
pub fn json_lookup_ref<'a>(entries: &'a Vec<(String, JsonValue)>, key: &str) -> (r: Option<
    &'a JsonValue,
>)
    ensures
        match r {
            Some(v) => json_has_key(entries@, key@) && *v == json_lookup(entries@, key@),
            None => !json_has_key(entries@, key@),
        },
{
    match json_find_key_index(entries, key) {
        Some(i) => {
            proof {
                lemma_json_lookup_at_first_match(entries@, key@, i as int);
            }
            Some(&entries[i].1)
        },
        None => None,
    }
}

/// Two entry lists with the same keys everywhere, and the same values
/// wherever the key is `k`, agree on `k`.
proof fn lemma_json_lookup_same_keys(
    s1: Seq<(String, JsonValue)>,
    s2: Seq<(String, JsonValue)>,
    k: Seq<char>,
)
    requires
        s1.len() == s2.len(),
        forall|j: int| 0 <= j < s1.len() ==> (#[trigger] s1[j]).0@ == s2[j].0@,
        forall|j: int| 0 <= j < s1.len() && (#[trigger] s1[j]).0@ == k ==> s1[j].1 == s2[j].1,
    ensures
        json_has_key(s1, k) == json_has_key(s2, k),
        json_lookup(s1, k) == json_lookup(s2, k),
    decreases s1.len(),
{
    assert(json_has_key(s1, k) == json_has_key(s2, k)) by {
        if json_has_key(s1, k) {
            let i = choose|i: int| 0 <= i < s1.len() && (#[trigger] s1[i]).0@ == k;
            assert(s2[i].0@ == k);
        }
        if json_has_key(s2, k) {
            let i = choose|i: int| 0 <= i < s2.len() && (#[trigger] s2[i]).0@ == k;
            assert(s1[i].0@ == k);
        }
    }
    if s1.len() > 0 {
        assert(forall|j: int| 0 <= j < s1.drop_first().len() ==> s1.drop_first()[j] == s1[j + 1]);
        assert(forall|j: int| 0 <= j < s2.drop_first().len() ==> s2.drop_first()[j] == s2[j + 1]);
        lemma_json_lookup_same_keys(s1.drop_first(), s2.drop_first(), k);
    }
}

/// Looking a key up in a concatenation searches the front first.
proof fn lemma_json_lookup_concat(
    a: Seq<(String, JsonValue)>,
    c: Seq<(String, JsonValue)>,
    k: Seq<char>,
)
    ensures
        json_has_key(a + c, k) <==> json_has_key(a, k) || json_has_key(c, k),
        json_has_key(a, k) ==> json_lookup(a + c, k) == json_lookup(a, k),
        !json_has_key(a, k) ==> json_lookup(a + c, k) == json_lookup(c, k),
    decreases a.len(),
{
    if a.len() == 0 {
        assert(a + c =~= c);
    } else {
        assert((a + c).drop_first() =~= a.drop_first() + c);
        lemma_json_lookup_concat(a.drop_first(), c, k);
        assert(json_has_key(a, k) <==> (a[0].0@ == k || json_has_key(a.drop_first(), k))) by {
            assert(forall|i: int|
                0 <= i < a.drop_first().len() ==> a.drop_first()[i] == a[i + 1]);
            if json_has_key(a, k) {
                let i = choose|i: int| 0 <= i < a.len() && (#[trigger] a[i]).0@ == k;
                if i > 0 {
                    assert(a.drop_first()[i - 1].0@ == k);
                }
            }
        }
        assert((a + c)[0] == a[0]);
    }
}

/// Inserts `value` under `key`, replacing the first entry with that key
/// if one exists and appending otherwise. Lookups of every other key
/// are unchanged.
pub fn json_entries_insert(entries: &mut Vec<(String, JsonValue)>, key: String, value: JsonValue)
    ensures
        json_has_key(final(entries)@, key@),
        json_lookup(final(entries)@, key@) == value,
        forall|k: Seq<char>|
            k != key@ ==> (json_has_key(final(entries)@, k) <==> json_has_key(old(entries)@, k)),
        forall|k: Seq<char>|
            k != key@ ==> json_lookup(final(entries)@, k) == json_lookup(old(entries)@, k),
{
    let ghost s = entries@;
    match json_find_key_index(entries, key.as_str()) {
        Some(i) => {
            let ghost kview = key@;
            vstd::pervasive::VecAdditionalExecFns::set(entries, i, (key, value));
            proof {
                assert(entries@ =~= s.update(i as int, (key, value)));
                lemma_json_lookup_at_first_match(entries@, kview, i as int);
                assert forall|k: Seq<char>| k != kview implies json_has_key(entries@, k)
                    == json_has_key(s, k) && json_lookup(entries@, k) == json_lookup(s, k) by {
                    lemma_json_lookup_same_keys(s, entries@, k);
                }
            }
        },
        None => {
            let ghost kview = key@;
            let ghost e = (key, value);
            entries.push((key, value));
            proof {
                assert(entries@ =~= s + seq![e]);
                lemma_json_lookup_concat(s, seq![e], kview);
                assert(seq![e][0] == e);
                assert(json_has_key(seq![e], kview));
                assert(json_lookup(seq![e], kview) == value);
                assert forall|k: Seq<char>| k != kview implies json_has_key(entries@, k)
                    == json_has_key(s, k) && json_lookup(entries@, k) == json_lookup(s, k) by {
                    lemma_json_lookup_concat(s, seq![e], k);
                    assert(seq![e].drop_first() =~= Seq::<(String, JsonValue)>::empty());
                    if !json_has_key(s, k) {
                        assert(!json_has_key(seq![e], k)) by {
                            assert(seq![e][0] == e);
                        }
                        lemma_json_lookup_absent(s, k);
                        lemma_json_lookup_absent(seq![e], k);
                    }
                }
            }
        },
    }
}

/// How one character is written inside a JSON string: quotes and
/// backslashes gain a backslash, the named control characters use their
/// short escapes, other control characters use `\u00..`, and everything
/// else stands as itself.
pub open spec fn json_escape_char(c: char) -> Seq<char> {
    if c == '"' {
        seq!['\\', '"']
    } else if c == '\\' {
        seq!['\\', '\\']
    } else if c == '\u{8}' {
        seq!['\\', 'b']
    } else if c == '\t' {
        seq!['\\', 't']
    } else if c == '\n' {
        seq!['\\', 'n']
    } else if c == '\u{c}' {
        seq!['\\', 'f']
    } else if c == '\r' {
        seq!['\\', 'r']
    } else if (c as u32) < 0x20 {
        seq!['\\', 'u', '0', '0', hex_digit_char(c as int / 16), hex_digit_char(c as int % 16)]
    } else {
        seq![c]
    }
}

/// A string's characters, escaped for a JSON string literal.
pub open spec fn json_escape(s: Seq<char>) -> Seq<char>
    decreases s.len(),
{
    if s.len() == 0 {
        Seq::empty()
    } else {
        json_escape_char(s[0]) + json_escape(s.drop_first())
    }
}

proof fn lemma_json_escape_push(s: Seq<char>, c: char)
    ensures
        json_escape(s.push(c)) == json_escape(s) + json_escape_char(c),
    decreases s.len(),
{
    if s.len() == 0 {
        assert(s.push(c).drop_first() =~= s);
        assert(json_escape(s.push(c)) =~= json_escape(s) + json_escape_char(c));
    } else {
        assert(s.push(c).drop_first() =~= s.drop_first().push(c));
        lemma_json_escape_push(s.drop_first(), c);
        assert(json_escape(s.push(c)) =~= json_escape(s) + json_escape_char(c));
    }
}

/// Writes the characters of `s`, escaped, onto `out`.
fn push_escaped(out: &mut String, s: &str)
    ensures
        final(out)@ == old(out)@ + json_escape(s@),
{
    let n = vstd::string::StrSliceExecFns::unicode_len(s);
    let mut i: usize = 0;
    while i < n
        invariant
            i <= n,
            n == s@.len(),
            out@ == old(out)@ + json_escape(s@.take(i as int)),
        decreases n - i,
    {
        let c = vstd::string::StrSliceExecFns::get_char(s, i);
        if c == '"' {
            out.push('\\');
            out.push('"');
        } else if c == '\\' {
            out.push('\\');
            out.push('\\');
        } else if c == '\u{8}' {
            out.push('\\');
            out.push('b');
        } else if c == '\t' {
            out.push('\\');
            out.push('t');
        } else if c == '\n' {
            out.push('\\');
            out.push('n');
        } else if c == '\u{c}' {
            out.push('\\');
            out.push('f');
        } else if c == '\r' {
            out.push('\\');
            out.push('r');
        } else if (c as u32) < 0x20 {
            out.push('\\');
            out.push('u');
            out.push('0');
            out.push('0');
            out.push(hex_digit_char_exec((c as u32 / 16) as u8));
            out.push(hex_digit_char_exec((c as u32 % 16) as u8));
        } else {
            out.push(c);
        }
        proof {
            lemma_json_escape_push(s@.take(i as int), s@[i as int]);
            assert(s@.take(i + 1) =~= s@.take(i as int).push(s@[i as int]));
            assert(out@ =~= old(out)@ + json_escape(s@.take(i + 1)));
        }
        i = i + 1;
    }
    proof {
        assert(s@.take(n as int) =~= s@);
    }
}

/// The compact text of a value, with no whitespace, as the raw-response
/// output prints it.
pub open spec fn json_text(v: JsonValue) -> Seq<char>
    decreases v,
{
    match v {
        JsonValue::Null => "null"@,
        JsonValue::Bool(b) => if b {
            "true"@
        } else {
            "false"@
        },
        JsonValue::Int(i) => dec_str_int(i as int),
        JsonValue::NumLit(s) => s@,
        JsonValue::Str(s) => seq!['"'] + json_escape(s@) + seq!['"'],
        JsonValue::Array(items) => seq!['['] + json_text_items(items@) + seq![']'],
        JsonValue::Object(fields) => seq!['{'] + json_text_fields(fields@) + seq!['}'],
    }
}

/// The compact text of an array's elements, comma-separated.
pub open spec fn json_text_items(items: Seq<JsonValue>) -> Seq<char>
    decreases items,
{
    if items.len() == 0 {
        Seq::empty()
    } else if items.len() == 1 {
        json_text(items[0])
    } else {
        json_text(items[0]) + seq![','] + json_text_items(items.drop_first())
    }
}

/// The compact text of an object's fields, comma-separated, each as
/// `"key":value`.
pub open spec fn json_text_fields(fields: Seq<(String, JsonValue)>) -> Seq<char>
    decreases fields,
{
    if fields.len() == 0 {
        Seq::empty()
    } else {
        let head = seq!['"'] + json_escape(fields[0].0@) + seq!['"', ':'] + json_text(fields[0].1);
        if fields.len() == 1 {
            head
        } else {
            head + seq![','] + json_text_fields(fields.drop_first())
        }
    }
}

proof fn lemma_json_text_items_push(items: Seq<JsonValue>, x: JsonValue)
    ensures
        json_text_items(items.push(x)) == if items.len() == 0 {
            json_text(x)
        } else {
            json_text_items(items) + seq![','] + json_text(x)
        },
    decreases items.len(),
{
    if items.len() == 0 {
        assert(items.push(x)[0] == x);
        assert(json_text_items(items.push(x)) =~= json_text(x));
    } else {
        assert(items.push(x).drop_first() =~= items.drop_first().push(x));
        lemma_json_text_items_push(items.drop_first(), x);
        if items.len() == 1 {
            assert(json_text_items(items.push(x)) =~= json_text_items(items) + seq![',']
                + json_text(x));
        } else {
            assert(json_text_items(items.push(x)) =~= json_text_items(items) + seq![',']
                + json_text(x));
        }
    }
}

proof fn lemma_json_text_fields_push(fields: Seq<(String, JsonValue)>, x: (String, JsonValue))
    ensures
        json_text_fields(fields.push(x)) == {
            let head = seq!['"'] + json_escape(x.0@) + seq!['"', ':'] + json_text(x.1);
            if fields.len() == 0 {
                head
            } else {
                json_text_fields(fields) + seq![','] + head
            }
        },
    decreases fields.len(),
{
    let head = seq!['"'] + json_escape(x.0@) + seq!['"', ':'] + json_text(x.1);
    if fields.len() == 0 {
        assert(fields.push(x)[0] == x);
        assert(json_text_fields(fields.push(x)) =~= head);
    } else {
        assert(fields.push(x).drop_first() =~= fields.drop_first().push(x));
        lemma_json_text_fields_push(fields.drop_first(), x);
        assert(fields.push(x)[0] == fields[0]);
        if fields.len() == 1 {
            assert(json_text_fields(fields.push(x)) =~= json_text_fields(fields) + seq![',']
                + head);
        } else {
            assert(json_text_fields(fields.push(x)) =~= json_text_fields(fields) + seq![',']
                + head);
        }
    }
}

/// Writes the compact text of `v` onto `out`.
pub fn write_json(out: &mut String, v: &JsonValue)
    ensures
        final(out)@ == old(out)@ + json_text(*v),
    decreases *v,
{
    match v {
        JsonValue::Null => {
            out.append("null");
        },
        JsonValue::Bool(b) => {
            if *b {
                out.append("true");
            } else {
                out.append("false");
            }
        },
        JsonValue::Int(i) => {
            let ghost before = out@;
            let t = i64_to_dec(*i);
            out.append(t.as_str());
            proof {
                assert(out@ =~= before + json_text(*v));
            }
        },
        JsonValue::NumLit(s) => {
            out.append(s.as_str());
        },
        JsonValue::Str(s) => {
            let ghost before = out@;
            out.push('"');
            push_escaped(out, s.as_str());
            out.push('"');
            proof {
                assert(out@ =~= before + json_text(*v));
            }
        },
        JsonValue::Array(items) => {
            let ghost before = out@;
            out.push('[');
            let n = items.len();
            let mut i: usize = 0;
            while i < n
                invariant
                    i <= n,
                    n == items.len(),
                    *v is Array && v->Array_0@ == items@,
                    out@ == before + seq!['['] + json_text_items(items@.take(i as int)),
                decreases n - i,
            {
                if i > 0 {
                    out.push(',');
                }
                proof {
                    assert(decreases_to!(*v => items@[i as int]));
                }
                write_json(out, &items[i]);
                proof {
                    lemma_json_text_items_push(items@.take(i as int), items@[i as int]);
                    assert(items@.take(i + 1) =~= items@.take(i as int).push(items@[i as int]));
                    assert(out@ =~= before + seq!['['] + json_text_items(items@.take(i + 1)));
                }
                i = i + 1;
            }
            out.push(']');
            proof {
                assert(items@.take(n as int) =~= items@);
                assert(out@ =~= before + json_text(*v));
            }
        },
        JsonValue::Object(fields) => {
            let ghost before = out@;
            out.push('{');
            let n = fields.len();
            let mut i: usize = 0;
            while i < n
                invariant
                    i <= n,
                    n == fields.len(),
                    *v is Object && v->Object_0@ == fields@,
                    out@ == before + seq!['{'] + json_text_fields(fields@.take(i as int)),
                decreases n - i,
            {
                if i > 0 {
                    out.push(',');
                }
                let ghost mid = out@;
                out.push('"');
                push_escaped(out, fields[i].0.as_str());
                out.push('"');
                out.push(':');
                proof {
                    assert(decreases_to!(*v => fields@[i as int].1));
                }
                write_json(out, &fields[i].1);
                proof {
                    lemma_json_text_fields_push(fields@.take(i as int), fields@[i as int]);
                    assert(fields@.take(i + 1) =~= fields@.take(i as int).push(
                        fields@[i as int],
                    ));
                    assert(out@ =~= before + seq!['{'] + json_text_fields(fields@.take(i + 1)));
                }
                i = i + 1;
            }
            out.push('}');
            proof {
                assert(fields@.take(n as int) =~= fields@);
                assert(out@ =~= before + json_text(*v));
            }
        },
    }
}

/// The compact text of a value: no spaces, no newlines.
pub fn json_to_string(v: &JsonValue) -> (s: String)
    ensures
        s@ == json_text(*v),
{
    let mut s = String::new();
    write_json(&mut s, v);
    proof {
        assert(s@ =~= json_text(*v));
    }
    s
}

/// The compact text of an object given as bare entries, as the template
/// scope is serialized.
pub fn object_text_string(fields: &Vec<(String, JsonValue)>) -> (s: String)
    ensures
        s@ == seq!['{'] + json_text_fields(fields@) + seq!['}'],
{
    let mut out = String::new();
    out.push('{');
    let n = fields.len();
    let mut i: usize = 0;
    while i < n
        invariant
            i <= n,
            n == fields.len(),
            out@ == seq!['{'] + json_text_fields(fields@.take(i as int)),
        decreases n - i,
    {
        if i > 0 {
            out.push(',');
        }
        out.push('"');
        push_escaped(&mut out, fields[i].0.as_str());
        out.push('"');
        out.push(':');
        write_json(&mut out, &fields[i].1);
        proof {
            lemma_json_text_fields_push(fields@.take(i as int), fields@[i as int]);
            assert(fields@.take(i + 1) =~= fields@.take(i as int).push(fields@[i as int]));
            assert(out@ =~= seq!['{'] + json_text_fields(fields@.take(i + 1)));
        }
        i = i + 1;
    }
    out.push('}');
    proof {
        assert(fields@.take(n as int) =~= fields@);
        assert(out@ =~= seq!['{'] + json_text_fields(fields@) + seq!['}']);
    }
    out
}

/// Two spaces for every level of nesting.
pub open spec fn indent(depth: nat) -> Seq<char>
    decreases depth,
{
    if depth == 0 {
        Seq::empty()
    } else {
        seq![' ', ' '] + indent((depth - 1) as nat)
    }
}

proof fn lemma_indent_snoc(depth: nat)
    ensures
        indent(depth + 1) == indent(depth) + seq![' ', ' '],
    decreases depth,
{
    if depth == 0 {
        assert(indent(1) =~= indent(0) + seq![' ', ' ']);
    } else {
        lemma_indent_snoc((depth - 1) as nat);
        assert(indent(depth + 1) =~= indent(depth) + seq![' ', ' ']);
    }
}

/// The pretty text of a value at nesting level `depth`: arrays and
/// objects with elements spread over lines, two spaces of indent per
/// level, `": "` between a key and its value; empty containers and
/// scalars print compactly.
pub open spec fn pretty_text(v: JsonValue, depth: nat) -> Seq<char>
    decreases v,
{
    match v {
        JsonValue::Array(items) => {
            if items@.len() == 0 {
                "[]"@
            } else {
                seq!['['] + pretty_items(items@, depth + 1) + seq!['\n'] + indent(depth)
                    + seq![']']
            }
        },
        JsonValue::Object(fields) => {
            if fields@.len() == 0 {
                "{}"@
            } else {
                seq!['{'] + pretty_fields(fields@, depth + 1) + seq!['\n'] + indent(depth)
                    + seq!['}']
            }
        },
        _ => json_text(v),
    }
}

/// The pretty text of an array's elements: each on its own line.
pub open spec fn pretty_items(items: Seq<JsonValue>, depth: nat) -> Seq<char>
    decreases items,
{
    if items.len() == 0 {
        Seq::empty()
    } else {
        let head = seq!['\n'] + indent(depth) + pretty_text(items[0], depth);
        if items.len() == 1 {
            head
        } else {
            head + seq![','] + pretty_items(items.drop_first(), depth)
        }
    }
}

/// The pretty text of an object's fields: each on its own line, as
/// `"key": value`.
pub open spec fn pretty_fields(fields: Seq<(String, JsonValue)>, depth: nat) -> Seq<char>
    decreases fields,
{
    if fields.len() == 0 {
        Seq::empty()
    } else {
        let head = seq!['\n'] + indent(depth) + seq!['"'] + json_escape(fields[0].0@) + seq![
            '"',
            ':',
            ' ',
        ] + pretty_text(fields[0].1, depth);
        if fields.len() == 1 {
            head
        } else {
            head + seq![','] + pretty_fields(fields.drop_first(), depth)
        }
    }
}

proof fn lemma_pretty_items_push(items: Seq<JsonValue>, x: JsonValue, depth: nat)
    ensures
        pretty_items(items.push(x), depth) == {
            let head = seq!['\n'] + indent(depth) + pretty_text(x, depth);
            if items.len() == 0 {
                head
            } else {
                pretty_items(items, depth) + seq![','] + head
            }
        },
    decreases items.len(),
{
    let head = seq!['\n'] + indent(depth) + pretty_text(x, depth);
    if items.len() == 0 {
        assert(items.push(x)[0] == x);
        assert(pretty_items(items.push(x), depth) =~= head);
    } else {
        assert(items.push(x).drop_first() =~= items.drop_first().push(x));
        lemma_pretty_items_push(items.drop_first(), x, depth);
        assert(items.push(x)[0] == items[0]);
        assert(pretty_items(items.push(x), depth) =~= pretty_items(items, depth) + seq![',']
            + head);
    }
}

proof fn lemma_pretty_fields_push(
    fields: Seq<(String, JsonValue)>,
    x: (String, JsonValue),
    depth: nat,
)
    ensures
        pretty_fields(fields.push(x), depth) == {
            let head = seq!['\n'] + indent(depth) + seq!['"'] + json_escape(x.0@) + seq![
                '"',
                ':',
                ' ',
            ] + pretty_text(x.1, depth);
            if fields.len() == 0 {
                head
            } else {
                pretty_fields(fields, depth) + seq![','] + head
            }
        },
    decreases fields.len(),
{
    let head = seq!['\n'] + indent(depth) + seq!['"'] + json_escape(x.0@) + seq!['"', ':', ' ']
        + pretty_text(x.1, depth);
    if fields.len() == 0 {
        assert(fields.push(x)[0] == x);
        assert(pretty_fields(fields.push(x), depth) =~= head);
    } else {
        assert(fields.push(x).drop_first() =~= fields.drop_first().push(x));
        lemma_pretty_fields_push(fields.drop_first(), x, depth);
        assert(fields.push(x)[0] == fields[0]);
        assert(pretty_fields(fields.push(x), depth) =~= pretty_fields(fields, depth) + seq![',']
            + head);
    }
}

/// Writes the pretty text of `v` onto `out`; `ind` is the current
/// indentation, two spaces per level.
fn pretty_into(out: &mut String, v: &JsonValue, ind: &String, Ghost(depth): Ghost<nat>)
    requires
        ind@ == indent(depth),
    ensures
        final(out)@ == old(out)@ + pretty_text(*v, depth),
    decreases *v,
{
    match v {
        JsonValue::Array(items) => {
            if items.len() == 0 {
                out.append("[]");
                return ;
            }
            let ghost before = out@;
            let mut ind2 = ind.clone();
            ind2.append("  ");
            proof {
                reveal_strlit("  ");
                assert("  "@.len() == 2 && "  "@[0] == ' ' && "  "@[1] == ' ');
                assert("  "@ =~= seq![' ', ' ']);
                lemma_indent_snoc(depth);
                assert(ind2@ == indent(depth + 1));
            }
            out.push('[');
            let n = items.len();
            let mut i: usize = 0;
            while i < n
                invariant
                    0 < i <= n || i == 0,
                    i <= n,
                    n == items.len(),
                    n > 0,
                    *v is Array && v->Array_0@ == items@,
                    ind2@ == indent(depth + 1),
                    ind@ == indent(depth),
                    out@ == before + seq!['['] + pretty_items(items@.take(i as int), depth + 1),
                decreases n - i,
            {
                if i > 0 {
                    out.push(',');
                }
                out.push('\n');
                out.append(ind2.as_str());
                proof {
                    assert(decreases_to!(*v => items@[i as int]));
                }
                pretty_into(out, &items[i], &ind2, Ghost(depth + 1));
                proof {
                    lemma_pretty_items_push(items@.take(i as int), items@[i as int], depth + 1);
                    assert(items@.take(i + 1) =~= items@.take(i as int).push(items@[i as int]));
                    assert(out@ =~= before + seq!['['] + pretty_items(
                        items@.take(i + 1),
                        depth + 1,
                    ));
                }
                i = i + 1;
            }
            out.push('\n');
            out.append(ind.as_str());
            out.push(']');
            proof {
                assert(items@.take(n as int) =~= items@);
                assert(out@ =~= before + pretty_text(*v, depth));
            }
        },
        JsonValue::Object(fields) => {
            if fields.len() == 0 {
                out.append("{}");
                return ;
            }
            let ghost before = out@;
            let mut ind2 = ind.clone();
            ind2.append("  ");
            proof {
                reveal_strlit("  ");
                assert("  "@.len() == 2 && "  "@[0] == ' ' && "  "@[1] == ' ');
                assert("  "@ =~= seq![' ', ' ']);
                lemma_indent_snoc(depth);
                assert(ind2@ == indent(depth + 1));
            }
            out.push('{');
            let n = fields.len();
            let mut i: usize = 0;
            while i < n
                invariant
                    i <= n,
                    n == fields.len(),
                    n > 0,
                    *v is Object && v->Object_0@ == fields@,
                    ind2@ == indent(depth + 1),
                    ind@ == indent(depth),
                    out@ == before + seq!['{'] + pretty_fields(fields@.take(i as int), depth + 1),
                decreases n - i,
            {
                if i > 0 {
                    out.push(',');
                }
                out.push('\n');
                out.append(ind2.as_str());
                out.push('"');
                push_escaped(out, fields[i].0.as_str());
                out.push('"');
                out.push(':');
                out.push(' ');
                proof {
                    assert(decreases_to!(*v => fields@[i as int].1));
                }
                pretty_into(out, &fields[i].1, &ind2, Ghost(depth + 1));
                proof {
                    lemma_pretty_fields_push(fields@.take(i as int), fields@[i as int], depth + 1);
                    assert(fields@.take(i + 1) =~= fields@.take(i as int).push(
                        fields@[i as int],
                    ));
                    assert(out@ =~= before + seq!['{'] + pretty_fields(
                        fields@.take(i + 1),
                        depth + 1,
                    ));
                }
                i = i + 1;
            }
            out.push('\n');
            out.append(ind.as_str());
            out.push('}');
            proof {
                assert(fields@.take(n as int) =~= fields@);
                assert(out@ =~= before + pretty_text(*v, depth));
            }
        },
        other => {
            write_json(out, other);
        },
    }
}

/// The pretty text of a value: elements one per line, two spaces of
/// indent per nesting level.
pub fn json_to_string_pretty(v: &JsonValue) -> (s: String)
    ensures
        s@ == pretty_text(*v, 0),
{
    let mut s = String::new();
    let ind = String::new();
    proof {
        assert(ind@ =~= indent(0));
    }
    pretty_into(&mut s, v, &ind, Ghost(0));
    proof {
        assert(s@ =~= pretty_text(*v, 0));
    }
    s
}

} // verus!
