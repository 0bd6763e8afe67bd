//! Request body, form and header construction from configuration values.
//!
//! A body value is resolved deeply: mappings and arrays recurse, strings
//! are template-expanded and then coerced — a JSON number literal becomes
//! a number, `true`/`false` become booleans, the sentinel `[[empty]]`
//! omits the key, and anything else stays a string. Headers and query
//! parameters are shallow: their values must be strings, and each is
//! template-expanded. A value whose template fails to render is omitted.
//!
//! What a template renders to is not a function of the configuration
//! alone, so the contracts bind every rendered leaf by an existential:
//! the exact coercion of any one rendered string is pinned by
//! [`coerce_body_value`].

use vstd::prelude::*;

use crate::context::Context;
use crate::errors::ConfigError;
use crate::json::JsonValue;
use crate::template::get_compiled_template_str_with_context;
use crate::text::{is_json_number, is_json_number_exec};
use crate::yaml::{has_key, lookup, string_eq_str, Yaml};

verus! {

/// How one rendered string `s` is coerced into a body value: the
/// sentinel `[[empty]]` yields nothing, `true` and `false` yield
/// booleans, a JSON number literal yields that number, and any other
/// string yields itself, unchanged.
pub open spec fn coerced_matches(s: Seq<char>, r: Option<JsonValue>) -> bool {
    if s == "[[empty]]"@ {
        r is None
    } else if s == "true"@ {
        r == Some(JsonValue::Bool(true))
    } else if s == "false"@ {
        r == Some(JsonValue::Bool(false))
    } else if is_json_number(s) {
        r matches Some(v) && (v matches JsonValue::NumLit(l) && l@ == s)
    } else {
        r matches Some(v) && (v matches JsonValue::Str(t) && t@ == s)
    }
}

/// Coerces one rendered string into a body value, as
/// [`coerced_matches`] describes.
pub fn coerce_body_value(s: String) -> (r: Option<JsonValue>)
    ensures
        coerced_matches(s@, r),
{
    if string_eq_str(&s, "[[empty]]") {
        None
    } else if string_eq_str(&s, "true") {
        Some(JsonValue::Bool(true))
    } else if string_eq_str(&s, "false") {
        Some(JsonValue::Bool(false))
    } else if is_json_number_exec(s.as_str()) {
        Some(JsonValue::NumLit(s))
    } else {
        Some(JsonValue::Str(s))
    }
}

/// How a configuration node may resolve into a body value: integers,
/// booleans and nulls map directly, mappings and arrays recurse, and a
/// string leaf is the coercion of some rendered text — or nothing, when
/// its template failed or rendered the omission sentinel.
pub open spec fn may_resolve_to(y: Yaml, r: Option<JsonValue>) -> bool
    decreases y,
{
    match y {
        Yaml::Str(_) => exists|t: Seq<char>| coerced_matches(t, r),
        Yaml::Int(i) => r == Some(JsonValue::Int(i)),
        Yaml::Bool(b) => r == Some(JsonValue::Bool(b)),
        Yaml::Hash(es) => r matches Some(v) && (v matches JsonValue::Object(fs)
            && entries_resolve(es@, fs@)),
        Yaml::Array(items) => r matches Some(v) && (v matches JsonValue::Array(vs)
            && items_resolve(items@, vs@)),
        _ => r == Some(JsonValue::Null),
    }
}

/// How a mapping's entries resolve: keys keep their order, each value
/// resolves, and a key whose value resolves to nothing is omitted.
pub open spec fn entries_resolve(es: Seq<(String, Yaml)>, fs: Seq<(String, JsonValue)>) -> bool
    decreases es,
{
    if es.len() == 0 {
        fs.len() == 0
    } else {
        ||| (fs.len() > 0 && fs[0].0@ == es[0].0@ && may_resolve_to(es[0].1, Some(fs[0].1))
            && entries_resolve(es.drop_first(), fs.drop_first()))
        ||| (may_resolve_to(es[0].1, None) && entries_resolve(es.drop_first(), fs))
    }
}

/// How an array's elements resolve: order kept, elements that resolve
/// to nothing omitted.
pub open spec fn items_resolve(items: Seq<Yaml>, vs: Seq<JsonValue>) -> bool
    decreases items,
{
    if items.len() == 0 {
        vs.len() == 0
    } else {
        ||| (vs.len() > 0 && may_resolve_to(items[0], Some(vs[0])) && items_resolve(
            items.drop_first(),
            vs.drop_first(),
        ))
        ||| (may_resolve_to(items[0], None) && items_resolve(items.drop_first(), vs))
    }
}

proof fn lemma_entries_resolve_push_kept(
    a: Seq<(String, Yaml)>,
    b: Seq<(String, JsonValue)>,
    e: (String, Yaml),
    f: (String, JsonValue),
)
    requires
        entries_resolve(a, b),
        f.0@ == e.0@,
        may_resolve_to(e.1, Some(f.1)),
    ensures
        entries_resolve(a.push(e), b.push(f)),
    decreases a.len(),
{
    if a.len() == 0 {
        assert(b.len() == 0);
        assert(a.push(e)[0] == e);
        assert(b.push(f)[0] == f);
        assert(a.push(e).drop_first() =~= a);
        assert(b.push(f).drop_first() =~= b);
    } else {
        assert(a.push(e).drop_first() =~= a.drop_first().push(e));
        assert(a.push(e)[0] == a[0]);
        if b.len() > 0 && b[0].0@ == a[0].0@ && may_resolve_to(a[0].1, Some(b[0].1))
            && entries_resolve(a.drop_first(), b.drop_first()) {
            lemma_entries_resolve_push_kept(a.drop_first(), b.drop_first(), e, f);
            assert(b.push(f).drop_first() =~= b.drop_first().push(f));
            assert(b.push(f)[0] == b[0]);
        } else {
            lemma_entries_resolve_push_kept(a.drop_first(), b, e, f);
        }
    }
}

proof fn lemma_entries_resolve_push_skipped(
    a: Seq<(String, Yaml)>,
    b: Seq<(String, JsonValue)>,
    e: (String, Yaml),
)
    requires
        entries_resolve(a, b),
        may_resolve_to(e.1, None),
    ensures
        entries_resolve(a.push(e), b),
    decreases a.len(),
{
    if a.len() == 0 {
        assert(b.len() == 0);
        assert(a.push(e)[0] == e);
        assert(a.push(e).drop_first() =~= a);
    } else {
        assert(a.push(e).drop_first() =~= a.drop_first().push(e));
        assert(a.push(e)[0] == a[0]);
        if b.len() > 0 && b[0].0@ == a[0].0@ && may_resolve_to(a[0].1, Some(b[0].1))
            && entries_resolve(a.drop_first(), b.drop_first()) {
            lemma_entries_resolve_push_skipped(a.drop_first(), b.drop_first(), e);
        } else {
            lemma_entries_resolve_push_skipped(a.drop_first(), b, e);
        }
    }
}

proof fn lemma_items_resolve_push_kept(a: Seq<Yaml>, b: Seq<JsonValue>, e: Yaml, f: JsonValue)
    requires
        items_resolve(a, b),
        may_resolve_to(e, Some(f)),
    ensures
        items_resolve(a.push(e), b.push(f)),
    decreases a.len(),
{
    if a.len() == 0 {
        assert(b.len() == 0);
        assert(a.push(e)[0] == e);
        assert(b.push(f)[0] == f);
        assert(a.push(e).drop_first() =~= a);
        assert(b.push(f).drop_first() =~= b);
    } else {
        assert(a.push(e).drop_first() =~= a.drop_first().push(e));
        assert(a.push(e)[0] == a[0]);
        if b.len() > 0 && may_resolve_to(a[0], Some(b[0])) && items_resolve(
            a.drop_first(),
            b.drop_first(),
        ) {
            lemma_items_resolve_push_kept(a.drop_first(), b.drop_first(), e, f);
            assert(b.push(f).drop_first() =~= b.drop_first().push(f));
            assert(b.push(f)[0] == b[0]);
        } else {
            lemma_items_resolve_push_kept(a.drop_first(), b, e, f);
        }
    }
}

proof fn lemma_items_resolve_push_skipped(a: Seq<Yaml>, b: Seq<JsonValue>, e: Yaml)
    requires
        items_resolve(a, b),
        may_resolve_to(e, None),
    ensures
        items_resolve(a.push(e), b),
    decreases a.len(),
{
    if a.len() == 0 {
        assert(b.len() == 0);
        assert(a.push(e)[0] == e);
        assert(a.push(e).drop_first() =~= a);
    } else {
        assert(a.push(e).drop_first() =~= a.drop_first().push(e));
        assert(a.push(e)[0] == a[0]);
        if b.len() > 0 && may_resolve_to(a[0], Some(b[0])) && items_resolve(
            a.drop_first(),
            b.drop_first(),
        ) {
            lemma_items_resolve_push_skipped(a.drop_first(), b.drop_first(), e);
        } else {
            lemma_items_resolve_push_skipped(a.drop_first(), b, e);
        }
    }
}

/// Resolves one configuration node into a body value: mappings and
/// arrays recurse, scalars map directly, and string leaves are rendered
/// against the scope and coerced. `None` omits the enclosing key.
pub fn get_value_from_yaml(yaml: &Yaml, context: &Context) -> (r: Option<JsonValue>)
    ensures
        may_resolve_to(*yaml, r),
    decreases *yaml,
{
    match yaml {
        Yaml::Hash(es) => {
            proof {
                assert(decreases_to!(*yaml => *es));
            }
            let fs = resolve_entries(es, context);
            Some(JsonValue::Object(fs))
        },
        Yaml::Array(items) => {
            proof {
                assert(decreases_to!(*yaml => *items));
            }
            let vs = resolve_items(items, context);
            Some(JsonValue::Array(vs))
        },
        Yaml::Str(s) => {
            match get_compiled_template_str_with_context(s, context) {
                Ok(t) => {
                    let ghost tv = t@;
                    let r = coerce_body_value(t);
                    proof {
                        assert(coerced_matches(tv, r));
                    }
                    r
                },
                Err(_) => {
                    proof {
                        assert(coerced_matches("[[empty]]"@, Option::<JsonValue>::None));
                    }
                    None
                },
            }
        },
        Yaml::Int(i) => Some(JsonValue::Int(*i)),
        Yaml::Bool(b) => Some(JsonValue::Bool(*b)),
        _ => Some(JsonValue::Null),
    }
}

/// Resolves a mapping's entries, omitting keys that resolve to nothing.
fn resolve_entries(es: &Vec<(String, Yaml)>, context: &Context) -> (fs: Vec<(String, JsonValue)>)
    ensures
        entries_resolve(es@, fs@),
    decreases *es,
{
    let mut fs: Vec<(String, JsonValue)> = Vec::new();
    let n = es.len();
    let mut i: usize = 0;
    proof {
        assert(es@.take(0) =~= Seq::<(String, Yaml)>::empty());
    }
    while i < n
        invariant
            i <= n,
            n == es.len(),
            entries_resolve(es@.take(i as int), fs@),
        decreases n - i,
    {
        let key = es[i].0.clone();
        proof {
            assert(decreases_to!(*es => es@[i as int].1));
        }
        match get_value_from_yaml(&es[i].1, context) {
            Some(v) => {
                let ghost f = (key, v);
                proof {
                    lemma_entries_resolve_push_kept(es@.take(i as int), fs@, es@[i as int], f);
                    assert(es@.take(i + 1) =~= es@.take(i as int).push(es@[i as int]));
                }
                fs.push((key, v));
            },
            None => {
                proof {
                    lemma_entries_resolve_push_skipped(es@.take(i as int), fs@, es@[i as int]);
                    assert(es@.take(i + 1) =~= es@.take(i as int).push(es@[i as int]));
                }
            },
        }
        i = i + 1;
    }
    proof {
        assert(es@.take(n as int) =~= es@);
    }
    fs
}

/// Resolves an array's elements, omitting elements that resolve to
/// nothing.
fn resolve_items(items: &Vec<Yaml>, context: &Context) -> (vs: Vec<JsonValue>)
    ensures
        items_resolve(items@, vs@),
    decreases *items,
{
    let mut vs: Vec<JsonValue> = Vec::new();
    let n = items.len();
    let mut i: usize = 0;
    proof {
        assert(items@.take(0) =~= Seq::<Yaml>::empty());
    }
    while i < n
        invariant
            i <= n,
            n == items.len(),
            items_resolve(items@.take(i as int), vs@),
        decreases n - i,
    {
        proof {
            assert(decreases_to!(*items => items@[i as int]));
        }
        match get_value_from_yaml(&items[i], context) {
            Some(v) => {
                proof {
                    lemma_items_resolve_push_kept(items@.take(i as int), vs@, items@[i as int], v);
                    assert(items@.take(i + 1) =~= items@.take(i as int).push(items@[i as int]));
                }
                vs.push(v);
            },
            None => {
                proof {
                    lemma_items_resolve_push_skipped(items@.take(i as int), vs@, items@[i as int]);
                    assert(items@.take(i + 1) =~= items@.take(i as int).push(items@[i as int]));
                }
            },
        }
        i = i + 1;
    }
    proof {
        assert(items@.take(n as int) =~= items@);
    }
    vs
}

/// How a mapping's entries resolve shallowly: every value must be a
/// string; each is rendered, keys keep their order, and a value whose
/// template fails is omitted.
pub open spec fn shallow_resolve(es: Seq<(String, Yaml)>, fs: Seq<(String, JsonValue)>) -> bool
    decreases es,
{
    if es.len() == 0 {
        fs.len() == 0
    } else {
        es[0].1 is Str && {
            ||| (fs.len() > 0 && fs[0].0@ == es[0].0@ && fs[0].1 is Str && shallow_resolve(
                es.drop_first(),
                fs.drop_first(),
            ))
            ||| shallow_resolve(es.drop_first(), fs)
        }
    }
}

pub proof fn lemma_shallow_resolve_push(
    a: Seq<(String, Yaml)>,
    b: Seq<(String, JsonValue)>,
    e: (String, Yaml),
    f: Option<(String, JsonValue)>,
)
    requires
        shallow_resolve(a, b),
        e.1 is Str,
        f matches Some(p) ==> p.0@ == e.0@ && p.1 is Str,
    ensures
        f matches Some(p) ==> shallow_resolve(a.push(e), b.push(p)),
        f is None ==> shallow_resolve(a.push(e), b),
    decreases a.len(),
{
    if a.len() == 0 {
        assert(b.len() == 0);
        assert(a.push(e)[0] == e);
        assert(a.push(e).drop_first() =~= a);
        match f {
            Some(p) => {
                assert(b.push(p)[0] == p);
                assert(b.push(p).drop_first() =~= b);
            },
            None => {},
        }
    } else {
        assert(a.push(e).drop_first() =~= a.drop_first().push(e));
        assert(a.push(e)[0] == a[0]);
        if b.len() > 0 && b[0].0@ == a[0].0@ && b[0].1 is Str && shallow_resolve(
            a.drop_first(),
            b.drop_first(),
        ) {
            lemma_shallow_resolve_push(a.drop_first(), b.drop_first(), e, f);
            match f {
                Some(p) => {
                    assert(b.push(p).drop_first() =~= b.drop_first().push(p));
                    assert(b.push(p)[0] == b[0]);
                },
                None => {},
            }
        } else {
            lemma_shallow_resolve_push(a.drop_first(), b, e, f);
        }
    }
}

/// Builds a string-keyed object from a configuration mapping. A missing
/// node yields an empty object. With `deep` set, values resolve
/// recursively with coercion, as request bodies and forms do; without
/// it, every value must be a string and is rendered as-is, as headers
/// and query parameters are. A value that must be a string but is not
/// is a fatal configuration error.
pub fn get_hash_from_yaml(yaml: &Yaml, context: &Context, deep: bool) -> (r: Result<
    Vec<(String, JsonValue)>,
    ConfigError,
>)
    ensures
        yaml is Bad ==> (r matches Ok(fs) && fs@.len() == 0),
        yaml matches Yaml::Hash(es) ==> {
            &&& deep ==> (r matches Ok(fs) && entries_resolve(es@, fs@))
            &&& !deep ==> {
                &&& r matches Ok(fs) ==> shallow_resolve(es@, fs@)
                &&& r matches Err(e) ==> (e is ValueNotString && (exists|i: int|
                    0 <= i < es@.len() && !((#[trigger] es@[i]).1 is Str)))
                &&& (forall|i: int| 0 <= i < es@.len() ==> (#[trigger] es@[i]).1 is Str) ==> r
                    is Ok
            }
        },
        !(yaml is Hash || yaml is Bad) ==> r == Err::<Vec<(String, JsonValue)>, ConfigError>(
            ConfigError::NotAMapping,
        ),
{
    match yaml {
        Yaml::Bad => Ok(Vec::new()),
        Yaml::Hash(es) => {
            if deep {
                Ok(resolve_entries(es, context))
            } else {
                let mut fs: Vec<(String, JsonValue)> = Vec::new();
                let n = es.len();
                let mut i: usize = 0;
                proof {
                    assert(es@.take(0) =~= Seq::<(String, Yaml)>::empty());
                }
                while i < n
                    invariant
                        i <= n,
                        n == es.len(),
                        *yaml is Hash && yaml->Hash_0@ == es@,
                        !deep,
                        shallow_resolve(es@.take(i as int), fs@),
                        forall|j: int| 0 <= j < i ==> (#[trigger] es@[j]).1 is Str,
                    decreases n - i,
                {
                    let key = es[i].0.clone();
                    let raw = match &es[i].1 {
                        Yaml::Str(s) => s,
                        _ => {
                            return Err(ConfigError::ValueNotString(key));
                        },
                    };
                    match get_compiled_template_str_with_context(raw, context) {
                        Ok(rendered) => {
                            let ghost p = (key, JsonValue::Str(rendered));
                            proof {
                                lemma_shallow_resolve_push(
                                    es@.take(i as int),
                                    fs@,
                                    es@[i as int],
                                    Some(p),
                                );
                                assert(es@.take(i + 1) =~= es@.take(i as int).push(
                                    es@[i as int],
                                ));
                            }
                            fs.push((key, JsonValue::Str(rendered)));
                        },
                        Err(_) => {
                            proof {
                                lemma_shallow_resolve_push(
                                    es@.take(i as int),
                                    fs@,
                                    es@[i as int],
                                    None,
                                );
                                assert(es@.take(i + 1) =~= es@.take(i as int).push(
                                    es@[i as int],
                                ));
                            }
                        },
                    }
                    i = i + 1;
                }
                proof {
                    assert(es@.take(n as int) =~= es@);
                }
                Ok(fs)
            }
        },
        _ => Err(ConfigError::NotAMapping),
    }
}

/// Builds the `vars` namespace: the tree's declared `vars` mapping, each
/// value deeply resolved against the environment-only scope, so that a
/// variable may reference the environment but not other variables or
/// arguments. A tree without `vars` yields an empty object.
pub fn get_vars_context(tree: &Yaml, context: &Context) -> (r: Result<JsonValue, ConfigError>)
    ensures
        r matches Ok(v) ==> v is Object,
        tree matches Yaml::Hash(es) ==> lookup(es@, "vars"@) matches Yaml::Hash(ves) ==> (r
            matches Ok(v) && (v matches JsonValue::Object(fs) && entries_resolve(ves@, fs@))),
        tree matches Yaml::Hash(es) ==> !has_key(es@, "vars"@) ==> (r matches Ok(v) && (v
            matches JsonValue::Object(fs) && fs@.len() == 0)),
{
    match tree {
        Yaml::Hash(es0) => {
            let vars = match tree.lookup("vars") {
                Some(v) => v,
                None => {
                    proof {
                        if !has_key(es0@, "vars"@) {
                            crate::yaml::lemma_lookup_absent(es0@, "vars"@);
                        }
                    }
                    return Ok(JsonValue::Object(Vec::new()));
                },
            };
            match vars {
                Yaml::Hash(ves) => {
                    let fs = resolve_entries(ves, context);
                    Ok(JsonValue::Object(fs))
                },
                Yaml::Bad => Ok(JsonValue::Object(Vec::new())),
                _ => Err(ConfigError::NotAMapping),
            }
        },
        _ => Ok(JsonValue::Object(Vec::new())),
    }
}

} // verus!

