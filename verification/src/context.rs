//! The template-evaluation scope.
//!
//! A context maps namespace names — `env`, `vars`, `args`, `scmd`, and
//! after a request completes `response` and `response_headers` — to
//! objects of plain values. Template expansion reads the context and
//! never changes it; a second rendering pass only extends it.

use vstd::prelude::*;

use crate::json::{
    json_has_key, json_lookup, json_lookup_ref, json_entries_insert, json_text_fields,
    object_text_string, JsonValue,
};

verus! {

/// A template-evaluation scope: namespaces of plain values.
#[derive(Debug, PartialEq)]
pub struct Context {
    /// The namespaces, in insertion order.
    pub entries: Vec<(String, JsonValue)>,
}

impl View for Context {
    type V = Seq<(String, JsonValue)>;

    open spec fn view(&self) -> Seq<(String, JsonValue)> {
        self.entries@
    }
}

impl Context {
    /// An empty scope.
    pub fn new() -> (r: Context)
        ensures
            r@ == Seq::<(String, JsonValue)>::empty(),
    {
        let r = Context { entries: Vec::new() };
        proof {
            assert(r@ =~= Seq::<(String, JsonValue)>::empty());
        }
        r
    }

    /// Binds `value` under the namespace `key`, replacing an earlier
    /// binding of the same name and leaving every other one unchanged.
    pub fn insert(&mut self, key: String, value: JsonValue)
        ensures
            json_has_key(final(self)@, key@),
            json_lookup(final(self)@, key@) == value,
            forall|k: Seq<char>|
                k != key@ ==> (json_has_key(final(self)@, k) <==> json_has_key(old(self)@, k)),
            forall|k: Seq<char>|
                k != key@ ==> json_lookup(final(self)@, k) == json_lookup(old(self)@, k),
    {
        json_entries_insert(&mut self.entries, key, value);
    }

    /// The value bound under `key`, if any.
    pub fn get<'a>(&'a self, key: &str) -> (r: Option<&'a JsonValue>)
        ensures
            match r {
                Some(v) => json_has_key(self@, key@) && *v == json_lookup(self@, key@),
                None => !json_has_key(self@, key@),
            },
    {
        json_lookup_ref(&self.entries, key)
    }

    /// The scope as one JSON object, in compact text, as it is handed
    /// to the template engine.
    pub fn to_json_text(&self) -> (s: String)
        ensures
            s@ == seq!['{'] + json_text_fields(self@) + seq!['}'],
    {
        object_text_string(&self.entries)
    }
}

/// Builds the `env` namespace: every environment pair verbatim, as a
/// string-valued object, in the order given.
pub fn get_env_context(pairs: Vec<(String, String)>) -> (r: JsonValue)
    ensures
        r matches JsonValue::Object(es) && es@.len() == pairs@.len() && (forall|i: int|
            0 <= i < pairs@.len() ==> (#[trigger] es@[i]).0@ == pairs@[i].0@ && (es@[i].1
                matches JsonValue::Str(v) && v@ == pairs@[i].1@)),
{
    let ghost ps = pairs@;
    let mut out: Vec<(String, JsonValue)> = Vec::new();
    let mut rest = pairs;
    let ghost mut t: int = 0;
    while rest.len() > 0
        invariant
            0 <= t <= ps.len(),
            rest@ == ps.skip(t),
            out@.len() == t,
            forall|i: int|
                0 <= i < t ==> (#[trigger] out@[i]).0@ == ps[i].0@ && (out@[i].1
                    matches JsonValue::Str(v) && v@ == ps[i].1@),
        decreases rest.len(),
    {
        proof {
            assert(rest@.len() == ps.len() - t);
        }
        let (k, v) = rest.remove(0);
        proof {
            assert((k, v) == ps[t]);
            assert(rest@ =~= ps.skip(t + 1));
        }
        out.push((k, JsonValue::Str(v)));
        proof {
            t = t + 1;
        }
    }
    JsonValue::Object(out)
}

/// How one present argument appears in the `args` namespace: more than
/// one supplied value makes an ordered list of strings, exactly one
/// makes a string, and none (a bare flag) makes the boolean `true`.
pub open spec fn arg_value_matches(values: Seq<String>, v: JsonValue) -> bool {
    if values.len() > 1 {
        v matches JsonValue::Array(items) && items@.len() == values.len() && (forall|j: int|
            0 <= j < values.len() ==> ((#[trigger] items@[j]) matches JsonValue::Str(s) && s@
                == values[j]@))
    } else if values.len() == 1 {
        v matches JsonValue::Str(s) && s@ == values[0]@
    } else {
        v == JsonValue::Bool(true)
    }
}

/// Builds the `args` namespace from the present arguments of the
/// selected subcommand: each argument name maps to its value list as
/// [`arg_value_matches`] describes.
pub fn get_args_context(present: Vec<(String, Vec<String>)>) -> (r: JsonValue)
    ensures
        r matches JsonValue::Object(es) && es@.len() == present@.len() && (forall|i: int|
            0 <= i < present@.len() ==> (#[trigger] es@[i]).0@ == present@[i].0@
                && arg_value_matches(present@[i].1@, es@[i].1)),
{
    let ghost ps = present@;
    let mut out: Vec<(String, JsonValue)> = Vec::new();
    let mut rest = present;
    let ghost mut t: int = 0;
    while rest.len() > 0
        invariant
            0 <= t <= ps.len(),
            rest@ == ps.skip(t),
            out@.len() == t,
            forall|i: int|
                0 <= i < t ==> (#[trigger] out@[i]).0@ == ps[i].0@ && arg_value_matches(
                    ps[i].1@,
                    out@[i].1,
                ),
        decreases rest.len(),
    {
        proof {
            assert(rest@.len() == ps.len() - t);
        }
        let (name, values) = rest.remove(0);
        proof {
            assert((name, values) == ps[t]);
            assert(rest@ =~= ps.skip(t + 1));
        }
        let ghost vs = values@;
        if values.len() > 1 {
            let mut items: Vec<JsonValue> = Vec::new();
            let mut vrest = values;
            let ghost mut u: int = 0;
            while vrest.len() > 0
                invariant
                    0 <= u <= vs.len(),
                    vrest@ == vs.skip(u),
                    items@.len() == u,
                    forall|j: int|
                        0 <= j < u ==> ((#[trigger] items@[j]) matches JsonValue::Str(s) && s@
                            == vs[j]@),
                decreases vrest.len(),
            {
                proof {
                    assert(vrest@.len() == vs.len() - u);
                }
                let v = vrest.remove(0);
                proof {
                    assert(v == vs[u]);
                    assert(vrest@ =~= vs.skip(u + 1));
                }
                items.push(JsonValue::Str(v));
                proof {
                    u = u + 1;
                }
            }
            out.push((name, JsonValue::Array(items)));
        } else if values.len() == 1 {
            let mut values = values;
            let v = values.remove(0);
            out.push((name, JsonValue::Str(v)));
        } else {
            out.push((name, JsonValue::Bool(true)));
        }
        proof {
            t = t + 1;
        }
    }
    JsonValue::Object(out)
}

/// Builds the `scmd` namespace: the directory the subcommand's layer was
/// loaded from, when one was recorded.
pub fn get_scmd_context(scmd_yaml: &crate::yaml::Yaml) -> (r: JsonValue)
    ensures
        r matches JsonValue::Object(es) && {
            let has_path = *scmd_yaml is Hash && crate::yaml::lookup(
                scmd_yaml->Hash_0@,
                "scmd_config_base_path"@,
            ) is Str;
            if has_path {
                es@.len() == 1 && es@[0].0@ == "scmd_config_base_path"@ && (es@[0].1
                    matches JsonValue::Str(p) && p@ == crate::yaml::lookup(
                    scmd_yaml->Hash_0@,
                    "scmd_config_base_path"@,
                )->Str_0@)
            } else {
                es@.len() == 0
            }
        },
{
    let mut es: Vec<(String, JsonValue)> = Vec::new();
    match scmd_yaml.lookup("scmd_config_base_path") {
        Some(crate::yaml::Yaml::Str(p)) => {
            es.push(("scmd_config_base_path".to_owned(), JsonValue::Str(p.clone())));
        },
        Some(_) => {},
        None => {
            proof {
                if *scmd_yaml is Hash && !crate::yaml::has_key(
                    scmd_yaml->Hash_0@,
                    "scmd_config_base_path"@,
                ) {
                    crate::yaml::lemma_lookup_absent(
                        scmd_yaml->Hash_0@,
                        "scmd_config_base_path"@,
                    );
                }
            }
        },
    }
    JsonValue::Object(es)
}

/// Extends the scope after a request completes: binds the parsed
/// response body under `response` and the response headers, as a flat
/// string-valued object, under `response_headers`. Every earlier
/// namespace is unchanged.
pub fn extend_context_for_response(
    context: &mut Context,
    response_body: JsonValue,
    response_headers: Vec<(String, String)>,
)
    ensures
        json_has_key(final(context)@, "response"@),
        json_lookup(final(context)@, "response"@) == response_body,
        json_has_key(final(context)@, "response_headers"@),
        json_lookup(final(context)@, "response_headers"@) matches JsonValue::Object(hs) && hs@.len()
            == response_headers@.len() && (forall|i: int|
            0 <= i < response_headers@.len() ==> (#[trigger] hs@[i]).0@ == response_headers@[i].0@
                && (hs@[i].1 matches JsonValue::Str(v) && v@ == response_headers@[i].1@)),
        forall|k: Seq<char>|
            k != "response"@ && k != "response_headers"@ ==> (json_has_key(final(context)@, k)
                <==> json_has_key(old(context)@, k)),
        forall|k: Seq<char>|
            k != "response"@ && k != "response_headers"@ ==> json_lookup(final(context)@, k)
                == json_lookup(old(context)@, k),
{
    let headers_obj = get_env_context(response_headers);
    context.insert("response".to_owned(), response_body);
    context.insert("response_headers".to_owned(), headers_obj);
    proof {
        reveal_strlit("response");
        reveal_strlit("response_headers");
        assert("response"@.len() == 8 && "response_headers"@.len() == 16);
    }
}

} // verus!
