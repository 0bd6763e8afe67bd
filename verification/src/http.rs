//! Endpoint and request construction.
//!
//! The final endpoint is the tree's base endpoint concatenated with the
//! subcommand's path; query parameters are appended, `?`-joined, only
//! when the endpoint does not already carry a literal `?`; the whole
//! endpoint string is template-expanded last.

use vstd::prelude::*;

use crate::context::Context;
use crate::errors::ConfigError;
use crate::json::JsonValue;
use crate::template::get_compiled_template_str_with_context;
use crate::text::lower_chars;

verus! {

/// An HTTP method the tool can send.
#[derive(Clone, Copy, Debug, PartialEq, Eq, Structural)]
pub enum Method {
    /// `GET`, also the fallback for unrecognized method strings.
    Get,
    /// `PUT`.
    Put,
    /// `POST`.
    Post,
    /// `PATCH`.
    Patch,
    /// `DELETE`.
    Delete,
}

/// Which method a rendered method string selects: the upper-case names
/// select their methods and anything else falls back to `GET`.
pub open spec fn method_of(m: Seq<char>) -> Method {
    if m == "GET"@ {
        Method::Get
    } else if m == "PUT"@ {
        Method::Put
    } else if m == "POST"@ {
        Method::Post
    } else if m == "PATCH"@ {
        Method::Patch
    } else if m == "DELETE"@ {
        Method::Delete
    } else {
        Method::Get
    }
}

/// Maps a rendered method string to the method to send, as
/// [`method_of`] describes.
pub fn get_method(method: &String) -> (r: Method)
    ensures
        r == method_of(method@),
{
    if crate::yaml::string_eq_str(method, "GET") {
        Method::Get
    } else if crate::yaml::string_eq_str(method, "PUT") {
        Method::Put
    } else if crate::yaml::string_eq_str(method, "POST") {
        Method::Post
    } else if crate::yaml::string_eq_str(method, "PATCH") {
        Method::Patch
    } else if crate::yaml::string_eq_str(method, "DELETE") {
        Method::Delete
    } else {
        Method::Get
    }
}

impl Method {
    /// The method's upper-case name.
    pub fn name(&self) -> (r: String)
        ensures
            *self == method_of(r@),
    {
        proof {
            reveal_strlit("GET");
            reveal_strlit("PUT");
            reveal_strlit("POST");
            reveal_strlit("PATCH");
            reveal_strlit("DELETE");
            assert("GET"@.len() == 3 && "PUT"@.len() == 3 && "POST"@.len() == 4 && "PATCH"@.len()
                == 5 && "DELETE"@.len() == 6);
            assert("GET"@[0] == 'G' && "PUT"@[0] == 'P' && "POST"@[1] == 'O' && "PATCH"@[1] == 'A');
        }
        match self {
            Method::Get => "GET".to_owned(),
            Method::Put => "PUT".to_owned(),
            Method::Post => "POST".to_owned(),
            Method::Patch => "PATCH".to_owned(),
            Method::Delete => "DELETE".to_owned(),
        }
    }
}

/// Concatenates a base endpoint and a path into one endpoint string.
pub fn get_complete_endpoint(base_endpoint: &str, path: &str) -> (endpoint: String)
    ensures
        endpoint@ == base_endpoint@ + path@,
{
    let mut endpoint = base_endpoint.to_owned();
    endpoint.append(path);
    endpoint
}

/// The `&`-joined text of `key=value` pairs.
pub open spec fn stringify_spec(q: Seq<(String, String)>) -> Seq<char>
    decreases q,
{
    if q.len() == 0 {
        Seq::empty()
    } else if q.len() == 1 {
        q[0].0@ + seq!['='] + q[0].1@
    } else {
        q[0].0@ + seq!['='] + q[0].1@ + seq!['&'] + stringify_spec(q.drop_first())
    }
}

proof fn lemma_stringify_push(q: Seq<(String, String)>, x: (String, String))
    ensures
        stringify_spec(q.push(x)) == if q.len() == 0 {
            x.0@ + seq!['='] + x.1@
        } else {
            stringify_spec(q) + seq!['&'] + x.0@ + seq!['='] + x.1@
        },
    decreases q.len(),
{
    if q.len() == 0 {
        assert(q.push(x)[0] == x);
        assert(stringify_spec(q.push(x)) =~= x.0@ + seq!['='] + x.1@);
    } else {
        assert(q.push(x).drop_first() =~= q.drop_first().push(x));
        lemma_stringify_push(q.drop_first(), x);
        assert(q.push(x)[0] == q[0]);
        if q.len() == 1 {
            assert(stringify_spec(q.push(x)) =~= stringify_spec(q) + seq!['&'] + x.0@ + seq!['=']
                + x.1@);
        } else {
            assert(stringify_spec(q.push(x)) =~= stringify_spec(q) + seq!['&'] + x.0@ + seq!['=']
                + x.1@);
        }
    }
}

/// Joins query pairs as `key=value`, separated by `&`.
pub fn stringify(query: Vec<(String, String)>) -> (s: String)
    ensures
        s@ == stringify_spec(query@),
{
    let ghost q = query@;
    let mut s = String::new();
    let n = query.len();
    let mut i: usize = 0;
    while i < n
        invariant
            i <= n,
            n == query.len(),
            query@ == q,
            s@ == stringify_spec(q.take(i as int)),
        decreases n - i,
    {
        if i > 0 {
            s.push('&');
        }
        s.append(query[i].0.as_str());
        s.push('=');
        s.append(query[i].1.as_str());
        proof {
            lemma_stringify_push(q.take(i as int), q[i as int]);
            assert(q.take(i + 1) =~= q.take(i as int).push(q[i as int]));
            assert(s@ =~= stringify_spec(q.take(i + 1)));
        }
        i = i + 1;
    }
    proof {
        assert(q.take(n as int) =~= q);
    }
    s
}

/// The string a query-parameter value contributes to the endpoint: the
/// string itself for string values, the empty string for anything else.
pub fn get_string_from_value<'a>(value: &'a JsonValue) -> (r: &'a str)
    ensures
        value matches JsonValue::Str(s) ==> r@ == s@,
        !(*value is Str) ==> r@ == Seq::<char>::empty(),
{
    match value {
        JsonValue::Str(s) => s.as_str(),
        _ => {
            proof {
                reveal_strlit("");
            }
            ""
        },
    }
}

/// Whether `s` holds the character `c`.
pub open spec fn contains_char(s: Seq<char>, c: char) -> bool {
    exists|i: int| 0 <= i < s.len() && s[i] == c
}

/// Reports whether the string holds the character `c`.
pub fn str_contains_char(s: &str, c: char) -> (r: bool)
    ensures
        r == contains_char(s@, c),
{
    let n = vstd::string::StrSliceExecFns::unicode_len(s);
    let mut i: usize = 0;
    while i < n
        invariant
            i <= n,
            n == s@.len(),
            forall|j: int| 0 <= j < i ==> s@[j] != c,
        decreases n - i,
    {
        if vstd::string::StrSliceExecFns::get_char(s, i) == c {
            return true;
        }
        i = i + 1;
    }
    false
}

/// How the query pairs relate to the configured query parameters: order
/// kept, null values skipped, each kept pair under its parameter's name
/// with some rendered text.
pub open spec fn qp_rendered(
    qps: Seq<(String, JsonValue)>,
    pairs: Seq<(String, String)>,
) -> bool
    decreases qps,
{
    if qps.len() == 0 {
        pairs.len() == 0
    } else if qps[0].1 is Null {
        qp_rendered(qps.drop_first(), pairs)
    } else {
        pairs.len() > 0 && pairs[0].0@ == qps[0].0@ && qp_rendered(
            qps.drop_first(),
            pairs.drop_first(),
        )
    }
}

proof fn lemma_qp_rendered_push(
    qps: Seq<(String, JsonValue)>,
    pairs: Seq<(String, String)>,
    e: (String, JsonValue),
    p: Option<(String, String)>,
)
    requires
        qp_rendered(qps, pairs),
        e.1 is Null <==> p is None,
        p matches Some(pp) ==> pp.0@ == e.0@,
    ensures
        p matches Some(pp) ==> qp_rendered(qps.push(e), pairs.push(pp)),
        p is None ==> qp_rendered(qps.push(e), pairs),
    decreases qps.len(),
{
    if qps.len() == 0 {
        assert(qps.push(e)[0] == e);
        assert(qps.push(e).drop_first() =~= qps);
        match p {
            Some(pp) => {
                assert(pairs.push(pp)[0] == pp);
                assert(pairs.push(pp).drop_first() =~= pairs);
            },
            None => {},
        }
    } else {
        assert(qps.push(e).drop_first() =~= qps.drop_first().push(e));
        assert(qps.push(e)[0] == qps[0]);
        if qps[0].1 is Null {
            lemma_qp_rendered_push(qps.drop_first(), pairs, e, p);
        } else {
            lemma_qp_rendered_push(qps.drop_first(), pairs.drop_first(), e, p);
            match p {
                Some(pp) => {
                    assert(pairs.push(pp).drop_first() =~= pairs.drop_first().push(pp));
                    assert(pairs.push(pp)[0] == pairs[0]);
                },
                None => {},
            }
        }
    }
}

/// Appends the query parameters to the endpoint, `?`-joined, unless the
/// endpoint already carries a literal `?` or there are none. Null-valued
/// parameters are skipped; each remaining value is template-expanded,
/// and a failed expansion is fatal.
pub fn get_endpoint_with_qp(
    endpoint: String,
    query_params: &Vec<(String, JsonValue)>,
    context: &Context,
) -> (r: Result<String, ConfigError>)
    ensures
        contains_char(endpoint@, '?') || query_params@.len() == 0 ==> r == Ok::<
            String,
            ConfigError,
        >(endpoint),
        r matches Ok(out) ==> (contains_char(endpoint@, '?') || query_params@.len() == 0)
            || (exists|pairs: Seq<(String, String)>|
            qp_rendered(query_params@, pairs) && out@ == endpoint@ + seq!['?'] + stringify_spec(
                pairs,
            )),
        r matches Err(e) ==> e is TemplateFailed,
{
    if str_contains_char(endpoint.as_str(), '?') || query_params.len() == 0 {
        return Ok(endpoint);
    }
    let ghost qs = query_params@;
    let mut pairs: Vec<(String, String)> = Vec::new();
    let n = query_params.len();
    let mut i: usize = 0;
    proof {
        assert(qs.take(0) =~= Seq::<(String, JsonValue)>::empty());
    }
    while i < n
        invariant
            i <= n,
            n == query_params.len(),
            qs == query_params@,
            !contains_char(endpoint@, '?'),
            qs.len() > 0,
            qp_rendered(qs.take(i as int), pairs@),
        decreases n - i,
    {
        let key = query_params[i].0.clone();
        if matches!(&query_params[i].1, JsonValue::Null) {
            proof {
                lemma_qp_rendered_push(qs.take(i as int), pairs@, qs[i as int], None);
                assert(qs.take(i + 1) =~= qs.take(i as int).push(qs[i as int]));
            }
            i = i + 1;
            continue ;
        }
        let raw: String = get_string_from_value(&query_params[i].1).to_owned();
        let rendered = match get_compiled_template_str_with_context(&raw, context) {
            Ok(t) => t,
            Err(e) => {
                return Err(e);
            },
        };
        let ghost pp = (key, rendered);
        proof {
            lemma_qp_rendered_push(qs.take(i as int), pairs@, qs[i as int], Some(pp));
            assert(qs.take(i + 1) =~= qs.take(i as int).push(qs[i as int]));
        }
        pairs.push((key, rendered));
        i = i + 1;
    }
    proof {
        assert(qs.take(n as int) =~= qs);
    }
    let ghost pv = pairs@;
    let qp_text = stringify(pairs);
    let mut out = endpoint;
    out.push('?');
    out.append(qp_text.as_str());
    proof {
        assert(qp_rendered(qs, pv));
        assert(out@ =~= endpoint@ + seq!['?'] + stringify_spec(pv));
    }
    Ok(out)
}

/// Builds the final endpoint: the base endpoint concatenated with the
/// path, query parameters appended as [`get_endpoint_with_qp`] says, and
/// the whole string template-expanded last. A failed expansion is fatal.
pub fn get_endpoint(
    base_endpoint: &str,
    path: &str,
    context: &Context,
    query_params: &Vec<(String, JsonValue)>,
) -> (r: Result<String, ConfigError>)
    ensures
        r matches Err(e) ==> e is TemplateFailed,
{
    let raw_endpoint = get_complete_endpoint(base_endpoint, path);
    let with_qp = match get_endpoint_with_qp(raw_endpoint, query_params, context) {
        Ok(s) => s,
        Err(e) => {
            return Err(e);
        },
    };
    get_compiled_template_str_with_context(&with_qp, context)
}

} // verus!
