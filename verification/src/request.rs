//! Request planning and response rendering.
//!
//! The request path resolves the HTTP method, builds the headers from
//! the tree, the body and form from the subcommand with deep coercion,
//! combines the query parameters of both levels — the subcommand wins on
//! a key collision — and assembles the final endpoint. The response is
//! rendered by a fixed precedence: `quiet` silences everything,
//! `raw_response` prints the body compactly, a `template` argument
//! selects a named template (or pretty JSON for the literal `json`), a
//! declared `response_template` comes next, and pretty JSON is the
//! default.

use vstd::prelude::*;

use crate::body::{
    entries_resolve, get_hash_from_yaml, lemma_shallow_resolve_push, shallow_resolve,
};
use crate::context::Context;
use crate::errors::ConfigError;
use crate::http::{get_endpoint, get_method, Method};
use crate::json::{
    json_entries_insert, json_has_key, json_lookup, json_text, pretty_text, JsonValue,
};
use crate::merge::{entries_kept, lemma_entries_kept_push, merged_entries};
use crate::template::get_compiled_template_str_with_context;
use crate::yaml::{has_key, lemma_lookup_absent, lookup, Yaml};

verus! {

/// Looks up `key` in a mapping, requires it to be a string, and
/// template-expands it. A missing or non-string key, and a failed
/// expansion, are fatal.
pub fn get_parsed_yaml_key(key: &str, yaml: &Yaml, context: &Context) -> (r: Result<
    String,
    ConfigError,
>)
    ensures
        r matches Err(e) ==> e is KeyNotString || e is TemplateFailed,
        r matches Err(e) ==> (e matches ConfigError::KeyNotString(kk) ==> kk@ == key@),
        r is Ok ==> *yaml is Hash && lookup(yaml->Hash_0@, key@) is Str,
        !(*yaml is Hash && lookup(yaml->Hash_0@, key@) is Str) ==> (r matches Err(e) && e
            is KeyNotString),
{
    let template: String = match yaml.lookup(key) {
        Some(Yaml::Str(s)) => s.clone(),
        Some(_) => {
            return Err(ConfigError::KeyNotString(key.to_owned()));
        },
        None => {
            proof {
                if *yaml is Hash && !has_key(yaml->Hash_0@, key@) {
                    lemma_lookup_absent(yaml->Hash_0@, key@);
                }
            }
            return Err(ConfigError::KeyNotString(key.to_owned()));
        },
    };
    get_compiled_template_str_with_context(&template, context)
}

/// Shallow rendering distributes over concatenation of entry lists.
proof fn lemma_shallow_resolve_concat(
    a: Seq<(String, Yaml)>,
    c: Seq<(String, Yaml)>,
    b1: Seq<(String, JsonValue)>,
    b2: Seq<(String, JsonValue)>,
)
    requires
        shallow_resolve(a, b1),
        shallow_resolve(c, b2),
    ensures
        shallow_resolve(a + c, b1 + b2),
    decreases a.len(),
{
    if a.len() == 0 {
        assert(b1.len() == 0);
        assert(a + c =~= c);
        assert(b1 + b2 =~= b2);
    } else {
        assert((a + c).drop_first() =~= a.drop_first() + c);
        assert((a + c)[0] == a[0]);
        if b1.len() > 0 && b1[0].0@ == a[0].0@ && b1[0].1 is Str && shallow_resolve(
            a.drop_first(),
            b1.drop_first(),
        ) {
            lemma_shallow_resolve_concat(a.drop_first(), c, b1.drop_first(), b2);
            assert((b1 + b2).drop_first() =~= b1.drop_first() + b2);
            assert((b1 + b2)[0] == b1[0]);
        } else {
            lemma_shallow_resolve_concat(a.drop_first(), c, b1, b2);
        }
    }
}

/// Combines the subcommand-level and tree-level query parameters —
/// subcommand keys win on a collision, keys unique to either side
/// survive — and renders each kept value. The merged keys follow the
/// merge-override rule proved by
/// [`crate::merge::lemma_merge_override`].
pub fn combine_query_params(scmd_qp: &Yaml, tree_qp: &Yaml, context: &Context) -> (r: Result<
    Vec<(String, JsonValue)>,
    ConfigError,
>)
    ensures
        *scmd_qp is Hash && *tree_qp is Hash ==> {
            r matches Ok(fs) ==> shallow_resolve(
                merged_entries(scmd_qp->Hash_0@, tree_qp->Hash_0@),
                fs@,
            )
        },
        *scmd_qp is Hash && !(*tree_qp is Hash) ==> {
            r matches Ok(fs) ==> shallow_resolve(scmd_qp->Hash_0@, fs@)
        },
        *scmd_qp is Bad && *tree_qp is Hash ==> {
            r matches Ok(fs) ==> shallow_resolve(tree_qp->Hash_0@, fs@)
        },
        *scmd_qp is Bad && !(*tree_qp is Hash) ==> (r matches Ok(fs) && fs@.len() == 0),
        !(*scmd_qp is Hash || *scmd_qp is Bad) ==> r == Err::<
            Vec<(String, JsonValue)>,
            ConfigError,
        >(ConfigError::NotAMapping),
        r matches Err(e) ==> e is ValueNotString || e is NotAMapping,
{
    match (scmd_qp, tree_qp) {
        (Yaml::Hash(se), Yaml::Hash(te)) => {
            let mut fs = match get_hash_from_yaml(scmd_qp, context, false) {
                Ok(v) => v,
                Err(e) => {
                    return Err(e);
                },
            };
            let ghost fs1 = fs@;
            let mut kept: Vec<(String, JsonValue)> = Vec::new();
            let n = te.len();
            let mut i: usize = 0;
            proof {
                assert(te@.take(0) =~= Seq::<(String, Yaml)>::empty());
            }
            while i < n
                invariant
                    i <= n,
                    n == te.len(),
                    *scmd_qp is Hash && scmd_qp->Hash_0@ == se@,
                    *tree_qp is Hash && tree_qp->Hash_0@ == te@,
                    shallow_resolve(entries_kept(te@.take(i as int), se@), kept@),
                decreases n - i,
            {
                proof {
                    lemma_entries_kept_push(te@.take(i as int), te@[i as int], se@);
                    assert(te@.take(i + 1) =~= te@.take(i as int).push(te@[i as int]));
                }
                if crate::merge::find_key_index(se, te[i].0.as_str()).is_some() {
                    proof {
                        assert(entries_kept(te@.take(i + 1), se@) =~= entries_kept(
                            te@.take(i as int),
                            se@,
                        ));
                    }
                    i = i + 1;
                    continue ;
                }
                let key = te[i].0.clone();
                let raw = match &te[i].1 {
                    Yaml::Str(s) => s,
                    _ => {
                        return Err(ConfigError::ValueNotString(key));
                    },
                };
                let ghost before_kept = entries_kept(te@.take(i as int), se@);
                proof {
                    assert(entries_kept(te@.take(i + 1), se@) =~= before_kept.push(
                        te@[i as int],
                    ));
                }
                match get_compiled_template_str_with_context(raw, context) {
                    Ok(rendered) => {
                        let ghost p = (key, JsonValue::Str(rendered));
                        proof {
                            lemma_shallow_resolve_push(
                                before_kept,
                                kept@,
                                te@[i as int],
                                Some(p),
                            );
                        }
                        kept.push((key, JsonValue::Str(rendered)));
                    },
                    Err(_) => {
                        proof {
                            lemma_shallow_resolve_push(before_kept, kept@, te@[i as int], None);
                        }
                    },
                }
                i = i + 1;
            }
            proof {
                assert(te@.take(n as int) =~= te@);
            }
            let ghost keptv = kept@;
            let mut kept = kept;
            fs.append(&mut kept);
            proof {
                lemma_shallow_resolve_concat(se@, entries_kept(te@, se@), fs1, keptv);
                assert(fs@ =~= fs1 + keptv);
            }
            Ok(fs)
        },
        (Yaml::Hash(_), _) => get_hash_from_yaml(scmd_qp, context, false),
        (Yaml::Bad, Yaml::Hash(_)) => get_hash_from_yaml(tree_qp, context, false),
        (Yaml::Bad, _) => Ok(Vec::new()),
        _ => Err(ConfigError::NotAMapping),
    }
}

/// Query-parameter combination law: in the combined map, a key defined
/// at the subcommand level takes the subcommand's value, a key defined
/// only at the tree level keeps the tree's value, and keys unique to
/// either side are preserved.
pub proof fn lemma_query_param_override(
    scmd_qp: Seq<(String, Yaml)>,
    tree_qp: Seq<(String, Yaml)>,
    k: Seq<char>,
)
    ensures
        has_key(merged_entries(scmd_qp, tree_qp), k) <==> has_key(scmd_qp, k) || has_key(
            tree_qp,
            k,
        ),
        has_key(scmd_qp, k) ==> lookup(merged_entries(scmd_qp, tree_qp), k) == lookup(scmd_qp, k),
        !has_key(scmd_qp, k) ==> lookup(merged_entries(scmd_qp, tree_qp), k) == lookup(
            tree_qp,
            k,
        ),
{
    crate::merge::lemma_merge_override(scmd_qp, tree_qp, k);
}

/// The resolved OAuth block: its five template fields, each expanded.
#[derive(Debug, PartialEq)]
pub struct OauthConfig {
    /// The OAuth client id.
    pub client_id: String,
    /// The OAuth client secret.
    pub client_secret: String,
    /// The authorization endpoint.
    pub auth_url: String,
    /// The token endpoint.
    pub token_url: String,
    /// The header under which the bearer token is sent.
    pub header_key: String,
}

/// A well-formed `oauth` block: a mapping whose five fields are strings.
pub open spec fn oauth_fields_ok(y: Yaml) -> bool {
    &&& y is Hash
    &&& lookup(y->Hash_0@, "client_id"@) is Str
    &&& lookup(y->Hash_0@, "client_secret"@) is Str
    &&& lookup(y->Hash_0@, "auth_url"@) is Str
    &&& lookup(y->Hash_0@, "token_url"@) is Str
    &&& lookup(y->Hash_0@, "header_key"@) is Str
}

/// Resolves the tree's `oauth` block: each of its five fields must be a
/// string, and each is template-expanded.
pub fn resolve_oauth_config(oauth_yaml: &Yaml, context: &Context) -> (r: Result<
    OauthConfig,
    ConfigError,
>)
    ensures
        r matches Err(e) ==> e is KeyNotString || e is TemplateFailed,
        r matches Err(e) ==> (e matches ConfigError::KeyNotString(kk) ==> (kk@ == "client_id"@
            || kk@ == "client_secret"@ || kk@ == "auth_url"@ || kk@ == "token_url"@ || kk@
            == "header_key"@)),
        r is Ok ==> oauth_fields_ok(*oauth_yaml),
        !oauth_fields_ok(*oauth_yaml) ==> r is Err,
{
    let client_id = match get_parsed_yaml_key("client_id", oauth_yaml, context) {
        Ok(s) => s,
        Err(e) => {
            return Err(e);
        },
    };
    let client_secret = match get_parsed_yaml_key("client_secret", oauth_yaml, context) {
        Ok(s) => s,
        Err(e) => {
            return Err(e);
        },
    };
    let auth_url = match get_parsed_yaml_key("auth_url", oauth_yaml, context) {
        Ok(s) => s,
        Err(e) => {
            return Err(e);
        },
    };
    let token_url = match get_parsed_yaml_key("token_url", oauth_yaml, context) {
        Ok(s) => s,
        Err(e) => {
            return Err(e);
        },
    };
    let header_key = match get_parsed_yaml_key("header_key", oauth_yaml, context) {
        Ok(s) => s,
        Err(e) => {
            return Err(e);
        },
    };
    Ok(OauthConfig { client_id, client_secret, auth_url, token_url, header_key })
}

/// Everything the transport needs to send one request.
#[derive(Debug, PartialEq)]
pub struct RequestPlan {
    /// The HTTP method.
    pub method: Method,
    /// The fully rendered endpoint, query parameters included.
    pub endpoint: String,
    /// The rendered headers.
    pub headers: Vec<(String, JsonValue)>,
    /// The deeply resolved JSON body.
    pub body: Vec<(String, JsonValue)>,
    /// The deeply resolved form fields; empty means no form.
    pub form: Vec<(String, JsonValue)>,
}

/// The value of `key` in a mapping node, `Yaml::Bad` when absent; used
/// to hand optional blocks to the builders.
fn lookup_or_bad<'a>(yaml: &'a Yaml, key: &str, bad: &'a Yaml) -> (r: &'a Yaml)
    requires
        bad is Bad,
    ensures
        *yaml is Hash && has_key(yaml->Hash_0@, key@) ==> *r == lookup(yaml->Hash_0@, key@),
        !(*yaml is Hash && has_key(yaml->Hash_0@, key@)) ==> r is Bad,
{
    match yaml.lookup(key) {
        Some(v) => v,
        None => bad,
    }
}

/// The configuration keys the request builder names in its errors are
/// pairwise distinct from `path`.
proof fn lemma_request_key_literals_distinct()
    ensures
        "method"@ != "path"@,
        "base_endpoint"@ != "path"@,
        "client_id"@ != "path"@,
        "client_secret"@ != "path"@,
        "auth_url"@ != "path"@,
        "token_url"@ != "path"@,
        "header_key"@ != "path"@,
{
    reveal_strlit("method");
    reveal_strlit("base_endpoint");
    reveal_strlit("client_id");
    reveal_strlit("client_secret");
    reveal_strlit("auth_url");
    reveal_strlit("token_url");
    reveal_strlit("header_key");
    reveal_strlit("path");
    assert("path"@.len() == 4 && "method"@.len() == 6 && "base_endpoint"@.len() == 13
        && "client_id"@.len() == 9 && "client_secret"@.len() == 13 && "auth_url"@.len() == 8
        && "token_url"@.len() == 9 && "header_key"@.len() == 10);
}

/// Builds the request plan for a non-script subcommand: resolves the
/// method (default `get`), renders the tree's headers shallowly,
/// resolves the subcommand's body and form deeply, combines and renders
/// the query parameters, and assembles the endpoint from the tree's
/// `base_endpoint` and the subcommand's `path`. The resolved `oauth`
/// block rides along when the tree declares one. Success is owed unless
/// the configuration is malformed — no string `path`, a non-string
/// `method` or `base_endpoint`, a non-mapping `headers`/`body`/`form`/
/// `query_params` block, a broken `oauth` block — or the template
/// engine refuses a string it is handed.
pub fn build_request_plan(tree: &Yaml, subcmd: &Yaml, context: &Context) -> (r: Result<
    (RequestPlan, Option<OauthConfig>),
    ConfigError,
>)
    ensures
        r matches Ok(p) ==> {
            let plan = p.0;
            &&& *subcmd is Hash && lookup(subcmd->Hash_0@, "path"@) is Str
            &&& has_key(subcmd->Hash_0@, "method"@) ==> lookup(subcmd->Hash_0@, "method"@)
                is Str
            &&& !has_key(subcmd->Hash_0@, "method"@) ==> plan.method == Method::Get
            &&& (*tree is Hash && has_key(tree->Hash_0@, "base_endpoint"@)) ==> lookup(
                tree->Hash_0@,
                "base_endpoint"@,
            ) is Str
            &&& (*tree is Hash && lookup(tree->Hash_0@, "headers"@) is Hash)
                ==> shallow_resolve(
                lookup(tree->Hash_0@, "headers"@)->Hash_0@,
                plan.headers@,
            )
            &&& (*tree is Hash && !has_key(tree->Hash_0@, "headers"@)) ==> plan.headers@.len()
                == 0
            &&& (*subcmd is Hash && lookup(subcmd->Hash_0@, "body"@) is Hash)
                ==> entries_resolve(lookup(subcmd->Hash_0@, "body"@)->Hash_0@, plan.body@)
            &&& (*subcmd is Hash && !has_key(subcmd->Hash_0@, "body"@)) ==> plan.body@.len() == 0
            &&& (*subcmd is Hash && lookup(subcmd->Hash_0@, "form"@) is Hash)
                ==> entries_resolve(lookup(subcmd->Hash_0@, "form"@)->Hash_0@, plan.form@)
            &&& (*subcmd is Hash && !has_key(subcmd->Hash_0@, "form"@)) ==> plan.form@.len() == 0
            &&& ((*tree is Hash && has_key(tree->Hash_0@, "oauth"@) && !(lookup(
                tree->Hash_0@,
                "oauth"@,
            ) is Bad)) <==> p.1 is Some)
            &&& p.1 is Some ==> oauth_fields_ok(lookup(tree->Hash_0@, "oauth"@))
        },
        !(*subcmd is Hash && lookup(subcmd->Hash_0@, "path"@) is Str) ==> r is Err,
        (*subcmd is Hash && has_key(subcmd->Hash_0@, "method"@) && !(lookup(
            subcmd->Hash_0@,
            "method"@,
        ) is Str)) ==> r is Err,
        (*tree is Hash && has_key(tree->Hash_0@, "base_endpoint"@) && !(lookup(
            tree->Hash_0@,
            "base_endpoint"@,
        ) is Str)) ==> r is Err,
        (*tree is Hash && has_key(tree->Hash_0@, "headers"@) && !(lookup(
            tree->Hash_0@,
            "headers"@,
        ) is Hash || lookup(tree->Hash_0@, "headers"@) is Bad)) ==> r is Err,
        (*subcmd is Hash && has_key(subcmd->Hash_0@, "body"@) && !(lookup(
            subcmd->Hash_0@,
            "body"@,
        ) is Hash || lookup(subcmd->Hash_0@, "body"@) is Bad)) ==> r is Err,
        (*subcmd is Hash && has_key(subcmd->Hash_0@, "form"@) && !(lookup(
            subcmd->Hash_0@,
            "form"@,
        ) is Hash || lookup(subcmd->Hash_0@, "form"@) is Bad)) ==> r is Err,
        (*subcmd is Hash && has_key(subcmd->Hash_0@, "query_params"@) && !(lookup(
            subcmd->Hash_0@,
            "query_params"@,
        ) is Hash || lookup(subcmd->Hash_0@, "query_params"@) is Bad)) ==> r is Err,
        (*tree is Hash && has_key(tree->Hash_0@, "oauth"@) && !(lookup(
            tree->Hash_0@,
            "oauth"@,
        ) is Bad) && !oauth_fields_ok(lookup(tree->Hash_0@, "oauth"@))) ==> r is Err,
        r matches Err(e) ==> {
            ||| e is TemplateFailed
            ||| e is KeyNotString
            ||| e is ValueNotString
            ||| e is NotAMapping
        },
        r matches Err(e) ==> ((e matches ConfigError::KeyNotString(kk) && kk@ == "path"@) ==> !(
        *subcmd is Hash && lookup(subcmd->Hash_0@, "path"@) is Str)),
{
    proof {
        lemma_request_key_literals_distinct();
    }
    let bad = Yaml::Bad;
    let method: String = match subcmd.lookup("method") {
        Some(m) => {
            let template = match m {
                Yaml::Str(s) => s.clone(),
                _ => {
                    return Err(ConfigError::KeyNotString("method".to_owned()));
                },
            };
            match get_compiled_template_str_with_context(&template, context) {
                Ok(s) => s,
                Err(e) => {
                    return Err(e);
                },
            }
        },
        None => {
            proof {
                if *subcmd is Hash && !has_key(subcmd->Hash_0@, "method"@) {
                    lemma_lookup_absent(subcmd->Hash_0@, "method"@);
                }
                reveal_strlit("get");
                reveal_strlit("GET");
                reveal_strlit("PUT");
                reveal_strlit("POST");
                reveal_strlit("PATCH");
                reveal_strlit("DELETE");
                assert("get"@.len() == 3 && "GET"@.len() == 3 && "PUT"@.len() == 3
                    && "POST"@.len() == 4 && "PATCH"@.len() == 5 && "DELETE"@.len() == 6);
                assert("get"@[0] == 'g' && "GET"@[0] == 'G' && "PUT"@[0] == 'P');
            }
            "get".to_owned()
        },
    };
    let method = get_method(&method);

    let headers_yaml = lookup_or_bad(tree, "headers", &bad);
    let headers = match get_hash_from_yaml(headers_yaml, context, false) {
        Ok(h) => h,
        Err(e) => {
            return Err(e);
        },
    };

    let body_yaml = lookup_or_bad(subcmd, "body", &bad);
    let body = match get_hash_from_yaml(body_yaml, context, true) {
        Ok(b) => b,
        Err(e) => {
            return Err(e);
        },
    };

    let form_yaml = lookup_or_bad(subcmd, "form", &bad);
    let form = match get_hash_from_yaml(form_yaml, context, true) {
        Ok(f) => f,
        Err(e) => {
            return Err(e);
        },
    };

    let scmd_qp = lookup_or_bad(subcmd, "query_params", &bad);
    let tree_qp = lookup_or_bad(tree, "query_params", &bad);
    let query_params = match combine_query_params(scmd_qp, tree_qp, context) {
        Ok(q) => q,
        Err(e) => {
            return Err(e);
        },
    };

    let base_endpoint: String = match tree.lookup("base_endpoint") {
        Some(Yaml::Str(s)) => s.clone(),
        Some(_) => {
            return Err(ConfigError::KeyNotString("base_endpoint".to_owned()));
        },
        None => String::new(),
    };
    let path: String = match subcmd.lookup("path") {
        Some(Yaml::Str(s)) => s.clone(),
        Some(_) => {
            return Err(ConfigError::KeyNotString("path".to_owned()));
        },
        None => {
            proof {
                if *subcmd is Hash && !has_key(subcmd->Hash_0@, "path"@) {
                    lemma_lookup_absent(subcmd->Hash_0@, "path"@);
                }
            }
            return Err(ConfigError::KeyNotString("path".to_owned()));
        },
    };
    let endpoint = match get_endpoint(
        base_endpoint.as_str(),
        path.as_str(),
        context,
        &query_params,
    ) {
        Ok(s) => s,
        Err(e) => {
            return Err(e);
        },
    };

    let oauth = match lookup_or_bad(tree, "oauth", &bad) {
        Yaml::Bad => None,
        oauth_yaml => {
            match resolve_oauth_config(oauth_yaml, context) {
                Ok(cfg) => Some(cfg),
                Err(e) => {
                    return Err(e);
                },
            }
        },
    };

    proof {
        if *tree is Hash && !has_key(tree->Hash_0@, "headers"@) {
            lemma_lookup_absent(tree->Hash_0@, "headers"@);
        }
        if *subcmd is Hash && !has_key(subcmd->Hash_0@, "body"@) {
            lemma_lookup_absent(subcmd->Hash_0@, "body"@);
        }
        if *subcmd is Hash && !has_key(subcmd->Hash_0@, "form"@) {
            lemma_lookup_absent(subcmd->Hash_0@, "form"@);
        }
    }
    Ok((RequestPlan { method, endpoint, headers, body, form }, oauth))
}

/// Injects the bearer token into the plan's headers, under the resolved
/// header name. Every other header is unchanged.
pub fn inject_oauth_header(plan: &mut RequestPlan, header_key: String, token: String)
    ensures
        json_has_key(final(plan).headers@, header_key@),
        json_lookup(final(plan).headers@, header_key@) matches JsonValue::Str(t) && t@ == token@,
        forall|k: Seq<char>|
            k != header_key@ ==> (json_has_key(final(plan).headers@, k) <==> json_has_key(
                old(plan).headers@,
                k,
            )),
        forall|k: Seq<char>|
            k != header_key@ ==> json_lookup(final(plan).headers@, k) == json_lookup(
                old(plan).headers@,
                k,
            ),
        final(plan).method == old(plan).method,
        final(plan).endpoint == old(plan).endpoint,
        final(plan).body == old(plan).body,
        final(plan).form == old(plan).form,
{
    json_entries_insert(&mut plan.headers, header_key, JsonValue::Str(token));
}

/// What the invocation prints once the response is in hand.
#[derive(Debug, PartialEq)]
pub enum RenderPlan {
    /// Print nothing at all.
    Silent,
    /// Print this compact JSON text, with no trailing newline.
    RawJson(String),
    /// Print this pretty JSON text, with no trailing newline.
    PrettyJson(String),
    /// Render this named template against the extended scope and print
    /// the result.
    NamedTemplate(String),
}

/// Decides what to print, by the rendering precedence: a `quiet`
/// argument silences everything; `raw_response` prints the body
/// compactly; a `template` argument selects pretty JSON for the literal
/// `json` and a named template otherwise; a declared `response_template`
/// comes next; pretty-printed JSON is the default.
pub fn render_response(context: &Context, subcmd: &Yaml, response_body: &JsonValue) -> (r: Result<
    RenderPlan,
    ConfigError,
>)
    ensures
        json_lookup(context@, "args"@) matches JsonValue::Object(aes) ==> {
            let args = aes@;
            &&& json_has_key(args, "quiet"@) ==> r == Ok::<RenderPlan, ConfigError>(
                RenderPlan::Silent,
            )
            &&& !json_has_key(args, "quiet"@) && json_has_key(args, "raw_response"@) ==> (r
                matches Ok(p) && (p matches RenderPlan::RawJson(t) && t@ == json_text(
                *response_body,
            )))
            &&& !json_has_key(args, "quiet"@) && !json_has_key(args, "raw_response"@)
                && json_has_key(args, "template"@) ==> {
                &&& json_lookup(args, "template"@) is Str ==> {
                    let name = json_lookup(args, "template"@)->Str_0;
                    &&& name@ == "json"@ ==> (r matches Ok(p) && (p
                        matches RenderPlan::PrettyJson(t) && t@ == pretty_text(
                        *response_body,
                        0,
                    )))
                    &&& name@ != "json"@ ==> (r matches Ok(p) && (p
                        matches RenderPlan::NamedTemplate(n) && n@ == name@))
                }
                &&& !(json_lookup(args, "template"@) is Str) ==> r == Err::<
                    RenderPlan,
                    ConfigError,
                >(ConfigError::TemplateArgNotString)
            }
            &&& !json_has_key(args, "quiet"@) && !json_has_key(args, "raw_response"@)
                && !json_has_key(args, "template"@) ==> {
                &&& (*subcmd is Hash && lookup(subcmd->Hash_0@, "response_template"@)
                    is Str) ==> (r matches Ok(p) && (p matches RenderPlan::NamedTemplate(n) && n@
                    == lookup(subcmd->Hash_0@, "response_template"@)->Str_0@))
                &&& (!(*subcmd is Hash) || lookup(subcmd->Hash_0@, "response_template"@)
                    is Bad) ==> (r matches Ok(p) && (p matches RenderPlan::PrettyJson(t) && t@
                    == pretty_text(*response_body, 0)))
                &&& (*subcmd is Hash && !(lookup(subcmd->Hash_0@, "response_template"@) is Str)
                    && !(lookup(subcmd->Hash_0@, "response_template"@) is Bad)) ==> (r
                    matches Err(e) && (e matches ConfigError::KeyNotString(kk) && kk@
                    == "response_template"@))
            }
        },
        !(json_lookup(context@, "args"@) is Object) ==> r == Err::<RenderPlan, ConfigError>(
            ConfigError::NotAMapping,
        ),
{
    let args: &Vec<(String, JsonValue)> = match context.get("args") {
        Some(JsonValue::Object(aes)) => aes,
        _ => {
            proof {
                if !json_has_key(context@, "args"@) {
                    crate::json::lemma_json_lookup_absent(context@, "args"@);
                }
            }
            return Err(ConfigError::NotAMapping);
        },
    };
    if crate::json::json_find_key_index(args, "quiet").is_some() {
        return Ok(RenderPlan::Silent);
    }
    if crate::json::json_find_key_index(args, "raw_response").is_some() {
        return Ok(RenderPlan::RawJson(crate::json::json_to_string(response_body)));
    }
    match crate::json::json_lookup_ref(args, "template") {
        Some(JsonValue::Str(name)) => {
            if crate::yaml::string_eq_str(name, "json") {
                Ok(RenderPlan::PrettyJson(crate::json::json_to_string_pretty(response_body)))
            } else {
                Ok(RenderPlan::NamedTemplate(name.clone()))
            }
        },
        Some(_) => Err(ConfigError::TemplateArgNotString),
        None => {
            match subcmd.lookup("response_template") {
                Some(Yaml::Str(name)) => Ok(RenderPlan::NamedTemplate(name.clone())),
                Some(v) => {
                    if v.is_badvalue() {
                        Ok(
                            RenderPlan::PrettyJson(
                                crate::json::json_to_string_pretty(response_body),
                            ),
                        )
                    } else {
                        Err(ConfigError::KeyNotString("response_template".to_owned()))
                    }
                },
                None => {
                    proof {
                        if *subcmd is Hash && !has_key(subcmd->Hash_0@, "response_template"@) {
                            lemma_lookup_absent(subcmd->Hash_0@, "response_template"@);
                        }
                    }
                    Ok(RenderPlan::PrettyJson(crate::json::json_to_string_pretty(response_body)))
                },
            }
        },
    }
}

} // verus!
