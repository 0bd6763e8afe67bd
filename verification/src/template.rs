//! One-off template expansion.
//!
//! Endpoints, headers, query parameters, bodies, scripts and OAuth fields
//! are template strings, expanded once against the scope. The engine
//! itself is an outside collaborator: the library hands it the template
//! text and the scope serialized as JSON, and takes back rendered text or
//! a failure. What the engine returns may depend on more than its inputs
//! (templates can read the clock or draw random numbers), so nothing is
//! assumed of the rendered text; every function that consumes it takes it
//! as a plain argument.

use vstd::prelude::*;

use crate::context::Context;
use crate::errors::ConfigError;

verus! {

/// Relies on `tera::Tera::one_off`, which renders one template against a
/// context, with `serde_json::from_str` and `tera::Context::from_value`
/// turning the serialized scope into the engine's context. The rendered
/// text may depend on more than the inputs, so nothing is promised of it.
#[verifier::external_body]
fn tera_one_off(template: &str, context_json: &str) -> (r: Result<String, String>) {
    let value: serde_json::Value = match serde_json::from_str(context_json) {
        Ok(v) => v,
        Err(e) => return Err(e.to_string()),
    };
    let ctx = match tera::Context::from_value(value) {
        Ok(c) => c,
        Err(e) => return Err(e.to_string()),
    };
    match tera::Tera::one_off(template, &ctx, false) {
        Ok(s) => Ok(s),
        Err(e) => Err(e.to_string()),
    }
}

/// Expands one template string against the scope. Any engine failure —
/// an undefined variable, a syntax error — is reported as a template
/// error, which is fatal to the invocation.
pub fn get_compiled_template_str_with_context(template: &String, context: &Context) -> (r: Result<
    String,
    ConfigError,
>)
    ensures
        r matches Err(e) ==> e is TemplateFailed,
{
    let context_json = context.to_json_text();
    match tera_one_off(template.as_str(), context_json.as_str()) {
        Ok(s) => Ok(s),
        Err(e) => Err(ConfigError::TemplateFailed(e)),
    }
}

} // verus!
