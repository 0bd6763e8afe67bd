//! OAuth token acquisition decisions.
//!
//! The browser consent flow and the token file live outside the core:
//! the caller reads the cached token, runs the flow when the decision
//! asks for it, and persists what the flow returned.

use vstd::prelude::*;

use vstd::string::StringExecFns;

verus! {

/// What the caller must do to obtain a bearer token.
#[derive(Debug, PartialEq)]
pub enum TokenDecision {
    /// A token was cached earlier: use it, and do not run the flow.
    UseCached(String),
    /// No token is cached: run the consent flow, then persist its token.
    RunFlow,
}

/// Decides how to obtain the bearer token for an application: a
/// previously persisted token is reused without re-running the browser
/// flow; only when none exists does the flow run, and its token is then
/// persisted.
pub fn get_oauth_token(cached_token: Option<String>) -> (r: TokenDecision)
    ensures
        cached_token matches Some(t) ==> r == TokenDecision::UseCached(t),
        cached_token is None ==> r == TokenDecision::RunFlow,
{
    match cached_token {
        Some(t) => TokenDecision::UseCached(t),
        None => TokenDecision::RunFlow,
    }
}

/// The path of the persisted token file for an application:
/// `<home>/.<app>.joat/.<app>.token`.
pub fn get_token_file_path(home_dir: &str, app_name: &str) -> (r: String)
    ensures
        r@ == home_dir@ + "/."@ + app_name@ + ".joat/."@ + app_name@ + ".token"@,
{
    let mut r = home_dir.to_owned();
    r.append("/.");
    r.append(app_name);
    r.append(".joat/.");
    r.append(app_name);
    r.append(".token");
    r
}

} // verus!
