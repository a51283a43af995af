//! The decisions taken around running a route's script: whether it runs at
//! all, with which path parameters, and what reply the script's outcome
//! gives.

use vstd::prelude::*;
use crate::config::RoutingStuff;
use crate::query::pair_views;
use crate::pattern::{path_params_allowed, some_pattern_matches};
use crate::script::{opt_view, ScriptLookup};
use crate::text::views;

verus! {

/// The body of the reply to a route that has no script.
pub open spec fn not_found_body() -> Seq<char> {
    "Unexistent route."@
}

/// The body of the reply when the script fails.
pub open spec fn script_error_body() -> Seq<char> {
    "Error executing Lua, please check server logs."@
}

/// What to do with a request once its script has been looked up.
pub enum RoutePlan {
    /// Answer 404 without running anything.
    NotFound,
    /// Run `script`; hand it `path_params` as `path_params` when present.
    Run { script: String, path_params: Option<Vec<String>> },
}

/// Whether the matched route of `lookup` takes path parameters.
pub open spec fn params_allowed(lookup: ScriptLookup, routing: RoutingStuff) -> bool {
    some_pattern_matches(lookup.matched_route@, routing.allow_path_params@)
}

/// Decides what to do with a looked-up request. A route that a pattern of
/// `allow_path_params` admits gets its leftover parts as path parameters;
/// any other route with leftover parts, and any route with no script, is
/// answered 404.
pub fn plan_route(lookup: ScriptLookup, routing: &RoutingStuff) -> (plan: RoutePlan)
    ensures
        plan is NotFound <==> (lookup.content is None || (!params_allowed(lookup, *routing)
            && lookup.params.len() > 0)),
        plan matches RoutePlan::Run { script, path_params } ==> {
            &&& opt_view(lookup.content) == Some(script@)
            &&& path_params is Some <==> params_allowed(lookup, *routing)
            &&& path_params matches Some(p) ==> views(p@) == views(lookup.params@)
        },
{
    let allowed = path_params_allowed(lookup.matched_route.as_str(), &routing.allow_path_params);
    if !allowed && lookup.params.len() > 0 {
        return RoutePlan::NotFound;
    }
    match lookup.content {
        None => RoutePlan::NotFound,
        Some(script) => {
            let path_params = if allowed {
                Some(lookup.params)
            } else {
                None
            };
            RoutePlan::Run { script, path_params }
        },
    }
}

/// How running a script ended.
pub enum ScriptOutcome {
    /// It returned a string; `status` is what `response.statuscode` held
    /// afterwards, if that was a `u16`.
    Returned { body: String, status: Option<u16> },
    /// It returned nil.
    Nil,
    /// It raised an error.
    Failed,
}

/// A reply: a status code and a body.
pub struct Reply {
    pub status: u16,
    pub body: String,
}

/// The status and body of the reply to an outcome.
pub open spec fn reply_for(outcome: ScriptOutcome) -> (u16, Seq<char>) {
    match outcome {
        ScriptOutcome::Returned { body, status } => (
            match status {
                Some(s) => s,
                None => 404u16,
            },
            body@,
        ),
        ScriptOutcome::Nil => (404u16, not_found_body()),
        ScriptOutcome::Failed => (500u16, script_error_body()),
    }
}

/// The status codes that HTTP status lines can carry.
pub open spec fn valid_status(code: u16) -> bool {
    100 <= code < 1000
}

/// Calls `actix_web::http::StatusCode::from_u16`, which accepts exactly the
/// codes from 100 to 999, and says whether it accepted `code`.
#[verifier::external_body]
fn status_code_accepted(code: u16) -> (accepted: bool)
    ensures
        accepted == valid_status(code),
{
    actix_web::http::StatusCode::from_u16(code).is_ok()
}

/// The `response` table a script starts from: what it replies with where
/// it does not change it.
pub struct InitialResponse {
    pub statuscode: u16,
    pub headers: Vec<(String, String)>,
}

/// The response a script starts from: status 404, and the one header
/// `content-type: text/html`.
pub fn initial_response() -> (response: InitialResponse)
    ensures
        response.statuscode == 404,
        pair_views(response.headers@) == seq![("content-type"@, "text/html"@)],
{
    let mut headers: Vec<(String, String)> = Vec::new();
    headers.push((String::from_str("content-type"), String::from_str("text/html")));
    assert(pair_views(headers@) =~= seq![("content-type"@, "text/html"@)]);
    InitialResponse { statuscode: 404, headers }
}

/// The reply to a route with no script.
pub fn not_found_reply() -> (reply: Reply)
    ensures
        reply.status == 404,
        reply.body@ == not_found_body(),
{
    Reply { status: 404, body: String::from_str("Unexistent route.") }
}

/// The reply to the outcome of a script; `None` where the script set a
/// status code that HTTP does not have.
pub fn script_reply(outcome: ScriptOutcome) -> (reply: Option<Reply>)
    ensures
        reply is None <==> (outcome matches ScriptOutcome::Returned { status: Some(s), .. }
            && !valid_status(s)),
        reply matches Some(r) ==> (r.status, r.body@) == reply_for(outcome),
{
    match outcome {
        ScriptOutcome::Returned { body, status } => {
            match status {
                Some(s) => {
                    if status_code_accepted(s) {
                        Some(Reply { status: s, body })
                    } else {
                        None
                    }
                },
                None => Some(Reply { status: 404, body }),
            }
        },
        ScriptOutcome::Nil => Some(not_found_reply()),
        ScriptOutcome::Failed => Some(
            Reply {
                status: 500,
                body: String::from_str("Error executing Lua, please check server logs."),
            },
        ),
    }
}

/// The route of a request: the path captured after the first `/`, or
/// `index` when there is none.
pub fn request_route(tail: Option<String>) -> (route: String)
    ensures
        route@ == match tail {
            Some(t) => t@,
            None => "index"@,
        },
{
    match tail {
        Some(t) => t,
        None => String::from_str("index"),
    }
}

/// The Lua chunk that adds `lua_path` and `lua_cpath` (the values of
/// `LUA_PATH` and `LUA_CPATH`) and `./logic/` to the module search paths.
pub open spec fn setup_chunk(lua_path: Seq<char>, lua_cpath: Seq<char>) -> Seq<char> {
    "\n        package.path = package.path .. \";"@ + lua_path
        + "\" .. \"./logic/?.lua;\"\n        package.cpath = package.cpath .. \";"@ + lua_cpath
        + "\"\n        "@
}

/// Builds the chunk of [`setup_chunk`].
pub fn lua_setup_chunk(lua_path: &str, lua_cpath: &str) -> (chunk: String)
    ensures
        chunk@ == setup_chunk(lua_path@, lua_cpath@),
{
    String::from_str("\n        package.path = package.path .. \";").concat(lua_path).concat(
        "\" .. \"./logic/?.lua;\"\n        package.cpath = package.cpath .. \";",
    ).concat(lua_cpath).concat("\"\n        ")
}

} // verus!
