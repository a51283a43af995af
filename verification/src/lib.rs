//! Request routing for a web server whose endpoints are Lua scripts under
//! `logic/`: how a request path is resolved to a script, which routes take
//! path parameters, how the query string is read, and what reply a script's
//! outcome gives.

pub mod config;
pub mod pattern;
pub mod query;
pub mod response;
pub mod script;
pub mod text;
pub mod laws;

pub use config::{Config, RoutingStuff, ServerStuff, BYTES_PER_MEGABYTE};
pub use pattern::{matches_pattern, path_params_allowed};
pub use query::{last_value_per_key, parse_query};
pub use response::{
    initial_response, lua_setup_chunk, not_found_reply, plan_route, request_route, script_reply, InitialResponse, Reply, RoutePlan,
    ScriptOutcome,
};
pub use script::{fetch_script, first_readable, script_levels, ScriptLookup};
pub use text::{chars_of, route_segments};
