use kob_web::{
    initial_response, chars_of, fetch_script, first_readable, last_value_per_key, lua_setup_chunk,
    matches_pattern, not_found_reply, parse_query, path_params_allowed, plan_route,
    request_route, route_segments, script_levels, script_reply, RoutePlan, RoutingStuff,
    ScriptLookup, ScriptOutcome, ServerStuff,
};
use std::collections::HashMap;

fn strings(v: &[&str]) -> Vec<String> {
    v.iter().map(|s| s.to_string()).collect()
}

fn as_map(pairs: &[(String, String)]) -> HashMap<String, String> {
    pairs.iter().cloned().collect()
}

fn keys_distinct(pairs: &[(String, String)]) -> bool {
    as_map(pairs).len() == pairs.len()
}

/// Reads made of the given per-level contents: each level's two candidates,
/// `<name>.lua` first.
fn reads_of(levels: &[(Option<&str>, Option<&str>)]) -> Vec<Vec<Option<String>>> {
    levels
        .iter()
        .map(|(a, b)| vec![a.map(|s| s.to_string()), b.map(|s| s.to_string())])
        .collect()
}

#[test]
fn chars_of_keeps_unicode_characters() {
    assert_eq!(chars_of("aé/ü"), vec!['a', 'é', '/', 'ü']);
    assert_eq!(chars_of(""), Vec::<char>::new());
}

#[test]
fn segments_skip_empty_pieces() {
    assert_eq!(route_segments("/users//45/"), strings(&["users", "45"]));
    assert_eq!(route_segments("users/45"), strings(&["users", "45"]));
    assert_eq!(route_segments("/"), Vec::<String>::new());
    assert_eq!(route_segments(""), Vec::<String>::new());
    assert_eq!(route_segments("index"), strings(&["index"]));
}

#[test]
fn segments_of_joined_routes_concatenate() {
    let a = "/a//b";
    let b = "c/";
    let joined = format!("{}/{}", a, b);
    let mut expected = route_segments(a);
    expected.extend(route_segments(b));
    assert_eq!(route_segments(&joined), expected);
}

#[test]
fn exact_pattern_matches_only_itself() {
    assert!(matches_pattern("/test", "/test"));
    assert!(!matches_pattern("/test/1", "/test"));
    assert!(!matches_pattern("/tes", "/test"));
    assert!(!matches_pattern("test", "/test"));
}

#[test]
fn pattern_admits_itself() {
    for p in ["/test", "/admin/*", "/*", "", "/a/*/*"] {
        assert!(matches_pattern(p, p), "{}", p);
    }
}

#[test]
fn wildcard_admits_routes_under_prefix() {
    assert!(matches_pattern("/admin/warn/1", "/admin/*"));
    assert!(matches_pattern("/admin/ban/2", "/admin/*"));
    assert!(matches_pattern("/admin", "/admin/*"));
    assert!(matches_pattern("/admin/", "/admin/*"));
    assert!(!matches_pattern("/administrator", "/admin/*"));
    assert!(!matches_pattern("/adm", "/admin/*"));
    assert!(!matches_pattern("/other/warn", "/admin/*"));
}

#[test]
fn every_trailing_wildcard_is_stripped() {
    assert!(matches_pattern("/a/b", "/a/*/*"));
    assert!(matches_pattern("/a", "/a/*/*"));
    assert!(!matches_pattern("/ab", "/a/*/*"));
    assert!(!matches_pattern("/b", "/a/*/*"));
}

#[test]
fn catch_all_pattern_admits_everything() {
    assert!(matches_pattern("/anything/at/all", "/*"));
    assert!(matches_pattern("", "/*"));
    assert!(matches_pattern("/", "/*"));
    assert!(!matches_pattern("anything", "/*"));
}

#[test]
fn path_params_allowed_when_some_pattern_matches() {
    let patterns = strings(&["/test", "/admin/*"]);
    assert!(path_params_allowed("/test", &patterns));
    assert!(path_params_allowed("/admin/warn", &patterns));
    assert!(!path_params_allowed("/administrator", &patterns));
    assert!(!path_params_allowed("/users", &patterns));
    assert!(!path_params_allowed("/test", &Vec::new()));
}

#[test]
fn script_levels_try_each_level_in_order() {
    let levels = script_levels("/users/45");
    assert_eq!(
        levels,
        vec![
            strings(&["logic/index.lua", "logic/index/index.lua"]),
            strings(&["logic/users.lua", "logic/users/index.lua"]),
            strings(&["logic/users/45.lua", "logic/users/45/index.lua"]),
        ]
    );
    assert_eq!(
        script_levels("/"),
        vec![strings(&["logic/index.lua", "logic/index/index.lua"])]
    );
}

#[test]
fn first_readable_takes_the_first_file_read() {
    assert_eq!(first_readable(&vec![None, Some("b".to_string())]), Some("b".to_string()));
    assert_eq!(
        first_readable(&vec![Some("a".to_string()), Some("b".to_string())]),
        Some("a".to_string())
    );
    assert_eq!(first_readable(&vec![None, None]), None);
    assert_eq!(first_readable(&vec![]), None);
}

#[test]
fn lookup_falls_back_to_parent_with_params() {
    // /users/45 with no users/45.lua: users.lua runs with "45" as a parameter.
    let reads = reads_of(&[(Some("index"), None), (Some("users"), None), (None, None)]);
    let lookup = fetch_script("/users/45", &reads);
    assert_eq!(lookup.content, Some("users".to_string()));
    assert_eq!(lookup.params, strings(&["45"]));
    assert_eq!(lookup.matched_route, "/users");
}

#[test]
fn lookup_prefers_files_over_params() {
    let reads = reads_of(&[(Some("index"), None), (Some("users"), None), (None, Some("45"))]);
    let lookup = fetch_script("/users/45", &reads);
    assert_eq!(lookup.content, Some("45".to_string()));
    assert!(lookup.params.is_empty());
    assert_eq!(lookup.matched_route, "/users/45");
}

#[test]
fn lookup_keeps_the_deepest_level_even_past_gaps() {
    let reads = reads_of(&[(None, None), (None, Some("a")), (None, None), (Some("abc"), None)]);
    let lookup = fetch_script("a/b/c", &reads);
    assert_eq!(lookup.content, Some("abc".to_string()));
    assert!(lookup.params.is_empty());
    assert_eq!(lookup.matched_route, "/a/b/c");
    let reads = reads_of(&[(None, None), (None, Some("a")), (None, None), (None, None)]);
    let lookup = fetch_script("a/b/c", &reads);
    assert_eq!(lookup.content, Some("a".to_string()));
    assert_eq!(lookup.params, strings(&["b", "c"]));
    assert_eq!(lookup.matched_route, "/a");
}

#[test]
fn lookup_of_root_uses_index() {
    let reads = reads_of(&[(None, Some("home"))]);
    let lookup = fetch_script("/", &reads);
    assert_eq!(lookup.content, Some("home".to_string()));
    assert!(lookup.params.is_empty());
    assert_eq!(lookup.matched_route, "/");
}

#[test]
fn lookup_without_any_script_keeps_all_parts() {
    let reads = reads_of(&[(None, None), (None, None), (None, None)]);
    let lookup = fetch_script("x/y", &reads);
    assert_eq!(lookup.content, None);
    assert_eq!(lookup.params, strings(&["x", "y"]));
    assert_eq!(lookup.matched_route, "/");
}

#[test]
fn lookup_keeps_route() {
    let route = "//a/b///c/";
    let reads = reads_of(&[(None, None), (Some("a"), None), (None, None), (None, None)]);
    let lookup = fetch_script(route, &reads);
    let mut rebuilt = route_segments(&lookup.matched_route);
    rebuilt.extend(lookup.params.clone());
    assert_eq!(rebuilt, route_segments(route));
}

#[test]
fn query_parameters_from_readme() {
    let params = parse_query("id=42&name=john&filter=active");
    assert!(keys_distinct(&params));
    let map = as_map(&params);
    assert_eq!(map.len(), 3);
    assert_eq!(map["id"], "42");
    assert_eq!(map["name"], "john");
    assert_eq!(map["filter"], "active");
}

#[test]
fn later_query_parameter_wins() {
    let params = parse_query("a=1&b=2&a=3");
    assert!(keys_distinct(&params));
    let map = as_map(&params);
    assert_eq!(map.len(), 2);
    assert_eq!(map["a"], "3");
    assert_eq!(map["b"], "2");
}

#[test]
fn query_concat_updates_the_first_table() {
    let q1 = "a=1&b=2";
    let q2 = "b=5&c=6";
    let mut expected = as_map(&parse_query(q1));
    expected.extend(as_map(&parse_query(q2)));
    assert_eq!(as_map(&parse_query(&format!("{}&{}", q1, q2))), expected);
}

#[test]
fn query_key_ends_at_first_equals() {
    let map = as_map(&parse_query("k=v=w"));
    assert_eq!(map.len(), 1);
    assert_eq!(map["k"], "v=w");
    let map = as_map(&parse_query("=x"));
    assert_eq!(map[""], "x");
}

#[test]
fn query_pieces_without_equals_are_ignored() {
    assert!(parse_query("flag").is_empty());
    assert!(parse_query("").is_empty());
    let map = as_map(&parse_query("flag&&k=v&"));
    assert_eq!(map.len(), 1);
    assert_eq!(map["k"], "v");
}

#[test]
fn last_value_per_key_keeps_the_last_value() {
    let pairs = vec![
        ("content-type".to_string(), "text/html".to_string()),
        ("foo".to_string(), "bar".to_string()),
        ("content-type".to_string(), "text/plain".to_string()),
    ];
    let table = last_value_per_key(&pairs);
    assert!(keys_distinct(&table));
    let map = as_map(&table);
    assert_eq!(map.len(), 2);
    assert_eq!(map["content-type"], "text/plain");
    assert_eq!(map["foo"], "bar");
    assert!(last_value_per_key(&vec![]).is_empty());
}

fn lookup(content: Option<&str>, params: &[&str], matched: &str) -> ScriptLookup {
    ScriptLookup {
        content: content.map(|s| s.to_string()),
        params: strings(params),
        matched_route: matched.to_string(),
    }
}

#[test]
fn leftover_params_without_permission_are_not_found() {
    let routing = RoutingStuff { allow_path_params: strings(&["/test", "/admin/*"]) };
    let plan = plan_route(lookup(Some("s"), &["45"], "/users"), &routing);
    assert!(matches!(plan, RoutePlan::NotFound));
}

#[test]
fn permitted_route_gets_its_params() {
    let routing = RoutingStuff { allow_path_params: strings(&["/test", "/admin/*"]) };
    match plan_route(lookup(Some("s"), &["warn", "1"], "/admin"), &routing) {
        RoutePlan::Run { script, path_params } => {
            assert_eq!(script, "s");
            assert_eq!(path_params, Some(strings(&["warn", "1"])));
        }
        RoutePlan::NotFound => panic!("expected the script to run"),
    }
    match plan_route(lookup(Some("s"), &[], "/test"), &routing) {
        RoutePlan::Run { path_params, .. } => assert_eq!(path_params, Some(vec![])),
        RoutePlan::NotFound => panic!("expected the script to run"),
    }
}

#[test]
fn route_without_params_runs_without_path_params() {
    let routing = RoutingStuff { allow_path_params: vec![] };
    match plan_route(lookup(Some("s"), &[], "/users"), &routing) {
        RoutePlan::Run { script, path_params } => {
            assert_eq!(script, "s");
            assert_eq!(path_params, None);
        }
        RoutePlan::NotFound => panic!("expected the script to run"),
    }
}

#[test]
fn route_without_script_is_not_found() {
    let routing = RoutingStuff { allow_path_params: strings(&["/*"]) };
    assert!(matches!(plan_route(lookup(None, &["x"], "/"), &routing), RoutePlan::NotFound));
    let routing = RoutingStuff { allow_path_params: vec![] };
    assert!(matches!(plan_route(lookup(None, &[], "/"), &routing), RoutePlan::NotFound));
}

#[test]
fn returned_body_with_status() {
    let reply = script_reply(ScriptOutcome::Returned { body: "hi".to_string(), status: Some(201) })
        .unwrap();
    assert_eq!(reply.status, 201);
    assert_eq!(reply.body, "hi");
    let reply = script_reply(ScriptOutcome::Returned { body: "ok".to_string(), status: Some(200) })
        .unwrap();
    assert_eq!(reply.status, 200);
    assert_eq!(reply.body, "ok");
}

#[test]
fn returned_body_without_status_is_404() {
    let reply =
        script_reply(ScriptOutcome::Returned { body: "x".to_string(), status: None }).unwrap();
    assert_eq!(reply.status, 404);
    assert_eq!(reply.body, "x");
}

#[test]
fn status_codes_outside_http_are_refused() {
    for bad in [0u16, 99, 1000, 65535] {
        assert!(script_reply(ScriptOutcome::Returned {
            body: "x".to_string(),
            status: Some(bad)
        })
        .is_none());
    }
    for good in [100u16, 999] {
        let reply = script_reply(ScriptOutcome::Returned {
            body: "x".to_string(),
            status: Some(good),
        })
        .unwrap();
        assert_eq!(reply.status, good);
    }
}

#[test]
fn nil_result_is_not_found() {
    let reply = script_reply(ScriptOutcome::Nil).unwrap();
    assert_eq!(reply.status, 404);
    assert_eq!(reply.body, "Unexistent route.");
}

#[test]
fn script_error_is_500() {
    let reply = script_reply(ScriptOutcome::Failed).unwrap();
    assert_eq!(reply.status, 500);
    assert_eq!(reply.body, "Error executing Lua, please check server logs.");
}

#[test]
fn not_found_reply_is_404() {
    let reply = not_found_reply();
    assert_eq!(reply.status, 404);
    assert_eq!(reply.body, "Unexistent route.");
}

#[test]
fn request_route_defaults_to_index() {
    assert_eq!(request_route(None), "index");
    assert_eq!(request_route(Some("users/45".to_string())), "users/45");
}

#[test]
fn lua_setup_chunk_text() {
    let chunk = lua_setup_chunk("/usr/share/lua/?.lua", "/usr/lib/lua/?.so");
    assert_eq!(
        chunk,
        format!(
            r#"
        package.path = package.path .. ";{}" .. "./logic/?.lua;"
        package.cpath = package.cpath .. ";{}"
        "#,
            "/usr/share/lua/?.lua", "/usr/lib/lua/?.so"
        )
    );
}

#[test]
fn payload_limit_in_bytes() {
    let server = ServerStuff { address: "0.0.0.0".to_string(), port: 8080, max_payload_size: 25 };
    assert_eq!(server.payload_limit(), 25 * 1024 * 1024);
    let server = ServerStuff { address: "::".to_string(), port: 80, max_payload_size: 0 };
    assert_eq!(server.payload_limit(), 0);
}

#[test]
fn initial_response_is_404_html() {
    let initial = initial_response();
    assert_eq!(initial.statuscode, 404);
    assert_eq!(initial.headers, vec![("content-type".to_string(), "text/html".to_string())]);
}

#[test]
fn untouched_status_is_answered_404() {
    let initial = initial_response();
    let reply = script_reply(ScriptOutcome::Returned {
        body: "hello".to_string(),
        status: Some(initial.statuscode),
    })
    .unwrap();
    assert_eq!(reply.status, 404);
    assert_eq!(reply.body, "hello");
}
