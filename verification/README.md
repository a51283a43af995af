# kob_web

The routing core of Kob-Web, a web server whose endpoints are Lua scripts,
written in Verus with its behaviour stated in contracts and proved.

- `src/text.rs`: splitting routes at `/` (`route_segments`) and the
  specifications of splitting and joining.
- `src/pattern.rs`: the `allow_path_params` patterns (`matches_pattern`).
- `src/script.rs`: which files are tried for a route (`script_levels`) and
  which script serves it with which path parameters (`fetch_script`).
- `src/query.rs`: query strings and header lists read into tables in which a
  later value of a key wins (`parse_query`, `last_value_per_key`).
- `src/response.rs`: whether a looked-up route runs (`plan_route`), the
  response a script starts from (`initial_response`) and the reply to a
  script's outcome (`script_reply`).
- `src/config.rs`: the configuration types.
- `src/laws.rs`: properties proved across these functions.

`app/` is the server itself: actix-web, the Lua VM (mlua), reading the
configuration and the scripts from disk.
