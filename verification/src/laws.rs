//! Properties of the routing logic that hold across inputs and functions.

use vstd::prelude::*;
use crate::config::RoutingStuff;
use crate::pattern::{some_pattern_matches, ends_with_wildcard, pattern_matches, trim_wildcards, lemma_trim_wildcards_is_prefix};
use crate::query::{key_value, pairs_map, query_map, query_pairs, lemma_split_once_at};
use crate::response::{params_allowed, reply_for, valid_status, ScriptOutcome};
use crate::script::{candidate_files, level_name, found_at, deepest_level, lemma_deepest_level, lookup_matches, opt_view, ScriptLookup};
use crate::text::{join, non_empty, segments, split_on, views, lemma_split_on_nonempty};

verus! {

/// Splitting a concatenation at a separator between the two parts.
pub proof fn lemma_split_on_concat(a: Seq<char>, b: Seq<char>, sep: char)
    ensures
        split_on(a + seq![sep] + b, sep) == split_on(a, sep) + split_on(b, sep),
    decreases b.len(),
{
    let s = a + seq![sep] + b;
    if b.len() == 0 {
        assert(s.drop_last() =~= a);
        assert(split_on(s, sep) =~= split_on(a, sep) + split_on(b, sep));
    } else {
        lemma_split_on_concat(a, b.drop_last(), sep);
        assert(s.drop_last() =~= a + seq![sep] + b.drop_last());
        lemma_split_on_nonempty(b.drop_last(), sep);
        assert(split_on(s, sep) =~= split_on(a, sep) + split_on(b, sep));
    }
}

/// A sequence with no separator splits into itself alone.
pub proof fn lemma_split_on_without_sep(p: Seq<char>, sep: char)
    requires
        !p.contains(sep),
    ensures
        split_on(p, sep) == seq![p],
    decreases p.len(),
{
    if p.len() > 0 {
        assert(!p.drop_last().contains(sep)) by {
            if p.drop_last().contains(sep) {
                let i = choose|i: int| 0 <= i < p.drop_last().len() && p.drop_last()[i] == sep;
                assert(p[i] == sep);
            }
        }
        lemma_split_on_without_sep(p.drop_last(), sep);
        assert(p[p.len() - 1] != sep);
        assert(p.drop_last().push(p.last()) =~= p);
        assert(split_on(p, sep) =~= seq![p]);
    } else {
        assert(p =~= Seq::<char>::empty());
    }
}

/// No piece of a split holds the separator.
pub proof fn lemma_split_on_pieces(s: Seq<char>, sep: char)
    ensures
        forall|i: int|
            0 <= i < split_on(s, sep).len() ==> !(#[trigger] split_on(s, sep)[i]).contains(sep),
    decreases s.len(),
{
    if s.len() > 0 {
        lemma_split_on_pieces(s.drop_last(), sep);
        lemma_split_on_nonempty(s.drop_last(), sep);
        let prev = split_on(s.drop_last(), sep);
        if s.last() != sep {
            let l = prev.last().push(s.last());
            assert(!l.contains(sep)) by {
                if l.contains(sep) {
                    let j = choose|j: int| 0 <= j < l.len() && l[j] == sep;
                    if j < prev.last().len() {
                        assert(prev[prev.len() - 1].contains(sep));
                    }
                }
            }
        }
    }
}

/// A path without parts: the empty path has no segments.
pub proof fn lemma_segments_empty()
    ensures
        segments(Seq::<char>::empty()) == Seq::<Seq<char>>::empty(),
{
    reveal_with_fuel(Seq::filter, 2);
    let s = split_on(Seq::<char>::empty(), '/');
    assert(s.drop_last() =~= Seq::<Seq<char>>::empty());
    assert(s.filter(non_empty()) =~= Seq::<Seq<char>>::empty());
}

/// Law: slashes at the start, at the end and doubled in the middle of a
/// route do not count; the segments of two routes joined by a slash are the
/// segments of the first followed by those of the second.
pub proof fn law_segments_concat(a: Seq<char>, b: Seq<char>)
    ensures
        segments(a + seq!['/'] + b) == segments(a) + segments(b),
{
    lemma_split_on_concat(a, b, '/');
    Seq::filter_distributes_over_add(split_on(a, '/'), split_on(b, '/'), non_empty());
}

/// Law: every segment of a route is non-empty and holds no slash.
pub proof fn law_segment_shape(route: Seq<char>)
    ensures
        forall|i: int|
            0 <= i < segments(route).len() ==> (#[trigger] segments(route)[i]).len() > 0
                && !segments(route)[i].contains('/'),
{
    let s = split_on(route, '/');
    lemma_split_on_pieces(route, '/');
    assert forall|i: int| 0 <= i < segments(route).len() implies (#[trigger] segments(
        route,
    )[i]).len() > 0 && !segments(route)[i].contains('/') by {
        s.lemma_filter_pred(non_empty(), i);
        assert(s.filter(non_empty()).contains(segments(route)[i]));
        s.lemma_filter_contains_rev(non_empty(), segments(route)[i]);
        let j = choose|j: int| 0 <= j < s.len() && s[j] == segments(route)[i];
        assert(!s[j].contains('/'));
    }
}

/// The segments of parts joined by slashes are the parts, when each part
/// is non-empty and holds no slash.
pub proof fn lemma_segments_of_join(ps: Seq<Seq<char>>)
    requires
        forall|i: int| 0 <= i < ps.len() ==> (#[trigger] ps[i]).len() > 0 && !ps[i].contains('/'),
    ensures
        segments(join(ps, "/"@)) == ps,
    decreases ps.len(),
{
    reveal_strlit("/");
    if ps.len() == 0 {
        lemma_segments_empty();
    } else if ps.len() == 1 {
        lemma_split_on_without_sep(ps[0], '/');
        reveal(Seq::filter);
        let s = seq![ps[0]];
        assert(s.drop_last() =~= Seq::<Seq<char>>::empty());
        assert(s.filter(non_empty()) =~= s);
        assert(ps =~= s);
    } else {
        let front = ps.drop_last();
        lemma_segments_of_join(front);
        assert(join(ps, "/"@) =~= join(front, "/"@) + seq!['/'] + ps.last());
        law_segments_concat(join(front, "/"@), ps.last());
        lemma_segments_of_join(seq![ps.last()]);
        assert(join(seq![ps.last()], "/"@) == ps.last());
        assert(ps =~= front + seq![ps.last()]);
    }
}

/// A pattern ending in `/*` continues with `/` right after its stripped
/// form.
pub proof fn lemma_trim_wildcards_then_slash(p: Seq<char>)
    requires
        ends_with_wildcard(p),
    ensures
        trim_wildcards(p).len() + 2 <= p.len(),
        p[trim_wildcards(p).len() as int] == '/',
    decreases p.len(),
{
    let q = p.take(p.len() - 2);
    assert(trim_wildcards(p) == trim_wildcards(q));
    if ends_with_wildcard(q) {
        lemma_trim_wildcards_then_slash(q);
        assert(p[trim_wildcards(q).len() as int] == q[trim_wildcards(q).len() as int]);
    } else {
        assert(trim_wildcards(q) == q);
    }
}

/// Law: a pattern admits itself as a route.
pub proof fn law_pattern_admits_itself(pattern: Seq<char>)
    ensures
        pattern_matches(pattern, pattern),
{
    if ends_with_wildcard(pattern) {
        let t = trim_wildcards(pattern);
        lemma_trim_wildcards_is_prefix(pattern);
        lemma_trim_wildcards_then_slash(pattern);
        assert(t + seq!['/'] =~= pattern.subrange(0, t.len() as int + 1));
    }
}

/// Law: a pattern that does not end in `/*` admits exactly the route equal
/// to it.
pub proof fn law_exact_pattern(route: Seq<char>, pattern: Seq<char>)
    requires
        !ends_with_wildcard(pattern),
    ensures
        pattern_matches(route, pattern) <==> route == pattern,
{
}

/// Law: `prefix/*` admits exactly `prefix` and the endpoints under it,
/// `prefix/` followed by anything: `/admin/*` admits `/admin` and
/// `/admin/warn/1`, and not `/administrator`.
pub proof fn law_wildcard_admits_routes_under_prefix(prefix: Seq<char>, route: Seq<char>)
    requires
        !ends_with_wildcard(prefix),
    ensures
        pattern_matches(route, prefix + "/*"@) <==> (route == prefix || (prefix
            + seq!['/']).is_prefix_of(route)),
        pattern_matches(prefix, prefix + "/*"@),
        forall|rest: Seq<char>| #[trigger]
            pattern_matches(prefix + seq!['/'] + rest, prefix + "/*"@),
{
    reveal_strlit("/*");
    let p = prefix + "/*"@;
    assert(p[p.len() - 2] == '/' && p[p.len() - 1] == '*');
    assert(ends_with_wildcard(p));
    assert(p.take(p.len() - 2) =~= prefix);
    assert(trim_wildcards(prefix) == prefix);
    assert(trim_wildcards(p) == trim_wildcards(p.take(p.len() - 2)));
    assert(trim_wildcards(p) == prefix);
    assert forall|rest: Seq<char>| #[trigger]
        pattern_matches(prefix + seq!['/'] + rest, prefix + "/*"@) by {
        let r = prefix + seq!['/'] + rest;
        assert(prefix + seq!['/'] =~= r.subrange(0, prefix.len() as int + 1));
    }
}

/// Law: the pattern `/*` admits exactly the empty route and the routes that
/// begin with `/`, which every matched route does.
pub proof fn law_catch_all(route: Seq<char>)
    ensures
        pattern_matches(route, "/*"@) <==> (route.len() == 0 || route[0] == '/'),
{
    reveal_strlit("/*");
    let p = "/*"@;
    assert(p[0] == '/' && p[1] == '*' && p.len() == 2);
    assert(ends_with_wildcard(p));
    assert(p.take(0) =~= Seq::<char>::empty());
    assert(!ends_with_wildcard(p.take(0)));
    assert(trim_wildcards(p.take(0)) == p.take(0));
    assert(trim_wildcards(p) == trim_wildcards(p.take(0)));
    let slash = Seq::<char>::empty() + seq!['/'];
    assert(slash =~= seq!['/']);
    if route.len() > 0 && route[0] == '/' {
        assert(slash =~= route.subrange(0, 1));
    }
    if route == Seq::<char>::empty() {
        assert(route.len() == 0);
    }
    if route.len() == 0 {
        assert(route =~= Seq::<char>::empty());
    }
    if slash.is_prefix_of(route) {
        assert(route[0] == route.subrange(0, 1)[0]);
    }
}

/// Law: nothing of the path is lost in a lookup: the segments of the
/// matched route followed by the path parameters are the segments of the
/// requested route.
pub proof fn law_lookup_keeps_route(
    route: Seq<char>,
    reads: Seq<Vec<Option<String>>>,
    lookup: ScriptLookup,
)
    requires
        reads.len() == segments(route).len() + 1,
        lookup_matches(lookup, segments(route), reads),
    ensures
        segments(lookup.matched_route@) + views(lookup.params@) == segments(route),
{
    reveal_strlit("/");
    let parts = segments(route);
    let k = deepest_level(reads, reads.len() as int);
    lemma_deepest_level(reads, reads.len() as int);
    law_segment_shape(route);
    let front = parts.take(k);
    lemma_segments_of_join(front);
    assert(lookup.matched_route@ =~= Seq::<char>::empty() + seq!['/'] + join(front, "/"@));
    law_segments_concat(Seq::<char>::empty(), join(front, "/"@));
    lemma_segments_empty();
    assert(segments(lookup.matched_route@) =~= front);
    assert(front + parts.skip(k) =~= parts);
}

/// Law: the deepest level with a script wins. No level below the matched
/// route has a script, the matched route has one unless it is the index
/// level, and the script handed over is the one found there.
pub proof fn law_deepest_script_wins(
    route: Seq<char>,
    reads: Seq<Vec<Option<String>>>,
    lookup: ScriptLookup,
)
    requires
        reads.len() == segments(route).len() + 1,
        lookup_matches(lookup, segments(route), reads),
    ensures
        ({
            let k = segments(route).len() - views(lookup.params@).len();
            &&& 0 <= k <= segments(route).len()
            &&& opt_view(lookup.content) == found_at(reads, k)
            &&& k > 0 ==> lookup.content is Some
            &&& forall|j: int| k < j < reads.len() ==> #[trigger] found_at(reads, j) is None
        }),
{
    lemma_deepest_level(reads, reads.len() as int);
}

/// Law: files take priority over parameters. When the whole route has a
/// script, that script runs with no path parameters and the matched route
/// is the whole route.
pub proof fn law_files_over_params(
    route: Seq<char>,
    reads: Seq<Vec<Option<String>>>,
    lookup: ScriptLookup,
)
    requires
        segments(route).len() >= 1,
        reads.len() == segments(route).len() + 1,
        found_at(reads, segments(route).len() as int) is Some,
        lookup_matches(lookup, segments(route), reads),
    ensures
        lookup.params@.len() == 0,
        opt_view(lookup.content) == found_at(reads, segments(route).len() as int),
        segments(lookup.matched_route@) == segments(route),
{
    law_lookup_keeps_route(route, reads, lookup);
    assert(views(lookup.params@).len() == lookup.params@.len());
    assert(segments(lookup.matched_route@) + views(lookup.params@) =~= segments(
        lookup.matched_route@,
    ));
}

/// `filter_map` of a concatenation.
pub proof fn lemma_filter_map_concat(
    a: Seq<Seq<char>>,
    b: Seq<Seq<char>>,
    f: spec_fn(Seq<char>) -> Option<(Seq<char>, Seq<char>)>,
)
    ensures
        (a + b).filter_map(f) == a.filter_map(f) + b.filter_map(f),
    decreases b.len(),
{
    if b.len() == 0 {
        assert(a + b =~= a);
        assert(a.filter_map(f) + b.filter_map(f) =~= a.filter_map(f));
    } else {
        lemma_filter_map_concat(a, b.drop_last(), f);
        assert((a + b).drop_last() =~= a + b.drop_last());
        match f(b.last()) {
            Some(y) => {
                assert((a + b).filter_map(f) =~= a.filter_map(f) + b.filter_map(f));
            },
            None => {},
        }
    }
}

/// The table of a concatenation of pairs.
pub proof fn lemma_pairs_map_concat(x: Seq<(Seq<char>, Seq<char>)>, y: Seq<(Seq<char>, Seq<char>)>)
    ensures
        pairs_map(x + y) == pairs_map(x).union_prefer_right(pairs_map(y)),
    decreases y.len(),
{
    if y.len() == 0 {
        assert(x + y =~= x);
        assert(pairs_map(x).union_prefer_right(pairs_map(y)) =~= pairs_map(x));
    } else {
        lemma_pairs_map_concat(x, y.drop_last());
        assert((x + y).drop_last() =~= x + y.drop_last());
        assert(pairs_map(x + y) =~= pairs_map(x).union_prefer_right(pairs_map(y)));
    }
}

/// Law: in a query string, a later parameter overrides an earlier one of
/// the same key: the table of `q1&q2` is that of `q1` updated with that of
/// `q2`.
pub proof fn law_query_concat(q1: Seq<char>, q2: Seq<char>)
    ensures
        query_map(q1 + seq!['&'] + q2) == query_map(q1).union_prefer_right(query_map(q2)),
{
    lemma_split_on_concat(q1, q2, '&');
    lemma_filter_map_concat(split_on(q1, '&'), split_on(q2, '&'), key_value());
    lemma_pairs_map_concat(query_pairs(q1), query_pairs(q2));
}

/// Law: the parameter `key=value` gives `key` the value `value`; the key
/// ends at the first `=`, and the value may hold further `=`.
pub proof fn law_query_pair(key: Seq<char>, value: Seq<char>)
    requires
        !key.contains('='),
        !key.contains('&'),
        !value.contains('&'),
    ensures
        query_map(key + seq!['='] + value) == Map::<Seq<char>, Seq<char>>::empty().insert(
            key,
            value,
        ),
{
    let q = key + seq!['='] + value;
    assert(!q.contains('&')) by {
        if q.contains('&') {
            let i = choose|i: int| 0 <= i < q.len() && q[i] == '&';
            if i < key.len() {
                assert(key[i] == '&');
            } else if i > key.len() {
                assert(value[i - key.len() - 1] == '&');
            }
        }
    }
    lemma_split_on_without_sep(q, '&');
    assert forall|j: int| 0 <= j < key.len() implies q[j] != '=' by {
        assert(q[j] == key[j]);
    }
    lemma_split_once_at(q, '=', key.len() as int);
    assert(q.take(key.len() as int) =~= key);
    assert(q.skip(key.len() as int + 1) =~= value);
    Seq::lemma_filter_map_singleton(q, key_value());
    assert(query_pairs(q) =~= seq![(key, value)]);
    let one = seq![(key, value)];
    assert(one.drop_last() =~= Seq::<(Seq<char>, Seq<char>)>::empty());
    assert(pairs_map(one.drop_last()) == Map::<Seq<char>, Seq<char>>::empty());
    assert(pairs_map(one) == pairs_map(one.drop_last()).insert(key, value));
    assert(query_map(q) =~= Map::<Seq<char>, Seq<char>>::empty().insert(key, value));
}

/// Law: a piece of a query string without `=` sets no parameter.
pub proof fn law_query_piece_without_equals(piece: Seq<char>)
    requires
        !piece.contains('='),
        !piece.contains('&'),
    ensures
        query_map(piece) == Map::<Seq<char>, Seq<char>>::empty(),
{
    lemma_split_on_without_sep(piece, '&');
    assert forall|j: int| 0 <= j < piece.len() implies piece[j] != '=' by {}
    lemma_split_once_at(piece, '=', piece.len() as int);
    Seq::lemma_filter_map_singleton(piece, key_value());
    assert(query_pairs(piece) =~= Seq::<(Seq<char>, Seq<char>)>::empty());
}

/// Law: a script that returns a string and leaves `response.statuscode`
/// at the 404 it starts with (see `initial_response`) is answered 404 with
/// that string.
pub proof fn law_untouched_status_is_404(body: String)
    ensures
        valid_status(404u16),
        reply_for(ScriptOutcome::Returned { body, status: Some(404u16) }) == (404u16, body@),
{
}

/// Law: the name tried at level `k >= 1` of a route is made of exactly the
/// route's first `k` segments: its own segments are those, and it is the
/// name of level `k - 1` followed by `/` and segment `k - 1` (for `k >= 2`),
/// so `/admin/warn/1` tries `admin`, then `admin/warn`, then `admin/warn/1`.
pub proof fn law_level_names_follow_the_route(route: Seq<char>, k: int)
    requires
        1 <= k <= segments(route).len(),
    ensures
        segments(level_name(segments(route), k)) == segments(route).take(k),
        k >= 2 ==> level_name(segments(route), k) == level_name(segments(route), k - 1) + "/"@
            + segments(route)[k - 1],
{
    let parts = segments(route);
    law_segment_shape(route);
    lemma_segments_of_join(parts.take(k));
    if k >= 2 {
        crate::script::lemma_join_take_succ(parts, "/"@, k - 1);
    }
}

/// Law: whether a looked-up route takes path parameters depends on its
/// matched route alone, never on the leftover parts; and a matched route
/// that is itself one of the configured patterns takes them (the pattern
/// `/test` lets `/test/45`, served by `test.lua`, run with `45`).
pub proof fn law_params_follow_matched_route(
    a: ScriptLookup,
    b: ScriptLookup,
    routing: RoutingStuff,
)
    ensures
        a.matched_route@ == b.matched_route@ ==> (params_allowed(a, routing) <==> params_allowed(
            b,
            routing,
        )),
        (exists|i: int|
            0 <= i < routing.allow_path_params@.len() && #[trigger] routing.allow_path_params@[i]@
                == a.matched_route@) ==> params_allowed(a, routing),
{
    if exists|i: int|
        0 <= i < routing.allow_path_params@.len() && #[trigger] routing.allow_path_params@[i]@
            == a.matched_route@ {
        let i = choose|i: int|
            0 <= i < routing.allow_path_params@.len() && #[trigger] routing.allow_path_params@[i]@
                == a.matched_route@;
        law_pattern_admits_itself(a.matched_route@);
        assert(pattern_matches(a.matched_route@, routing.allow_path_params@[i]@));
    }
}

/// Law: a list of patterns admits a route exactly when one of its patterns
/// admits it on its own; a one-pattern list behaves as that pattern, so an
/// exact pattern in the list admits only the route equal to it.
pub proof fn law_pattern_list(route: Seq<char>, patterns: Seq<String>)
    ensures
        some_pattern_matches(route, patterns) <==> exists|i: int|
            0 <= i < patterns.len() && #[trigger] pattern_matches(route, patterns[i]@),
        patterns.len() == 1 ==> (some_pattern_matches(route, patterns) <==> pattern_matches(
            route,
            patterns[0]@,
        )),
        patterns.len() == 1 && !ends_with_wildcard(patterns[0]@) ==> (some_pattern_matches(
            route,
            patterns,
        ) <==> route == patterns[0]@),
        patterns.len() == 0 ==> !some_pattern_matches(route, patterns),
{
    if patterns.len() == 1 {
        if pattern_matches(route, patterns[0]@) {
            assert(some_pattern_matches(route, patterns));
        }
    }
}

/// Law: how a script ended decides the reply. A returned string is the
/// body, with whatever valid status the script set, or 404 when it set
/// none it could be read as; nil is answered 404 "Unexistent route."; an
/// error 500 "Error executing Lua, please check server logs.".
pub proof fn law_script_outcome_replies(body: String, s: u16)
    ensures
        valid_status(s) ==> reply_for(ScriptOutcome::Returned { body, status: Some(s) }) == (
            s,
            body@,
        ),
        reply_for(ScriptOutcome::Returned { body, status: None }) == (404u16, body@),
        reply_for(ScriptOutcome::Nil) == (404u16, "Unexistent route."@),
        reply_for(ScriptOutcome::Failed) == (
            500u16,
            "Error executing Lua, please check server logs."@,
        ),
{
}

/// Law: every route first tries `logic/index.lua`, then
/// `logic/index/index.lua`, and at each deeper level `<name>.lua` before
/// `<name>/index.lua`.
pub proof fn law_files_tried_per_level(parts: Seq<Seq<char>>, k: int)
    ensures
        candidate_files(level_name(parts, 0)) == seq!["logic/index.lua"@, "logic/index/index.lua"@],
        candidate_files(level_name(parts, k)).len() == 2,
        candidate_files(level_name(parts, k))[0] == "logic/"@ + level_name(parts, k) + ".lua"@,
        candidate_files(level_name(parts, k))[1] == "logic/"@ + level_name(parts, k)
            + "/index.lua"@,
{
    reveal_strlit("logic/");
    reveal_strlit("index");
    reveal_strlit(".lua");
    reveal_strlit("/index.lua");
    reveal_strlit("logic/index.lua");
    reveal_strlit("logic/index/index.lua");
    assert("logic/"@ + "index"@ + ".lua"@ =~= "logic/index.lua"@);
    assert("logic/"@ + "index"@ + "/index.lua"@ =~= "logic/index/index.lua"@);
    assert(candidate_files(level_name(parts, 0)) =~= seq![
        "logic/index.lua"@,
        "logic/index/index.lua"@,
    ]);
}

} // verus!
