//! Resolving a request path to the Lua script under `logic/` that serves
//! it. The path `/a/b/c` is tried level by level: the index script first,
//! then `a`, `a/b` and `a/b/c`, each as `logic/<name>.lua` before
//! `logic/<name>/index.lua`. The deepest level that has a script wins, and
//! the parts of the path below it are handed to the script as parameters.

use vstd::prelude::*;
use crate::text::{join, route_segments, segments, views};

verus! {

/// The view of an optional string.
pub open spec fn opt_view(o: Option<String>) -> Option<Seq<char>> {
    match o {
        Some(s) => Some(s@),
        None => None,
    }
}

/// The name tried at level `k` of a path with parts `parts`: `index` at
/// level 0, else the first `k` parts joined by `/`.
pub open spec fn level_name(parts: Seq<Seq<char>>, k: int) -> Seq<char> {
    if k == 0 {
        "index"@
    } else {
        join(parts.take(k), "/"@)
    }
}

/// The files tried for a level named `name`, in the order they are tried.
pub open spec fn candidate_files(name: Seq<char>) -> Seq<Seq<char>> {
    seq!["logic/"@ + name + ".lua"@, "logic/"@ + name + "/index.lua"@]
}

/// The first script that could be read among the candidates of a level.
pub open spec fn first_found(reads: Seq<Option<String>>) -> Option<Seq<char>>
    decreases reads.len(),
{
    if reads.len() == 0 {
        None
    } else {
        match reads[0] {
            Some(s) => Some(s@),
            None => first_found(reads.drop_first()),
        }
    }
}

/// The script found at level `k`.
pub open spec fn found_at(reads: Seq<Vec<Option<String>>>, k: int) -> Option<Seq<char>> {
    first_found(reads[k]@)
}

/// The deepest level below `upto`, other than the index level, at which a
/// script was found; 0 when there is none.
pub open spec fn deepest_level(reads: Seq<Vec<Option<String>>>, upto: int) -> int
    decreases upto,
{
    if upto <= 1 {
        0
    } else if found_at(reads, upto - 1) is Some {
        upto - 1
    } else {
        deepest_level(reads, upto - 1)
    }
}

/// The script that serves a path, what is left of the path below it, and
/// the route that the script was found for.
pub struct ScriptLookup {
    pub content: Option<String>,
    pub params: Vec<String>,
    pub matched_route: String,
}

/// What [`fetch_script`] gives for a path with parts `parts` and the
/// contents `reads` of its candidate files: the script at the deepest
/// level `k` that has one, the parts below `k` as parameters, and `/`
/// followed by the first `k` parts as the matched route.
pub open spec fn lookup_matches(
    lookup: ScriptLookup,
    parts: Seq<Seq<char>>,
    reads: Seq<Vec<Option<String>>>,
) -> bool {
    let k = deepest_level(reads, reads.len() as int);
    &&& opt_view(lookup.content) == found_at(reads, k)
    &&& views(lookup.params@) == parts.skip(k)
    &&& lookup.matched_route@ == "/"@ + join(parts.take(k), "/"@)
}

/// The level found is the deepest one with a script, and has one itself
/// unless it is the index level.
pub proof fn lemma_deepest_level(reads: Seq<Vec<Option<String>>>, upto: int)
    ensures
        0 <= deepest_level(reads, upto),
        upto >= 1 ==> deepest_level(reads, upto) < upto,
        deepest_level(reads, upto) > 0 ==> found_at(reads, deepest_level(reads, upto)) is Some,
        forall|j: int|
            deepest_level(reads, upto) < j < upto && j >= 1 ==> #[trigger] found_at(reads, j)
                is None,
    decreases upto,
{
    if upto > 1 {
        lemma_deepest_level(reads, upto - 1);
    }
}

/// Joining one more part onto the joined prefix.
pub proof fn lemma_join_take_succ(parts: Seq<Seq<char>>, sep: Seq<char>, i: int)
    requires
        1 <= i < parts.len(),
    ensures
        join(parts.take(i + 1), sep) == join(parts.take(i), sep) + sep + parts[i],
{
    assert(parts.take(i + 1).drop_last() =~= parts.take(i));
}

/// The first `j + 1` parts joined by `/`, for each `j`.
fn level_prefixes(parts: &Vec<String>) -> (prefixes: Vec<String>)
    ensures
        prefixes.len() == parts.len(),
        forall|j: int|
            0 <= j < parts.len() ==> #[trigger] prefixes@[j]@ == join(
                views(parts@).take(j + 1),
                "/"@,
            ),
{
    let mut prefixes: Vec<String> = Vec::new();
    let mut i: usize = 0;
    while i < parts.len()
        invariant
            i <= parts.len(),
            prefixes.len() == i,
            forall|j: int|
                0 <= j < i ==> #[trigger] prefixes@[j]@ == join(views(parts@).take(j + 1), "/"@),
        decreases parts.len() - i,
    {
        let next = if i == 0 {
            proof {
                assert(views(parts@).take(1) =~= seq![parts@[0]@]);
            }
            parts[0].clone()
        } else {
            proof {
                lemma_join_take_succ(views(parts@), "/"@, i as int);
            }
            prefixes[i - 1].clone().concat("/").concat(parts[i].as_str())
        };
        prefixes.push(next);
        i = i + 1;
    }
    prefixes
}

/// The two candidate files of a level named `name`.
fn candidates(name: &str) -> (files: Vec<String>)
    ensures
        views(files@) == candidate_files(name@),
{
    let mut files: Vec<String> = Vec::new();
    files.push(String::from_str("logic/").concat(name).concat(".lua"));
    files.push(String::from_str("logic/").concat(name).concat("/index.lua"));
    assert(views(files@) =~= candidate_files(name@));
    files
}

/// The files to try for `route`, level by level: the index level first,
/// then one level for each part of the path.
pub fn script_levels(route: &str) -> (levels: Vec<Vec<String>>)
    ensures
        levels.len() == segments(route@).len() + 1,
        forall|k: int|
            0 <= k < levels.len() ==> views(#[trigger] levels@[k]@) == candidate_files(
                level_name(segments(route@), k),
            ),
{
    let parts = route_segments(route);
    let prefixes = level_prefixes(&parts);
    let mut levels: Vec<Vec<String>> = Vec::new();
    levels.push(candidates("index"));
    let mut i: usize = 0;
    while i < prefixes.len()
        invariant
            i <= prefixes.len(),
            prefixes.len() == parts.len(),
            views(parts@) == segments(route@),
            levels.len() == i + 1,
            forall|j: int|
                0 <= j < parts.len() ==> #[trigger] prefixes@[j]@ == join(
                    views(parts@).take(j + 1),
                    "/"@,
                ),
            forall|k: int|
                0 <= k < levels.len() ==> views(#[trigger] levels@[k]@) == candidate_files(
                    level_name(segments(route@), k),
                ),
        decreases prefixes.len() - i,
    {
        levels.push(candidates(prefixes[i].as_str()));
        i = i + 1;
    }
    levels
}

/// The first candidate of a level that could be read.
pub fn first_readable(reads: &Vec<Option<String>>) -> (found: Option<String>)
    ensures
        opt_view(found) == first_found(reads@),
{
    let mut i: usize = 0;
    assert(reads@.skip(0) =~= reads@);
    while i < reads.len()
        invariant
            i <= reads.len(),
            first_found(reads@) == first_found(reads@.skip(i as int)),
        decreases reads.len() - i,
    {
        proof {
            assert(reads@.skip(i as int).drop_first() =~= reads@.skip(i + 1));
        }
        match &reads[i] {
            Some(s) => {
                return Some(s.clone());
            },
            None => {},
        }
        i = i + 1;
    }
    None
}

/// Resolves `route` to its script, given in `reads[k]` what reading each
/// file of level `k` of [`script_levels`] gave (`None` where it could not
/// be read).
pub fn fetch_script(route: &str, reads: &Vec<Vec<Option<String>>>) -> (lookup: ScriptLookup)
    requires
        reads.len() == segments(route@).len() + 1,
    ensures
        lookup_matches(lookup, segments(route@), reads@),
{
    let parts = route_segments(route);
    let prefixes = level_prefixes(&parts);
    let ghost segs = segments(route@);
    let mut content = first_readable(&reads[0]);
    let mut deepest: usize = 0;
    let mut matched = String::from_str("/");
    proof {
        assert(segs.take(0) =~= Seq::<Seq<char>>::empty());
        assert(matched@ =~= "/"@ + join(segs.take(0), "/"@));
    }
    let mut i: usize = 0;
    while i < parts.len()
        invariant
            i <= parts.len(),
            prefixes.len() == parts.len(),
            views(parts@) == segs,
            reads.len() == parts.len() + 1,
            forall|j: int|
                0 <= j < parts.len() ==> #[trigger] prefixes@[j]@ == join(
                    views(parts@).take(j + 1),
                    "/"@,
                ),
            deepest == deepest_level(reads@, i + 1),
            opt_view(content) == found_at(reads@, deepest as int),
            matched@ == "/"@ + join(segs.take(deepest as int), "/"@),
        decreases parts.len() - i,
    {
        let found = first_readable(&reads[i + 1]);
        if found.is_some() {
            content = found;
            deepest = i + 1;
            matched = String::from_str("/").concat(prefixes[i].as_str());
        }
        i = i + 1;
    }
    let mut params: Vec<String> = Vec::new();
    let mut j: usize = deepest;
    proof {
        lemma_deepest_level(reads@, reads.len() as int);
        assert(views(params@) =~= segs.skip(deepest as int).take(0));
    }
    while j < parts.len()
        invariant
            deepest <= j <= parts.len(),
            views(parts@) == segs,
            views(params@) == segs.skip(deepest as int).take(j - deepest),
        decreases parts.len() - j,
    {
        proof {
            crate::text::lemma_views_push(params@, parts@[j as int]);
            assert(segs.skip(deepest as int).take(j + 1 - deepest) =~= segs.skip(
                deepest as int,
            ).take(j - deepest).push(parts@[j as int]@));
        }
        params.push(parts[j].clone());
        j = j + 1;
    }
    proof {
        assert(segs.skip(deepest as int).take(parts.len() - deepest) =~= segs.skip(
            deepest as int,
        ));
    }
    ScriptLookup { content, params, matched_route: matched }
}

} // verus!
