//! Character-level helpers on strings, and the specifications of splitting
//! and joining that the routing logic is stated in.

use vstd::prelude::*;

verus! {

/// The pieces of `s` between the occurrences of `sep`, as `str::split`
/// yields them: one more piece than there are separators.
pub open spec fn split_on(s: Seq<char>, sep: char) -> Seq<Seq<char>>
    decreases s.len(),
{
    if s.len() == 0 {
        seq![Seq::<char>::empty()]
    } else {
        let prev = split_on(s.drop_last(), sep);
        if s.last() == sep {
            prev.push(Seq::<char>::empty())
        } else {
            prev.update(prev.len() - 1, prev.last().push(s.last()))
        }
    }
}

/// The predicate that keeps the non-empty pieces.
pub open spec fn non_empty() -> spec_fn(Seq<char>) -> bool {
    |p: Seq<char>| p.len() > 0
}

/// The non-empty pieces of a path between its slashes:
/// `route.split('/').filter(|s| !s.is_empty())`.
pub open spec fn segments(route: Seq<char>) -> Seq<Seq<char>> {
    split_on(route, '/').filter(non_empty())
}

/// The views of a sequence of strings.
pub open spec fn views(v: Seq<String>) -> Seq<Seq<char>> {
    v.map_values(|x: String| x@)
}

/// `parts` with `sep` between each two of them.
pub open spec fn join(parts: Seq<Seq<char>>, sep: Seq<char>) -> Seq<char>
    decreases parts.len(),
{
    if parts.len() == 0 {
        Seq::<char>::empty()
    } else if parts.len() == 1 {
        parts[0]
    } else {
        join(parts.drop_last(), sep) + sep + parts.last()
    }
}

/// Splitting always yields at least one piece.
pub proof fn lemma_split_on_nonempty(s: Seq<char>, sep: char)
    ensures
        split_on(s, sep).len() >= 1,
    decreases s.len(),
{
    if s.len() > 0 {
        lemma_split_on_nonempty(s.drop_last(), sep);
    }
}

/// Splitting `s` with one more character appended.
pub proof fn lemma_split_on_push(s: Seq<char>, c: char, sep: char)
    ensures
        split_on(s.push(c), sep) == if c == sep {
            split_on(s, sep).push(Seq::<char>::empty())
        } else {
            split_on(s, sep).update(
                split_on(s, sep).len() - 1,
                split_on(s, sep).last().push(c),
            )
        },
{
    assert(s.push(c).drop_last() =~= s);
}

/// Views commute with pushing a string.
pub proof fn lemma_views_push(v: Seq<String>, x: String)
    ensures
        views(v.push(x)) == views(v).push(x@),
{
    assert(views(v.push(x)) =~= views(v).push(x@));
}

/// The characters of `s`, in order.
pub fn chars_of(s: &str) -> (v: Vec<char>)
    ensures
        v@ == s@,
{
    let mut v: Vec<char> = Vec::new();
    for c in it: s.chars()
        invariant
            it.seq() == s@,
            v@ == it.seq().take(it.index() as int),
    {
        v.push(c);
    }
    v
}

/// The non-empty pieces of `route` between its slashes, in order.
pub fn route_segments(route: &str) -> (parts: Vec<String>)
    ensures
        views(parts@) == segments(route@),
{
    let v = chars_of(route);
    let n = v.len();
    let mut parts: Vec<String> = Vec::new();
    let mut start: usize = 0;
    let mut i: usize = 0;
    proof {
        assert(v@.take(0) =~= Seq::<char>::empty());
        assert(v@.subrange(0, 0) =~= Seq::<char>::empty());
        assert(split_on(Seq::<char>::empty(), '/').drop_last() =~= Seq::<Seq<char>>::empty());
        reveal(Seq::filter);
        assert(views(parts@) =~= Seq::<Seq<char>>::empty());
    }
    while i < n
        invariant
            v@ == route@,
            n == v.len(),
            start <= i <= n,
            split_on(v@.take(i as int), '/').len() >= 1,
            split_on(v@.take(i as int), '/').last() == v@.subrange(start as int, i as int),
            views(parts@) == split_on(v@.take(i as int), '/').drop_last().filter(non_empty()),
        decreases n - i,
    {
        let ghost prev = split_on(v@.take(i as int), '/');
        proof {
            assert(v@.take(i + 1) =~= v@.take(i as int).push(v@[i as int]));
            lemma_split_on_push(v@.take(i as int), v@[i as int], '/');
            assert(prev =~= prev.drop_last().push(prev.last()));
        }
        if v[i] == '/' {
            proof {
                assert(split_on(v@.take(i + 1), '/').drop_last() =~= prev);
                prev.drop_last().lemma_filter_push(prev.last(), non_empty());
            }
            if start < i {
                let piece = String::from_str(route.substring_char(start, i));
                proof {
                    lemma_views_push(parts@, piece);
                }
                parts.push(piece);
            }
            start = i + 1;
            proof {
                assert(v@.subrange(start as int, (i + 1) as int) =~= Seq::<char>::empty());
            }
        } else {
            proof {
                let next = split_on(v@.take(i + 1), '/');
                assert(next.drop_last() =~= prev.drop_last());
                assert(v@.subrange(start as int, (i + 1) as int) =~= v@.subrange(
                    start as int,
                    i as int,
                ).push(v@[i as int]));
            }
        }
        i = i + 1;
    }
    let ghost last = split_on(v@, '/');
    proof {
        assert(v@.take(n as int) =~= v@);
        assert(last =~= last.drop_last().push(last.last()));
        last.drop_last().lemma_filter_push(last.last(), non_empty());
    }
    if start < n {
        let piece = String::from_str(route.substring_char(start, n));
        proof {
            lemma_views_push(parts@, piece);
        }
        parts.push(piece);
    }
    parts
}

} // verus!
