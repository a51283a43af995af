//! Key-value pairs: the query string of a request, and the request's
//! headers, each read into a table in which a later value of a key replaces
//! an earlier one.

use vstd::prelude::*;
use crate::text::{chars_of, split_on, lemma_split_on_push, lemma_split_on_nonempty};

verus! {

/// `s` split at the first `sep`, as `str::split_once` does it; `None` when
/// `s` holds no `sep`.
pub open spec fn split_once(s: Seq<char>, sep: char) -> Option<(Seq<char>, Seq<char>)>
    decreases s.len(),
{
    if s.len() == 0 {
        None
    } else if s[0] == sep {
        Some((Seq::<char>::empty(), s.drop_first()))
    } else {
        match split_once(s.drop_first(), sep) {
            Some(p) => Some((seq![s[0]] + p.0, p.1)),
            None => None,
        }
    }
}

/// Splits a piece of a query string at its first `=`.
pub open spec fn key_value() -> spec_fn(Seq<char>) -> Option<(Seq<char>, Seq<char>)> {
    |p: Seq<char>| split_once(p, '=')
}

/// The key-value pairs of a query string, in order: its `&`-separated
/// pieces that hold a `=`, each split at its first `=`.
pub open spec fn query_pairs(q: Seq<char>) -> Seq<(Seq<char>, Seq<char>)> {
    split_on(q, '&').filter_map(key_value())
}

/// The table that a list of pairs gives when each pair is inserted in
/// turn: a later value of a key replaces an earlier one.
pub open spec fn pairs_map(pairs: Seq<(Seq<char>, Seq<char>)>) -> Map<Seq<char>, Seq<char>>
    decreases pairs.len(),
{
    if pairs.len() == 0 {
        Map::empty()
    } else {
        pairs_map(pairs.drop_last()).insert(pairs.last().0, pairs.last().1)
    }
}

/// The table of the query parameters of a query string.
pub open spec fn query_map(q: Seq<char>) -> Map<Seq<char>, Seq<char>> {
    pairs_map(query_pairs(q))
}

/// The views of a sequence of pairs of strings.
pub open spec fn pair_views(v: Seq<(String, String)>) -> Seq<(Seq<char>, Seq<char>)> {
    v.map_values(|p: (String, String)| (p.0@, p.1@))
}

/// No key occurs twice.
pub open spec fn keys_distinct(s: Seq<(Seq<char>, Seq<char>)>) -> bool {
    forall|i: int, j: int|
        0 <= i < s.len() && 0 <= j < s.len() && i != j ==> #[trigger] s[i].0 != #[trigger] s[j].0
}

/// Where the first `sep` stands decides `split_once`.
pub proof fn lemma_split_once_at(s: Seq<char>, sep: char, i: int)
    requires
        0 <= i <= s.len(),
        forall|j: int| 0 <= j < i ==> s[j] != sep,
        i < s.len() ==> s[i] == sep,
    ensures
        split_once(s, sep) == if i < s.len() {
            Some((s.take(i), s.skip(i + 1)))
        } else {
            None::<(Seq<char>, Seq<char>)>
        },
    decreases i,
{
    if i > 0 {
        lemma_split_once_at(s.drop_first(), sep, i - 1);
        if i < s.len() {
            assert(seq![s[0]] + s.drop_first().take(i - 1) =~= s.take(i));
            assert(s.drop_first().skip(i) =~= s.skip(i + 1));
        }
    } else if s.len() > 0 {
        assert(s.take(0) =~= Seq::<char>::empty());
        assert(s.skip(1) =~= s.drop_first());
    }
}

/// Replacing the value at the position of an existing key is inserting
/// into the table.
pub proof fn lemma_pairs_map_update(
    s: Seq<(Seq<char>, Seq<char>)>,
    j: int,
    k: Seq<char>,
    v: Seq<char>,
)
    requires
        0 <= j < s.len(),
        s[j].0 == k,
        keys_distinct(s),
    ensures
        pairs_map(s.update(j, (k, v))) == pairs_map(s).insert(k, v),
    decreases s.len(),
{
    let t = s.update(j, (k, v));
    if j == s.len() - 1 {
        assert(t.drop_last() =~= s.drop_last());
        assert(pairs_map(t) =~= pairs_map(s).insert(k, v));
    } else {
        assert(t.drop_last() =~= s.drop_last().update(j, (k, v)));
        lemma_pairs_map_update(s.drop_last(), j, k, v);
        assert(s[s.len() - 1].0 != k);
        assert(pairs_map(t) =~= pairs_map(s).insert(k, v));
    }
}

/// The pairs of `pairs` with one entry per key, the value being the last
/// one given for that key.
pub fn last_value_per_key(pairs: &Vec<(String, String)>) -> (table: Vec<(String, String)>)
    ensures
        keys_distinct(pair_views(table@)),
        pairs_map(pair_views(table@)) == pairs_map(pair_views(pairs@)),
{
    let mut table: Vec<(String, String)> = Vec::new();
    let mut i: usize = 0;
    proof {
        assert(pair_views(pairs@).take(0) =~= Seq::<(Seq<char>, Seq<char>)>::empty());
        assert(pair_views(table@) =~= Seq::<(Seq<char>, Seq<char>)>::empty());
    }
    while i < pairs.len()
        invariant
            i <= pairs.len(),
            keys_distinct(pair_views(table@)),
            pairs_map(pair_views(table@)) == pairs_map(pair_views(pairs@).take(i as int)),
        decreases pairs.len() - i,
    {
        let key = pairs[i].0.clone();
        let value = pairs[i].1.clone();
        let ghost before = pair_views(table@);
        proof {
            assert(pair_views(pairs@).take(i + 1).drop_last() =~= pair_views(pairs@).take(
                i as int,
            ));
        }
        let mut j: usize = 0;
        let mut at: Option<usize> = None;
        while j < table.len()
            invariant
                j <= table.len(),
                before == pair_views(table@),
                at is None ==> forall|m: int| 0 <= m < j ==> before[m].0 != key@,
                at matches Some(x) ==> x < table.len() && before[x as int].0 == key@,
            decreases table.len() - j,
        {
            if at.is_none() && table[j].0 == key {
                at = Some(j);
            }
            j = j + 1;
        }
        match at {
            Some(x) => {
                proof {
                    lemma_pairs_map_update(before, x as int, key@, value@);
                }
                table.set(x, (key, value));
                proof {
                    assert(pair_views(table@) =~= before.update(x as int, (key@, value@)));
                }
            },
            None => {
                table.push((key, value));
                proof {
                    assert(pair_views(table@) =~= before.push((key@, value@)));
                    assert(pair_views(table@).drop_last() =~= before);
                }
            },
        }
        i = i + 1;
    }
    proof {
        assert(pair_views(pairs@).take(pairs.len() as int) =~= pair_views(pairs@));
    }
    table
}

/// The piece `v[start..end]` split at its first `=`.
fn split_piece(q: &str, v: &Vec<char>, start: usize, end: usize) -> (kv: Option<(String, String)>)
    requires
        v@ == q@,
        start <= end <= v.len(),
    ensures
        match kv {
            Some(p) => split_once(v@.subrange(start as int, end as int), '=') == Some(
                (p.0@, p.1@),
            ),
            None => split_once(v@.subrange(start as int, end as int), '=') is None,
        },
{
    let ghost piece = v@.subrange(start as int, end as int);
    let mut i: usize = start;
    while i < end
        invariant
            start <= i <= end,
            end <= v.len(),
            v@ == q@,
            piece == v@.subrange(start as int, end as int),
            forall|j: int| 0 <= j < i - start ==> piece[j] != '=',
        decreases end - i,
    {
        if v[i] == '=' {
            proof {
                lemma_split_once_at(piece, '=', i - start);
                assert(piece.take(i - start) =~= v@.subrange(start as int, i as int));
                assert(piece.skip(i - start + 1) =~= v@.subrange(i + 1, end as int));
            }
            let key = String::from_str(q.substring_char(start, i));
            let value = String::from_str(q.substring_char(i + 1, end));
            return Some((key, value));
        }
        i = i + 1;
    }
    proof {
        lemma_split_once_at(piece, '=', piece.len() as int);
    }
    None
}

/// Pushing onto a sequence before `filter_map`.
pub proof fn lemma_filter_map_push(
    s: Seq<Seq<char>>,
    x: Seq<char>,
    f: spec_fn(Seq<char>) -> Option<(Seq<char>, Seq<char>)>,
)
    ensures
        s.push(x).filter_map(f) == match f(x) {
            Some(y) => s.filter_map(f).push(y),
            None => s.filter_map(f),
        },
{
    assert(s.push(x).drop_last() =~= s);
    match f(x) {
        Some(y) => {
            assert(s.filter_map(f) + seq![y] =~= s.filter_map(f).push(y));
        },
        None => {},
    }
}

/// Adds the pair of one piece of a query string, if it has one.
fn push_piece(
    q: &str,
    v: &Vec<char>,
    start: usize,
    end: usize,
    raw: &mut Vec<(String, String)>,
)
    requires
        v@ == q@,
        start <= end <= v.len(),
    ensures
        pair_views(final(raw)@) == match split_once(
            v@.subrange(start as int, end as int),
            '=',
        ) {
            Some(p) => pair_views(old(raw)@).push(p),
            None => pair_views(old(raw)@),
        },
{
    match split_piece(q, v, start, end) {
        Some(p) => {
            let ghost before = raw@;
            raw.push(p);
            assert(pair_views(raw@) =~= pair_views(before).push(
                split_once(v@.subrange(start as int, end as int), '=').unwrap(),
            ));
        },
        None => {},
    }
}

/// The query parameters of a query string: one entry per key, with the
/// value of the key's last occurrence.
pub fn parse_query(q: &str) -> (params: Vec<(String, String)>)
    ensures
        keys_distinct(pair_views(params@)),
        pairs_map(pair_views(params@)) == query_map(q@),
{
    let v = chars_of(q);
    let n = v.len();
    let mut raw: Vec<(String, String)> = Vec::new();
    let mut start: usize = 0;
    let mut i: usize = 0;
    proof {
        assert(v@.take(0) =~= Seq::<char>::empty());
        assert(v@.subrange(0, 0) =~= Seq::<char>::empty());
        assert(split_on(Seq::<char>::empty(), '&').drop_last() =~= Seq::<Seq<char>>::empty());
        assert(pair_views(raw@) =~= Seq::<(Seq<char>, Seq<char>)>::empty());
    }
    while i < n
        invariant
            v@ == q@,
            n == v.len(),
            start <= i <= n,
            split_on(v@.take(i as int), '&').len() >= 1,
            split_on(v@.take(i as int), '&').last() == v@.subrange(start as int, i as int),
            pair_views(raw@) == split_on(v@.take(i as int), '&').drop_last().filter_map(
                key_value(),
            ),
        decreases n - i,
    {
        let ghost prev = split_on(v@.take(i as int), '&');
        proof {
            assert(v@.take(i + 1) =~= v@.take(i as int).push(v@[i as int]));
            lemma_split_on_push(v@.take(i as int), v@[i as int], '&');
            assert(prev =~= prev.drop_last().push(prev.last()));
        }
        if v[i] == '&' {
            proof {
                assert(split_on(v@.take(i + 1), '&').drop_last() =~= prev);
                lemma_filter_map_push(prev.drop_last(), prev.last(), key_value());
            }
            push_piece(q, &v, start, i, &mut raw);
            start = i + 1;
            proof {
                assert(v@.subrange(start as int, (i + 1) as int) =~= Seq::<char>::empty());
            }
        } else {
            proof {
                let next = split_on(v@.take(i + 1), '&');
                assert(next.drop_last() =~= prev.drop_last());
                assert(v@.subrange(start as int, (i + 1) as int) =~= v@.subrange(
                    start as int,
                    i as int,
                ).push(v@[i as int]));
            }
        }
        i = i + 1;
    }
    let ghost last = split_on(v@, '&');
    proof {
        assert(v@.take(n as int) =~= v@);
        lemma_split_on_nonempty(v@, '&');
        assert(last =~= last.drop_last().push(last.last()));
        lemma_filter_map_push(last.drop_last(), last.last(), key_value());
    }
    push_piece(q, &v, start, n, &mut raw);
    last_value_per_key(&raw)
}

} // verus!
