//! The patterns of `allow_path_params`: an exact route, or a route followed
//! by `/*` that admits that route and every endpoint under it.

use vstd::prelude::*;
use crate::text::chars_of;

verus! {

/// `p` ends with the two characters `/*`.
pub open spec fn ends_with_wildcard(p: Seq<char>) -> bool {
    p.len() >= 2 && p[p.len() - 2] == '/' && p[p.len() - 1] == '*'
}

/// `p` with every trailing `/*` removed, as `str::trim_end_matches("/*")`
/// does it.
pub open spec fn trim_wildcards(p: Seq<char>) -> Seq<char>
    decreases p.len(),
{
    if ends_with_wildcard(p) {
        trim_wildcards(p.take(p.len() - 2))
    } else {
        p
    }
}

/// Whether `route` is `prefix` itself or an endpoint under it: `prefix`
/// followed by `/` and anything.
pub open spec fn at_or_under(route: Seq<char>, prefix: Seq<char>) -> bool {
    ||| route == prefix
    ||| (prefix + seq!['/']).is_prefix_of(route)
}

/// Whether `route` is admitted by `pattern`: a pattern that ends in `/*`
/// admits the route named by the pattern stripped of its trailing `/*`s and
/// every endpoint under it (so `/admin/*` admits `/admin` and
/// `/admin/warn/1`, but not `/administrator`); any other pattern admits only
/// the route equal to it.
pub open spec fn pattern_matches(route: Seq<char>, pattern: Seq<char>) -> bool {
    if ends_with_wildcard(pattern) {
        at_or_under(route, trim_wildcards(pattern))
    } else {
        route == pattern
    }
}

/// Whether some pattern of `patterns` admits `route`.
pub open spec fn some_pattern_matches(route: Seq<char>, patterns: Seq<String>) -> bool {
    exists|i: int| 0 <= i < patterns.len() && pattern_matches(route, #[trigger] patterns[i]@)
}

/// The stripped pattern is a prefix of the pattern.
pub proof fn lemma_trim_wildcards_is_prefix(p: Seq<char>)
    ensures
        trim_wildcards(p).is_prefix_of(p),
    decreases p.len(),
{
    if ends_with_wildcard(p) {
        let q = p.take(p.len() - 2);
        lemma_trim_wildcards_is_prefix(q);
        assert(trim_wildcards(p) =~= p.subrange(0, trim_wildcards(p).len() as int));
    }
}

/// Whether the first `len` characters of `a` are a prefix of `b`.
fn is_prefix_chars(a: &Vec<char>, len: usize, b: &Vec<char>) -> (r: bool)
    requires
        len <= a.len(),
    ensures
        r == a@.take(len as int).is_prefix_of(b@),
{
    if len > b.len() {
        return false;
    }
    let mut i: usize = 0;
    while i < len
        invariant
            len <= a.len(),
            len <= b.len(),
            i <= len,
            forall|j: int| 0 <= j < i ==> a@[j] == b@[j],
        decreases len - i,
    {
        if a[i] != b[i] {
            assert(a@.take(len as int)[i as int] != b@.subrange(0, len as int)[i as int]);
            return false;
        }
        i = i + 1;
    }
    assert(a@.take(len as int) =~= b@.subrange(0, len as int));
    true
}

/// Whether `route` is admitted by `pattern` (see [`pattern_matches`]).
pub fn matches_pattern(route: &str, pattern: &str) -> (m: bool)
    ensures
        m == pattern_matches(route@, pattern@),
{
    let p = chars_of(pattern);
    let r = chars_of(route);
    let n = p.len();
    if n >= 2 && p[n - 2] == '/' && p[n - 1] == '*' {
        let mut len = n;
        proof {
            assert(p@.take(n as int) =~= p@);
        }
        while len >= 2 && p[len - 2] == '/' && p[len - 1] == '*'
            invariant
                len <= p.len(),
                p@ == pattern@,
                trim_wildcards(p@) == trim_wildcards(p@.take(len as int)),
            decreases len,
        {
            proof {
                assert(p@.take(len as int).take(len - 2) =~= p@.take(len - 2));
            }
            len = len - 2;
        }
        let ghost prefix = p@.take(len as int);
        if !is_prefix_chars(&p, len, &r) {
            proof {
                assert((prefix + seq!['/']).take(len as int) =~= prefix);
                if r@ == prefix {
                    assert(prefix =~= r@.subrange(0, len as int));
                }
                if (prefix + seq!['/']).is_prefix_of(r@) {
                    assert(prefix =~= r@.subrange(0, len as int));
                }
            }
            return false;
        }
        if r.len() == len {
            proof {
                assert(r@ =~= prefix);
            }
            true
        } else {
            let slash = r[len] == '/';
            proof {
                let with_slash = prefix + seq!['/'];
                if slash {
                    assert(with_slash =~= r@.subrange(0, len + 1));
                } else {
                    assert(r@ != prefix);
                    if with_slash.is_prefix_of(r@) {
                        assert(with_slash[len as int] == r@.subrange(0, len + 1)[len as int]);
                    }
                }
            }
            slash
        }
    } else {
        if n != r.len() {
            return false;
        }
        proof {
            assert(p@.take(n as int) =~= p@);
        }
        let same = is_prefix_chars(&p, n, &r);
        proof {
            if same {
                assert(p@ =~= r@);
            } else {
                assert(p@ != r@);
            }
        }
        same
    }
}

/// Whether some pattern of `patterns` admits `route`: the routes whose
/// scripts take path parameters.
pub fn path_params_allowed(route: &str, patterns: &Vec<String>) -> (allowed: bool)
    ensures
        allowed == some_pattern_matches(route@, patterns@),
{
    let mut i: usize = 0;
    while i < patterns.len()
        invariant
            i <= patterns.len(),
            forall|j: int| 0 <= j < i ==> !pattern_matches(route@, #[trigger] patterns@[j]@),
        decreases patterns.len() - i,
    {
        if matches_pattern(route, patterns[i].as_str()) {
            return true;
        }
        i = i + 1;
    }
    false
}

} // verus!
