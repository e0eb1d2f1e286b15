use fuzzy_matcher::skim::SkimMatcherV2;
use fuzzy_matcher::FuzzyMatcher;
use vstd::prelude::*;

verus! {

/// A fuzzy matcher.
#[verifier::external_type_specification]
#[verifier::external_body]
pub struct ExSkimMatcherV2(SkimMatcherV2);

/// What the cache of a matcher is left over from: the choices and the patterns
/// that it has compared, the first one first.
pub uninterp spec fn compared(matcher: SkimMatcherV2) -> Seq<(Seq<char>, Seq<char>)>;

/// The score of a fuzzy match of `pattern` in `choice` with a matcher that has
/// compared `earlier`; none where it does not match.
pub uninterp spec fn skim_score(
    earlier: Seq<(Seq<char>, Seq<char>)>,
    choice: Seq<char>,
    pattern: Seq<char>,
) -> Option<i64>;

/// Whether a match fits the machine. A matcher has two rows of sixteen bytes for
/// each character of `choice`, in a cache that may double as it grows. A score
/// is a sum of 32 bits, of up to thirty-two points for each character of
/// `pattern`; there is none where `choice` is the shorter one.
pub open spec fn match_fits(choice: Seq<char>, pattern: Seq<char>) -> bool {
    &&& 64 * (choice.len() + 1) <= isize::MAX
    &&& pattern.len() < 0x400_0000 || (choice.len() < pattern.len() && 8 * pattern.len()
        <= isize::MAX)
}

/// Whether a match fits the machine.
pub(crate) fn fits_machine(choice: &str, pattern: &str) -> (r: bool)
    ensures
        r == match_fits(choice@, pattern@),
{
    let max: usize = isize::MAX as usize;
    let n: usize = choice.unicode_len();
    let m: usize = pattern.unicode_len();
    n < max / 64 && (m < 0x400_0000 || (n < m && m <= max / 8))
}

/// `SkimMatcherV2::default`: a matcher with the default configuration and an
/// empty cache.
#[verifier::external_body]
pub(crate) fn new_matcher() -> (r: SkimMatcherV2)
    ensures
        compared(r) == Seq::<(Seq<char>, Seq<char>)>::empty(),
{
    SkimMatcherV2::default()
}

/// `SkimMatcherV2::fuzzy_match`: the score depends on `choice`, on `pattern` and
/// on what the matcher has compared before, for its cache keeps bonuses of
/// earlier matches. A matcher has a cache for each thread; all its matches are
/// made on one.
#[verifier::external_body]
pub(crate) fn fuzzy_score(matcher: &mut SkimMatcherV2, choice: &str, pattern: &str) -> (r: Option<
    i64,
>)
    requires
        match_fits(choice@, pattern@),
    ensures
        r == skim_score(compared(*old(matcher)), choice@, pattern@),
        compared(*final(matcher)) == compared(*old(matcher)).push((choice@, pattern@)),
{
    matcher.fuzzy_match(choice, pattern)
}

/// Whether the match at `i` is listed before the one at `j`: a better score
/// first, and of equal ones the one that came first.
pub open spec fn ranks_before(scores: Seq<Option<i64>>, i: usize, j: usize) -> bool {
    let a = scores[i as int]->0;
    let b = scores[j as int]->0;
    a > b || (a == b && i < j)
}

/// Whether `r` holds places of matches, each listed before the ones after it.
pub open spec fn is_ranked(scores: Seq<Option<i64>>, r: Seq<usize>) -> bool {
    &&& forall|k: int|
        0 <= k < r.len() ==> #[trigger] r[k] < scores.len() && scores[r[k] as int] is Some
    &&& forall|k: int, l: int| 0 <= k < l < r.len() ==> ranks_before(scores, r[k], r[l])
}

/// Whether `r` lists the place of every match, from the best score down.
pub open spec fn is_ranking(scores: Seq<Option<i64>>, r: Seq<usize>) -> bool {
    &&& is_ranked(scores, r)
    &&& forall|i: usize| i < scores.len() && (#[trigger] scores[i as int]) is Some ==> r.contains(i)
}

/// There is one ranking of the same scores.
pub proof fn ranking_is_unique(scores: Seq<Option<i64>>, a: Seq<usize>, b: Seq<usize>)
    requires
        is_ranking(scores, a),
        is_ranking(scores, b),
    ensures
        a == b,
{
    lemma_ranking_prefix(scores, a, b, 0);
    lemma_ranking_prefix(scores, b, a, 0);
}

proof fn lemma_ranking_prefix(scores: Seq<Option<i64>>, a: Seq<usize>, b: Seq<usize>, k: int)
    requires
        is_ranking(scores, a),
        is_ranking(scores, b),
        0 <= k <= a.len(),
        k <= b.len(),
        forall|j: int| 0 <= j < k ==> a[j] == b[j],
    ensures
        a.len() <= b.len(),
        forall|j: int| 0 <= j < a.len() ==> a[j] == b[j],
    decreases a.len() - k,
{
    if k < a.len() {
        let x = a[k];
        assert(scores[x as int] is Some);
        assert(b.contains(x));
        let m = choose|m: int| 0 <= m < b.len() && b[m] == x;
        if m < k {
            assert(a[m] == x);
            assert(ranks_before(scores, a[m], a[k]));
        } else if m > k {
            let y = b[k];
            assert(scores[y as int] is Some);
            assert(ranks_before(scores, y, x));
            assert(a.contains(y));
            let l = choose|l: int| 0 <= l < a.len() && a[l] == y;
            if l < k {
                assert(b[l] == y);
                assert(ranks_before(scores, b[l], b[k]));
            } else if l > k {
                assert(ranks_before(scores, x, y));
            }
        }
        lemma_ranking_prefix(scores, a, b, k + 1);
    }
}

fn before(scores: &Vec<Option<i64>>, i: usize, j: usize) -> (r: bool)
    requires
        i < scores@.len(),
        j < scores@.len(),
        scores@[i as int] is Some,
        scores@[j as int] is Some,
    ensures
        r == ranks_before(scores@, i, j),
{
    match (scores[i], scores[j]) {
        (Some(a), Some(b)) => a > b || (a == b && i < j),
        _ => false,
    }
}

/// Whether `r` holds what `a` and `b` hold.
spec fn holds_both(r: Seq<usize>, a: Seq<usize>, b: Seq<usize>) -> bool {
    forall|x: usize| #[trigger] r.contains(x) <==> a.contains(x) || b.contains(x)
}

proof fn lemma_push_contains(s: Seq<usize>, x: usize)
    ensures
        forall|y: usize| #[trigger] s.push(x).contains(y) <==> s.contains(y) || y == x,
{
    assert forall|y: usize| #[trigger] s.push(x).contains(y) <==> s.contains(y) || y == x by {
        if s.contains(y) {
            let k = choose|k: int| 0 <= k < s.len() && s[k] == y;
            assert(s.push(x)[k] == y);
        }
        assert(s.push(x)[s.len() as int] == x);
        if s.push(x).contains(y) {
            let k = choose|k: int| 0 <= k < s.push(x).len() && s.push(x)[k] == y;
            if k < s.len() {
                assert(s[k] == y);
            }
        }
    }
}

/// Merges two ranked lists that have no place in common.
fn merge(scores: &Vec<Option<i64>>, a: &Vec<usize>, b: &Vec<usize>) -> (r: Vec<usize>)
    requires
        is_ranked(scores@, a@),
        is_ranked(scores@, b@),
        forall|k: int, l: int| 0 <= k < a@.len() && 0 <= l < b@.len() ==> a@[k] != b@[l],
    ensures
        is_ranked(scores@, r@),
        holds_both(r@, a@, b@),
{
    let mut out: Vec<usize> = Vec::new();
    let mut i: usize = 0;
    let mut j: usize = 0;
    while i < a.len() || j < b.len()
        invariant
            i <= a@.len(),
            j <= b@.len(),
            is_ranked(scores@, a@),
            is_ranked(scores@, b@),
            forall|k: int, l: int| 0 <= k < a@.len() && 0 <= l < b@.len() ==> a@[k] != b@[l],
            is_ranked(scores@, out@),
            holds_both(out@, a@.take(i as int), b@.take(j as int)),
            forall|k: int, l: int|
                0 <= k < out@.len() && i <= l < a@.len() ==> ranks_before(scores@, out@[k], a@[l]),
            forall|k: int, l: int|
                0 <= k < out@.len() && j <= l < b@.len() ==> ranks_before(scores@, out@[k], b@[l]),
        decreases a@.len() - i + b@.len() - j,
    {
        let from_a: bool = j >= b.len() || (i < a.len() && before(scores, a[i], b[j]));
        if from_a {
            proof {
                lemma_push_contains(out@, a@[i as int]);
                lemma_push_contains(a@.take(i as int), a@[i as int]);
                assert(a@.take(i + 1) =~= a@.take(i as int).push(a@[i as int]));
                assert forall|l: int| j <= l < b@.len() implies ranks_before(
                    scores@,
                    a@[i as int],
                    #[trigger] b@[l],
                ) by {
                    assert(l > j ==> ranks_before(scores@, b@[j as int], b@[l]));
                }
            }
            out.push(a[i]);
            i = i + 1;
        } else {
            proof {
                lemma_push_contains(out@, b@[j as int]);
                lemma_push_contains(b@.take(j as int), b@[j as int]);
                assert(b@.take(j + 1) =~= b@.take(j as int).push(b@[j as int]));
                assert forall|l: int| i <= l < a@.len() implies ranks_before(
                    scores@,
                    b@[j as int],
                    #[trigger] a@[l],
                ) by {
                    assert(a@[i as int] != b@[j as int]);
                    assert(l > i ==> ranks_before(scores@, a@[i as int], a@[l]));
                }
            }
            out.push(b[j]);
            j = j + 1;
        }
    }
    assert(a@.take(a@.len() as int) =~= a@);
    assert(b@.take(b@.len() as int) =~= b@);
    out
}

/// Ranks the places `places[from..to]`.
fn rank_range(scores: &Vec<Option<i64>>, places: &Vec<usize>, from: usize, to: usize) -> (r: Vec<
    usize,
>)
    requires
        from <= to <= places@.len(),
        forall|k: int|
            0 <= k < places@.len() ==> #[trigger] places@[k] < scores@.len()
                && scores@[places@[k] as int] is Some,
        forall|k: int, l: int| 0 <= k < l < places@.len() ==> places@[k] < places@[l],
    ensures
        is_ranked(scores@, r@),
        forall|x: usize| #[trigger]
            r@.contains(x) <==> places@.subrange(from as int, to as int).contains(x),
    decreases to - from,
{
    let ghost part = places@.subrange(from as int, to as int);
    if to - from <= 1 {
        let mut out: Vec<usize> = Vec::new();
        if from < to {
            out.push(places[from]);
        }
        assert(out@ =~= part);
        return out;
    }
    let mid: usize = from + (to - from) / 2;
    let a: Vec<usize> = rank_range(scores, places, from, mid);
    let b: Vec<usize> = rank_range(scores, places, mid, to);
    proof {
        let left = places@.subrange(from as int, mid as int);
        let right = places@.subrange(mid as int, to as int);
        assert forall|k: int, l: int| 0 <= k < a@.len() && 0 <= l < b@.len() implies a@[k]
            != b@[l] by {
            assert(a@.contains(a@[k]));
            assert(b@.contains(b@[l]));
            let p = choose|p: int| 0 <= p < left.len() && left[p] == a@[k];
            let q = choose|q: int| 0 <= q < right.len() && right[q] == b@[l];
            assert(places@[from + p] < places@[mid + q]);
        }
        assert forall|x: usize| #[trigger] part.contains(x) <==> left.contains(x)
            || right.contains(x) by {
            if part.contains(x) {
                let p = choose|p: int| 0 <= p < part.len() && part[p] == x;
                if p < left.len() {
                    assert(left[p] == x);
                } else {
                    assert(right[p - left.len()] == x);
                }
            }
            if left.contains(x) {
                let p = choose|p: int| 0 <= p < left.len() && left[p] == x;
                assert(part[p] == x);
            }
            if right.contains(x) {
                let p = choose|p: int| 0 <= p < right.len() && right[p] == x;
                assert(part[left.len() + p] == x);
            }
        }
    }
    let r: Vec<usize> = merge(scores, &a, &b);
    assert forall|x: usize| #[trigger] r@.contains(x) <==> part.contains(x) by {
        assert(r@.contains(x) <==> a@.contains(x) || b@.contains(x));
    }
    r
}

/// The places of the matches, from the best score down; of equal scores the one
/// that comes first in `scores` is first.
pub fn rank_matches(scores: &Vec<Option<i64>>) -> (r: Vec<usize>)
    ensures
        is_ranking(scores@, r@),
{
    let mut places: Vec<usize> = Vec::new();
    for i in 0..scores.len()
        invariant
            forall|k: int|
                0 <= k < places@.len() ==> #[trigger] places@[k] < i && scores@[places@[k] as int]
                    is Some,
            forall|k: int, l: int| 0 <= k < l < places@.len() ==> places@[k] < places@[l],
            forall|x: usize|
                x < i && (#[trigger] scores@[x as int]) is Some ==> places@.contains(x),
    {
        if scores[i].is_some() {
            proof {
                lemma_push_contains(places@, i);
            }
            places.push(i);
        }
    }
    let r: Vec<usize> = rank_range(scores, &places, 0, places.len());
    assert(places@.subrange(0, places@.len() as int) =~= places@);
    assert forall|i: usize| i < scores@.len() && (#[trigger] scores@[i as int]) is Some implies
        r@.contains(i) by {
        assert(places@.contains(i));
    }
    r
}

} // verus!
