//! Stable ranking of documents by score.
//!
//! A ranking is the order in which the positions `0..n` of a score table are
//! reported: best score first, and positions whose scores rank as equals in
//! ascending order of position. It is computed by a merge sort, so that a
//! search costs `n log n` comparisons.

use vstd::prelude::*;
use vstd::set_lib::{lemma_int_range, lemma_len_subset, lemma_subset_equality, set_int_range};
use crate::types::Metric;
use crate::score::{all_comparable, precedes, score_precedes};

verus! {

/// Two rankings merged into one: the head of `b` is taken only where its
/// score strictly precedes that of the head of `a`, so that among equals
/// the positions of `a` come first.
pub open spec fn merge(a: Seq<int>, b: Seq<int>, scores: Seq<u32>, metric: Metric) -> Seq<int>
    decreases a.len() + b.len(),
{
    if a.len() == 0 {
        b
    } else if b.len() == 0 {
        a
    } else if precedes(metric, scores[b.first()], scores[a.first()]) {
        seq![b.first()] + merge(a, b.drop_first(), scores, metric)
    } else {
        seq![a.first()] + merge(a.drop_first(), b, scores, metric)
    }
}

/// The ranking of the positions `lo..hi` of `scores` under `metric`.
pub open spec fn ranking_of(scores: Seq<u32>, metric: Metric, lo: int, hi: int) -> Seq<int>
    decreases hi - lo,
{
    if hi - lo <= 0 {
        Seq::<int>::empty()
    } else if hi - lo == 1 {
        seq![lo]
    } else {
        let mid = lo + (hi - lo) / 2;
        merge(ranking_of(scores, metric, lo, mid), ranking_of(scores, metric, mid, hi), scores, metric)
    }
}

/// The ranking of the first `n` positions of `scores` under `metric`.
pub open spec fn ranking(scores: Seq<u32>, metric: Metric, n: nat) -> Seq<int> {
    ranking_of(scores, metric, 0, n as int)
}

/// The positions that come first in the ranking of a score table: the
/// first `k` of them, or all where there are fewer.
pub open spec fn top_ranked(scores: Seq<u32>, metric: Metric, k: nat) -> Seq<int> {
    let count = if k < scores.len() { k } else { scores.len() };
    ranking(scores, metric, scores.len()).subrange(0, count as int)
}

/// A sequence of positions as mathematical integers.
pub open spec fn positions(order: Seq<usize>) -> Seq<int> {
    Seq::new(order.len(), |k: int| order[k] as int)
}

/// Whether `r` holds each of the positions `lo..hi` exactly once.
pub open spec fn is_arrangement(r: Seq<int>, lo: int, hi: int) -> bool {
    &&& r.len() == hi - lo
    &&& forall|i: int| 0 <= i < r.len() ==> lo <= #[trigger] r[i] < hi
    &&& forall|i: int, j: int| 0 <= i < j < r.len() ==> r[i] != r[j]
}

/// Whether `r` holds each of the positions `0..n` exactly once.
pub open spec fn is_permutation(r: Seq<int>, n: nat) -> bool {
    is_arrangement(r, 0, n as int)
}

/// Whether a position is reported after a smaller one only where its score
/// strictly precedes that one's.
pub open spec fn is_stable(r: Seq<int>, scores: Seq<u32>, metric: Metric) -> bool {
    forall|i: int, j: int|
        0 <= i < j < r.len() && r[i] > r[j] ==> precedes(
            metric,
            scores[#[trigger] r[i]],
            scores[#[trigger] r[j]],
        )
}

/// Whether no position is reported after one that its score strictly
/// precedes.
pub open spec fn is_ordered(r: Seq<int>, scores: Seq<u32>, metric: Metric) -> bool {
    forall|i: int, j: int|
        0 <= i < j < r.len() ==> !precedes(metric, scores[#[trigger] r[j]], scores[#[trigger] r[i]])
}

/// Whether position `x` is to be reported before position `y`: its score
/// strictly precedes, or the two rank as equals and `x` is the smaller.
pub open spec fn comes_before(scores: Seq<u32>, metric: Metric, x: int, y: int) -> bool {
    ||| precedes(metric, scores[x], scores[y])
    ||| (!precedes(metric, scores[y], scores[x]) && x < y)
}

/// Whether every position of `r` is to be reported before all that follow
/// it.
pub open spec fn is_ranked(r: Seq<int>, scores: Seq<u32>, metric: Metric) -> bool {
    forall|i: int, j: int|
        0 <= i < j < r.len() ==> comes_before(scores, metric, #[trigger] r[i], #[trigger] r[j])
}

/// A ranked sequence is ordered and stable.
pub proof fn lemma_ranked_is_ordered_and_stable(r: Seq<int>, scores: Seq<u32>, metric: Metric)
    requires
        is_ranked(r, scores, metric),
    ensures
        is_ordered(r, scores, metric),
        is_stable(r, scores, metric),
{
    assert forall|i: int, j: int| 0 <= i < j < r.len() implies !precedes(
        metric,
        scores[#[trigger] r[j]],
        scores[#[trigger] r[i]],
    ) by {
        assert(comes_before(scores, metric, r[i], r[j]));
    }
    assert forall|i: int, j: int| 0 <= i < j < r.len() && r[i] > r[j] implies precedes(
        metric,
        scores[#[trigger] r[i]],
        scores[#[trigger] r[j]],
    ) by {
        assert(comes_before(scores, metric, r[i], r[j]));
    }
}

/// Merging keeps every position: the result holds the positions of both
/// runs, each once, where the runs hold theirs once and share none.
proof fn lemma_merge_arranges(a: Seq<int>, b: Seq<int>, scores: Seq<u32>, metric: Metric)
    requires
        forall|i: int, j: int| 0 <= i < j < a.len() ==> a[i] != a[j],
        forall|i: int, j: int| 0 <= i < j < b.len() ==> b[i] != b[j],
        forall|i: int, j: int| 0 <= i < a.len() && 0 <= j < b.len() ==> a[i] != b[j],
    ensures
        merge(a, b, scores, metric).len() == a.len() + b.len(),
        forall|k: int|
            0 <= k < merge(a, b, scores, metric).len() ==> a.contains(
                #[trigger] merge(a, b, scores, metric)[k],
            ) || b.contains(merge(a, b, scores, metric)[k]),
        forall|i: int, j: int|
            0 <= i < j < merge(a, b, scores, metric).len() ==> merge(a, b, scores, metric)[i]
                != merge(a, b, scores, metric)[j],
    decreases a.len() + b.len(),
{
    let out = merge(a, b, scores, metric);
    if a.len() == 0 {
        assert forall|k: int| 0 <= k < out.len() implies b.contains(#[trigger] out[k]) by {
            assert(b[k] == out[k]);
        }
    } else if b.len() == 0 {
        assert forall|k: int| 0 <= k < out.len() implies a.contains(#[trigger] out[k]) by {
            assert(a[k] == out[k]);
        }
    } else {
        let take_b = precedes(metric, scores[b.first()], scores[a.first()]);
        let a2 = if take_b { a } else { a.drop_first() };
        let b2 = if take_b { b.drop_first() } else { b };
        let head = if take_b { b.first() } else { a.first() };
        let rest = merge(a2, b2, scores, metric);
        lemma_merge_arranges(a2, b2, scores, metric);
        assert(out =~= seq![head] + rest);
        assert forall|z: int| a2.contains(z) implies a.contains(z) by {
            let i = choose|i: int| 0 <= i < a2.len() && a2[i] == z;
            if take_b {
                assert(a[i] == z);
            } else {
                assert(a[i + 1] == z);
            }
        }
        assert forall|z: int| b2.contains(z) implies b.contains(z) by {
            let i = choose|i: int| 0 <= i < b2.len() && b2[i] == z;
            if take_b {
                assert(b[i + 1] == z);
            } else {
                assert(b[i] == z);
            }
        }
        assert forall|z: int| a2.contains(z) || b2.contains(z) implies z != head by {
            if a2.contains(z) {
                let i = choose|i: int| 0 <= i < a2.len() && a2[i] == z;
                if take_b {
                    assert(a[i] != b[0]);
                } else {
                    assert(a[0] != a[i + 1]);
                }
            }
            if b2.contains(z) {
                let i = choose|i: int| 0 <= i < b2.len() && b2[i] == z;
                if take_b {
                    assert(b[0] != b[i + 1]);
                } else {
                    assert(a[0] != b[i]);
                }
            }
        }
        assert forall|k: int| 0 <= k < out.len() implies a.contains(#[trigger] out[k])
            || b.contains(out[k]) by {
            if k == 0 {
                if take_b {
                    assert(b[0] == head);
                } else {
                    assert(a[0] == head);
                }
            } else {
                assert(out[k] == rest[k - 1]);
            }
        }
        assert forall|i: int, j: int| 0 <= i < j < out.len() implies out[i] != out[j] by {
            assert(out[j] == rest[j - 1]);
            if i > 0 {
                assert(out[i] == rest[i - 1]);
            }
        }
    }
}

/// Merging two ranked runs of comparable scores, the first over smaller
/// positions than the second, gives a ranked run.
proof fn lemma_merge_ranked(a: Seq<int>, b: Seq<int>, scores: Seq<u32>, metric: Metric)
    requires
        all_comparable(scores),
        is_ranked(a, scores, metric),
        is_ranked(b, scores, metric),
        forall|i: int| 0 <= i < a.len() ==> 0 <= #[trigger] a[i] < scores.len(),
        forall|i: int| 0 <= i < b.len() ==> 0 <= #[trigger] b[i] < scores.len(),
        forall|i: int, j: int| 0 <= i < a.len() && 0 <= j < b.len() ==> a[i] < b[j],
    ensures
        is_ranked(merge(a, b, scores, metric), scores, metric),
        forall|k: int|
            0 <= k < merge(a, b, scores, metric).len() ==> a.contains(
                #[trigger] merge(a, b, scores, metric)[k],
            ) || b.contains(merge(a, b, scores, metric)[k]),
    decreases a.len() + b.len(),
{
    let out = merge(a, b, scores, metric);
    assert forall|i: int, j: int| 0 <= i < j < a.len() implies a[i] != a[j] by {
        assert(comes_before(scores, metric, a[i], a[j]));
    }
    assert forall|i: int, j: int| 0 <= i < j < b.len() implies b[i] != b[j] by {
        assert(comes_before(scores, metric, b[i], b[j]));
    }
    lemma_merge_arranges(a, b, scores, metric);
    if a.len() > 0 && b.len() > 0 {
        let take_b = precedes(metric, scores[b.first()], scores[a.first()]);
        let a2 = if take_b { a } else { a.drop_first() };
        let b2 = if take_b { b.drop_first() } else { b };
        let head = if take_b { b.first() } else { a.first() };
        let rest = merge(a2, b2, scores, metric);
        assert(is_ranked(a2, scores, metric)) by {
            assert forall|i: int, j: int| 0 <= i < j < a2.len() implies comes_before(
                scores,
                metric,
                #[trigger] a2[i],
                #[trigger] a2[j],
            ) by {
                if !take_b {
                    assert(comes_before(scores, metric, a[i + 1], a[j + 1]));
                }
            }
        }
        assert(is_ranked(b2, scores, metric)) by {
            assert forall|i: int, j: int| 0 <= i < j < b2.len() implies comes_before(
                scores,
                metric,
                #[trigger] b2[i],
                #[trigger] b2[j],
            ) by {
                if take_b {
                    assert(comes_before(scores, metric, b[i + 1], b[j + 1]));
                }
            }
        }
        lemma_merge_ranked(a2, b2, scores, metric);
        assert(out =~= seq![head] + rest);
        assert forall|z: int| a2.contains(z) || b2.contains(z) implies comes_before(
            scores,
            metric,
            head,
            z,
        ) by {
            if a2.contains(z) {
                let i = choose|i: int| 0 <= i < a2.len() && a2[i] == z;
                if take_b {
                    assert(0 <= a[i] < scores.len());
                    if i > 0 {
                        assert(comes_before(scores, metric, a[0], a[i]));
                    }
                } else {
                    assert(comes_before(scores, metric, a[0], a[i + 1]));
                }
            }
            if b2.contains(z) {
                let i = choose|i: int| 0 <= i < b2.len() && b2[i] == z;
                if take_b {
                    assert(comes_before(scores, metric, b[0], b[i + 1]));
                } else {
                    assert(0 <= b[i] < scores.len());
                    assert(a[0] < b[i]);
                    if i > 0 {
                        assert(comes_before(scores, metric, b[0], b[i]));
                    }
                }
            }
        }
        lemma_merge_arranges(a2, b2, scores, metric);
        assert forall|i: int, j: int| 0 <= i < j < out.len() implies comes_before(
            scores,
            metric,
            #[trigger] out[i],
            #[trigger] out[j],
        ) by {
            assert(out[j] == rest[j - 1]);
            if i > 0 {
                assert(out[i] == rest[i - 1]);
            }
        }
    }
}

/// The ranking of `lo..hi` holds each of those positions exactly once.
pub proof fn lemma_ranking_arranges(scores: Seq<u32>, metric: Metric, lo: int, hi: int)
    requires
        0 <= lo <= hi,
    ensures
        is_arrangement(ranking_of(scores, metric, lo, hi), lo, hi),
    decreases hi - lo,
{
    if hi - lo > 1 {
        let mid = lo + (hi - lo) / 2;
        let a = ranking_of(scores, metric, lo, mid);
        let b = ranking_of(scores, metric, mid, hi);
        lemma_ranking_arranges(scores, metric, lo, mid);
        lemma_ranking_arranges(scores, metric, mid, hi);
        lemma_merge_arranges(a, b, scores, metric);
        let out = merge(a, b, scores, metric);
        assert forall|k: int| 0 <= k < out.len() implies lo <= #[trigger] out[k] < hi by {
            if a.contains(out[k]) {
                let i = choose|i: int| 0 <= i < a.len() && a[i] == out[k];
            } else {
                let i = choose|i: int| 0 <= i < b.len() && b[i] == out[k];
            }
        }
    }
}

/// Where no score is a NaN, every position of the ranking is one to be
/// reported before all that follow it.
pub proof fn lemma_ranking_ranked(scores: Seq<u32>, metric: Metric, lo: int, hi: int)
    requires
        0 <= lo <= hi <= scores.len(),
        all_comparable(scores),
    ensures
        is_ranked(ranking_of(scores, metric, lo, hi), scores, metric),
    decreases hi - lo,
{
    if hi - lo > 1 {
        let mid = lo + (hi - lo) / 2;
        lemma_ranking_ranked(scores, metric, lo, mid);
        lemma_ranking_ranked(scores, metric, mid, hi);
        lemma_ranking_arranges(scores, metric, lo, mid);
        lemma_ranking_arranges(scores, metric, mid, hi);
        lemma_merge_ranked(
            ranking_of(scores, metric, lo, mid),
            ranking_of(scores, metric, mid, hi),
            scores,
            metric,
        );
    }
}

/// The ranking of `n` positions holds each of them exactly once, whatever
/// the scores. Where no score is a NaN it is ordered (no position comes
/// after one that its score strictly precedes) and stable (positions whose
/// scores rank as equals keep their order): best score first, equal scores
/// by ascending position.
pub proof fn lemma_ranking_sorted(scores: Seq<u32>, metric: Metric, n: nat)
    requires
        n <= scores.len(),
    ensures
        is_permutation(ranking(scores, metric, n), n),
        all_comparable(scores) ==> is_ordered(ranking(scores, metric, n), scores, metric)
            && is_stable(ranking(scores, metric, n), scores, metric),
{
    lemma_ranking_arranges(scores, metric, 0, n as int);
    if all_comparable(scores) {
        lemma_ranking_ranked(scores, metric, 0, n as int);
        lemma_ranked_is_ordered_and_stable(ranking(scores, metric, n), scores, metric);
    }
}

/// A sequence that holds each of the positions `0..n` exactly once holds
/// every one of them.
proof fn lemma_permutation_holds_all(r: Seq<int>, n: nat, v: int)
    requires
        is_permutation(r, n),
        0 <= v < n,
    ensures
        r.contains(v),
{
    let range = set_int_range(0, n as int);
    assert(r.no_duplicates());
    r.unique_seq_to_set();
    lemma_int_range(0, n as int);
    assert(r.to_set().subset_of(range)) by {
        assert forall|x: int| r.to_set().contains(x) implies range.contains(x) by {
            let i = choose|i: int| 0 <= i < r.len() && r[i] == x;
            assert(0 <= r[i] < n);
        }
    }
    lemma_len_subset(r.to_set(), range);
    lemma_subset_equality(r.to_set(), range);
    assert(range.contains(v));
    assert(r.to_set().contains(v));
}

proof fn lemma_ranked_agree(r: Seq<int>, t: Seq<int>, scores: Seq<u32>, metric: Metric, n: nat, p: int)
    requires
        is_permutation(r, n),
        is_permutation(t, n),
        is_ranked(r, scores, metric),
        is_ranked(t, scores, metric),
        0 <= p <= n,
    ensures
        forall|q: int| 0 <= q < p ==> r[q] == t[q],
    decreases p,
{
    if p > 0 {
        lemma_ranked_agree(r, t, scores, metric, n, p - 1);
        let k = p - 1;
        let x = r[k];
        let y = t[k];
        if x != y {
            assert(0 <= r[k] < n && 0 <= t[k] < n);
            if comes_before(scores, metric, x, y) {
                lemma_permutation_holds_all(t, n, x);
                let q = choose|q: int| 0 <= q < t.len() && t[q] == x;
                if q < k {
                    assert(r[q] == t[q]);
                    assert(r[q] != r[k]);
                } else {
                    assert(comes_before(scores, metric, t[k], t[q]));
                }
            } else {
                assert(comes_before(scores, metric, y, x));
                lemma_permutation_holds_all(r, n, y);
                let q = choose|q: int| 0 <= q < r.len() && r[q] == y;
                if q < k {
                    assert(r[q] == t[q]);
                    assert(t[q] != t[k]);
                } else {
                    assert(comes_before(scores, metric, r[k], r[q]));
                }
            }
        }
    }
}

/// Where no score is a NaN, the ranking is the one order of the positions
/// `0..n` that is ordered and stable: whatever holds each position once,
/// best score first and equal scores by ascending position, is the
/// ranking.
pub proof fn lemma_ranking_unique(r: Seq<int>, scores: Seq<u32>, metric: Metric, n: nat)
    requires
        n <= scores.len(),
        all_comparable(scores),
        is_permutation(r, n),
        is_ordered(r, scores, metric),
        is_stable(r, scores, metric),
    ensures
        r == ranking(scores, metric, n),
{
    let t = ranking(scores, metric, n);
    lemma_ranking_arranges(scores, metric, 0, n as int);
    lemma_ranking_ranked(scores, metric, 0, n as int);
    assert(is_ranked(r, scores, metric)) by {
        assert forall|i: int, j: int| 0 <= i < j < r.len() implies comes_before(
            scores,
            metric,
            #[trigger] r[i],
            #[trigger] r[j],
        ) by {
            assert(!precedes(metric, scores[r[j]], scores[r[i]]));
            assert(r[i] != r[j]);
        }
    }
    lemma_ranked_agree(r, t, scores, metric, n, n as int);
    assert(r =~= t);
}

/// Where no score is a NaN, the position that is to be reported before
/// every other comes first in the ranking: the best score, and among equal
/// scores the smallest position.
pub proof fn lemma_best_comes_first(scores: Seq<u32>, metric: Metric, n: nat, x: int)
    requires
        n <= scores.len(),
        all_comparable(scores),
        0 <= x < n,
        forall|y: int| 0 <= y < n && y != x ==> comes_before(scores, metric, x, y),
    ensures
        ranking(scores, metric, n)[0] == x,
{
    let t = ranking(scores, metric, n);
    lemma_ranking_arranges(scores, metric, 0, n as int);
    lemma_ranking_ranked(scores, metric, 0, n as int);
    lemma_permutation_holds_all(t, n, x);
    let q = choose|q: int| 0 <= q < t.len() && t[q] == x;
    if q > 0 {
        assert(0 <= t[0] < n);
        assert(t[0] != t[q]);
        assert(comes_before(scores, metric, t[0], t[q]));
        assert(comes_before(scores, metric, x, t[0]));
    }
}

/// Merges two runs of positions.
fn merge_runs(scores: &[u32], metric: Metric, a: &Vec<usize>, b: &Vec<usize>) -> (out: Vec<usize>)
    requires
        forall|i: int| 0 <= i < a@.len() ==> #[trigger] a@[i] < scores@.len(),
        forall|i: int| 0 <= i < b@.len() ==> #[trigger] b@[i] < scores@.len(),
    ensures
        positions(out@) == merge(positions(a@), positions(b@), scores@, metric),
{
    let na: usize = a.len();
    let nb: usize = b.len();
    let ghost pa = positions(a@);
    let ghost pb = positions(b@);
    let mut out: Vec<usize> = Vec::new();
    let mut i: usize = 0;
    let mut j: usize = 0;
    proof {
        assert(pa.subrange(0, na as int) =~= pa);
        assert(pb.subrange(0, nb as int) =~= pb);
        assert(positions(out@) + merge(pa, pb, scores@, metric) =~= merge(pa, pb, scores@, metric));
    }
    while i < na && j < nb
        invariant
            na == a@.len(),
            nb == b@.len(),
            pa == positions(a@),
            pb == positions(b@),
            0 <= i <= na,
            0 <= j <= nb,
            forall|t: int| 0 <= t < a@.len() ==> #[trigger] a@[t] < scores@.len(),
            forall|t: int| 0 <= t < b@.len() ==> #[trigger] b@[t] < scores@.len(),
            merge(pa, pb, scores@, metric) == positions(out@) + merge(
                pa.subrange(i as int, na as int),
                pb.subrange(j as int, nb as int),
                scores@,
                metric,
            ),
        decreases na - i + nb - j,
    {
        let ghost ra = pa.subrange(i as int, na as int);
        let ghost rb = pb.subrange(j as int, nb as int);
        let ghost shown = positions(out@);
        let x: usize = a[i];
        let y: usize = b[j];
        proof {
            assert(ra.first() == x as int);
            assert(rb.first() == y as int);
            assert(ra.drop_first() =~= pa.subrange(i + 1, na as int));
            assert(rb.drop_first() =~= pb.subrange(j + 1, nb as int));
        }
        if score_precedes(metric, scores[y], scores[x]) {
            out.push(y);
            j = j + 1;
            proof {
                assert(positions(out@) =~= shown + seq![y as int]);
                assert(shown + (seq![y as int] + merge(ra, rb.drop_first(), scores@, metric))
                    =~= positions(out@) + merge(ra, rb.drop_first(), scores@, metric));
            }
        } else {
            out.push(x);
            i = i + 1;
            proof {
                assert(positions(out@) =~= shown + seq![x as int]);
                assert(shown + (seq![x as int] + merge(ra.drop_first(), rb, scores@, metric))
                    =~= positions(out@) + merge(ra.drop_first(), rb, scores@, metric));
            }
        }
    }
    while i < na
        invariant
            na == a@.len(),
            pa == positions(a@),
            0 <= i <= na,
            j == nb || i == na,
            nb == pb.len(),
            merge(pa, pb, scores@, metric) == positions(out@) + merge(
                pa.subrange(i as int, na as int),
                pb.subrange(j as int, nb as int),
                scores@,
                metric,
            ),
        decreases na - i,
    {
        let ghost ra = pa.subrange(i as int, na as int);
        let ghost shown = positions(out@);
        let x: usize = a[i];
        proof {
            assert(pb.subrange(j as int, nb as int).len() == 0);
            assert(ra =~= seq![x as int] + pa.subrange(i + 1, na as int));
        }
        out.push(x);
        i = i + 1;
        proof {
            assert(positions(out@) =~= shown + seq![x as int]);
            assert(shown + ra =~= positions(out@) + pa.subrange(i as int, na as int));
        }
    }
    while j < nb
        invariant
            nb == b@.len(),
            pb == positions(b@),
            0 <= j <= nb,
            i == na,
            na == pa.len(),
            merge(pa, pb, scores@, metric) == positions(out@) + merge(
                pa.subrange(i as int, na as int),
                pb.subrange(j as int, nb as int),
                scores@,
                metric,
            ),
        decreases nb - j,
    {
        let ghost rb = pb.subrange(j as int, nb as int);
        let ghost shown = positions(out@);
        let y: usize = b[j];
        proof {
            assert(pa.subrange(i as int, na as int).len() == 0);
            assert(rb =~= seq![y as int] + pb.subrange(j + 1, nb as int));
        }
        out.push(y);
        j = j + 1;
        proof {
            assert(positions(out@) =~= shown + seq![y as int]);
            assert(shown + rb =~= positions(out@) + pb.subrange(j as int, nb as int));
        }
    }
    proof {
        assert(pa.subrange(i as int, na as int).len() == 0);
        assert(positions(out@) + pb.subrange(j as int, nb as int) =~= positions(out@));
    }
    out
}

/// Ranks the positions `lo..hi` of a score table.
fn rank_range(scores: &[u32], metric: Metric, lo: usize, hi: usize) -> (order: Vec<usize>)
    requires
        lo <= hi <= scores@.len(),
    ensures
        positions(order@) == ranking_of(scores@, metric, lo as int, hi as int),
        forall|i: int| 0 <= i < order@.len() ==> lo <= #[trigger] order@[i] < hi,
    decreases hi - lo,
{
    proof {
        lemma_ranking_arranges(scores@, metric, lo as int, hi as int);
    }
    let mut order: Vec<usize> = Vec::new();
    if hi - lo == 0 {
        assert(positions(order@) =~= Seq::<int>::empty());
    } else if hi - lo == 1 {
        order.push(lo);
        assert(positions(order@) =~= seq![lo as int]);
    } else {
        let mid: usize = lo + (hi - lo) / 2;
        let left = rank_range(scores, metric, lo, mid);
        let right = rank_range(scores, metric, mid, hi);
        order = merge_runs(scores, metric, &left, &right);
    }
    assert forall|i: int| 0 <= i < order@.len() implies lo <= #[trigger] order@[i] < hi by {
        assert(positions(order@)[i] == order@[i]);
    }
    order
}

/// Ranks the positions of a score table: best score first under `metric`,
/// positions with equal scores in ascending order.
pub fn rank_scores(scores: &[u32], metric: Metric) -> (order: Vec<usize>)
    ensures
        positions(order@) == ranking(scores@, metric, scores@.len()),
        is_permutation(ranking(scores@, metric, scores@.len()), scores@.len()),
        all_comparable(scores@) ==> is_ordered(
            ranking(scores@, metric, scores@.len()),
            scores@,
            metric,
        ) && is_stable(ranking(scores@, metric, scores@.len()), scores@, metric),
{
    proof {
        lemma_ranking_sorted(scores@, metric, scores@.len());
    }
    rank_range(scores, metric, 0, scores.len())
}

/// Ranks the positions of a score table and keeps the first `k`.
pub fn rank_top(scores: &[u32], metric: Metric, k: usize) -> (top: Vec<usize>)
    ensures
        positions(top@) == top_ranked(scores@, metric, k as nat),
        top@.len() == (if k < scores@.len() { k as nat } else { scores@.len() }),
        forall|i: int| 0 <= i < top@.len() ==> #[trigger] top@[i] < scores@.len(),
{
    let mut top: Vec<usize> = rank_scores(scores, metric);
    let ghost all = top@;
    let n: usize = scores.len();
    let count: usize = if k < n { k } else { n };
    top.truncate(count);
    proof {
        assert(positions(top@) =~= positions(all).subrange(0, count as int));
        assert forall|i: int| 0 <= i < top@.len() implies #[trigger] top@[i] < scores@.len() by {
            assert(positions(all)[i] == top@[i]);
        }
    }
    top
}

} // verus!
