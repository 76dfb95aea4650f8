//! Small parts of a run: drafts from repetition, predicted experts, and what
//! a check of captured rows counts.

use vstd::prelude::*;

use crate::checks;
use crate::floats;
use crate::generate;
use crate::prefetch;

verus! {

/// The last `m` tokens stand at `i` too, before the stretch that repeats
/// them.
pub open spec fn repeats(hist: Seq<u32>, m: int, i: int) -> bool {
    &&& 0 <= i
    &&& i + 2 * m < hist.len()
    &&& forall|k: int| 0 <= k < m ==> #[trigger] hist[i + k] == hist[hist.len() - m + k]
}

proof fn lemma_repeats(hist: Seq<u32>, m: int, i: int)
    requires
        0 < m <= hist.len(),
    ensures
        generate::recurs(hist, m, i) <==> repeats(hist, m, i),
{
    if 0 <= i && i + m < hist.len() - m {
        let a = hist.subrange(i, i + m);
        let b = hist.skip(hist.len() - m);
        if a == b {
            assert forall|k: int| 0 <= k < m implies #[trigger] hist[i + k] == hist[hist.len() - m
                + k] by {
                assert(a[k] == b[k]);
            }
        }
        if repeats(hist, m, i) {
            assert forall|k: int| 0 <= k < m implies a[k] == b[k] by {
                assert(hist[i + k] == hist[hist.len() - m + k]);
            }
            assert(a =~= b);
        }
    }
}

proof fn lemma_latest(hist: Seq<u32>, m: int, n: int)
    ensures
        match generate::last_recurrence(hist, m, n) {
            Some(i) => i < n && generate::recurs(hist, m, i) && forall|j: int|
                i < j < n ==> !#[trigger] generate::recurs(hist, m, j),
            None => forall|j: int| 0 <= j < n ==> !#[trigger] generate::recurs(hist, m, j),
        },
    decreases n,
{
    if n > 0 {
        lemma_latest(hist, m, n - 1);
    }
}

/// `d` is what followed the repeat at `i`, as far as the draft goes and the
/// repeated stretch allows.
pub open spec fn follows(d: Seq<u32>, hist: Seq<u32>, m: int, i: int, depth: int) -> bool {
    &&& d.len() <= depth
    &&& d.len() == depth || i + m + d.len() == hist.len() - m
    &&& forall|k: int| 0 <= k < d.len() ==> #[trigger] d[k] == hist[i + m + k]
}

/// A draft from repetition is what followed the latest repeat of the last
/// four tokens; without one, of the last three; without either it is empty.
pub proof fn drafts_follow_the_latest_repeat(hist: Seq<u32>, depth: int)
    requires
        hist.len() >= 4,
        depth >= 0,
    ensures
        ({
            let d = generate::draft_of(hist, depth);
            let four = exists|i: int| #[trigger] repeats(hist, 4, i);
            let three = exists|i: int| #[trigger] repeats(hist, 3, i);
            &&& four ==> exists|i: int| #[trigger]
                repeats(hist, 4, i) && follows(d, hist, 4, i, depth) && forall|j: int|
                    j > i ==> !#[trigger] repeats(hist, 4, j)
            &&& !four && three ==> exists|i: int| #[trigger]
                repeats(hist, 3, i) && follows(d, hist, 3, i, depth) && forall|j: int|
                    j > i ==> !#[trigger] repeats(hist, 3, j)
            &&& !four && !three ==> d.len() == 0
        }),
{
    let d = generate::draft_of(hist, depth);
    assert forall|j: int| #[trigger] repeats(hist, 4, j) <==> generate::recurs(hist, 4, j) by {
        lemma_repeats(hist, 4, j);
    }
    assert forall|j: int| #[trigger] repeats(hist, 3, j) <==> generate::recurs(hist, 3, j) by {
        lemma_repeats(hist, 3, j);
    }
    lemma_latest(hist, 4, hist.len() - 4);
    lemma_latest(hist, 3, hist.len() - 3);
    match generate::last_recurrence(hist, 4, hist.len() - 4) {
        Some(i) => {
            assert(repeats(hist, 4, i));
            assert forall|j: int| j > i implies !#[trigger] repeats(hist, 4, j) by {
                if j < hist.len() - 4 {
                    assert(!generate::recurs(hist, 4, j));
                }
            }
        },
        None => {
            assert forall|j: int| !#[trigger] repeats(hist, 4, j) by {
                if 0 <= j < hist.len() - 4 {
                    assert(!generate::recurs(hist, 4, j));
                }
            }
            match generate::last_recurrence(hist, 3, hist.len() - 3) {
                Some(i) => {
                    assert(repeats(hist, 3, i));
                    assert forall|j: int| j > i implies !#[trigger] repeats(hist, 3, j) by {
                        if j < hist.len() - 3 {
                            assert(!generate::recurs(hist, 3, j));
                        }
                    }
                },
                None => {
                    assert forall|j: int| !#[trigger] repeats(hist, 3, j) by {
                        if 0 <= j < hist.len() - 3 {
                            assert(!generate::recurs(hist, 3, j));
                        }
                    }
                },
            }
        },
    }
}

/// A selected or predicted id names a routed expert.
pub open spec fn routed(n_expert: u32) -> spec_fn(i32) -> bool {
    |e: i32| 0 <= e && e < n_expert
}

proof fn lemma_filter_last(s: Seq<i32>, n: int, f: spec_fn(i32) -> bool)
    requires
        0 < n <= s.len(),
    ensures
        s.take(n).filter(f) == (if f(s[n - 1]) {
            s.take(n - 1).filter(f).push(s[n - 1])
        } else {
            s.take(n - 1).filter(f)
        }),
{
    reveal(Seq::filter);
    assert(s.take(n).drop_last() =~= s.take(n - 1));
}

/// The ids that are fetched ahead are the predicted ones that name routed
/// experts, in order.
pub proof fn predictions_are_filtered(pred: Seq<i32>, n_expert: u32, n: int)
    requires
        0 <= n <= pred.len(),
    ensures
        ({
            let v = prefetch::valid_ids(pred, n_expert, n);
            let w = pred.take(n).filter(routed(n_expert));
            v.len() == w.len() && forall|k: int| 0 <= k < v.len() ==> #[trigger] v[k] == w[k]
        }),
    decreases n,
{
    if n > 0 {
        predictions_are_filtered(pred, n_expert, n - 1);
        lemma_filter_last(pred, n, routed(n_expert));
    } else {
        reveal(Seq::filter);
        assert(pred.take(0) =~= Seq::<i32>::empty());
    }
}

/// A prediction is scored over the selections that name routed experts: how
/// many there are, and how many of them it named.
pub proof fn scores_count_selections(selected: Seq<i32>, pred: Seq<i32>, n_expert: u32, n: int)
    requires
        0 <= n <= selected.len(),
    ensures
        ({
            let (hits, total) = prefetch::score_of(selected, pred, n_expert, n);
            &&& total == selected.take(n).filter(routed(n_expert)).len()
            &&& hits == selected.take(n).filter(
                |e: i32| 0 <= e && e < n_expert && pred.contains(e),
            ).len()
            &&& hits <= total <= n
        }),
    decreases n,
{
    let f = |e: i32| 0 <= e && e < n_expert && pred.contains(e);
    if n > 0 {
        scores_count_selections(selected, pred, n_expert, n - 1);
        lemma_filter_last(selected, n, routed(n_expert));
        lemma_filter_last(selected, n, f);
    } else {
        reveal(Seq::filter);
        assert(selected.take(0) =~= Seq::<i32>::empty());
    }
}

/// A slot without a value other than zero counts none, and no slot counts
/// more than it holds.
pub proof fn zeros_are_not_counted(v: Seq<u32>, lo: int, n: int)
    requires
        0 <= n,
    ensures
        checks::nonzero_in(v, lo, n) <= n,
        checks::nonzero_in(v, lo, n) == 0 <==> forall|k: int|
            0 <= k < n ==> floats::magnitude(#[trigger] v[lo + k]) == 0,
        checks::nonzero_in(v, lo, n) == n <==> forall|k: int|
            0 <= k < n ==> floats::magnitude(#[trigger] v[lo + k]) != 0,
    decreases n,
{
    if n > 0 {
        zeros_are_not_counted(v, lo, n - 1);
        assert(v[lo + (n - 1)] == v[lo + n - 1]);
    }
}

proof fn lemma_twins_of(v: Seq<u32>, width: int, i: int, j: int)
    requires
        0 <= i < j <= usize::MAX,
    ensures
        forall|a: usize, b: usize| #[trigger]
            checks::twins_of(v, width, i, j).contains((a, b)) <==> a == i && i < b < j
                && checks::rows_equal(v, i * width, v, b * width, width),
    decreases j - i,
{
    if j > i + 1 {
        lemma_twins_of(v, width, i, j - 1);
        let before = checks::twins_of(v, width, i, j - 1);
        let all = checks::twins_of(v, width, i, j);
        let x = (i as usize, (j - 1) as usize);
        assert forall|a: usize, b: usize| #[trigger] all.contains((a, b)) <==> a == i && i < b < j
            && checks::rows_equal(v, i * width, v, b * width, width) by {
            if before.contains((a, b)) {
                let k = choose|k: int| 0 <= k < before.len() && before[k] == (a, b);
                assert(all[k] == (a, b));
            }
            if checks::rows_equal(v, i * width, v, (j - 1) * width, width) {
                assert(all[before.len() as int] == x);
                if all.contains((a, b)) && (a, b) != x {
                    let k = choose|k: int| 0 <= k < all.len() && all[k] == (a, b);
                    assert(before[k] == (a, b));
                }
            }
        }
    }
}

/// Every two slots that hold the same floats are told of, the lower first,
/// and no others.
pub proof fn collisions_are_equal_slots(v: Seq<u32>, width: int, slots: int, i: int)
    requires
        0 <= i <= slots <= usize::MAX,
    ensures
        forall|a: usize, b: usize| #[trigger]
            checks::twins(v, width, slots, i).contains((a, b)) <==> a < b && a < i && b < slots
                && checks::rows_equal(v, a * width, v, b * width, width),
    decreases i,
{
    if i > 0 {
        collisions_are_equal_slots(v, width, slots, i - 1);
        lemma_twins_of(v, width, i - 1, slots);
        let x = checks::twins(v, width, slots, i - 1);
        let y = checks::twins_of(v, width, i - 1, slots);
        let all = checks::twins(v, width, slots, i);
        assert forall|a: usize, b: usize| #[trigger] all.contains((a, b)) <==> a < b && a < i && b
            < slots && checks::rows_equal(v, a * width, v, b * width, width) by {
            if x.contains((a, b)) {
                let k = choose|k: int| 0 <= k < x.len() && x[k] == (a, b);
                assert(all[k] == (a, b));
            }
            if y.contains((a, b)) {
                let k = choose|k: int| 0 <= k < y.len() && y[k] == (a, b);
                assert(all[x.len() + k] == (a, b));
            }
            if all.contains((a, b)) {
                let k = choose|k: int| 0 <= k < all.len() && all[k] == (a, b);
                if k < x.len() {
                    assert(x[k] == (a, b));
                } else {
                    assert(y[k - x.len()] == (a, b));
                }
            }
        }
    }
}

} // verus!
