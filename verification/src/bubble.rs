//! Bubble sort as a step machine: one comparison of adjacent positions per
//! `step` call, so a caller can render and play a tone between comparisons.
//!
//! Pass `p` compares positions `(j, j + 1)` for `j` up to `n - 2 - p` and
//! swaps whenever the left value is larger. Each completed pass settles one
//! more position at the right end; a pass with no swap proves the rest is
//! already in order and ends the run early.

use vstd::prelude::*;
use crate::step::{
    CompareEvent, RunStats, MAX_RUN_LEN, non_decreasing, strictly_ascending, suffix_settled,
    pass_sum, lemma_adjacent_sorted_prefix, lemma_counter_in_range, lemma_pass_sum_monotone,
    lemma_pass_sum_total, ascending_heights, is_permutation_of_heights,
    lemma_sorted_permutation_ascends, uniform_mask,
};

verus! {

/// Set every flag of the sorted mask.
pub(crate) fn fill_mask(mask: &mut Vec<bool>)
    ensures
        final(mask)@.len() == old(mask)@.len(),
        forall|k: int| 0 <= k < final(mask)@.len() ==> final(mask)@[k],
{
    let n = mask.len();
    let mut idx: usize = 0;
    while idx < n
        invariant
            mask@.len() == n,
            idx <= n,
            forall|k: int| 0 <= k < idx ==> mask@[k],
        decreases n - idx,
    {
        mask[idx] = true;
        idx += 1;
    }
}

/// The bubble sort driver. It owns the array and the sorted mask for the
/// run's duration: nothing else writes them between steps.
pub struct BubbleSort {
    arr: Vec<usize>,
    mask: Vec<bool>,
    pass: usize,
    cur: usize,
    pass_swap: bool,
    cmp_count: u64,
    swap_count: u64,
    early: bool,
    finished: bool,
}

impl BubbleSort {
    /// The array as it currently stands.
    pub closed spec fn array(self) -> Seq<usize> {
        self.arr@
    }

    /// The sorted mask: which positions are settled in final order.
    pub closed spec fn sorted_mask(self) -> Seq<bool> {
        self.mask@
    }

    /// Completed passes.
    pub closed spec fn pass(self) -> int {
        self.pass as int
    }

    /// Position pair `(cursor, cursor + 1)` is compared next.
    pub closed spec fn cursor(self) -> int {
        self.cur as int
    }

    /// Whether the current pass has swapped anything yet.
    pub closed spec fn pass_swapped(self) -> bool {
        self.pass_swap
    }

    /// Comparisons made so far.
    pub closed spec fn comparisons(self) -> u64 {
        self.cmp_count
    }

    /// Swaps made so far.
    pub closed spec fn swaps(self) -> u64 {
        self.swap_count
    }

    /// Whether the run ended early because a full pass saw no swap.
    pub closed spec fn early_exit(self) -> bool {
        self.early
    }

    /// Whether the run is complete.
    pub closed spec fn done(self) -> bool {
        self.finished
    }

    /// The machine's invariant. While the run is underway, the settled
    /// suffix `[n - pass, n)` is in final order and marked in the mask, the
    /// largest value of the scanned prefix sits at the cursor, and the
    /// comparison counter equals the number of comparisons a bubble sort has
    /// made at this point. When the run is done, the whole array is in
    /// non-decreasing order and fully marked.
    pub closed spec fn wf(self) -> bool {
        let n = self.arr@.len() as int;
        &&& self.mask@.len() == n
        &&& n <= MAX_RUN_LEN
        &&& self.swap_count <= self.cmp_count
        &&& self.pass <= n
        &&& self.cur <= n
        &&& if self.finished {
            &&& forall|k: int| 0 <= k < n ==> self.mask@[k]
            &&& non_decreasing(self.arr@)
            &&& self.cmp_count <= pass_sum(n - 1, n)
        } else {
            &&& n >= 2
            &&& self.pass < n - 1
            &&& self.cur < n - 1 - self.pass
            &&& !self.early
            &&& (forall|k: int| 0 <= k < n ==> (self.mask@[k] <==> k >= n - self.pass))
            &&& suffix_settled(self.arr@, n - self.pass)
            &&& (forall|m: int|
                0 <= m <= self.cur ==> #[trigger] self.arr@[m] <= self.arr@[self.cur as int])
            &&& (!self.pass_swap ==> forall|m: int|
                0 <= m < self.cur ==> #[trigger] self.arr@[m] <= self.arr@[m + 1])
            &&& self.cmp_count == pass_sum(self.pass as int, n) + self.cur
        }
    }

    /// Start a run over the given bar heights. Arrays shorter than two
    /// elements are already in order, so their run is complete at once.
    pub fn new(heights: Vec<usize>) -> (s: Self)
        requires
            heights.len() <= MAX_RUN_LEN,
        ensures
            s.wf(),
            s.array() == heights@,
            s.comparisons() == 0,
            s.swaps() == 0,
            !s.early_exit(),
            (s.done() <==> heights.len() < 2),
            s.pass() == 0,
            s.cursor() == 0,
            !s.pass_swapped(),
            !s.done() ==> forall|k: int| 0 <= k < heights@.len() ==> !s.sorted_mask()[k],
    {
        let n = heights.len();
        let start_done = n < 2;
        let mask = uniform_mask(n, start_done);
        BubbleSort {
            arr: heights,
            mask,
            pass: 0,
            cur: 0,
            pass_swap: false,
            cmp_count: 0,
            swap_count: 0,
            early: false,
            finished: start_done,
        }
    }

    /// The position pair the next step will compare, for rendering the
    /// highlight before the comparison is made.
    pub fn peek_compare(&self) -> (pair: (usize, usize))
        requires
            self.wf(),
            !self.done(),
        ensures
            pair.0 as int == self.cursor(),
            pair.1 as int == self.cursor() + 1,
            pair.1 < self.array().len(),
    {
        (self.cur, self.cur + 1)
    }

    /// Perform one comparison, swapping the pair if it is out of order, and
    /// report it. The reported positions are always in bounds and distinct,
    /// the array stays a rearrangement of the same values, and mask flags
    /// are never cleared: once a position is marked sorted it stays marked.
    pub fn step(&mut self) -> (ev: CompareEvent)
        requires
            old(self).wf(),
            !old(self).done(),
        ensures
            final(self).wf(),
            ev.lo as int == old(self).cursor(),
            ev.hi as int == old(self).cursor() + 1,
            ev.lo < ev.hi,
            (ev.hi as int) < old(self).array().len(),
            ev.swapped == (old(self).array()[ev.lo as int] > old(self).array()[ev.hi as int]),
            final(self).array() == (if ev.swapped {
                old(self).array().update(ev.lo as int, old(self).array()[ev.hi as int]).update(
                    ev.hi as int,
                    old(self).array()[ev.lo as int],
                )
            } else {
                old(self).array()
            }),
            final(self).array().to_multiset() == old(self).array().to_multiset(),
            final(self).array().len() == old(self).array().len(),
            final(self).comparisons() == old(self).comparisons() + 1,
            final(self).swaps() == old(self).swaps() + (if ev.swapped { 1u64 } else { 0u64 }),
            final(self).sorted_mask().len() == old(self).sorted_mask().len(),
            forall|k: int|
                0 <= k < old(self).sorted_mask().len() && old(self).sorted_mask()[k]
                    ==> final(self).sorted_mask()[k],
            final(self).early_exit() ==> final(self).done(),
            ({
                let n = old(self).array().len() as int;
                let last = old(self).cursor() + 1 == n - 1 - old(self).pass();
                let swapped_pass = old(self).pass_swapped() || ev.swapped;
                if !last {
                    &&& !final(self).done()
                    &&& final(self).pass() == old(self).pass()
                    &&& final(self).cursor() == old(self).cursor() + 1
                    &&& final(self).pass_swapped() == swapped_pass
                    &&& final(self).sorted_mask() == old(self).sorted_mask()
                } else if !swapped_pass {
                    &&& final(self).done()
                    &&& final(self).early_exit()
                } else if old(self).pass() + 1 == n - 1 {
                    &&& final(self).done()
                    &&& !final(self).early_exit()
                } else {
                    &&& !final(self).done()
                    &&& final(self).pass() == old(self).pass() + 1
                    &&& final(self).cursor() == 0
                    &&& !final(self).pass_swapped()
                    &&& forall|k: int|
                        0 <= k < n ==> (final(self).sorted_mask()[k] <==> (old(
                            self,
                        ).sorted_mask()[k] || k == n - 1 - old(self).pass()))
                }
            }),
            final(self).done() ==> non_decreasing(final(self).array()) && (forall|k: int|
                0 <= k < final(self).sorted_mask().len() ==> final(self).sorted_mask()[k]),
    {
        broadcast use vstd::seq_lib::to_multiset_update;

        let n = self.arr.len();
        let j = self.cur;
        let ghost s = self.arr@;
        let a_lo = self.arr[j];
        let a_hi = self.arr[j + 1];
        let did_swap = a_lo > a_hi;
        proof {
            lemma_counter_in_range(self.pass as int, self.cur as int, n as int);
        }
        self.cmp_count = self.cmp_count + 1;
        if did_swap {
            self.arr[j] = a_hi;
            self.arr[j + 1] = a_lo;
            self.swap_count = self.swap_count + 1;
            self.pass_swap = true;
            proof {
                broadcast use vstd::multiset::group_multiset_axioms;
                broadcast use vstd::seq_lib::group_to_multiset_ensures;

                assert(a_lo != a_hi);
                assert(s.contains(a_lo)) by {
                    assert(s[j as int] == a_lo);
                }
                assert(s.contains(a_hi)) by {
                    assert(s[j + 1] == a_hi);
                }
                assert(s.to_multiset().count(a_lo) > 0);
                assert(s.to_multiset().count(a_hi) > 0);
                let s1 = s.update(j as int, a_hi);
                assert(s1.to_multiset() == s.to_multiset().insert(a_hi).remove(a_lo));
                assert(s1[j + 1] == a_hi);
                assert(self.arr@.to_multiset() == s1.to_multiset().insert(a_lo).remove(a_hi));
                assert(self.arr@.to_multiset() =~= s.to_multiset());
            }
        }
        let ghost t = self.arr@;
        proof {
            // The cursor position now holds the largest value seen so far,
            // and the settled suffix is untouched.
            assert(forall|m: int| 0 <= m <= j + 1 ==> #[trigger] t[m] <= t[j + 1]);
            assert(suffix_settled(t, n - self.pass));
        }
        if j + 1 == n - 1 - self.pass {
            let boundary = n - 1 - self.pass;
            proof {
                // The comparisons of the completed passes never exceed the
                // full pass sum.
                lemma_pass_sum_monotone(self.pass + 1, n as int - 1, n as int);
                assert(pass_sum(self.pass as int, n as int) + (n - 1 - self.pass) == pass_sum(
                    self.pass + 1,
                    n as int,
                ));
            }
            self.mask[boundary] = true;
            if !self.pass_swap {
                proof {
                    lemma_adjacent_sorted_prefix(t, boundary as int);
                }
                fill_mask(&mut self.mask);
                self.early = true;
                self.finished = true;
            } else if self.pass + 1 == n - 1 {
                self.mask[0] = true;
                self.finished = true;
                proof {
                    assert(non_decreasing(t)) by {
                        assert(suffix_settled(t, 1));
                    }
                }
            } else {
                self.pass = self.pass + 1;
                self.cur = 0;
                self.pass_swap = false;
            }
        } else {
            self.cur = j + 1;
        }
        CompareEvent { lo: j, hi: j + 1, swapped: did_swap }
    }

    /// The run is complete: every position is marked and the array is in
    /// non-decreasing order.
    pub fn is_done(&self) -> (b: bool)
        ensures
            b == self.done(),
    {
        self.finished
    }

    /// Read access to the current bar heights, for rendering a frame.
    pub fn current_heights(&self) -> (v: &Vec<usize>)
        ensures
            v@ == self.array(),
    {
        &self.arr
    }

    /// Read access to the current sorted mask, for rendering a frame.
    pub fn current_mask(&self) -> (v: &Vec<bool>)
        ensures
            v@ == self.sorted_mask(),
    {
        &self.mask
    }

    /// The counters accumulated so far, with the early-exit flag.
    pub fn statistics(&self) -> (stats: RunStats)
        ensures
            stats.comparisons == self.comparisons(),
            stats.swaps == self.swaps(),
            stats.early_exit == self.early_exit(),
    {
        RunStats { comparisons: self.cmp_count, swaps: self.swap_count, early_exit: self.early }
    }

    /// Give the array back when the run is over.
    pub fn into_heights(self) -> (v: Vec<usize>)
        ensures
            v@ == self.array(),
    {
        self.arr
    }
}

/// Run bubble sort to completion. The result is a non-decreasing
/// rearrangement of the input. On an input of at least two elements that is
/// already sorted, one full pass of `n - 1` comparisons finds no swap and the
/// run ends early with a swap count of zero.
pub fn bubble_sort(heights: &mut Vec<usize>) -> (stats: RunStats)
    requires
        old(heights).len() <= MAX_RUN_LEN,
    ensures
        final(heights)@.len() == old(heights)@.len(),
        final(heights)@.to_multiset() == old(heights)@.to_multiset(),
        non_decreasing(final(heights)@),
        is_permutation_of_heights(old(heights)@) ==> strictly_ascending(final(heights)@)
            && final(heights)@ =~= ascending_heights(old(heights)@.len()),
        stats.swaps <= stats.comparisons,
        2 * stats.comparisons <= old(heights)@.len() * (old(heights)@.len() - 1),
        old(heights).len() >= 2 && non_decreasing(old(heights)@) ==> {
            &&& stats.comparisons == old(heights)@.len() - 1
            &&& stats.swaps == 0
            &&& stats.early_exit
        },
{
    let mut taken: Vec<usize> = Vec::new();
    core::mem::swap(heights, &mut taken);
    let ghost init = taken@;
    let mut m = BubbleSort::new(taken);
    while !m.is_done()
        invariant
            m.wf(),
            m.array().len() == init.len(),
            m.array().to_multiset() == init.to_multiset(),
            m.swaps() <= m.comparisons(),
            init.len() >= 2 && non_decreasing(init) && !m.done() ==> {
                &&& m.pass() == 0
                &&& !m.pass_swapped()
                &&& m.array() == init
                &&& m.swaps() == 0
            },
            init.len() >= 2 && non_decreasing(init) && m.done() ==> {
                &&& m.comparisons() == init.len() - 1
                &&& m.swaps() == 0
                &&& m.early_exit()
            },
        decreases
            (if m.done() { 0int } else { 1int }),
            init.len() - m.pass(),
            init.len() - m.cursor(),
    {
        let _ev = m.step();
    }
    let stats = m.statistics();
    proof {
        let n = init.len() as int;
        if n >= 1 {
            lemma_pass_sum_total(n);
        } else {
            assert(pass_sum(n - 1, n) == 0);
            assert(n * (n - 1) == 0) by (nonlinear_arith)
                requires n == 0;
        }
        assert(2 * stats.comparisons <= n * (n - 1));
    }
    let result = m.into_heights();
    proof {
        if is_permutation_of_heights(init) {
            lemma_sorted_permutation_ascends(init, result@);
        }
    }
    *heights = result;
    stats
}

} // verus!
