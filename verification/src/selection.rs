//! Selection sort as a step machine: one comparison per `step` call, so a
//! caller can render and play a tone between comparisons.
//!
//! Pass `i` scans positions `i + 1 .. n` while tracking the position of the
//! smallest value seen, comparing the tracked minimum against each scanned
//! position. When the scan ends, the minimum is swapped into position `i`
//! (only if it is not already there) and that position settles. Every pass
//! runs its full scan, so a run over `n` elements always makes exactly
//! `n * (n - 1) / 2` comparisons: selection sort has no early exit.

use vstd::prelude::*;
use crate::step::{CompareEvent, RunStats, MAX_RUN_LEN, ascending_heights, non_decreasing,
    strictly_ascending, prefix_settled, pass_sum, lemma_counter_in_range, lemma_pass_sum_total,
    is_permutation_of_heights, lemma_sorted_permutation_ascends, uniform_mask};

verus! {

/// The selection sort driver. It owns the array and the sorted mask for the
/// run's duration: nothing else writes them between steps.
pub struct SelectionSort {
    arr: Vec<usize>,
    mask: Vec<bool>,
    pass: usize,
    cur: usize,
    min_idx: usize,
    cmp_count: u64,
    swap_count: u64,
    finished: bool,
}

impl SelectionSort {
    /// The array as it currently stands.
    pub closed spec fn array(self) -> Seq<usize> {
        self.arr@
    }

    /// The sorted mask: which positions are settled in final order.
    pub closed spec fn sorted_mask(self) -> Seq<bool> {
        self.mask@
    }

    /// Completed passes, which is also the settled prefix length.
    pub closed spec fn pass(self) -> int {
        self.pass as int
    }

    /// The position the next step compares against the tracked minimum.
    pub closed spec fn cursor(self) -> int {
        self.cur as int
    }

    /// Position of the smallest value seen in the current scan.
    pub closed spec fn min_index(self) -> int {
        self.min_idx as int
    }

    /// Comparisons made so far.
    pub closed spec fn comparisons(self) -> u64 {
        self.cmp_count
    }

    /// Swaps made so far.
    pub closed spec fn swaps(self) -> u64 {
        self.swap_count
    }

    /// Whether the run is complete.
    pub closed spec fn done(self) -> bool {
        self.finished
    }

    /// The machine's invariant. While the run is underway, the settled
    /// prefix `[0, pass)` is in final order and marked in the mask, the
    /// tracked minimum is the smallest value scanned so far in this pass,
    /// and the comparison counter equals the number of comparisons a
    /// selection sort has made at this point. When the run is done, the
    /// whole array is in non-decreasing order, fully marked, and the counter
    /// equals the full pass sum: no early exit exists.
    pub closed spec fn wf(self) -> bool {
        let n = self.arr@.len() as int;
        &&& self.mask@.len() == n
        &&& n <= MAX_RUN_LEN
        &&& self.pass <= n
        &&& self.cur <= n
        &&& self.swap_count <= self.pass
        &&& if self.finished {
            &&& forall|k: int| 0 <= k < n ==> self.mask@[k]
            &&& non_decreasing(self.arr@)
            &&& self.cmp_count == pass_sum(n - 1, n)
        } else {
            &&& n >= 2
            &&& self.pass < n - 1
            &&& self.pass < self.cur < n
            &&& self.pass <= self.min_idx < self.cur
            &&& (forall|k: int| 0 <= k < n ==> (self.mask@[k] <==> k < self.pass))
            &&& prefix_settled(self.arr@, self.pass as int)
            &&& (forall|k: int|
                self.pass <= k < self.cur ==> self.arr@[self.min_idx as int]
                    <= #[trigger] self.arr@[k])
            &&& self.cmp_count == pass_sum(self.pass as int, n) + self.cur - self.pass - 1
        }
    }

    /// Start a run over the given bar heights. Arrays shorter than two
    /// elements are already in order, so their run is complete at once.
    pub fn new(heights: Vec<usize>) -> (s: Self)
        requires
            heights.len() <= MAX_RUN_LEN,
        ensures
            s.wf(),
            s.array() == heights@,
            s.comparisons() == 0,
            s.swaps() == 0,
            (s.done() <==> heights.len() < 2),
            s.pass() == 0,
            s.cursor() == if heights.len() < 2 { 0int } else { 1int },
            s.min_index() == 0,
            !s.done() ==> forall|k: int| 0 <= k < heights@.len() ==> !s.sorted_mask()[k],
    {
        let n = heights.len();
        let start_done = n < 2;
        let mask = uniform_mask(n, start_done);
        SelectionSort {
            arr: heights,
            mask,
            pass: 0,
            cur: if start_done { 0 } else { 1 },
            min_idx: 0,
            cmp_count: 0,
            swap_count: 0,
            finished: start_done,
        }
    }

    /// The position pair the next step will compare: the tracked minimum
    /// against the scan cursor, for rendering the highlight before the
    /// comparison is made.
    pub fn peek_compare(&self) -> (pair: (usize, usize))
        requires
            self.wf(),
            !self.done(),
        ensures
            pair.0 as int == self.min_index(),
            pair.1 as int == self.cursor(),
            pair.0 < pair.1,
            pair.1 < self.array().len(),
    {
        (self.min_idx, self.cur)
    }

    /// Perform one comparison between the tracked minimum and the scan
    /// cursor, and report it. The reported positions are always in bounds,
    /// distinct, and never below the current pass index, so no comparison
    /// ever references a position the scan has not visited. The array stays
    /// a rearrangement of the same values, and mask flags are never cleared.
    pub fn step(&mut self) -> (ev: CompareEvent)
        requires
            old(self).wf(),
            !old(self).done(),
        ensures
            final(self).wf(),
            ev.lo as int == old(self).min_index(),
            ev.hi as int == old(self).cursor(),
            old(self).pass() <= ev.lo as int,
            ev.lo < ev.hi,
            (ev.hi as int) < old(self).array().len(),
            final(self).array().to_multiset() == old(self).array().to_multiset(),
            final(self).array().len() == old(self).array().len(),
            final(self).comparisons() == old(self).comparisons() + 1,
            final(self).swaps() == old(self).swaps() + (if ev.swapped { 1u64 } else { 0u64 }),
            final(self).sorted_mask().len() == old(self).sorted_mask().len(),
            forall|k: int|
                0 <= k < old(self).sorted_mask().len() && old(self).sorted_mask()[k]
                    ==> final(self).sorted_mask()[k],
            ({
                let s = old(self).array();
                let n = s.len() as int;
                let p = old(self).pass();
                let newmin: int = if s[old(self).cursor()] < s[old(self).min_index()] {
                    old(self).cursor()
                } else {
                    old(self).min_index()
                };
                let last = old(self).cursor() + 1 == n;
                if !last {
                    &&& !ev.swapped
                    &&& final(self).array() == s
                    &&& !final(self).done()
                    &&& final(self).pass() == p
                    &&& final(self).cursor() == old(self).cursor() + 1
                    &&& final(self).min_index() == newmin
                    &&& final(self).sorted_mask() == old(self).sorted_mask()
                } else {
                    &&& ev.swapped == (newmin != p)
                    &&& final(self).array() == (if ev.swapped {
                        s.update(p, s[newmin]).update(newmin, s[p])
                    } else {
                        s
                    })
                    &&& (final(self).done() <==> p + 1 == n - 1)
                    &&& (!final(self).done() ==> {
                        &&& final(self).pass() == p + 1
                        &&& final(self).cursor() == p + 2
                        &&& final(self).min_index() == p + 1
                        &&& forall|k: int|
                            0 <= k < n ==> (final(self).sorted_mask()[k] <==> k < p + 1)
                    })
                }
            }),
            final(self).done() ==> non_decreasing(final(self).array()) && (forall|k: int|
                0 <= k < final(self).sorted_mask().len() ==> final(self).sorted_mask()[k]),
    {
        broadcast use vstd::seq_lib::to_multiset_update;

        let n = self.arr.len();
        let j = self.cur;
        let mi = self.min_idx;
        let ghost s = self.arr@;
        proof {
            lemma_counter_in_range(self.pass as int, self.cur as int, n as int);
        }
        self.cmp_count = self.cmp_count + 1;
        let new_min = if self.arr[j] < self.arr[mi] {
            j
        } else {
            mi
        };
        if j + 1 == n {
            // Scan complete: place the minimum of the unsettled region at
            // the pass position and settle it.
            let p = self.pass;
            let did_swap = new_min != p;
            if did_swap {
                let a_p = self.arr[p];
                let a_m = self.arr[new_min];
                self.arr[p] = a_m;
                self.arr[new_min] = a_p;
                self.swap_count = self.swap_count + 1;
                proof {
                    broadcast use vstd::multiset::group_multiset_axioms;
                    broadcast use vstd::seq_lib::group_to_multiset_ensures;

                    assert(s.contains(a_p)) by {
                        assert(s[p as int] == a_p);
                    }
                    assert(s.contains(a_m)) by {
                        assert(s[new_min as int] == a_m);
                    }
                    let s1 = s.update(p as int, a_m);
                    assert(s1.to_multiset() == s.to_multiset().insert(a_m).remove(a_p));
                    assert(s1[new_min as int] == a_m);
                    assert(self.arr@.to_multiset() == s1.to_multiset().insert(a_p).remove(a_m));
                    assert(self.arr@.to_multiset() =~= s.to_multiset());
                }
            }
            let ghost t = self.arr@;
            proof {
                // The pass position now holds the smallest unsettled value.
                assert(forall|k: int| p <= k < n ==> t[p as int] <= #[trigger] t[k]);
                assert(prefix_settled(t, p + 1));
            }
            self.mask[p] = true;
            if p + 1 == n - 1 {
                self.mask[n - 1] = true;
                self.pass = p + 1;
                self.finished = true;
                proof {
                    assert(non_decreasing(t)) by {
                        assert(prefix_settled(t, n - 1));
                    }
                }
            } else {
                self.pass = p + 1;
                self.cur = p + 2;
                self.min_idx = p + 1;
            }
            CompareEvent { lo: mi, hi: j, swapped: did_swap }
        } else {
            self.min_idx = new_min;
            self.cur = j + 1;
            CompareEvent { lo: mi, hi: j, swapped: false }
        }
    }

    /// The run is complete: every position is marked and the array is in
    /// non-decreasing order.
    pub fn is_done(&self) -> (b: bool)
        ensures
            b == self.done(),
    {
        self.finished
    }

    /// Read access to the current bar heights, for rendering a frame.
    pub fn current_heights(&self) -> (v: &Vec<usize>)
        ensures
            v@ == self.array(),
    {
        &self.arr
    }

    /// Read access to the current sorted mask, for rendering a frame.
    pub fn current_mask(&self) -> (v: &Vec<bool>)
        ensures
            v@ == self.sorted_mask(),
    {
        &self.mask
    }

    /// The counters accumulated so far. Selection sort never exits early.
    pub fn statistics(&self) -> (stats: RunStats)
        ensures
            stats.comparisons == self.comparisons(),
            stats.swaps == self.swaps(),
            !stats.early_exit,
    {
        RunStats { comparisons: self.cmp_count, swaps: self.swap_count, early_exit: false }
    }

    /// Give the array back when the run is over.
    pub fn into_heights(self) -> (v: Vec<usize>)
        ensures
            v@ == self.array(),
    {
        self.arr
    }
}

/// Run selection sort to completion. The result is a non-decreasing
/// rearrangement of the input, and the comparison count is exactly
/// `n * (n - 1) / 2` whatever the input order, stated here without division:
/// selection sort has no early exit.
pub fn selection_sort(heights: &mut Vec<usize>) -> (stats: RunStats)
    requires
        old(heights).len() <= MAX_RUN_LEN,
    ensures
        final(heights)@.len() == old(heights)@.len(),
        final(heights)@.to_multiset() == old(heights)@.to_multiset(),
        non_decreasing(final(heights)@),
        is_permutation_of_heights(old(heights)@) ==> strictly_ascending(final(heights)@)
            && final(heights)@ =~= ascending_heights(old(heights)@.len()),
        2 * stats.comparisons == old(heights)@.len() * (old(heights)@.len() - 1),
        stats.swaps <= old(heights)@.len(),
        !stats.early_exit,
{
    let mut taken: Vec<usize> = Vec::new();
    core::mem::swap(heights, &mut taken);
    let ghost init = taken@;
    let mut m = SelectionSort::new(taken);
    while !m.is_done()
        invariant
            m.wf(),
            m.array().len() == init.len(),
            m.array().to_multiset() == init.to_multiset(),
        decreases
            (if m.done() { 0int } else { 1int }),
            init.len() - m.pass(),
            init.len() - m.cursor(),
    {
        let _ev = m.step();
    }
    proof {
        if init.len() >= 1 {
            lemma_pass_sum_total(init.len() as int);
        }
    }
    let stats = m.statistics();
    let result = m.into_heights();
    proof {
        if is_permutation_of_heights(init) {
            lemma_sorted_permutation_ascends(init, result@);
        }
    }
    *heights = result;
    stats
}

} // verus!
