//! Step events, run statistics, and the ordering facts shared by the two
//! step algorithms.
//!
//! A step algorithm performs one comparison per `step` call and reports it as
//! a [`CompareEvent`], so a caller can draw a frame and play a tone between
//! comparisons. The spec functions here define the ordering and permutation
//! vocabulary the algorithm contracts are written in.

use vstd::prelude::*;
use vstd::relations::{sorted_by, total_ordering};
use vstd::seq_lib::lemma_sorted_unique;

verus! {

/// One comparison reported by a step algorithm: the two positions compared,
/// and whether the array was mutated by a swap during this step.
#[derive(Debug, Clone, Copy, PartialEq, Eq, Structural)]
pub struct CompareEvent {
    /// Lower of the two compared positions.
    pub lo: usize,
    /// Higher of the two compared positions.
    pub hi: usize,
    /// Whether this step swapped two array elements.
    pub swapped: bool,
}

/// Counters accumulated over a run and reported at completion.
#[derive(Debug, Clone, Copy, PartialEq, Eq, Structural)]
pub struct RunStats {
    /// Total comparisons performed.
    pub comparisons: u64,
    /// Total swaps performed.
    pub swaps: u64,
    /// Whether bubble sort ended early because a full pass saw no swap.
    pub early_exit: bool,
}

/// Largest array length a run accepts; keeps the comparison counters within
/// `u64` because a run makes fewer than `n * n` comparisons.
pub const MAX_RUN_LEN: usize = 0xffff_ffff;

/// A vector of `n` copies of one flag value: a fresh sorted mask.
pub(crate) fn uniform_mask(n: usize, v: bool) -> (mask: Vec<bool>)
    ensures
        mask@.len() == n,
        forall|k: int| 0 <= k < n ==> mask@[k] == v,
{
    let mut mask: Vec<bool> = Vec::new();
    let mut idx: usize = 0;
    while idx < n
        invariant
            mask@.len() == idx,
            idx <= n,
            forall|k: int| 0 <= k < idx ==> mask@[k] == v,
        decreases n - idx,
    {
        mask.push(v);
        idx += 1;
    }
    mask
}

/// The sequence is in non-decreasing order.
pub open spec fn non_decreasing(s: Seq<usize>) -> bool {
    forall|m: int, k: int| 0 <= m < k < s.len() ==> s[m] <= s[k]
}

/// The sequence is in strictly ascending order.
pub open spec fn strictly_ascending(s: Seq<usize>) -> bool {
    forall|m: int, k: int| 0 <= m < k < s.len() ==> s[m] < s[k]
}

/// Every position at or above `b` holds a value no smaller than every value
/// below it, and the region `[b, len)` is itself non-decreasing. This is the
/// settled suffix bubble sort grows from the right.
pub open spec fn suffix_settled(s: Seq<usize>, b: int) -> bool {
    forall|k: int|
        b <= k < s.len() ==> forall|m: int| 0 <= m < k ==> #[trigger] s[m] <= #[trigger] s[k]
}

/// Every position below `i` holds a value no larger than every value above
/// it, and the region `[0, i)` is itself non-decreasing. This is the settled
/// prefix selection sort grows from the left.
pub open spec fn prefix_settled(s: Seq<usize>, i: int) -> bool {
    forall|m: int|
        0 <= m < i ==> forall|k: int| m < k < s.len() ==> #[trigger] s[m] <= #[trigger] s[k]
}

/// The ascending sequence `1, 2, ..., n` of bar heights.
pub open spec fn ascending_heights(n: nat) -> Seq<usize> {
    Seq::new(n, |k: int| (k + 1) as usize)
}

/// The sequence holds each height `1..=n` exactly once, in some order.
pub open spec fn is_permutation_of_heights(s: Seq<usize>) -> bool {
    s.to_multiset() == ascending_heights(s.len()).to_multiset()
}

/// Comparisons performed by `i` completed passes over an array of length `n`,
/// where pass `p` compares `n - 1 - p` position pairs. Both bubble and
/// selection sort shrink their scan by one position per pass, so both count
/// their comparisons with this sum.
pub open spec fn pass_sum(i: int, n: int) -> int
    decreases i,
{
    if i <= 0 {
        0
    } else {
        pass_sum(i - 1, n) + (n - i)
    }
}

/// `pass_sum` is bounded by `i * n`, which keeps the comparison counters
/// within `u64` for any array length below `2^32`.
pub(crate) proof fn lemma_pass_sum_bound(i: int, n: int)
    requires
        0 <= i <= n,
    ensures
        0 <= pass_sum(i, n) <= i * n,
    decreases i,
{
    if i > 0 {
        lemma_pass_sum_bound(i - 1, n);
        assert((i - 1) * n == i * n - n) by (nonlinear_arith);
    }
}

/// `pass_sum(i, n) + j` stays below `n * n`, so the comparison counters of a
/// run over at most `MAX_RUN_LEN` elements never overflow a `u64`.
pub(crate) proof fn lemma_counter_in_range(i: int, j: int, n: int)
    requires
        0 <= i < n,
        0 <= j < n,
        n <= 0xffff_ffff,
    ensures
        0 <= pass_sum(i, n) + j < n * n,
        n * n < u64::MAX,
{
    lemma_pass_sum_bound(i, n);
    assert(i * n + n <= n * n) by (nonlinear_arith)
        requires 0 <= i < n;
    assert(n * n <= 0xffff_ffff * 0xffff_ffff) by (nonlinear_arith)
        requires 0 <= n <= 0xffff_ffff;
}

/// More completed passes mean more comparisons: `pass_sum` grows with its
/// pass count, up to the full sum of all `n - 1` passes.
pub(crate) proof fn lemma_pass_sum_monotone(i: int, j: int, n: int)
    requires
        0 <= i <= j <= n,
    ensures
        pass_sum(i, n) <= pass_sum(j, n),
    decreases j,
{
    if i < j {
        lemma_pass_sum_monotone(i, j - 1, n);
    }
}

/// All `n - 1` passes together perform `n * (n - 1) / 2` comparisons: the
/// closed form of the full pass sum, stated without division.
pub(crate) proof fn lemma_pass_sum_total(n: int)
    requires
        n >= 1,
    ensures
        2 * pass_sum(n - 1, n) == n * (n - 1),
    decreases n,
{
    if n > 1 {
        lemma_pass_sum_total(n - 1);
        lemma_pass_sum_shift(n - 2, n - 1);
        assert(pass_sum(n - 2, n) == pass_sum(n - 2, n - 1) + (n - 2));
        assert(pass_sum(n - 1, n) == pass_sum(n - 2, n) + 1);
        assert(2 * pass_sum(n - 1, n) == (n - 1) * (n - 2) + 2 * (n - 2) + 2);
        assert((n - 1) * (n - 2) + 2 * (n - 2) + 2 == n * (n - 1)) by (nonlinear_arith);
        assert(2 * pass_sum(n - 1, n) == n * (n - 1));
    } else {
        assert(pass_sum(0, n) == 0);
    }
}

/// Each pass of `pass_sum(i, n)` is one comparison longer than the matching
/// pass over an array one element shorter.
proof fn lemma_pass_sum_shift(i: int, n: int)
    requires
        i >= 0,
    ensures
        pass_sum(i, n + 1) == pass_sum(i, n) + i,
    decreases i,
{
    if i > 0 {
        lemma_pass_sum_shift(i - 1, n);
    }
}

/// A run of adjacent comparisons with no inversion makes the prefix
/// non-decreasing: if `s[m] <= s[m + 1]` for every `m` below `b`, then any
/// two positions up to `b` are ordered.
pub(crate) proof fn lemma_adjacent_sorted_prefix(s: Seq<usize>, b: int)
    requires
        0 <= b < s.len(),
        forall|m: int| 0 <= m < b ==> #[trigger] s[m] <= s[m + 1],
    ensures
        forall|m: int, k: int| 0 <= m < k <= b ==> s[m] <= s[k],
    decreases b,
{
    if b > 0 {
        lemma_adjacent_sorted_prefix(s, b - 1);
        assert forall|m: int, k: int| 0 <= m < k <= b implies s[m] <= s[k] by {
            if k == b {
                assert(s[b - 1] <= s[b]);
                if m < b - 1 {
                    assert(s[m] <= s[b - 1]);
                }
            }
        }
    }
}

/// The law behind every completed run: a non-decreasing rearrangement of a
/// permutation of the heights `1..=n` is exactly the ascending sequence
/// `1, 2, ..., n`, and so is strictly ascending. Running either step
/// algorithm to completion therefore yields a strictly ascending sequence.
pub proof fn lemma_sorted_permutation_ascends(input: Seq<usize>, output: Seq<usize>)
    requires
        input.len() <= usize::MAX,
        is_permutation_of_heights(input),
        output.to_multiset() == input.to_multiset(),
        non_decreasing(output),
    ensures
        output =~= ascending_heights(input.len()),
        strictly_ascending(output),
{
    broadcast use vstd::seq_lib::group_to_multiset_ensures;

    let ideal = ascending_heights(input.len());
    let leq = |a: usize, b: usize| a <= b;
    assert(total_ordering(leq));
    assert(sorted_by(output, leq));
    assert forall|m: int, k: int| 0 <= m < k < ideal.len() implies leq(ideal[m], ideal[k]) by {
        assert(ideal[m] == m + 1);
        assert(ideal[k] == k + 1);
    }
    assert(sorted_by(ideal, leq));
    assert(output.to_multiset().len() == output.len());
    assert(input.to_multiset().len() == input.len());
    assert(ideal.to_multiset().len() == ideal.len());
    lemma_sorted_unique(output, ideal, leq);
}

} // verus!
