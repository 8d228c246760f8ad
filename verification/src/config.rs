//! Run configuration: documented defaults, the safe bounds out-of-range
//! requests are clamped to, the window split, and parsing of the numeric
//! configuration tokens. Invalid values never fail a run; they fall back to
//! a default or are clamped.

use vstd::prelude::*;
use vstd::string::StringSliceAdditionalSpecFns;

verus! {

/// Default number of bars in a run.
pub const ARRAY_SIZE: usize = 100;

/// Default delay between comparisons, in milliseconds.
pub const DELAY_MS: u64 = 10;

/// Smallest array size a run accepts.
pub const MIN_ARRAY_SIZE: usize = 1;

/// Largest array size a run accepts.
pub const MAX_ARRAY_SIZE: usize = 10000;

/// Longest inter-step delay a run accepts, in milliseconds.
pub const MAX_DELAY_MS: u64 = 1000;

/// Clamp a requested array size to the safe bounds.
pub fn clamp_array_size(requested: usize) -> (size: usize)
    ensures
        size == if requested < MIN_ARRAY_SIZE {
            MIN_ARRAY_SIZE as int
        } else if requested > MAX_ARRAY_SIZE {
            MAX_ARRAY_SIZE as int
        } else {
            requested as int
        },
        MIN_ARRAY_SIZE <= size <= MAX_ARRAY_SIZE,
{
    if requested < MIN_ARRAY_SIZE {
        MIN_ARRAY_SIZE
    } else if requested > MAX_ARRAY_SIZE {
        MAX_ARRAY_SIZE
    } else {
        requested
    }
}

/// Clamp a requested inter-step delay to the safe bound.
pub fn clamp_delay_ms(requested: u64) -> (delay: u64)
    ensures
        delay == if requested > MAX_DELAY_MS {
            MAX_DELAY_MS as int
        } else {
            requested as int
        },
        delay <= MAX_DELAY_MS,
{
    if requested > MAX_DELAY_MS {
        MAX_DELAY_MS
    } else {
        requested
    }
}

/// The window the run asks for: the right half of the screen, full height.
pub fn window_dimensions(screen_w: i32, screen_h: i32) -> (dims: (i32, i32))
    requires
        screen_w >= 0,
    ensures
        dims.0 == screen_w as int / 2,
        dims.1 == screen_h,
{
    (screen_w / 2, screen_h)
}

/// Whether a byte is an ASCII decimal digit.
pub open spec fn is_digit(b: u8) -> bool {
    0x30 <= b <= 0x39
}

/// Numeric value of an ASCII decimal digit.
pub open spec fn digit_value(b: u8) -> int {
    b - 0x30
}

/// Every byte of the sequence is an ASCII decimal digit.
pub open spec fn all_digits(bs: Seq<u8>) -> bool {
    forall|i: int| 0 <= i < bs.len() ==> is_digit(#[trigger] bs[i])
}

/// The number a sequence of decimal digits denotes.
pub open spec fn decimal_value(bs: Seq<u8>) -> int
    decreases bs.len(),
{
    if bs.len() == 0 {
        0
    } else {
        decimal_value(bs.drop_last()) * 10 + digit_value(bs.last())
    }
}

/// The digits of a numeric configuration token: an optional leading plus
/// sign is accepted and ignored.
pub open spec fn numeral_digits(bs: Seq<u8>) -> Seq<u8> {
    if bs.len() > 0 && bs[0] == 0x2bu8 {
        bs.skip(1)
    } else {
        bs
    }
}

/// What a numeric configuration token parses to: its decimal value, if the
/// token is one or more digits after an optional plus sign and the value
/// fits the machine's word; nothing otherwise.
pub open spec fn spec_parse_usize(bs: Seq<u8>) -> Option<usize> {
    let ds = numeral_digits(bs);
    if ds.len() > 0 && all_digits(ds) && decimal_value(ds) <= usize::MAX {
        Some(decimal_value(ds) as usize)
    } else {
        None
    }
}

/// A digit sequence's value never shrinks as digits are appended: the value
/// of any prefix is a lower bound for the whole.
proof fn lemma_decimal_prefix_bound(bs: Seq<u8>, i: int)
    requires
        all_digits(bs),
        0 <= i <= bs.len(),
    ensures
        0 <= decimal_value(bs.take(i)) <= decimal_value(bs),
    decreases bs.len() - i,
{
    if i == bs.len() {
        assert(bs.take(i) =~= bs);
        lemma_decimal_nonneg(bs);
    } else {
        lemma_decimal_prefix_bound(bs, i + 1);
        let shorter = bs.take(i);
        let longer = bs.take(i + 1);
        assert(longer.drop_last() =~= shorter);
        assert(longer.last() == bs[i]);
        assert(decimal_value(longer) == decimal_value(shorter) * 10 + digit_value(bs[i]));
        lemma_decimal_nonneg(shorter);
    }
}

/// A digit sequence's value is non-negative.
proof fn lemma_decimal_nonneg(bs: Seq<u8>)
    requires
        all_digits(bs),
    ensures
        decimal_value(bs) >= 0,
    decreases bs.len(),
{
    if bs.len() > 0 {
        assert(all_digits(bs.drop_last())) by {
            assert(forall|i: int|
                0 <= i < bs.len() - 1 ==> bs.drop_last()[i] == #[trigger] bs[i]);
        }
        lemma_decimal_nonneg(bs.drop_last());
        assert(is_digit(bs.last()));
    }
}

/// Parse a numeric configuration token. Returns its value when the token is
/// an optional plus sign followed by one or more decimal digits and the
/// value fits the machine's word; returns nothing for an empty, malformed
/// or oversized token, and the caller falls back to its default.
pub fn parse_usize(s: &str) -> (parsed: Option<usize>)
    ensures
        parsed == spec_parse_usize(s.spec_bytes()),
{
    let bs = s.as_bytes();
    let ghost all = bs@;
    let ghost ds = numeral_digits(all);
    let start: usize = if bs.len() > 0 && bs[0] == 0x2b {
        1
    } else {
        0
    };
    proof {
        assert(ds =~= all.skip(start as int));
    }
    if bs.len() == start {
        return None;
    }
    let mut acc: usize = 0;
    let mut i: usize = start;
    while i < bs.len()
        invariant
            bs@ == all,
            all == s.spec_bytes(),
            start <= i <= all.len(),
            ds == all.skip(start as int),
            ds == numeral_digits(all),
            ds.len() == all.len() - start,
            all_digits(ds.take(i - start)),
            acc == decimal_value(ds.take(i - start)),
        decreases bs@.len() - i,
    {
        let b = bs[i];
        proof {
            assert(ds.take(i - start + 1).drop_last() =~= ds.take(i - start));
            assert(ds.take(i - start + 1).last() == all[i as int]);
        }
        if b < 0x30 || b > 0x39 {
            proof {
                assert(ds[i - start] == all[i as int]);
                assert(!is_digit(ds[i - start]));
                assert(!all_digits(ds));
            }
            return None;
        }
        let d = (b - 0x30) as usize;
        if acc > (usize::MAX - d) / 10 {
            // The next digit pushes the value past the machine's word, and
            // further digits can only grow it.
            proof {
                let grown = ds.take(i - start + 1);
                assert(decimal_value(grown) == acc * 10 + d);
                assert(acc * 10 + d > usize::MAX) by (nonlinear_arith)
                    requires acc > (usize::MAX - d) / 10, 0 <= d <= 9;
                if all_digits(ds) {
                    lemma_decimal_prefix_bound(ds, i - start + 1);
                    assert(decimal_value(ds) > usize::MAX);
                }
            }
            return None;
        }
        proof {
            assert(acc * 10 + d <= usize::MAX) by (nonlinear_arith)
                requires acc <= (usize::MAX - d) / 10, 0 <= d;
        }
        acc = acc * 10 + d;
        i = i + 1;
    }
    proof {
        assert(ds.take(ds.len() as int) =~= ds);
    }
    Some(acc)
}

} // verus!
