//! The closed set of sorting algorithms the visualizer can run, with the
//! display names and complexity labels shown in the text overlay.

use vstd::prelude::*;
use vstd::string::StringSliceAdditionalSpecFns;

verus! {

/// Which step algorithm drives a run. Immutable for the run's duration.
#[derive(Debug, Clone, Copy, PartialEq, Eq, Structural)]
pub enum SortAlgorithm {
    Bubble,
    Selection,
}

/// Display name of an algorithm, as shown in the window title and overlay.
pub fn algorithm_to_string(algo: SortAlgorithm) -> (name: &'static str)
    ensures
        algo is Bubble ==> name@ == "Bubble Sort"@,
        algo is Selection ==> name@ == "Selection Sort"@,
{
    match algo {
        SortAlgorithm::Bubble => "Bubble Sort",
        SortAlgorithm::Selection => "Selection Sort",
    }
}

/// Lower-cased image of an ASCII byte; other bytes are unchanged.
pub open spec fn ascii_lower(b: u8) -> u8 {
    if 0x41 <= b <= 0x5a {
        (b + 0x20) as u8
    } else {
        b
    }
}

/// The UTF-8 bytes of the token that selects selection sort.
pub open spec fn selection_token() -> Seq<u8> {
    seq![0x73u8, 0x65u8, 0x6cu8, 0x65u8, 0x63u8, 0x74u8, 0x69u8, 0x6fu8, 0x6eu8]
}

/// Whether a byte sequence spells the selection-sort token, ignoring ASCII case.
pub open spec fn is_selection_token(bs: Seq<u8>) -> bool {
    &&& bs.len() == selection_token().len()
    &&& forall|i: int| 0 <= i < bs.len() ==> ascii_lower(#[trigger] bs[i]) == selection_token()[i]
}

/// The algorithm a configuration token denotes: the selection-sort token picks
/// selection sort and everything else falls back to the default, bubble sort.
pub open spec fn algorithm_of_token(bs: Seq<u8>) -> SortAlgorithm {
    if is_selection_token(bs) {
        SortAlgorithm::Selection
    } else {
        SortAlgorithm::Bubble
    }
}

/// Byte of the selection-sort token at a given position.
fn selection_token_byte(i: usize) -> (b: u8)
    requires
        i < selection_token().len(),
    ensures
        b == selection_token()[i as int],
{
    match i {
        0 => 0x73,
        1 => 0x65,
        2 => 0x6c,
        3 => 0x65,
        4 => 0x63,
        5 => 0x74,
        6 => 0x69,
        7 => 0x6f,
        _ => 0x6e,
    }
}

/// Lower-case an ASCII byte at run time.
fn ascii_lower_byte(b: u8) -> (r: u8)
    ensures
        r == ascii_lower(b),
{
    if 0x41 <= b && b <= 0x5a {
        b + 0x20
    } else {
        b
    }
}

/// Parse a configuration token into an algorithm, ignoring ASCII case.
/// Unrecognized tokens fall back to bubble sort, the default.
pub fn string_to_algorithm(s: &str) -> (algo: SortAlgorithm)
    ensures
        algo == algorithm_of_token(s.spec_bytes()),
{
    let bs = s.as_bytes();
    if bs.len() != 9 {
        return SortAlgorithm::Bubble;
    }
    let mut i: usize = 0;
    while i < 9
        invariant
            bs@ == s.spec_bytes(),
            bs@.len() == 9,
            i <= 9,
            forall|k: int| 0 <= k < i ==> ascii_lower(#[trigger] bs@[k]) == selection_token()[k],
        decreases 9 - i,
    {
        if ascii_lower_byte(bs[i]) != selection_token_byte(i) {
            return SortAlgorithm::Bubble;
        }
        i += 1;
    }
    SortAlgorithm::Selection
}

/// Time-complexity label of an algorithm, for the text overlay.
pub fn get_time_complexity(algo: SortAlgorithm) -> (label: &'static str)
    ensures
        label@ == "O(n^2)"@,
{
    match algo {
        SortAlgorithm::Bubble => "O(n^2)",
        SortAlgorithm::Selection => "O(n^2)",
    }
}

/// Space-complexity label of an algorithm, for the text overlay.
pub fn get_space_complexity(algo: SortAlgorithm) -> (label: &'static str)
    ensures
        label@ == "O(1)"@,
{
    match algo {
        SortAlgorithm::Bubble => "O(1)",
        SortAlgorithm::Selection => "O(1)",
    }
}

} // verus!
