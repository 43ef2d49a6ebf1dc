//! Arguments as raw bytes: the dashes that introduce a flag, and the `=` that
//! parts a flag from its value.
//!
//! An argument is platform text, a sequence of bytes that need not be valid
//! UTF-8.

use vstd::prelude::*;

verus! {

/// The byte `-`.
pub const DASH: u8 = 0x2d;

/// The byte `=`.
pub const EQUALS: u8 = 0x3d;

/// True when `arg` begins with a dash.
pub open spec fn starts_with_dash(arg: Seq<u8>) -> bool {
    arg.len() >= 1 && arg[0] == DASH
}

/// True when `arg` begins with two dashes.
pub open spec fn starts_with_two_dashes(arg: Seq<u8>) -> bool {
    arg.len() >= 2 && arg[0] == DASH && arg[1] == DASH
}

/// The number of dashes that introduce `arg`: two, one or none.
pub open spec fn prefix_len(arg: Seq<u8>) -> int {
    if starts_with_two_dashes(arg) {
        2
    } else if starts_with_dash(arg) {
        1
    } else {
        0
    }
}

/// What follows the dash or dashes that introduce `arg`.
pub open spec fn body_of(arg: Seq<u8>) -> Seq<u8> {
    arg.skip(prefix_len(arg))
}

/// Whether `arg` begins with a dash.
pub(crate) fn has_dash(arg: &[u8]) -> (b: bool)
    ensures
        b == starts_with_dash(arg@),
{
    arg.len() >= 1 && arg[0] == DASH
}

/// Whether `arg` begins with two dashes.
pub(crate) fn has_two_dashes(arg: &[u8]) -> (b: bool)
    ensures
        b == starts_with_two_dashes(arg@),
{
    arg.len() >= 2 && arg[0] == DASH && arg[1] == DASH
}

/// The index of the first `=` in `text`.
pub(crate) fn find_equals(text: &[u8]) -> (found: Option<usize>)
    ensures
        match found {
            Some(i) => {
                &&& i < text@.len()
                &&& text@[i as int] == EQUALS
                &&& text@.index_of_first(EQUALS) == Some(i as int)
            },
            None => text@.index_of_first(EQUALS) is None,
        },
{
    let mut i: usize = 0;
    while i < text.len()
        invariant
            i <= text.len(),
            forall|j: int| 0 <= j < i ==> text@[j] != EQUALS,
        decreases text.len() - i,
    {
        if text[i] == EQUALS {
            proof {
                assert(text@.contains(EQUALS));
                text@.index_of_first_ensures(EQUALS);
            }
            return Some(i);
        }
        i += 1;
    }
    proof {
        assert(!text@.contains(EQUALS));
        text@.index_of_first_ensures(EQUALS);
    }
    None
}

} // verus!
