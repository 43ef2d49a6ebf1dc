//! Characters in raw bytes.
//!
//! Positions inside an argument are counted in characters, and a position
//! only ever stands behind characters that were read as well-formed UTF-8
//! scalars. So every position has a byte index, [`char_start`], and the
//! bytes from there on can be anything.

use crate::decode::utf8_text;
use vstd::prelude::*;
use vstd::slice::*;
use vstd::string::*;
use vstd::utf8::*;

verus! {

/// The replacement character, which stands for malformed text.
pub const REPLACEMENT: char = '\u{fffd}';

/// The number of bytes that a scalar takes whose first byte is `lead`, or 0
/// when no scalar begins with that byte.
pub open spec fn lead_width(lead: u8) -> int {
    if is_leading_byte_width_1(lead) {
        1
    } else if is_leading_byte_width_2(lead) {
        2
    } else if is_leading_byte_width_3(lead) {
        3
    } else if is_leading_byte_width_4(lead) {
        4
    } else {
        0
    }
}

/// The byte index at which character number `k` of `text` begins, counting
/// from 0, when the `k` characters before it are well-formed UTF-8 scalars.
/// `None` when they are not, or when `text` holds fewer than `k` characters.
pub open spec fn char_start(text: Seq<u8>, k: nat) -> Option<int>
    decreases k,
{
    if k == 0 {
        Some(0)
    } else {
        match char_start(text, (k - 1) as nat) {
            Some(p) => if valid_first_scalar(text.skip(p)) {
                Some(p + length_of_first_scalar(text.skip(p)))
            } else {
                None
            },
            None => None,
        }
    }
}

/// A character's start lies inside the text or at its end, and no earlier
/// than the character's number.
pub proof fn lemma_char_start_bounds(text: Seq<u8>, k: nat)
    requires
        char_start(text, k) is Some,
    ensures
        k <= char_start(text, k).unwrap() <= text.len(),
    decreases k,
{
    if k > 0 {
        lemma_char_start_bounds(text, (k - 1) as nat);
    }
}

/// Where a later character begins, every earlier one begins too, and no
/// further on.
pub proof fn lemma_char_start_earlier(text: Seq<u8>, j: nat, k: nat)
    requires
        j <= k,
        char_start(text, k) is Some,
    ensures
        char_start(text, j) is Some,
        char_start(text, j).unwrap() <= char_start(text, k).unwrap(),
    decreases k - j,
{
    if j < k {
        lemma_char_start_earlier(text, j, (k - 1) as nat);
        lemma_char_start_bounds(text, (k - 1) as nat);
    }
}

/// Character starts in the text behind one scalar are those of the whole
/// text, moved by that scalar's width.
pub proof fn lemma_char_start_shift(text: Seq<u8>, k: nat)
    requires
        valid_first_scalar(text),
        char_start(pop_first_scalar(text), k) is Some,
    ensures
        char_start(text, k + 1) == Some(
            length_of_first_scalar(text) + char_start(pop_first_scalar(text), k).unwrap(),
        ),
    decreases k,
{
    let w = length_of_first_scalar(text);
    let rest = pop_first_scalar(text);
    if k == 0 {
        assert(text.skip(0) =~= text);
        assert(char_start(text, 0) == Some(0int));
    } else {
        let j = (k - 1) as nat;
        lemma_char_start_shift(text, j);
        lemma_char_start_bounds(rest, j);
        let q = char_start(rest, j).unwrap();
        assert(rest.skip(q) =~= text.skip(w + q));
    }
}

/// The end of a valid UTF-8 prefix is the start of the character whose number
/// is the count of characters in that prefix.
pub proof fn lemma_char_start_after_valid(text: Seq<u8>, end: int)
    requires
        0 <= end <= text.len(),
        valid_utf8(text.take(end)),
    ensures
        char_start(text, decode_utf8(text.take(end)).len()) == Some(end),
    decreases end,
{
    let head = text.take(end);
    if end == 0 {
        assert(decode_utf8(head).len() == 0);
    } else {
        let w = length_of_first_scalar(head);
        assert(valid_first_scalar(head));
        assert(valid_first_scalar(text));
        assert(length_of_first_scalar(text) == w);
        let rest = pop_first_scalar(text);
        assert(pop_first_scalar(head) =~= rest.take(end - w));
        lemma_char_start_after_valid(rest, end - w);
        let n = decode_utf8(rest.take(end - w)).len();
        assert(decode_utf8(head).len() == n + 1);
        lemma_char_start_shift(text, n);
    }
}

/// In valid text, the scalar that begins at the start of character `k` is
/// character `k` of the text.
pub proof fn lemma_char_at_start(text: Seq<u8>, k: nat)
    requires
        valid_utf8(text),
        k < decode_utf8(text).len(),
    ensures
        char_start(text, k) matches Some(at) && valid_first_scalar(text.skip(at))
            && decode_first_scalar(text.skip(at)) as char == decode_utf8(text)[k as int],
    decreases k,
{
    if k == 0 {
        assert(text.skip(0) =~= text);
    } else {
        let j = (k - 1) as nat;
        let rest = pop_first_scalar(text);
        assert(decode_utf8(text).drop_first() =~= decode_utf8(rest));
        lemma_char_at_start(rest, j);
        lemma_char_start_shift(text, j);
        lemma_char_start_bounds(rest, j);
        let q = char_start(rest, j).unwrap();
        assert(rest.skip(q) =~= text.skip(length_of_first_scalar(text) + q));
    }
}

/// One well-formed scalar alone is valid UTF-8 and decodes to one character.
pub proof fn lemma_first_scalar_alone(text: Seq<u8>)
    requires
        valid_first_scalar(text),
    ensures
        valid_utf8(text.take(length_of_first_scalar(text))),
        decode_utf8(text.take(length_of_first_scalar(text))) == seq![
            decode_first_scalar(text) as char,
        ],
{
    let w = length_of_first_scalar(text);
    let head = text.take(w);
    assert(valid_first_scalar(head));
    assert(pop_first_scalar(head) =~= Seq::<u8>::empty());
    assert(valid_utf8(pop_first_scalar(head)));
    assert(decode_utf8(pop_first_scalar(head)) =~= Seq::<char>::empty());
    assert(decode_first_scalar(head) == decode_first_scalar(text));
    assert(decode_utf8(head) =~= seq![decode_first_scalar(text) as char]);
}

/// Text begins with a well-formed scalar exactly when its first byte opens a
/// scalar and as many bytes as that byte announces are valid UTF-8.
pub proof fn lemma_first_scalar_by_width(text: Seq<u8>)
    requires
        text.len() > 0,
    ensures
        valid_first_scalar(text) <==> 1 <= lead_width(text[0]) <= text.len() && valid_utf8(
            text.take(lead_width(text[0])),
        ),
        valid_first_scalar(text) ==> length_of_first_scalar(text) == lead_width(text[0]),
{
    let w = lead_width(text[0]);
    if valid_first_scalar(text) {
        lemma_first_scalar_alone(text);
    }
    if 1 <= w <= text.len() && valid_utf8(text.take(w)) {
        let head = text.take(w);
        assert(valid_first_scalar(head));
        assert(valid_first_scalar(text));
    }
}

/// A byte below 128 is a scalar by itself.
pub proof fn lemma_ascii_scalar(text: Seq<u8>)
    requires
        text.len() > 0,
        text[0] <= 0x7f,
    ensures
        valid_first_scalar(text),
        length_of_first_scalar(text) == 1,
{
    let lead = text[0];
    assert(lead & 0x7f <= 0x7f) by (bit_vector);
}

/// The number of bytes of a scalar that begins with `lead`, or 0.
pub(crate) fn scalar_width(lead: u8) -> (w: usize)
    ensures
        w == lead_width(lead),
{
    if lead <= 0x7f {
        1
    } else if 0xc0 <= lead && lead <= 0xdf {
        2
    } else if 0xe0 <= lead && lead <= 0xef {
        3
    } else if 0xf0 <= lead && lead <= 0xf7 {
        4
    } else {
        0
    }
}

/// Reads the scalar that begins at byte `at` of `text`: the character, and
/// how many bytes it takes. `None` where no well-formed scalar begins.
pub(crate) fn scalar_at(text: &[u8], at: usize) -> (read: Option<(char, usize)>)
    requires
        at <= text@.len(),
    ensures
        match read {
            Some((c, w)) => {
                &&& valid_first_scalar(text@.skip(at as int))
                &&& c == decode_first_scalar(text@.skip(at as int)) as char
                &&& w == length_of_first_scalar(text@.skip(at as int))
                &&& at + w <= text@.len()
            },
            None => !valid_first_scalar(text@.skip(at as int)),
        },
{
    if at >= text.len() {
        return None;
    }
    let ghost rest = text@.skip(at as int);
    proof {
        lemma_first_scalar_by_width(rest);
    }
    let w: usize = scalar_width(text[at]);
    if w == 0 || w > text.len() - at {
        return None;
    }
    let scalar = slice_subrange(text, at, at + w);
    assert(scalar@ =~= rest.take(w as int));
    match utf8_text(scalar) {
        Ok(one) => {
            proof {
                lemma_first_scalar_alone(rest);
            }
            Some((one.get_char(0), w))
        },
        Err(_) => None,
    }
}

/// The byte index at which character number `k` of `text` begins.
pub(crate) fn char_position(text: &[u8], k: usize) -> (p: usize)
    requires
        char_start(text@, k as nat) is Some,
    ensures
        char_start(text@, k as nat) == Some(p as int),
        k <= p <= text@.len(),
{
    let mut p: usize = 0;
    let mut i: usize = 0;
    while i < k
        invariant
            i <= k,
            char_start(text@, k as nat) is Some,
            char_start(text@, i as nat) == Some(p as int),
            p <= text@.len(),
        decreases k - i,
    {
        proof {
            lemma_char_start_earlier(text@, (i + 1) as nat, k as nat);
            lemma_char_start_bounds(text@, (i + 1) as nat);
            lemma_first_scalar_by_width(text@.skip(p as int));
        }
        let w: usize = scalar_width(text[p]);
        p += w;
        i += 1;
    }
    proof {
        lemma_char_start_bounds(text@, k as nat);
    }
    p
}

} // verus!
