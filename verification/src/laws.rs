//! What holds of every scan: laws of the state machine, proved once for all
//! argument vectors.

use crate::chars::{
    char_start, lemma_ascii_scalar, lemma_char_at_start, lemma_char_start_after_valid,
    lemma_char_start_bounds, lemma_first_scalar_alone, REPLACEMENT,
};
use crate::scan::{name_end, Scan, Step};
use crate::text::{body_of, starts_with_dash, starts_with_two_dashes, DASH, EQUALS};
use crate::token::TokenView;
use vstd::prelude::*;
use vstd::utf8::*;

verus! {

/// The tokens that `limit` requests in a row yield, up to the first request
/// that yields none.
pub open spec fn token_stream(scan: Scan, limit: nat) -> Seq<TokenView>
    decreases limit,
{
    if limit == 0 {
        seq![]
    } else {
        match scan.step() {
            Step::Token { token, next } => seq![token] + token_stream(next, (limit - 1) as nat),
            _ => seq![],
        }
    }
}

/// The arguments from the scan's index on, each as a value.
pub open spec fn values_ahead(scan: Scan) -> Seq<TokenView> {
    Seq::new(
        if scan.finished() {
            0
        } else {
            (scan.argv.len() - scan.index) as nat
        },
        |j: int| TokenView::Value(scan.argv[scan.index + j]),
    )
}

/// Where no argument ahead begins with a dash, the tokens are the arguments
/// ahead, one value for each, in their order and byte for byte; and however
/// many more tokens are asked for, there are no others.
pub proof fn lemma_values_in_order(scan: Scan, limit: nat)
    requires
        forall|i: int|
            scan.index <= i < scan.argv.len() ==> !starts_with_dash(#[trigger] scan.argv[i]),
        limit >= scan.argv.len() - scan.index,
    ensures
        token_stream(scan, limit) == values_ahead(scan),
    decreases limit,
{
    if scan.finished() {
        assert(token_stream(scan, limit) =~= values_ahead(scan));
    } else {
        let next = scan.advance();
        lemma_values_in_order(next, (limit - 1) as nat);
        assert(token_stream(scan, limit) =~= values_ahead(scan));
    }
}

/// A request for a token leaves a valid scan valid, and never moves it back.
pub proof fn lemma_step_keeps_valid(scan: Scan)
    requires
        scan.wf(),
    ensures
        match scan.step() {
            Step::Token { token, next } => {
                &&& next.wf()
                &&& next.argv == scan.argv
                &&& next.program_name == scan.program_name
                &&& next == scan.advance() || (next.index == scan.index && next.offset > 0)
            },
            _ => true,
        },
{
    if !scan.finished() {
        let body = body_of(scan.current());
        if starts_with_two_dashes(scan.current()) {
            if let Some(p) = name_end(body) {
                body.index_of_first_ensures(EQUALS);
                if valid_utf8(body.take(p)) {
                    lemma_char_start_after_valid(body, p);
                    lemma_ascii_scalar(body.skip(p));
                    let n = decode_utf8(body.take(p)).len();
                    assert(char_start(body, n + 1) == Some(p + 1));
                }
            }
        } else if starts_with_dash(scan.current()) {
            if let Some(at) = char_start(body, scan.offset) {
                lemma_char_start_bounds(body, scan.offset);
                let rest = body.skip(at);
                if valid_first_scalar(rest) {
                    let behind = at + length_of_first_scalar(rest);
                    assert(char_start(body, scan.offset + 1) == Some(behind));
                    if behind < body.len() && body[behind] == EQUALS {
                        lemma_ascii_scalar(body.skip(behind));
                        assert(char_start(body, scan.offset + 2) == Some(behind + 1));
                    }
                }
            }
        }
    }
}

/// Taking a value always leaves the scan at the beginning of the next
/// argument.
pub proof fn lemma_value_moves_on(scan: Scan)
    ensures
        match scan.value_step() {
            Some((value, next)) => next == scan.advance() && next.wf(),
            None => true,
        },
{
}

/// Valid UTF-8 behind valid UTF-8 is valid UTF-8, and decodes to the
/// characters of the one followed by those of the other.
proof fn lemma_decode_joined(front: Seq<u8>, back: Seq<u8>)
    requires
        valid_utf8(front),
        valid_utf8(back),
    ensures
        valid_utf8(front + back),
        decode_utf8(front + back) == decode_utf8(front) + decode_utf8(back),
    decreases front.len(),
{
    valid_utf8_concat(front, back);
    if front.len() == 0 {
        assert(front + back =~= back);
    } else {
        let rest = pop_first_scalar(front);
        assert(valid_first_scalar(front + back));
        assert(pop_first_scalar(front + back) =~= rest + back);
        lemma_decode_joined(rest, back);
        assert(decode_utf8(front + back) =~= decode_utf8(front) + decode_utf8(back));
    }
}

/// An offset counts characters: the bytes before the start of character `k`
/// are valid UTF-8 and hold exactly `k` characters.
pub proof fn lemma_char_start_counts(text: Seq<u8>, k: nat)
    requires
        char_start(text, k) is Some,
    ensures
        valid_utf8(text.take(char_start(text, k).unwrap())),
        decode_utf8(text.take(char_start(text, k).unwrap())).len() == k,
    decreases k,
{
    if k == 0 {
        assert(text.take(0) =~= Seq::<u8>::empty());
    } else {
        let j = (k - 1) as nat;
        let q = char_start(text, j).unwrap();
        lemma_char_start_counts(text, j);
        lemma_char_start_bounds(text, j);
        let rest = text.skip(q);
        let w = length_of_first_scalar(rest);
        lemma_first_scalar_alone(rest);
        assert(text.take(q + w) =~= text.take(q) + rest.take(w));
        lemma_decode_joined(text.take(q), rest.take(w));
    }
}

/// In a valid scan the offset lies in the argument being read: behind the
/// dashes the argument begins with valid UTF-8 that holds as many characters
/// as the offset says.
pub proof fn lemma_offset_in_argument(scan: Scan)
    requires
        scan.wf(),
        !scan.finished(),
    ensures
        char_start(body_of(scan.current()), scan.offset) matches Some(end) && 0 <= end
            <= body_of(scan.current()).len() && valid_utf8(body_of(scan.current()).take(end))
            && decode_utf8(body_of(scan.current()).take(end)).len() == scan.offset,
{
    let body = body_of(scan.current());
    lemma_char_start_bounds(body, scan.offset);
    lemma_char_start_counts(body, scan.offset);
}

/// Two dashes alone yield no token and no value, and the scan stays before
/// them: it is not finished.
pub proof fn lemma_marker_stays(scan: Scan)
    requires
        !scan.finished(),
        scan.current() == seq![DASH, DASH],
        scan.offset == 0,
    ensures
        scan.step() == Step::End,
        scan.value_step() is None,
{
    assert(body_of(scan.current()) =~= Seq::<u8>::empty());
}

/// A long flag without a value of its own: the token is the name behind the
/// dashes, and the argument that follows is the flag's value, unchanged, if
/// it does not begin with a dash.
pub proof fn lemma_long_flag(scan: Scan, name: Seq<u8>)
    requires
        !scan.finished(),
        scan.current() == seq![DASH, DASH] + name,
        name.len() > 0,
        valid_utf8(name),
        !name.contains(EQUALS),
    ensures
        scan.step() == (Step::Token {
            token: TokenView::LongFlag(decode_utf8(name)),
            next: scan.advance(),
        }),
        !scan.advance().finished() && !starts_with_dash(scan.advance().current())
            ==> scan.advance().value_step() == Some(
            (scan.advance().current(), scan.advance().advance()),
        ),
{
    assert(body_of(scan.current()) =~= name);
    name.index_of_first_ensures(EQUALS);
}

/// A long flag with a value attached by `=`: the token is the name, the scan
/// stays in the argument, and the value taken there is exactly what follows
/// the `=`.
pub proof fn lemma_long_flag_with_value(scan: Scan, name: Seq<u8>, value: Seq<u8>)
    requires
        !scan.finished(),
        scan.current() == seq![DASH, DASH] + name + seq![EQUALS] + value,
        name.len() > 0,
        valid_utf8(name),
        !name.contains(EQUALS),
    ensures
        scan.step() == (Step::Token {
            token: TokenView::LongFlag(decode_utf8(name)),
            next: scan.at_offset(decode_utf8(name).len() + 1),
        }),
        scan.at_offset(decode_utf8(name).len() + 1).value_step() == Some((value, scan.advance())),
{
    let body = body_of(scan.current());
    let end = name.len() as int;
    assert(body =~= name + seq![EQUALS] + value);
    assert(body[end] == EQUALS);
    body.index_of_first_ensures(EQUALS);
    assert(body.index_of_first(EQUALS) == Some(end)) by {
        let found = body.index_of_first(EQUALS).unwrap();
        if found < end {
            assert(name[found] == EQUALS);
        }
    }
    assert(body.take(end) =~= name);
    assert(body.skip(end + 1) =~= value);
    lemma_char_start_after_valid(body, end);
    lemma_ascii_scalar(body.skip(end));
    assert(char_start(body, decode_utf8(name).len() + 1) == Some(end + 1));
}

/// The UTF-8 encoding of text begins with the encoding of its first
/// character, and with a dash only where that character is a dash.
proof fn lemma_encoding_begins_with(text: Seq<char>)
    requires
        text.len() > 0,
    ensures
        encode_utf8(text).len() > 0,
        valid_first_scalar(encode_utf8(text)),
        decode_first_scalar(encode_utf8(text)) as char == text[0],
        text.len() == 1 ==> length_of_first_scalar(encode_utf8(text)) == encode_utf8(text).len(),
        encode_utf8(text)[0] == DASH ==> text[0] == '-',
{
    let bytes = encode_utf8(text);
    encode_utf8_first_scalar(text);
    char_u32_cast(text[0], decode_first_scalar(bytes));
    if text.len() == 1 {
        assert(encode_utf8(text.drop_first()) =~= Seq::<u8>::empty());
        assert(bytes =~= encode_scalar(text[0] as u32));
    }
    if bytes[0] == DASH {
        assert(0x2du8 & 0x7f == 0x2d) by (bit_vector);
    }
}

/// A cluster of short flags yields its letters one by one, in their order,
/// and the scan leaves the argument behind the last of them.
pub proof fn lemma_cluster_letter(scan: Scan, letters: Seq<char>, k: nat)
    requires
        !scan.finished(),
        scan.current() == seq![DASH] + encode_utf8(letters),
        forall|i: int| 0 <= i < letters.len() ==> letters[i] != '=' && letters[i] != REPLACEMENT,
        k < letters.len(),
        letters[0] != '-',
        scan.offset == k,
    ensures
        scan.step() == (Step::Token {
            token: TokenView::ShortFlag(letters[k as int]),
            next: if k + 1 < letters.len() {
                scan.at_offset(k + 1)
            } else {
                scan.advance()
            },
        }),
{
    let body = encode_utf8(letters);
    encode_utf8_valid_utf8(letters);
    encode_utf8_decode_utf8(letters);
    lemma_encoding_begins_with(letters);
    assert(body_of(scan.current()) =~= body);
    lemma_char_at_start(body, k);
    let at = char_start(body, k).unwrap();
    lemma_char_start_bounds(body, k);
    let behind = at + length_of_first_scalar(body.skip(at));
    assert(char_start(body, k + 1) == Some(behind));
    if k + 1 < letters.len() {
        lemma_char_at_start(body, k + 1);
        if body[behind] == EQUALS {
            lemma_ascii_scalar(body.skip(behind));
            assert(0x3du8 & 0x7f == 0x3d) by (bit_vector);
        }
    } else {
        assert(body.take(body.len() as int) =~= body);
        lemma_char_start_after_valid(body, body.len() as int);
    }
}

/// A short flag with a value attached by `=`: the token is the letter, and
/// the value taken next is exactly what follows the `=`.
pub proof fn lemma_short_flag_with_value(scan: Scan, letter: char, value: Seq<u8>)
    requires
        !scan.finished(),
        scan.current() == seq![DASH] + encode_utf8(seq![letter]) + seq![EQUALS] + value,
        letter != '-',
        letter != REPLACEMENT,
        value.len() > 0,
        scan.offset == 0,
    ensures
        scan.step() == (Step::Token {
            token: TokenView::ShortFlag(letter),
            next: scan.at_offset(2),
        }),
        scan.at_offset(2).value_step() == Some((value, scan.advance())),
{
    let one = encode_utf8(seq![letter]);
    let w = one.len() as int;
    let body = one + seq![EQUALS] + value;
    lemma_encoding_begins_with(seq![letter]);
    assert(body_of(scan.current()) =~= body);
    assert(valid_first_scalar(body));
    assert(decode_first_scalar(body) == decode_first_scalar(one));
    assert(length_of_first_scalar(body) == w);
    assert(body.skip(0) =~= body);
    assert(char_start(body, 1) == Some(w));
    lemma_ascii_scalar(body.skip(w));
    assert(char_start(body, 2) == Some(w + 1));
    assert(body.skip(w + 1) =~= value);
}

} // verus!
