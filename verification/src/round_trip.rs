//! The round trip: what a caller gathers from a vector is the vector.
//!
//! A caller who asks for every token and, after each flag, for the flag's
//! value, gathers pieces. Written out one behind the other, flags with their
//! dashes, the pieces are the arguments again, byte for byte, but for the `=`
//! that stood between a flag and its value.

use crate::chars::{
    char_start, lemma_ascii_scalar, lemma_char_start_after_valid, lemma_first_scalar_alone,
};
use crate::scan::{name_end, Scan, Step};
use crate::text::{body_of, starts_with_dash, starts_with_two_dashes, DASH, EQUALS};
use crate::token::TokenView;
use vstd::prelude::*;
use vstd::utf8::*;

verus! {

/// A token together with the value that was taken right after it, if there
/// was one.
pub struct Piece {
    pub token: TokenView,
    pub value: Option<Seq<u8>>,
}

impl Piece {
    /// The bytes of the piece: the token as it is written, then the value.
    pub open spec fn written(self) -> Seq<u8> {
        match self.value {
            Some(value) => self.token.written() + value,
            None => self.token.written(),
        }
    }
}

/// One round of a caller who asks for a token and, if it is a flag, for the
/// flag's value: the piece gathered, and the scan after it. `None` where the
/// request for a token yields none.
pub open spec fn gather(scan: Scan) -> Option<(Piece, Scan)> {
    match scan.step() {
        Step::Token { token, next } => if token.is_flag() {
            match next.value_step() {
                Some((value, after)) => Some((Piece { token, value: Some(value) }, after)),
                None => Some((Piece { token, value: None }, next)),
            }
        } else {
            Some((Piece { token, value: None }, next))
        },
        _ => None,
    }
}

/// The pieces of `limit` such rounds in a row, up to the first round that
/// yields no token.
pub open spec fn collect(scan: Scan, limit: nat) -> Seq<Piece>
    decreases limit,
{
    if limit == 0 {
        seq![]
    } else {
        match gather(scan) {
            Some((piece, after)) => seq![piece] + collect(after, (limit - 1) as nat),
            None => seq![],
        }
    }
}

/// The bytes of all `pieces`, one behind the other.
pub open spec fn written_all(pieces: Seq<Piece>) -> Seq<u8>
    decreases pieces.len(),
{
    if pieces.len() == 0 {
        seq![]
    } else {
        pieces[0].written() + written_all(pieces.drop_first())
    }
}

/// The index in `arg` of the `=` that the tokenizer passes over when it parts
/// a flag from the value in the same argument: behind the name of a long
/// flag, or right behind the first letter of a cluster.
pub open spec fn separator_index(arg: Seq<u8>) -> Option<int> {
    let body = body_of(arg);
    if starts_with_two_dashes(arg) {
        match name_end(body) {
            Some(p) => Some(2 + p),
            None => None,
        }
    } else if starts_with_dash(arg) {
        let behind = length_of_first_scalar(body);
        if valid_first_scalar(body) && behind < body.len() && body[behind] == EQUALS {
            Some(1 + behind)
        } else {
            None
        }
    } else {
        None
    }
}

/// The argument without that `=`.
pub open spec fn without_separator(arg: Seq<u8>) -> Seq<u8> {
    match separator_index(arg) {
        Some(i) => arg.remove(i),
        None => arg,
    }
}

/// The arguments from index `from` on, one behind the other, each without
/// its separator.
pub open spec fn written_ahead(argv: Seq<Seq<u8>>, from: nat) -> Seq<u8>
    decreases argv.len() - from,
{
    if from >= argv.len() {
        seq![]
    } else {
        without_separator(argv[from as int]) + written_ahead(argv, from + 1)
    }
}

/// True when a request for a token at the beginning of `arg` yields one:
/// `arg` is neither `--` nor `-`, and the flag at its beginning, if it is a
/// flag argument, is valid text.
pub open spec fn readable(arg: Seq<u8>) -> bool {
    Scan::start(seq![arg], false).step() is Token
}

/// One round at the beginning of a readable argument gathers that argument,
/// less its separator; and with it the next argument, if that one was taken
/// as the flag's value. The scan is then at the beginning of what follows.
pub proof fn lemma_gather_writes_argument(scan: Scan)
    requires
        scan.offset == 0,
        !scan.finished(),
        readable(scan.current()),
    ensures
        gather(scan) matches Some((piece, after)) && after.offset == 0 && after.argv == scan.argv
            && ({
            ||| after.index == scan.index + 1 && piece.written() == without_separator(
                scan.current(),
            )
            ||| after.index == scan.index + 2 && !scan.advance().finished() && !starts_with_dash(
                scan.advance().current(),
            ) && piece.written() == without_separator(scan.current())
                + scan.advance().current()
        }),
{
    let arg = scan.current();
    let body = body_of(arg);
    let alone = Scan::start(seq![arg], false);
    assert(alone.current() == arg);
    if starts_with_two_dashes(arg) {
        assert(arg =~= seq![DASH, DASH] + body);
        match name_end(body) {
            Some(p) => {
                body.index_of_first_ensures(EQUALS);
                let name = body.take(p);
                decode_utf8_encode_utf8(name);
                lemma_char_start_after_valid(body, p);
                lemma_ascii_scalar(body.skip(p));
                let n = decode_utf8(name).len();
                assert(char_start(body, n + 1) == Some(p + 1));
                assert(seq![DASH, DASH] + name + body.skip(p + 1)
                    =~= arg.remove(2 + p));
            },
            None => {
                decode_utf8_encode_utf8(body);
            },
        }
    } else if starts_with_dash(arg) {
        assert(arg =~= seq![DASH] + body);
        assert(body.skip(0) =~= body);
        let behind = length_of_first_scalar(body);
        lemma_first_scalar_alone(body);
        decode_utf8_encode_utf8(body.take(behind));
        assert(char_start(body, 1) == Some(behind));
        if behind < body.len() && body[behind] == EQUALS {
            lemma_ascii_scalar(body.skip(behind));
            assert(char_start(body, 2) == Some(behind + 1));
            assert(seq![DASH] + body.take(behind) + body.skip(behind + 1)
                =~= arg.remove(1 + behind));
            if behind + 1 >= body.len() {
                assert(seq![DASH] + body.take(behind) =~= arg.remove(1 + behind));
            }
        } else {
            assert(seq![DASH] + body.take(behind) + body.skip(behind) =~= arg);
            if behind >= body.len() {
                assert(seq![DASH] + body.take(behind) =~= arg);
            }
        }
    }
}

/// Every value and every flag with its value, written one behind the other
/// in the order in which they were gathered, give back the arguments that
/// were read, less the separators that were passed over, wherever every
/// argument ahead is readable.
pub proof fn lemma_round_trip(scan: Scan, limit: nat)
    requires
        scan.offset == 0,
        forall|i: int| scan.index <= i < scan.argv.len() ==> readable(#[trigger] scan.argv[i]),
        limit >= scan.argv.len() - scan.index,
    ensures
        written_all(collect(scan, limit)) == written_ahead(scan.argv, scan.index),
    decreases limit,
{
    if !scan.finished() {
        lemma_gather_writes_argument(scan);
        let (piece, after) = gather(scan).unwrap();
        let rest = collect(after, (limit - 1) as nat);
        lemma_round_trip(after, (limit - 1) as nat);
        assert((seq![piece] + rest).drop_first() =~= rest);
        if after.index == scan.index + 2 {
            let taken = scan.advance().current();
            assert(without_separator(taken) == taken);
            assert(written_ahead(scan.argv, scan.index + 1) == taken + written_ahead(
                scan.argv,
                scan.index + 2,
            ));
        }
        assert(written_all(collect(scan, limit)) =~= written_ahead(scan.argv, scan.index));
    }
}

} // verus!
