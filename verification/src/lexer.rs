//! The tokenizer.
//!
//! A [`Lexer`] is an argument vector and a position in it. Seen as a
//! mathematical value it is a [`Scan`], and each of its operations does what
//! the function of the same purpose says there.

use crate::chars::{
    char_position, char_start, lemma_ascii_scalar, lemma_char_start_after_valid,
    lemma_char_start_bounds, scalar_at, REPLACEMENT,
};
use crate::decode::utf8_text;
use crate::error::Error;
use crate::scan::{name_bytes, Scan, Step};
use crate::text::{body_of, find_equals, has_dash, has_two_dashes, EQUALS};
use crate::token::Token;
use vstd::prelude::*;
use vstd::slice::*;
use vstd::string::*;

verus! {

/// The arguments of a vector as byte sequences.
pub open spec fn arguments(argv: Seq<Vec<u8>>) -> Seq<Seq<u8>> {
    argv.map_values(|arg: Vec<u8>| arg@)
}

/// A tokenizer over one argument vector.
///
/// It keeps the vector as it was given and a position in it, and changes
/// nothing but the position.
#[derive(Debug)]
pub struct Lexer {
    argv: Vec<Vec<u8>>,
    index: usize,
    cursor: usize,
    program_name: bool,
}

impl View for Lexer {
    type V = Scan;

    closed spec fn view(&self) -> Scan {
        Scan {
            argv: arguments(self.argv@),
            index: self.index as nat,
            offset: self.cursor as nat,
            program_name: self.program_name,
        }
    }
}

impl Lexer {
    /// Every tokenizer is at a valid position.
    #[verifier::type_invariant]
    pub open spec fn valid(&self) -> bool {
        self@.wf()
    }

    /// A tokenizer at the beginning of `argv`: behind the program's name
    /// where the vector is said to begin with it, else at the first argument.
    pub fn from(argv: Vec<Vec<u8>>, includes_program_name: bool) -> (lexer: Lexer)
        ensures
            lexer@ == Scan::start(arguments(argv@), includes_program_name),
            lexer@.wf(),
    {
        let index: usize = if includes_program_name {
            1
        } else {
            0
        };
        Lexer { argv, index, cursor: 0, program_name: includes_program_name }
    }

    /// Says whether the vector begins with the program's name. This moves the
    /// beginning of the scan while nothing has been read, and does nothing
    /// afterwards.
    pub fn starts_with_program_name(&mut self, b: bool)
        ensures
            final(self)@.wf(),
            final(self)@.argv == old(self)@.argv,
            final(self)@ == old(self)@.with_program_name(b),
    {
        proof {
            use_type_invariant(&*self);
        }
        let first: usize = if self.program_name {
            1
        } else {
            0
        };
        if self.cursor == 0 && self.index == first {
            self.program_name = b;
            self.index = if b {
                1
            } else {
                0
            };
        }
    }

    /// Whether every argument has been passed.
    pub fn finished(&self) -> (done: bool)
        ensures
            done == self@.finished(),
    {
        self.index >= self.argv.len()
    }

    /// Hands out the token at the position and moves behind it.
    ///
    /// `Ok(None)` says that there is no token: the vector is exhausted, or
    /// the argument at the position is `--` or `-`, which stays unread. An
    /// error says that the flag at the position is not valid text; it stays
    /// unread as well.
    pub fn next_token(&mut self) -> (r: Result<Option<Token>, Error>)
        ensures
            final(self)@.wf(),
            final(self)@.argv == old(self)@.argv,
            final(self)@.index >= old(self)@.index,
            match old(self)@.step() {
                Step::End => r matches Ok(None) && final(self)@ == old(self)@,
                Step::Failure { message } => r matches Err(err) && err@ == message && final(self)@
                    == old(self)@,
                Step::Token { token, next } => r matches Ok(Some(found)) && found@ == token
                    && final(self)@ == next,
            },
    {
        proof {
            use_type_invariant(&*self);
        }
        if self.index >= self.argv.len() {
            return Ok(None);
        }
        let arg = self.argv[self.index].as_slice();
        if has_two_dashes(arg) {
            let body = slice_subrange(arg, 2, arg.len());
            assert(body@ =~= body_of(arg@));
            if body.len() == 0 {
                return Ok(None);
            }
            let parted: Option<usize> = match find_equals(body) {
                Some(p) => if p > 0 {
                    Some(p)
                } else {
                    None
                },
                None => None,
            };
            let name = match parted {
                Some(p) => slice_subrange(body, 0, p),
                None => body,
            };
            assert(name@ =~= name_bytes(body@));
            match utf8_text(name) {
                Err(detail) => Err(Error::invalid_name(arg, detail.as_str())),
                Ok(text) => {
                    let token = Token::LongFlag(text.to_owned());
                    match parted {
                        Some(p) => {
                            let count: usize = text.unicode_len();
                            proof {
                                lemma_char_start_after_valid(body@, p as int);
                                lemma_char_start_bounds(body@, count as nat);
                                lemma_ascii_scalar(body@.skip(p as int));
                            }
                            self.cursor = count + 1;
                        },
                        None => {
                            self.cursor = 0;
                            self.index += 1;
                        },
                    }
                    Ok(Some(token))
                },
            }
        } else if has_dash(arg) {
            let body = slice_subrange(arg, 1, arg.len());
            assert(body@ =~= body_of(arg@));
            if body.len() == 0 {
                return Ok(None);
            }
            let at: usize = char_position(body, self.cursor);
            match scalar_at(body, at) {
                None => Err(Error::invalid_cluster(arg)),
                Some((flag, width)) => {
                    if flag == REPLACEMENT {
                        return Err(Error::invalid_cluster(arg));
                    }
                    let behind: usize = at + width;
                    let parted = behind < body.len() && body[behind] == EQUALS;
                    let resume: usize = if parted {
                        behind + 1
                    } else {
                        behind
                    };
                    if resume < body.len() {
                        let passed: usize = if parted {
                            2
                        } else {
                            1
                        };
                        proof {
                            let k = self.cursor as nat;
                            assert(char_start(body@, k + 1) == Some(behind as int));
                            if parted {
                                lemma_ascii_scalar(body@.skip(behind as int));
                                assert(char_start(body@, k + 2) == Some(behind + 1));
                            }
                        }
                        self.cursor = self.cursor + passed;
                    } else {
                        self.cursor = 0;
                        self.index += 1;
                    }
                    Ok(Some(Token::ShortFlag(flag)))
                },
            }
        } else {
            let token = Token::Value(slice_to_vec(arg));
            self.cursor = 0;
            self.index += 1;
            Ok(Some(token))
        }
    }

    /// Takes the value at the position and moves behind it.
    ///
    /// Called after a flag, this gives the flag's value: what is left of the
    /// flag's own argument, or else the next argument if it does not begin
    /// with a dash. `None` says that there is no value; the position stays.
    pub fn get_value(&mut self) -> (r: Option<Vec<u8>>)
        ensures
            final(self)@.wf(),
            final(self)@.argv == old(self)@.argv,
            final(self)@.index >= old(self)@.index,
            match old(self)@.value_step() {
                Some((value, next)) => r matches Some(raw) && raw@ == value && final(self)@
                    == next,
                None => r is None && final(self)@ == old(self)@,
            },
    {
        proof {
            use_type_invariant(&*self);
        }
        if self.index >= self.argv.len() {
            return None;
        }
        let arg = self.argv[self.index].as_slice();
        if !has_dash(arg) {
            let value = slice_to_vec(arg);
            self.cursor = 0;
            self.index += 1;
            Some(value)
        } else if self.cursor > 0 {
            let dashes: usize = if has_two_dashes(arg) {
                2
            } else {
                1
            };
            let body = slice_subrange(arg, dashes, arg.len());
            assert(body@ =~= body_of(arg@));
            let at: usize = char_position(body, self.cursor);
            let value = slice_to_vec(slice_subrange(body, at, body.len()));
            self.cursor = 0;
            self.index += 1;
            Some(value)
        } else {
            None
        }
    }
}

} // verus!
