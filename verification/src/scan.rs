//! The tokenizer as a mathematical state machine.
//!
//! A [`Scan`] is an argument vector together with a position in it. The
//! functions here say which token stands at a position, which value can be
//! taken there, and where the scan goes on afterwards. The executable
//! [`Lexer`](crate::Lexer) is specified by them.

use crate::chars::{char_start, REPLACEMENT};
use crate::error::{invalid_cluster_message, invalid_name_message};
use crate::text::{body_of, starts_with_dash, starts_with_two_dashes, EQUALS};
use crate::token::TokenView;
use vstd::prelude::*;
use vstd::utf8::*;

verus! {

/// An argument vector and a position in it.
pub struct Scan {
    /// The arguments, each as raw bytes.
    pub argv: Seq<Seq<u8>>,
    /// The index of the argument being read. The scan is finished when it is
    /// no index of `argv`.
    pub index: nat,
    /// How many characters behind the dashes of the argument being read have
    /// been passed. It is 0 whenever a new argument is begun.
    pub offset: nat,
    /// Whether the first argument is taken to be the program's name.
    pub program_name: bool,
}

/// What a request for a token comes to.
pub enum Step {
    /// There is no token: the vector is exhausted, or the argument being read
    /// is `--` or `-`. The position stays.
    End,
    /// The flag to be read is not valid text. The position stays.
    Failure { message: Seq<char> },
    /// A token, and the scan after it.
    Token { token: TokenView, next: Scan },
}

/// The index in `body` of the `=` that parts a long flag's name from its
/// value: the first `=` there is, unless the body begins with it.
pub open spec fn name_end(body: Seq<u8>) -> Option<int> {
    match body.index_of_first(EQUALS) {
        Some(p) => if p > 0 {
            Some(p)
        } else {
            None
        },
        None => None,
    }
}

/// The bytes of a long flag's name: the body up to the `=` that parts it from
/// a value, or all of the body.
pub open spec fn name_bytes(body: Seq<u8>) -> Seq<u8> {
    match name_end(body) {
        Some(p) => body.take(p),
        None => body,
    }
}

impl Scan {
    /// The index at which reading begins.
    pub open spec fn first_index(program_name: bool) -> nat {
        if program_name {
            1
        } else {
            0
        }
    }

    /// The scan at the beginning of `argv`.
    pub open spec fn start(argv: Seq<Seq<u8>>, program_name: bool) -> Scan {
        Scan { argv, index: Self::first_index(program_name), offset: 0, program_name }
    }

    /// True when every argument has been passed.
    pub open spec fn finished(self) -> bool {
        self.index >= self.argv.len()
    }

    /// The argument being read.
    pub open spec fn current(self) -> Seq<u8>
        recommends
            !self.finished(),
    {
        self.argv[self.index as int]
    }

    /// The scan at the beginning of the next argument.
    pub open spec fn advance(self) -> Scan {
        Scan { index: self.index + 1, offset: 0, ..self }
    }

    /// The scan at character `offset` of the argument being read.
    pub open spec fn at_offset(self, offset: nat) -> Scan {
        Scan { offset, ..self }
    }

    /// True when nothing has been read yet.
    pub open spec fn untouched(self) -> bool {
        self.offset == 0 && self.index == Self::first_index(self.program_name)
    }

    /// The scan after the caller has said whether the vector begins with the
    /// program's name: begun anew where nothing has been read, else as it is.
    pub open spec fn with_program_name(self, program_name: bool) -> Scan {
        if self.untouched() {
            Scan { index: Self::first_index(program_name), program_name, ..self }
        } else {
            self
        }
    }

    /// The validity of a scan: a position inside an argument lies in a flag
    /// argument of the vector, behind well-formed characters.
    pub open spec fn wf(self) -> bool {
        self.offset > 0 ==> {
            &&& !self.finished()
            &&& starts_with_dash(self.current())
            &&& char_start(body_of(self.current()), self.offset) is Some
        }
    }

    /// What a request for a token comes to.
    pub open spec fn step(self) -> Step {
        if self.finished() {
            Step::End
        } else if starts_with_two_dashes(self.current()) {
            self.long_step()
        } else if starts_with_dash(self.current()) {
            self.short_step()
        } else {
            Step::Token { token: TokenView::Value(self.current()), next: self.advance() }
        }
    }

    /// The step at an argument that begins with two dashes. Alone they end
    /// the tokens. Else what follows them is a long flag: its name reaches to
    /// the parting `=` and must be valid UTF-8. Behind such a `=` the scan
    /// stays in the argument, at the character after the `=`, until the
    /// value is taken; asked for a token there, it yields the same flag
    /// again. Without such a `=` it goes on to the next argument.
    pub open spec fn long_step(self) -> Step
        recommends
            !self.finished(),
            starts_with_two_dashes(self.current()),
    {
        let body = body_of(self.current());
        let name = name_bytes(body);
        if body.len() == 0 {
            Step::End
        } else if !valid_utf8(name) {
            Step::Failure { message: invalid_name_message(self.current(), name) }
        } else {
            Step::Token {
                token: TokenView::LongFlag(decode_utf8(name)),
                next: if name_end(body) is Some {
                    self.at_offset(decode_utf8(name).len() + 1)
                } else {
                    self.advance()
                },
            }
        }
    }

    /// The step at an argument that begins with one dash. Alone it ends the
    /// tokens. Else what follows it is a cluster of short flags, and the
    /// character at the scan's offset is the flag, unless it is malformed or
    /// the replacement character. A `=` right behind the flag is passed over.
    /// Where characters are left after that, the scan stays in the argument;
    /// where none are, it goes on to the next argument. An offset that no
    /// valid scan holds counts as malformed.
    pub open spec fn short_step(self) -> Step
        recommends
            !self.finished(),
            starts_with_dash(self.current()),
            !starts_with_two_dashes(self.current()),
    {
        let body = body_of(self.current());
        if body.len() == 0 {
            Step::End
        } else {
            match char_start(body, self.offset) {
                Some(at) => {
                    let rest = body.skip(at);
                    let flag = decode_first_scalar(rest) as char;
                    let behind = at + length_of_first_scalar(rest);
                    let parted = behind < body.len() && body[behind] == EQUALS;
                    let resume = if parted {
                        behind + 1
                    } else {
                        behind
                    };
                    let passed: nat = if parted {
                        2
                    } else {
                        1
                    };
                    if !valid_first_scalar(rest) || flag == REPLACEMENT {
                        Step::Failure { message: invalid_cluster_message(self.current()) }
                    } else {
                        Step::Token {
                            token: TokenView::ShortFlag(flag),
                            next: if resume < body.len() {
                                self.at_offset(self.offset + passed)
                            } else {
                                self.advance()
                            },
                        }
                    }
                },
                None => Step::Failure { message: invalid_cluster_message(self.current()) },
            }
        }
    }

    /// The value that can be taken at the scan, and the scan after it. An
    /// argument without a dash is taken whole. Inside a flag argument, what
    /// is left of it from the scan's offset on is taken. At the beginning of
    /// a flag argument, and at the end of the vector, there is no value; nor
    /// is there at an offset that no valid scan holds.
    pub open spec fn value_step(self) -> Option<(Seq<u8>, Scan)> {
        if self.finished() {
            None
        } else if !starts_with_dash(self.current()) {
            Some((self.current(), self.advance()))
        } else if self.offset > 0 {
            match char_start(body_of(self.current()), self.offset) {
                Some(at) => Some((body_of(self.current()).skip(at), self.advance())),
                None => None,
            }
        } else {
            None
        }
    }
}

} // verus!
