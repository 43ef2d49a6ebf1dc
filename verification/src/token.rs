//! The tokens that the tokenizer hands out.

use crate::text::DASH;
use vstd::prelude::*;
use vstd::string::*;
use vstd::utf8::*;

verus! {

/// One token of an argument vector.
#[derive(Debug, PartialEq, Eq)]
pub enum Token {
    /// One letter of a cluster of short flags, as in `-abc`.
    ShortFlag(char),
    /// The name of a long flag, as in `--name` or `--name=value`.
    LongFlag(String),
    /// A positional argument, raw: it need not be valid text.
    Value(Vec<u8>),
}

/// A token as a mathematical value.
pub enum TokenView {
    ShortFlag(char),
    LongFlag(Seq<char>),
    Value(Seq<u8>),
}

impl View for Token {
    type V = TokenView;

    open spec fn view(&self) -> TokenView {
        match self {
            Token::ShortFlag(c) => TokenView::ShortFlag(*c),
            Token::LongFlag(name) => TokenView::LongFlag(name@),
            Token::Value(raw) => TokenView::Value(raw@),
        }
    }
}

impl TokenView {
    /// True for the two kinds of flag.
    pub open spec fn is_flag(self) -> bool {
        !(self is Value)
    }

    /// A flag as one writes it: a dash and the letter, or two dashes and the
    /// name. A value has no such text.
    pub open spec fn flag_text(self) -> Option<Seq<char>> {
        match self {
            TokenView::ShortFlag(c) => Some("-"@.push(c)),
            TokenView::LongFlag(name) => Some("--"@ + name),
            TokenView::Value(_) => None,
        }
    }

    /// The bytes that stand for the token in an argument: for a flag its
    /// dashes and its letter or name in UTF-8, for a value the value.
    pub open spec fn written(self) -> Seq<u8> {
        match self {
            TokenView::ShortFlag(c) => seq![DASH] + encode_utf8(seq![c]),
            TokenView::LongFlag(name) => seq![DASH, DASH] + encode_utf8(name),
            TokenView::Value(raw) => raw,
        }
    }
}

impl Token {
    /// A flag as one writes it: `-a` for the short flag `a`, `--name` for the
    /// long flag `name`. `None` for a value.
    pub fn flag_text(&self) -> (text: Option<String>)
        ensures
            match text {
                Some(t) => self@.flag_text() == Some(t@),
                None => self@.flag_text() is None,
            },
    {
        match self {
            Token::ShortFlag(c) => {
                let mut text = String::from_str("-");
                text.push(*c);
                Some(text)
            },
            Token::LongFlag(name) => {
                let mut text = String::from_str("--");
                text.append(name.as_str());
                Some(text)
            },
            Token::Value(_) => None,
        }
    }
}

} // verus!
