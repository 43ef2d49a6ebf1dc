//! The error that the tokenizer reports when a flag is not valid text.

use crate::decode::{lossy, lossy_text, utf8_failure_detail};
use vstd::prelude::*;
use vstd::string::*;

verus! {

/// A decoding failure, carried as the message that describes it.
#[derive(Debug)]
pub struct Error {
    ctx: String,
}

impl View for Error {
    type V = Seq<char>;

    /// The message.
    closed spec fn view(&self) -> Seq<char> {
        self.ctx@
    }
}

/// The message for a long flag whose name, the bytes `name` of the argument
/// `arg`, is not valid UTF-8: the argument as far as it can be shown, then
/// what is wrong with the name.
pub open spec fn invalid_name_message(arg: Seq<u8>, name: Seq<u8>) -> Seq<char> {
    "Invalid unicode character(s) in argument "@ + lossy_text(arg) + ": "@ + utf8_failure_detail(
        name,
    )
}

/// The message for a cluster of short flags, the argument `arg`, in which the
/// character to be read is malformed or is the replacement character.
pub open spec fn invalid_cluster_message(arg: Seq<u8>) -> Seq<char> {
    "Invalid unicode character in "@ + lossy_text(arg)
}

impl Error {
    /// The message, as an owned string.
    pub fn to_string(&self) -> (text: String)
        ensures
            text@ == self@,
    {
        self.ctx.clone()
    }

    /// The error for a long flag of `arg` whose name the standard library
    /// refused with the words `detail`.
    pub(crate) fn invalid_name(arg: &[u8], detail: &str) -> (err: Error)
        ensures
            err@ == "Invalid unicode character(s) in argument "@ + lossy_text(arg@) + ": "@
                + detail@,
    {
        let shown = lossy(arg);
        let mut ctx = String::from_str("Invalid unicode character(s) in argument ");
        ctx.append(shown.as_str());
        ctx.append(": ");
        ctx.append(detail);
        Error { ctx }
    }

    /// The error for a malformed character in the cluster `arg`.
    pub(crate) fn invalid_cluster(arg: &[u8]) -> (err: Error)
        ensures
            err@ == invalid_cluster_message(arg@),
    {
        let shown = lossy(arg);
        let mut ctx = String::from_str("Invalid unicode character in ");
        ctx.append(shown.as_str());
        Error { ctx }
    }
}

impl From<String> for Error {
    /// Wraps a message.
    fn from(value: String) -> (err: Error)
        ensures
            err@ == value@,
    {
        Error { ctx: value }
    }
}

impl vstd::std_specs::convert::FromSpecImpl<String> for Error {
    open spec fn obeys_from_spec() -> bool {
        true
    }

    closed spec fn from_spec(value: String) -> Error {
        Error { ctx: value }
    }
}

} // verus!
