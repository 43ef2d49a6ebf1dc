//! A tokenizer for command-line argument vectors.
//!
//! A [`Lexer`] walks a vector of raw arguments and hands out short flags,
//! long flags and positional values one at a time. After a flag, the caller
//! may take the flag's value: what is attached to the flag in the same
//! argument, or else the argument that follows. The tokenizer knows nothing
//! of which flags exist or what they mean: that is left to whoever reads the
//! tokens.
//!
//! Arguments are raw bytes and need not be valid UTF-8. Only the names of
//! flags are decoded; values come back as the bytes they were.
//!
//! The modules:
//! - [`lexer`]: the tokenizer itself.
//! - [`token`], [`error`]: what it hands out.
//! - [`scan`]: the tokenizer as a mathematical state machine, by which the
//!   executable one is specified.
//! - [`laws`], [`round_trip`]: what is proved of that state machine.
//! - [`text`], [`chars`]: dashes, separators and characters in raw bytes.
//! - [`decode`]: what is taken on trust from the standard library.

pub mod chars;
pub mod decode;
pub mod error;
pub mod laws;
pub mod lexer;
pub mod round_trip;
pub mod scan;
pub mod text;
pub mod token;

pub use error::Error;
pub use lexer::Lexer;
pub use token::Token;
