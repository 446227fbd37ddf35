//! A pathologically simple command line argument tokenizer.
//!
//! The library turns a sequence of raw, possibly non-Unicode command line
//! arguments into a stream of tokens: short options, long options and
//! free-standing values.  The caller drives parsing by asking for the next
//! token in a loop and deciding, per token, whether to claim an attached
//! value.  No option schema is registered up front and no validation is
//! imposed; the caller interprets every token itself.
//!
//! Arguments are held as [`raw::RawString`] values: owned byte strings that
//! need not be valid UTF-8, mirroring how operating systems hand arguments
//! to a process.  The tokenizer decodes them byte by byte, recovers from
//! undecodable bytes with replacement characters, and never panics on any
//! input.

pub mod error;
pub mod model;
pub mod parser;
pub mod raw;
pub mod unicode;
pub mod value;

pub use error::Error;
pub use parser::Arg;
pub use parser::Parser;
pub use parser::RawArgs;
pub use parser::ValuesIter;
pub use raw::RawString;
pub use unicode::first_codepoint;
pub use unicode::Utf8Error;
pub use value::Sealed;
pub use value::ValueExt;
