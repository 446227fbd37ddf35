//! Decoding raw values into text and typed values.
//!
//! A value handed out by the tokenizer is a raw byte string.  Decoding
//! it can fail in two independent ways, reported distinctly: the bytes
//! are not valid Unicode at all ([`crate::Error::NonUnicodeValue`]), or
//! they decode fine but the subsequent conversion rejects the text
//! ([`crate::Error::ParsingFailed`]).  Nothing here mutates the value.

use vstd::prelude::*;
use vstd::utf8::*;

use crate::error::Error;
use crate::error::ErrorModel;
use crate::raw::RawString;
use crate::unicode;

verus! {

/// Implementation detail: limits [`ValueExt`] to the library's own raw
/// string type.
pub trait Sealed {
}

impl Sealed for RawString {
}

/// An extension trait with the decoding conveniences for raw values.
pub trait ValueExt: Sealed + Sized {
    /// The value's bytes, for stating what decoding yields.
    spec fn bytes_view(&self) -> Seq<u8>;

    /// Decodes the value into a `String` when it is valid Unicode, and
    /// reports [`crate::Error::NonUnicodeValue`] carrying the value
    /// otherwise.
    fn string(self) -> (r: Result<String, Error>)
        ensures
            match r {
                Ok(s) => valid_utf8(self.bytes_view()) && s@ == decode_utf8(self.bytes_view()),
                Err(e) => !valid_utf8(self.bytes_view()) && e@ == ErrorModel::NonUnicodeValue(
                    self.bytes_view(),
                ),
            },
    ;
}

impl ValueExt for RawString {
    open spec fn bytes_view(&self) -> Seq<u8> {
        self@
    }

    fn string(self) -> (r: Result<String, Error>) {
        match unicode::utf8_to_string(self.as_bytes()) {
            Some(s) => Ok(s),
            None => Err(Error::NonUnicodeValue(self)),
        }
    }
}

/// True when the conversion `func`, applied to the text `t`, may accept
/// it with the value `v`.
pub open spec fn conversion_accepts<T, F: FnOnce(&str) -> Result<T, String>>(
    func: F,
    t: Seq<char>,
    v: T,
) -> bool {
    exists|s: &str| s@ == t && #[trigger] call_ensures(func, (s,), Ok::<T, String>(v))
}

/// True when the conversion `func`, applied to the text `t`, may reject
/// it with the description `msg`.
pub open spec fn conversion_rejects<T, F: FnOnce(&str) -> Result<T, String>>(
    func: F,
    t: Seq<char>,
    msg: Seq<char>,
) -> bool {
    exists|s: &str, m: String|
        s@ == t && m@ == msg && #[trigger] call_ensures(func, (s,), Err::<T, String>(m))
}

impl RawString {
    /// Decodes the value and applies a caller-supplied fallible
    /// conversion to the text.  The two failure modes stay distinct:
    /// undecodable bytes yield [`crate::Error::NonUnicodeValue`] with
    /// the value, a rejected text yields
    /// [`crate::Error::ParsingFailed`] with the text and the
    /// conversion's description of the failure.
    pub fn parse_with<T, F: FnOnce(&str) -> Result<T, String>>(&self, func: F) -> (r: Result<
        T,
        Error,
    >)
        requires
            forall|s: &str| #[trigger] func.requires((s,)),
        ensures
            match r {
                Ok(v) => valid_utf8(self@) && conversion_accepts(func, decode_utf8(self@), v),
                Err(e) => match e@ {
                    ErrorModel::NonUnicodeValue(b) => b == self@ && !valid_utf8(self@),
                    ErrorModel::ParsingFailed { value, error } => valid_utf8(self@) && value
                        == decode_utf8(self@) && conversion_rejects(
                        func,
                        decode_utf8(self@),
                        error,
                    ),
                    _ => false,
                },
            },
    {
        match unicode::utf8_to_string(self.as_bytes()) {
            None => Err(Error::NonUnicodeValue(self.clone())),
            Some(text) => {
                let s_ref = text.as_str();
                let out = func(s_ref);
                match out {
                    Ok(v) => {
                        proof {
                            assert(s_ref@ == decode_utf8(self@));
                            assert(call_ensures(func, (s_ref,), Ok::<T, String>(v)));
                            assert(conversion_accepts(func, decode_utf8(self@), v));
                        }
                        Ok(v)
                    },
                    Err(msg) => {
                        proof {
                            assert(s_ref@ == decode_utf8(self@));
                            assert(call_ensures(func, (s_ref,), Err::<T, String>(msg)));
                            assert(conversion_rejects(func, decode_utf8(self@), msg@));
                        }
                        Err(Error::ParsingFailed { value: text, error: msg })
                    },
                }
            },
        }
    }
}

} // verus!
