//! Parse failures and their rendering as single-line messages.
//!
//! Every failure of the tokenizer or of value decoding is an ordinary
//! value of [`Error`]; nothing here aborts the process.  Each error
//! carries enough context — the offending option's display name, the
//! stray value — to render one human-readable diagnostic line, produced
//! by [`Error::message`].  Raw values are shown between double quotes
//! with undecodable bytes escaped as `\xHH`, so the rendering is total on
//! arbitrary byte strings.

use vstd::prelude::*;
use vstd::string::*;
use vstd::utf8::*;

use crate::raw::RawString;
use crate::unicode;
use crate::unicode::skip_len_after_error;

verus! {

/// An error during argument parsing.
#[derive(Debug)]
#[allow(inconsistent_fields)]
pub enum Error {
    /// An option argument was expected but was not found.  Carries the
    /// most recently emitted option's display name, if any option was
    /// seen at all.
    MissingValue { option: Option<String> },
    /// An unexpected option was found; the name carries its dashes.
    UnexpectedOption(String),
    /// A positional argument was found when none was expected.
    UnexpectedArgument(RawString),
    /// An option had a value attached when none was expected, as in
    /// `--option=value` left unclaimed.
    UnexpectedValue { option: String, value: RawString },
    /// A value decoded as text, but the subsequent conversion rejected
    /// it; carries the text and the conversion failure's description.
    ParsingFailed { value: String, error: String },
    /// A value could not be decoded as valid Unicode at all.
    NonUnicodeValue(RawString),
    /// A caller-supplied ad-hoc message.
    Custom(String),
}

/// The mathematical content of an [`Error`]: each text as its character
/// sequence and each raw value as its byte sequence.
#[allow(inconsistent_fields)]
pub enum ErrorModel {
    MissingValue { option: Option<Seq<char>> },
    UnexpectedOption(Seq<char>),
    UnexpectedArgument(Seq<u8>),
    UnexpectedValue { option: Seq<char>, value: Seq<u8> },
    ParsingFailed { value: Seq<char>, error: Seq<char> },
    NonUnicodeValue(Seq<u8>),
    Custom(Seq<char>),
}

impl View for Error {
    type V = ErrorModel;

    open spec fn view(&self) -> ErrorModel {
        match self {
            Error::MissingValue { option } => ErrorModel::MissingValue {
                option: match option {
                    Some(o) => Some(o@),
                    None => None,
                },
            },
            Error::UnexpectedOption(o) => ErrorModel::UnexpectedOption(o@),
            Error::UnexpectedArgument(v) => ErrorModel::UnexpectedArgument(v@),
            Error::UnexpectedValue { option, value } => ErrorModel::UnexpectedValue {
                option: option@,
                value: value@,
            },
            Error::ParsingFailed { value, error } => ErrorModel::ParsingFailed {
                value: value@,
                error: error@,
            },
            Error::NonUnicodeValue(v) => ErrorModel::NonUnicodeValue(v@),
            Error::Custom(m) => ErrorModel::Custom(m@),
        }
    }
}

impl From<String> for Error {
    /// Promotes an ad-hoc message to an error.
    fn from(msg: String) -> (r: Error) {
        Error::Custom(msg)
    }
}

impl vstd::std_specs::convert::FromSpecImpl<String> for Error {
    open spec fn obeys_from_spec() -> bool {
        true
    }

    open spec fn from_spec(v: String) -> Error {
        Error::Custom(v)
    }
}

impl<'a> From<&'a str> for Error {
    /// Promotes an ad-hoc message to an error.
    fn from(msg: &'a str) -> (r: Error)
        ensures
            r@ matches ErrorModel::Custom(m) && m == msg@,
    {
        Error::Custom(msg.to_owned())
    }
}

impl<'a> vstd::std_specs::convert::FromSpecImpl<&'a str> for Error {
    open spec fn obeys_from_spec() -> bool {
        false
    }

    open spec fn from_spec(v: &'a str) -> Error {
        arbitrary()
    }
}

impl From<RawString> for Error {
    /// Wraps a value that failed to decode as Unicode.
    fn from(arg: RawString) -> (r: Error) {
        Error::NonUnicodeValue(arg)
    }
}

impl vstd::std_specs::convert::FromSpecImpl<RawString> for Error {
    open spec fn obeys_from_spec() -> bool {
        true
    }

    open spec fn from_spec(v: RawString) -> Error {
        Error::NonUnicodeValue(v)
    }
}

/// The lower-case hexadecimal digit for `d`.
pub open spec fn hex_digit_lower(d: int) -> char
    recommends
        0 <= d < 16,
{
    if d < 10 {
        (((0x30 + d) as u8) as char)
    } else {
        (((0x57 + d) as u8) as char)
    }
}

/// The upper-case hexadecimal digit for `d`.
pub open spec fn hex_digit_upper(d: int) -> char
    recommends
        0 <= d < 16,
{
    if d < 10 {
        (((0x30 + d) as u8) as char)
    } else {
        (((0x37 + d) as u8) as char)
    }
}

/// How one character is shown inside a quoted rendering: quotes and
/// backslashes gain a backslash, the common control characters use their
/// named escapes, other control characters appear as `\u{..}`, and
/// everything else stands for itself.
pub open spec fn escape_char(c: char) -> Seq<char> {
    if c == '"' {
        seq!['\\', '"']
    } else if c == '\\' {
        seq!['\\', '\\']
    } else if c == '\n' {
        seq!['\\', 'n']
    } else if c == '\r' {
        seq!['\\', 'r']
    } else if c == '\t' {
        seq!['\\', 't']
    } else if (c as u32) < 0x20 || (c as u32) == 0x7F {
        if (c as u32) < 0x10 {
            seq!['\\', 'u', '{', hex_digit_lower(c as int), '}']
        } else {
            seq![
                '\\',
                'u',
                '{',
                hex_digit_lower((c as int) / 16),
                hex_digit_lower((c as int) % 16),
                '}',
            ]
        }
    } else {
        seq![c]
    }
}

/// One undecodable byte, shown as `\xHH`.
pub open spec fn escape_byte(b: u8) -> Seq<char> {
    seq!['\\', 'x', hex_digit_upper(b as int / 16), hex_digit_upper(b as int % 16)]
}

/// Every byte of `s` shown as `\xHH`, in order.
pub open spec fn escape_bytes(s: Seq<u8>) -> Seq<char>
    decreases s.len(),
{
    if s.len() == 0 {
        Seq::<char>::empty()
    } else {
        escape_byte(s[0]) + escape_bytes(s.drop_first())
    }
}

/// The rendering of a raw byte string between the quotes: decoded
/// characters are escaped as [`escape_char`], each malformed unit's bytes
/// as [`escape_byte`].
pub open spec fn quote_body(s: Seq<u8>) -> Seq<char>
    decreases s.len(),
{
    if s.len() == 0 {
        Seq::<char>::empty()
    } else if valid_first_scalar(s) {
        escape_char(decode_first_scalar(s) as char) + quote_body(
            s.subrange(length_of_first_scalar(s), s.len() as int),
        )
    } else {
        escape_bytes(s.subrange(0, skip_len_after_error(s))) + quote_body(
            s.subrange(skip_len_after_error(s), s.len() as int),
        )
    }
}

/// Every character of `t` escaped as [`escape_char`], in order.
pub open spec fn escape_chars(t: Seq<char>) -> Seq<char>
    decreases t.len(),
{
    if t.len() == 0 {
        Seq::<char>::empty()
    } else {
        escape_char(t[0]) + escape_chars(t.drop_first())
    }
}

/// A raw byte string rendered between double quotes.
pub open spec fn quoted_bytes(s: Seq<u8>) -> Seq<char> {
    seq!['"'] + quote_body(s) + seq!['"']
}

/// A text rendered between double quotes.
pub open spec fn quoted_text(t: Seq<char>) -> Seq<char> {
    seq!['"'] + escape_chars(t) + seq!['"']
}

/// The one-line rendering of each error.
pub open spec fn message_spec(e: ErrorModel) -> Seq<char> {
    match e {
        ErrorModel::MissingValue { option } => match option {
            None => "missing argument"@,
            Some(o) => "missing argument for option '"@ + o + "'"@,
        },
        ErrorModel::UnexpectedOption(o) => "invalid option '"@ + o + "'"@,
        ErrorModel::UnexpectedArgument(v) => "unexpected argument "@ + quoted_bytes(v),
        ErrorModel::UnexpectedValue { option, value } => "unexpected argument for option '"@
            + option + "': "@ + quoted_bytes(value),
        ErrorModel::ParsingFailed { value, error } => "cannot parse argument "@ + quoted_text(value)
            + ": "@ + error,
        ErrorModel::NonUnicodeValue(v) => "argument is invalid unicode: "@ + quoted_bytes(v),
        ErrorModel::Custom(m) => m,
    }
}

fn hex_lower(d: u8) -> (c: char)
    requires
        d < 16,
    ensures
        c == hex_digit_lower(d as int),
{
    if d < 10 {
        (0x30 + d) as char
    } else {
        (0x57 + d) as char
    }
}

fn hex_upper(d: u8) -> (c: char)
    requires
        d < 16,
    ensures
        c == hex_digit_upper(d as int),
{
    if d < 10 {
        (0x30 + d) as char
    } else {
        (0x37 + d) as char
    }
}

fn push_escaped_char(out: &mut String, c: char)
    ensures
        final(out)@ == old(out)@ + escape_char(c),
{
    let ghost entry = out@;
    if c == '"' {
        unicode::push_char(out, '\\');
        unicode::push_char(out, '"');
        proof {
            assert(entry.push('\\').push('"') =~= entry + escape_char(c));
        }
    } else if c == '\\' {
        unicode::push_char(out, '\\');
        unicode::push_char(out, '\\');
        proof {
            assert(entry.push('\\').push('\\') =~= entry + escape_char(c));
        }
    } else if c == '\n' {
        unicode::push_char(out, '\\');
        unicode::push_char(out, 'n');
        proof {
            assert(entry.push('\\').push('n') =~= entry + escape_char(c));
        }
    } else if c == '\r' {
        unicode::push_char(out, '\\');
        unicode::push_char(out, 'r');
        proof {
            assert(entry.push('\\').push('r') =~= entry + escape_char(c));
        }
    } else if c == '\t' {
        unicode::push_char(out, '\\');
        unicode::push_char(out, 't');
        proof {
            assert(entry.push('\\').push('t') =~= entry + escape_char(c));
        }
    } else if (c as u32) < 0x20 || (c as u32) == 0x7F {
        let cp = c as u32;
        unicode::push_char(out, '\\');
        unicode::push_char(out, 'u');
        unicode::push_char(out, '{');
        if cp < 0x10 {
            let d = hex_lower(cp as u8);
            unicode::push_char(out, d);
            unicode::push_char(out, '}');
            proof {
                assert(entry.push('\\').push('u').push('{').push(hex_digit_lower(c as int)).push(
                    '}',
                ) =~= entry + escape_char(c));
            }
        } else {
            let hi = hex_lower((cp / 16) as u8);
            let lo = hex_lower((cp % 16) as u8);
            unicode::push_char(out, hi);
            unicode::push_char(out, lo);
            unicode::push_char(out, '}');
            proof {
                assert(entry.push('\\').push('u').push('{').push(
                    hex_digit_lower((c as int) / 16),
                ).push(hex_digit_lower((c as int) % 16)).push('}') =~= entry + escape_char(c));
            }
        }
    } else {
        unicode::push_char(out, c);
        proof {
            assert(entry.push(c) =~= entry + escape_char(c));
        }
    }
}

fn push_escaped_byte(out: &mut String, b: u8)
    ensures
        final(out)@ == old(out)@ + escape_byte(b),
{
    let ghost entry = out@;
    unicode::push_char(out, '\\');
    unicode::push_char(out, 'x');
    let hi = hex_upper(b / 16);
    let lo = hex_upper(b % 16);
    unicode::push_char(out, hi);
    unicode::push_char(out, lo);
    proof {
        assert(entry.push('\\').push('x').push(hex_digit_upper(b as int / 16)).push(
            hex_digit_upper(b as int % 16),
        ) =~= entry + escape_byte(b));
    }
}

fn push_quote_body(out: &mut String, bytes: &[u8])
    ensures
        final(out)@ == old(out)@ + quote_body(bytes@),
{
    let ghost entry = out@;
    let mut i: usize = 0;
    let n = bytes.len();
    proof {
        assert(bytes@.subrange(0, n as int) =~= bytes@);
    }
    while i < n
        invariant
            i <= n,
            n == bytes@.len(),
            entry + quote_body(bytes@) == out@ + quote_body(bytes@.subrange(i as int, n as int)),
        decreases n - i,
    {
        let ghost rest = bytes@.subrange(i as int, n as int);
        let ghost mid = out@;
        match unicode::utf8_step_at(bytes, i) {
            Ok((c, j)) => {
                push_escaped_char(out, c);
                proof {
                    assert(bytes@.subrange(j as int, n as int) =~= rest.subrange(
                        length_of_first_scalar(rest),
                        rest.len() as int,
                    ));
                    assert(quote_body(rest) == escape_char(c) + quote_body(
                        bytes@.subrange(j as int, n as int),
                    ));
                    assert(mid + escape_char(c) + quote_body(bytes@.subrange(j as int, n as int))
                        =~= mid + quote_body(rest));
                }
                i = j;
            },
            Err(e) => {
                let step: usize = match e {
                    Some(k) => k,
                    None => n - i,
                };
                let stop = i + step;
                proof {
                    assert(skip_len_after_error(rest) == step);
                    assert(bytes@.subrange(stop as int, n as int) =~= rest.subrange(
                        skip_len_after_error(rest),
                        rest.len() as int,
                    ));
                    assert(quote_body(rest) == escape_bytes(rest.subrange(0, step as int))
                        + quote_body(bytes@.subrange(stop as int, n as int)));
                    assert(rest.subrange(0, step as int) =~= bytes@.subrange(
                        i as int,
                        stop as int,
                    ));
                    assert(entry + quote_body(bytes@) =~= out@ + escape_bytes(
                        bytes@.subrange(i as int, stop as int),
                    ) + quote_body(bytes@.subrange(stop as int, n as int)));
                }
                while i < stop
                    invariant
                        i <= stop <= n,
                        n == bytes@.len(),
                        entry + quote_body(bytes@) == out@ + escape_bytes(
                            bytes@.subrange(i as int, stop as int),
                        ) + quote_body(bytes@.subrange(stop as int, n as int)),
                    decreases stop - i,
                {
                    let ghost unit = bytes@.subrange(i as int, stop as int);
                    let ghost here = out@;
                    let b = bytes[i];
                    push_escaped_byte(out, b);
                    proof {
                        assert(unit[0] == b);
                        assert(unit.drop_first() =~= bytes@.subrange(i + 1, stop as int));
                        assert(escape_bytes(unit) == escape_byte(b) + escape_bytes(
                            bytes@.subrange(i + 1, stop as int),
                        ));
                        assert(here + escape_bytes(unit) + quote_body(
                            bytes@.subrange(stop as int, n as int),
                        ) =~= out@ + escape_bytes(bytes@.subrange(i + 1, stop as int))
                            + quote_body(bytes@.subrange(stop as int, n as int)));
                    }
                    i = i + 1;
                }
                proof {
                    assert(bytes@.subrange(stop as int, stop as int) =~= Seq::<u8>::empty());
                    assert(escape_bytes(Seq::<u8>::empty()) =~= Seq::<char>::empty());
                    assert(out@ + Seq::<char>::empty() + quote_body(
                        bytes@.subrange(stop as int, n as int),
                    ) =~= out@ + quote_body(bytes@.subrange(stop as int, n as int)));
                }
            },
        }
    }
    proof {
        assert(bytes@.subrange(n as int, n as int) =~= Seq::<u8>::empty());
        assert(out@ + Seq::<char>::empty() =~= out@);
    }
}

/// Renders a raw byte string between double quotes, escaping as
/// [`quoted_bytes`] prescribes.
pub fn quoted_of_bytes(bytes: &[u8]) -> (r: String)
    ensures
        r@ == quoted_bytes(bytes@),
{
    let mut out = String::new();
    unicode::push_char(&mut out, '"');
    proof {
        assert(out@ =~= seq!['"']);
    }
    push_quote_body(&mut out, bytes);
    unicode::push_char(&mut out, '"');
    proof {
        assert(out@ =~= quoted_bytes(bytes@));
    }
    out
}

/// Rendering the UTF-8 encoding of a text quotes the text itself: the
/// byte-level walk of [`quote_body`] meets every character whole.
proof fn lemma_quote_body_of_encoding(t: Seq<char>)
    ensures
        quote_body(encode_utf8(t)) == escape_chars(t),
    decreases t.len(),
{
    if t.len() == 0 {
        assert(encode_utf8(t).len() == 0);
    } else {
        let bytes = encode_utf8(t);
        encode_utf8_first_scalar(t);
        char_u32_cast(t[0], decode_first_scalar(bytes));
        assert(bytes.subrange(length_of_first_scalar(bytes), bytes.len() as int) =~= encode_utf8(
            t.drop_first(),
        ));
        lemma_quote_body_of_encoding(t.drop_first());
    }
}

/// Renders a text between double quotes, escaping as [`quoted_text`]
/// prescribes.
pub fn quoted_of_text(t: &str) -> (r: String)
    ensures
        r@ == quoted_text(t@),
{
    let bytes = t.as_bytes();
    let r = quoted_of_bytes(bytes);
    proof {
        lemma_quote_body_of_encoding(t@);
    }
    r
}

impl Error {
    /// The single human-readable line describing this error.
    pub fn message(&self) -> (r: String)
        ensures
            r@ == message_spec(self@),
    {
        match self {
            Error::MissingValue { option } => match option {
                None => String::from_str("missing argument"),
                Some(o) => {
                    let mut out = String::from_str("missing argument for option '");
                    out.append(o.as_str());
                    out.append("'");
                    out
                },
            },
            Error::UnexpectedOption(o) => {
                let mut out = String::from_str("invalid option '");
                out.append(o.as_str());
                out.append("'");
                out
            },
            Error::UnexpectedArgument(v) => {
                let mut out = String::from_str("unexpected argument ");
                let q = quoted_of_bytes(v.as_bytes());
                out.append(q.as_str());
                out
            },
            Error::UnexpectedValue { option, value } => {
                let mut out = String::from_str("unexpected argument for option '");
                out.append(option.as_str());
                out.append("': ");
                let q = quoted_of_bytes(value.as_bytes());
                out.append(q.as_str());
                out
            },
            Error::ParsingFailed { value, error } => {
                let mut out = String::from_str("cannot parse argument ");
                let q = quoted_of_text(value.as_str());
                out.append(q.as_str());
                out.append(": ");
                out.append(error.as_str());
                out
            },
            Error::NonUnicodeValue(v) => {
                let mut out = String::from_str("argument is invalid unicode: ");
                let q = quoted_of_bytes(v.as_bytes());
                out.append(q.as_str());
                out
            },
            Error::Custom(m) => {
                let out = m.clone();
                out
            },
        }
    }
}

} // verus!
