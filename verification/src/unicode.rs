//! Byte-level UTF-8 decoding with exact error reporting.
//!
//! Raw command line arguments are byte strings that need not be valid
//! UTF-8.  The tokenizer decodes them one codepoint at a time and must
//! classify malformed positions precisely: a malformed sequence either has
//! a definite length (the maximal subpart that can never begin a valid
//! encoding) or runs off the end of the input.  The specification builds
//! on `vstd::utf8`, whose `valid_first_scalar` / `decode_first_scalar`
//! functions give the mathematical meaning of a well-formed encoding.

use vstd::prelude::*;
use vstd::utf8::*;

verus! {

/// The Unicode replacement character, substituted for undecodable bytes.
pub const REPLACEMENT: char = '\u{FFFD}';

/// True when `b1` may follow the three-byte leading byte `b0`: the ranges
/// exclude overlong encodings (for `0xE0`) and surrogates (for `0xED`).
pub open spec fn good_second_byte_3(b0: u8, b1: u8) -> bool {
    if b0 == 0xE0 {
        0xA0 <= b1 <= 0xBF
    } else if b0 == 0xED {
        0x80 <= b1 <= 0x9F
    } else {
        is_continuation_byte(b1)
    }
}

/// True when `b1` may follow the four-byte leading byte `b0`: the ranges
/// exclude overlong encodings (for `0xF0`) and values past the last
/// Unicode scalar (for `0xF4`).
pub open spec fn good_second_byte_4(b0: u8, b1: u8) -> bool {
    if b0 == 0xF0 {
        0x90 <= b1 <= 0xBF
    } else if b0 == 0xF4 {
        0x80 <= b1 <= 0x8F
    } else {
        is_continuation_byte(b1)
    }
}

/// The length in bytes of the malformed unit at the start of `s`, when the
/// start of `s` is not a well-formed scalar encoding.  `None` means the
/// input ended before the encoding could complete, so the malformed unit
/// reaches the end of `s`.  The case split mirrors how the Unicode
/// standard delimits a maximal ill-formed subsequence.
pub open spec fn utf8_error_len(s: Seq<u8>) -> Option<int>
    recommends
        s.len() > 0,
        !valid_first_scalar(s),
{
    let b0 = s[0];
    if 0xC2 <= b0 <= 0xDF {
        if s.len() < 2 {
            None
        } else if !is_continuation_byte(s[1]) {
            Some(1)
        } else {
            None
        }
    } else if 0xE0 <= b0 <= 0xEF {
        if s.len() < 2 {
            None
        } else if !good_second_byte_3(b0, s[1]) {
            Some(1)
        } else if s.len() < 3 {
            None
        } else if !is_continuation_byte(s[2]) {
            Some(2)
        } else {
            None
        }
    } else if 0xF0 <= b0 <= 0xF4 {
        if s.len() < 2 {
            None
        } else if !good_second_byte_4(b0, s[1]) {
            Some(1)
        } else if s.len() < 3 {
            None
        } else if !is_continuation_byte(s[2]) {
            Some(2)
        } else if s.len() < 4 {
            None
        } else if !is_continuation_byte(s[3]) {
            Some(3)
        } else {
            None
        }
    } else {
        // an ASCII byte never reaches here; a stray continuation byte, an
        // overlong two-byte lead (0xC0, 0xC1) or a lead past 0xF4 is a
        // malformed unit of exactly one byte
        Some(1)
    }
}

/// How many bytes a decoder skips at a malformed position — one whole
/// malformed unit: its length when it is delimited, or the whole rest
/// when the input ended too early.
pub open spec fn skip_len_after_error(s: Seq<u8>) -> int
    recommends
        s.len() > 0,
        !valid_first_scalar(s),
{
    match utf8_error_len(s) {
        Some(n) => n,
        None => s.len() as int,
    }
}

/// A malformed unit is never empty and never runs past the end of the
/// input; a delimited one is at most three bytes long.
pub proof fn lemma_skip_len_bounds(s: Seq<u8>)
    requires
        s.len() > 0,
        !valid_first_scalar(s),
    ensures
        1 <= skip_len_after_error(s) <= s.len(),
        utf8_error_len(s) matches Some(n) ==> 1 <= n <= 3,
{
}

/// The characters of `s` decoded as UTF-8, with one replacement character
/// substituted for each malformed unit.
pub open spec fn lossy_decode_spec(s: Seq<u8>) -> Seq<char>
    decreases s.len(),
{
    if s.len() == 0 {
        Seq::<char>::empty()
    } else if valid_first_scalar(s) {
        seq![decode_first_scalar(s) as char] + lossy_decode_spec(
            s.subrange(length_of_first_scalar(s), s.len() as int),
        )
    } else {
        seq![REPLACEMENT] + lossy_decode_spec(s.subrange(skip_len_after_error(s), s.len() as int))
    }
}

/// A malformed UTF-8 position, reported as by the standard library: the
/// malformed unit's byte length, or `None` when the input ended before
/// the encoding could complete.
#[derive(Debug)]
pub struct Utf8Error {
    len: Option<usize>,
}

impl View for Utf8Error {
    type V = Option<int>;

    closed spec fn view(&self) -> Option<int> {
        match self.len {
            Some(n) => Some(n as int),
            None => None,
        }
    }
}

impl Utf8Error {
    /// The length in bytes of the malformed unit, or `None` when the input
    /// ended before the encoding could complete.
    pub fn error_len(&self) -> (r: Option<usize>)
        ensures
            match r {
                Some(n) => self@ == Some(n as int),
                None => self@ == None::<int>,
            },
    {
        self.len
    }
}

/// Relies on `char::from_u32`: every value that is a Unicode scalar (at
/// most 0x10FFFF and outside the surrogate range) converts to the `char`
/// with exactly that value.
#[verifier::external_body]
fn char_of_scalar(v: u32) -> (c: char)
    requires
        is_scalar(v),
    ensures
        c as u32 == v,
{
    match char::from_u32(v) {
        Some(c) => c,
        None => REPLACEMENT,
    }
}

/// Relies on `String::push`: appends exactly the one character at the end.
#[verifier::external_body]
pub(crate) fn push_char(s: &mut String, c: char)
    ensures
        final(s)@ == old(s)@.push(c),
{
    s.push(c);
}

proof fn bv_width_1(b0: u8)
    by (bit_vector)
    requires
        b0 <= 0x7F,
    ensures
        (b0 & 0x7F) == b0,
        ((b0 & 0x7F) as u32) <= 0x7F,
{
}

proof fn bv_width_2(b0: u8, b1: u8)
    by (bit_vector)
    requires
        0xC0 <= b0 <= 0xDF,
        0x80 <= b1 <= 0xBF,
    ensures
        ((((b0 & 0x1F) as u32) << 6) | ((b1 & 0x3F) as u32)) >= 0x80 <==> 0xC2 <= b0,
        ((((b0 & 0x1F) as u32) << 6) | ((b1 & 0x3F) as u32)) <= 0x7FF,
{
}

proof fn bv_width_3(b0: u8, b1: u8, b2: u8)
    by (bit_vector)
    requires
        0xE0 <= b0 <= 0xEF,
        0x80 <= b1 <= 0xBF,
        0x80 <= b2 <= 0xBF,
    ensures
        ((((b0 & 0x0F) as u32) << 12) | (((b1 & 0x3F) as u32) << 6) | ((b2 & 0x3F) as u32))
            <= 0xFFFF,
        (((((b0 & 0x0F) as u32) << 12) | (((b1 & 0x3F) as u32) << 6) | ((b2 & 0x3F) as u32))
            >= 0x800) <==> (b0 != 0xE0 || b1 >= 0xA0),
        (0xD800 <= ((((b0 & 0x0F) as u32) << 12) | (((b1 & 0x3F) as u32) << 6) | ((b2
            & 0x3F) as u32)) <= 0xDFFF) <==> (b0 == 0xED && b1 >= 0xA0),
{
}

proof fn bv_width_4(b0: u8, b1: u8, b2: u8, b3: u8)
    by (bit_vector)
    requires
        0xF0 <= b0 <= 0xF7,
        0x80 <= b1 <= 0xBF,
        0x80 <= b2 <= 0xBF,
        0x80 <= b3 <= 0xBF,
    ensures
        (((((b0 & 0x07) as u32) << 18) | (((b1 & 0x3F) as u32) << 12) | (((b2
            & 0x3F) as u32) << 6) | ((b3 & 0x3F) as u32)) >= 0x10000) <==> (b0 != 0xF0 || b1
            >= 0x90),
        (((((b0 & 0x07) as u32) << 18) | (((b1 & 0x3F) as u32) << 12) | (((b2
            & 0x3F) as u32) << 6) | ((b3 & 0x3F) as u32)) <= 0x10FFFF) <==> (b0 < 0xF4 || (b0
            == 0xF4 && b1 <= 0x8F)),
{
}

/// A well-formed scalar encoding at the start of `s` is wholly contained
/// in the first `length_of_first_scalar(s)` bytes: that prefix is itself
/// a well-formed, self-contained piece of UTF-8 decoding to the same
/// scalar.
pub proof fn lemma_first_scalar_prefix(s: Seq<u8>)
    requires
        valid_first_scalar(s),
    ensures
        ({
            let k = length_of_first_scalar(s);
            let u = s.subrange(0, k);
            &&& 1 <= k <= s.len()
            &&& k <= 4
            &&& valid_first_scalar(u)
            &&& length_of_first_scalar(u) == k
            &&& decode_first_scalar(u) == decode_first_scalar(s)
            &&& valid_utf8(u)
        }),
{
    let k = length_of_first_scalar(s);
    let u = s.subrange(0, k);
    assert(u[0] == s[0]);
    if is_leading_byte_width_1(s[0]) {
    } else if is_leading_byte_width_2(s[0]) {
        assert(u[1] == s[1]);
    } else if is_leading_byte_width_3(s[0]) {
        assert(u[1] == s[1]);
        assert(u[2] == s[2]);
    } else {
        assert(u[1] == s[1]);
        assert(u[2] == s[2]);
        assert(u[3] == s[3]);
    }
    assert(valid_first_scalar(u));
    reveal_with_fuel(valid_utf8, 2);
    assert(pop_first_scalar(u) =~= Seq::<u8>::empty());
}

/// A well-formed encoding whose scalar is in the ASCII range is a single
/// byte holding that very value.
pub proof fn lemma_ascii_scalar(s: Seq<u8>)
    requires
        valid_first_scalar(s),
        decode_first_scalar(s) < 0x80,
    ensures
        length_of_first_scalar(s) == 1,
        s[0] == decode_first_scalar(s),
{
    let b0 = s[0];
    if is_leading_byte_width_1(b0) {
        bv_width_1(b0);
    } else if is_leading_byte_width_2(b0) {
        bv_width_2(b0, s[1]);
    } else if is_leading_byte_width_3(b0) {
        assert(decode_first_scalar(s) >= 0x800);
    } else {
        assert(decode_first_scalar(s) >= 0x10000) by {
            bv_width_4(b0, s[1], s[2], s[3]);
        };
    }
}

/// Lossy decoding of a string that begins with two dashes begins with
/// two dash characters; past them it decodes the rest of the bytes.
pub proof fn lemma_lossy_dash_prefix(s: Seq<u8>)
    requires
        s.len() >= 2,
        s[0] == 0x2D,
        s[1] == 0x2D,
    ensures
        lossy_decode_spec(s).len() >= 2,
        lossy_decode_spec(s).skip(2) == lossy_decode_spec(s.subrange(2, s.len() as int)),
{
    let s1 = s.subrange(1, s.len() as int);
    bv_width_1(0x2D);
    assert(valid_first_scalar(s));
    assert(decode_first_scalar(s) == 0x2D as u32);
    assert(length_of_first_scalar(s) == 1);
    assert(s1[0] == 0x2D);
    assert(valid_first_scalar(s1));
    assert(length_of_first_scalar(s1) == 1);
    assert(s1.subrange(1, s1.len() as int) =~= s.subrange(2, s.len() as int));
    assert(s.subrange(1, s.len() as int) == s1);
    assert(lossy_decode_spec(s) == seq![decode_first_scalar(s) as char] + lossy_decode_spec(s1));
    assert(lossy_decode_spec(s1) == seq![decode_first_scalar(s1) as char] + lossy_decode_spec(
        s.subrange(2, s.len() as int),
    ));
    assert(lossy_decode_spec(s).skip(2) =~= lossy_decode_spec(s.subrange(2, s.len() as int)));
}

/// Decode one scalar at byte offset `i`, or report the malformed unit
/// there exactly as [`utf8_error_len`] classifies it.
pub(crate) fn utf8_step_at(bytes: &[u8], i: usize) -> (r: Result<(char, usize), Option<usize>>)
    requires
        i < bytes@.len(),
    ensures
        ({
            let rest = bytes@.subrange(i as int, bytes@.len() as int);
            match r {
                Ok((c, j)) => {
                    &&& valid_first_scalar(rest)
                    &&& c == (decode_first_scalar(rest) as char)
                    &&& c as u32 == decode_first_scalar(rest)
                    &&& j == i + length_of_first_scalar(rest)
                    &&& i < j <= bytes@.len()
                },
                Err(e) => {
                    &&& !valid_first_scalar(rest)
                    &&& match e {
                        Some(n) => utf8_error_len(rest) == Some(n as int) && 1 <= n
                            <= bytes@.len() - i,
                        None => utf8_error_len(rest) == None::<int>,
                    }
                },
            }
        }),
{
    let ghost rest = bytes@.subrange(i as int, bytes@.len() as int);
    let n = bytes.len();
    let b0 = bytes[i];
    proof {
        assert(rest[0] == b0);
    }
    if b0 < 0x80 {
        let c = char_of_scalar(b0 as u32);
        proof {
            bv_width_1(b0);
            assert(decode_first_scalar(rest) == b0 as u32);
            char_u32_cast(c, b0 as u32);
        }
        Ok((c, i + 1))
    } else if 0xC2 <= b0 && b0 <= 0xDF {
        if n - i < 2 {
            return Err(None);
        }
        let b1 = bytes[i + 1];
        proof {
            assert(rest[1] == b1);
        }
        if !(0x80 <= b1 && b1 <= 0xBF) {
            return Err(Some(1));
        }
        let cp = (((b0 & 0x1F) as u32) << 6) | ((b1 & 0x3F) as u32);
        proof {
            bv_width_2(b0, b1);
            assert(decode_first_codepoint(rest) == cp);
            assert(valid_first_scalar(rest));
        }
        let c = char_of_scalar(cp);
        proof {
            char_u32_cast(c, cp);
        }
        Ok((c, i + 2))
    } else if 0xE0 <= b0 && b0 <= 0xEF {
        if n - i < 2 {
            return Err(None);
        }
        let b1 = bytes[i + 1];
        proof {
            assert(rest[1] == b1);
        }
        let second_ok: bool = if b0 == 0xE0 {
            0xA0 <= b1 && b1 <= 0xBF
        } else if b0 == 0xED {
            0x80 <= b1 && b1 <= 0x9F
        } else {
            0x80 <= b1 && b1 <= 0xBF
        };
        if !second_ok {
            proof {
                if 0x80 <= b1 && b1 <= 0xBF {
                    if n - i >= 3 && 0x80 <= rest[2] && rest[2] <= 0xBF {
                        bv_width_3(b0, b1, rest[2]);
                    }
                }
                assert(!valid_first_scalar(rest)) by {
                    if valid_first_scalar(rest) {
                        bv_width_3(b0, rest[1], rest[2]);
                    }
                };
            }
            return Err(Some(1));
        }
        if n - i < 3 {
            return Err(None);
        }
        let b2 = bytes[i + 2];
        proof {
            assert(rest[2] == b2);
        }
        if !(0x80 <= b2 && b2 <= 0xBF) {
            return Err(Some(2));
        }
        let cp = (((b0 & 0x0F) as u32) << 12) | (((b1 & 0x3F) as u32) << 6) | ((b2
            & 0x3F) as u32);
        proof {
            bv_width_3(b0, b1, b2);
            assert(decode_first_codepoint(rest) == cp);
            assert(valid_first_scalar(rest));
        }
        let c = char_of_scalar(cp);
        proof {
            char_u32_cast(c, cp);
        }
        Ok((c, i + 3))
    } else if 0xF0 <= b0 && b0 <= 0xF4 {
        if n - i < 2 {
            return Err(None);
        }
        let b1 = bytes[i + 1];
        proof {
            assert(rest[1] == b1);
        }
        let second_ok: bool = if b0 == 0xF0 {
            0x90 <= b1 && b1 <= 0xBF
        } else if b0 == 0xF4 {
            0x80 <= b1 && b1 <= 0x8F
        } else {
            0x80 <= b1 && b1 <= 0xBF
        };
        if !second_ok {
            proof {
                assert(!valid_first_scalar(rest)) by {
                    if valid_first_scalar(rest) {
                        bv_width_4(b0, rest[1], rest[2], rest[3]);
                    }
                };
            }
            return Err(Some(1));
        }
        if n - i < 3 {
            return Err(None);
        }
        let b2 = bytes[i + 2];
        proof {
            assert(rest[2] == b2);
        }
        if !(0x80 <= b2 && b2 <= 0xBF) {
            return Err(Some(2));
        }
        if n - i < 4 {
            return Err(None);
        }
        let b3 = bytes[i + 3];
        proof {
            assert(rest[3] == b3);
        }
        if !(0x80 <= b3 && b3 <= 0xBF) {
            return Err(Some(3));
        }
        let cp = (((b0 & 0x07) as u32) << 18) | (((b1 & 0x3F) as u32) << 12) | (((b2
            & 0x3F) as u32) << 6) | ((b3 & 0x3F) as u32);
        proof {
            bv_width_4(b0, b1, b2, b3);
            assert(decode_first_codepoint(rest) == cp);
            assert(valid_first_scalar(rest));
        }
        let c = char_of_scalar(cp);
        proof {
            char_u32_cast(c, cp);
        }
        Ok((c, i + 4))
    } else {
        // a stray continuation byte, 0xC0, 0xC1, or a lead past 0xF4
        proof {
            assert(!valid_first_scalar(rest)) by {
                if valid_first_scalar(rest) {
                    if is_leading_byte_width_2(b0) {
                        bv_width_2(b0, rest[1]);
                    } else if is_leading_byte_width_4(b0) {
                        bv_width_4(b0, rest[1], rest[2], rest[3]);
                    }
                }
            };
        }
        Err(Some(1))
    }
}

/// The first codepoint of a UTF-8 bytestring, which does not have to be
/// valid as a whole: only the leading encoding decides the result.
///
/// Returns `Ok(None)` on an empty input, the decoded character when the
/// input begins with a well-formed encoding, and otherwise a [`Utf8Error`]
/// carrying the malformed unit's length.
pub fn first_codepoint(bytes: &[u8]) -> (r: Result<Option<char>, Utf8Error>)
    ensures
        ({
            let s = bytes@;
            match r {
                Ok(oc) => (s.len() == 0 && oc == None::<char>) || (s.len() > 0
                    && valid_first_scalar(s) && oc == Some(decode_first_scalar(s) as char)),
                Err(e) => s.len() > 0 && !valid_first_scalar(s) && e@ == utf8_error_len(s),
            }
        }),
{
    proof {
        assert(bytes@.subrange(0, bytes@.len() as int) =~= bytes@);
    }
    if bytes.len() == 0 {
        Ok(None)
    } else {
        match utf8_step_at(bytes, 0) {
            Ok((c, _)) => Ok(Some(c)),
            Err(e) => Err(Utf8Error { len: e }),
        }
    }
}

/// Decodes a whole bytestring, substituting one replacement character for
/// each malformed unit, as [`lossy_decode_spec`] prescribes.
pub fn lossy_to_string(bytes: &[u8]) -> (out: String)
    ensures
        out@ == lossy_decode_spec(bytes@),
{
    let mut out = String::new();
    let mut i: usize = 0;
    let n = bytes.len();
    proof {
        assert(bytes@.subrange(0, n as int) =~= bytes@);
        assert(Seq::<char>::empty() + lossy_decode_spec(bytes@) =~= lossy_decode_spec(bytes@));
    }
    while i < n
        invariant
            i <= n,
            n == bytes@.len(),
            lossy_decode_spec(bytes@) == out@ + lossy_decode_spec(
                bytes@.subrange(i as int, n as int),
            ),
        decreases n - i,
    {
        let ghost rest = bytes@.subrange(i as int, n as int);
        let ghost out0 = out@;
        match utf8_step_at(bytes, i) {
            Ok((c, j)) => {
                push_char(&mut out, c);
                proof {
                    assert(bytes@.subrange(j as int, n as int) =~= rest.subrange(
                        length_of_first_scalar(rest),
                        rest.len() as int,
                    ));
                    assert(lossy_decode_spec(rest) == seq![c] + lossy_decode_spec(
                        bytes@.subrange(j as int, n as int),
                    ));
                    assert(out0.push(c) + lossy_decode_spec(bytes@.subrange(j as int, n as int))
                        =~= out0 + lossy_decode_spec(rest));
                }
                i = j;
            },
            Err(e) => {
                push_char(&mut out, REPLACEMENT);
                let step: usize = match e {
                    Some(k) => k,
                    None => n - i,
                };
                proof {
                    assert(skip_len_after_error(rest) == step);
                    assert(bytes@.subrange(i + step, n as int) =~= rest.subrange(
                        skip_len_after_error(rest),
                        rest.len() as int,
                    ));
                    assert(lossy_decode_spec(rest) == seq![REPLACEMENT] + lossy_decode_spec(
                        bytes@.subrange(i + step, n as int),
                    ));
                    assert(out0.push(REPLACEMENT) + lossy_decode_spec(
                        bytes@.subrange(i + step, n as int),
                    ) =~= out0 + lossy_decode_spec(rest));
                }
                i = i + step;
            },
        }
    }
    proof {
        assert(bytes@.subrange(n as int, n as int) =~= Seq::<u8>::empty());
        assert(out@ + Seq::<char>::empty() =~= out@);
    }
    out
}

/// Decodes a whole bytestring strictly: the characters when the bytes are
/// valid UTF-8, and `None` exactly otherwise.
pub fn utf8_to_string(bytes: &[u8]) -> (r: Option<String>)
    ensures
        r is Some <==> valid_utf8(bytes@),
        r matches Some(s) ==> s@ == decode_utf8(bytes@),
{
    let mut out = String::new();
    let mut i: usize = 0;
    let n = bytes.len();
    proof {
        assert(bytes@.subrange(0, n as int) =~= bytes@);
        if valid_utf8(bytes@) {
            assert(Seq::<char>::empty() + decode_utf8(bytes@) =~= decode_utf8(bytes@));
        }
    }
    while i < n
        invariant
            i <= n,
            n == bytes@.len(),
            partial_valid_utf8(bytes@, i as int),
            valid_utf8(bytes@) ==> valid_utf8(bytes@.subrange(i as int, n as int)) && decode_utf8(
                bytes@,
            ) == out@ + decode_utf8(bytes@.subrange(i as int, n as int)),
        decreases n - i,
    {
        let ghost rest = bytes@.subrange(i as int, n as int);
        let ghost out0 = out@;
        match utf8_step_at(bytes, i) {
            Ok((c, j)) => {
                push_char(&mut out, c);
                proof {
                    partial_valid_utf8_extend(bytes@, i as int);
                    assert(bytes@.subrange(j as int, n as int) =~= pop_first_scalar(rest));
                    if valid_utf8(bytes@) {
                        assert(decode_utf8(rest) == seq![c] + decode_utf8(
                            bytes@.subrange(j as int, n as int),
                        ));
                        assert(out0.push(c) + decode_utf8(bytes@.subrange(j as int, n as int))
                            =~= out0 + decode_utf8(rest));
                    }
                }
                i = j;
            },
            Err(_) => {
                proof {
                    assert(!valid_utf8(rest));
                }
                return None;
            },
        }
    }
    proof {
        assert(bytes@.subrange(0, n as int) =~= bytes@);
        assert(bytes@.subrange(n as int, n as int) =~= Seq::<u8>::empty());
        if valid_utf8(bytes@) {
            assert(out@ + Seq::<char>::empty() =~= out@);
        }
    }
    Some(out)
}

} // verus!
