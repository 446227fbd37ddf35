//! Owned raw argument strings and boundary-checked slicing.
//!
//! A command line argument arrives as an opaque platform string: a finite
//! byte sequence with no promise of being valid Unicode.  [`RawString`]
//! holds such a value.  The tokenizer slices arguments only at *valid
//! boundaries* — offsets at the ends of the string, immediately next to
//! a self-contained run of valid UTF-8, or at the end of a malformed
//! unit as the maximal-subpart rule delimits it — so every slice is
//! itself a well-formed raw string on every platform encoding with that
//! rule.

use vstd::prelude::*;
use vstd::slice::slice_subrange;
use vstd::slice::slice_to_vec;
use vstd::utf8::*;

use crate::unicode;
use crate::unicode::utf8_error_len;

verus! {

/// True when the bytes just before offset `i` form one whole malformed
/// unit: reading from the unit's start, [`utf8_error_len`] delimits it
/// at exactly `i`.  The Unicode maximal-subpart rule makes such an
/// offset a safe cut point: a scanner substituting one replacement
/// character per unit resumes exactly there.
pub open spec fn ends_malformed_unit(s: Seq<u8>, i: int) -> bool {
    exists|l: int|
        1 <= l <= 3 && l <= i && !valid_first_scalar(s.subrange(i - l, s.len() as int))
            && #[trigger] utf8_error_len(s.subrange(i - l, s.len() as int)) == Some(l)
}

/// True when `i` is a valid slicing offset into the byte string `s`: the
/// start, the end, an offset where a well-formed scalar encoding begins,
/// an offset immediately after a short run of valid UTF-8, or the end of
/// a malformed unit.
pub open spec fn is_boundary(s: Seq<u8>, i: int) -> bool {
    ||| i == 0
    ||| i == s.len()
    ||| (0 < i < s.len() && valid_first_scalar(s.subrange(i, s.len() as int)))
    ||| (0 < i < s.len() && exists|l: int|
        1 <= l <= 4 && l <= i && valid_utf8(#[trigger] s.subrange(i - l, i)))
    ||| (0 < i < s.len() && ends_malformed_unit(s, i))
}

/// An owned, possibly non-Unicode argument string: the bytes of one
/// command line argument exactly as the operating system supplies them.
#[derive(Debug)]
pub struct RawString {
    bytes: Vec<u8>,
}

impl View for RawString {
    type V = Seq<u8>;

    closed spec fn view(&self) -> Seq<u8> {
        self.bytes@
    }
}

impl Clone for RawString {
    fn clone(&self) -> (r: Self)
        ensures
            r@ == self@,
    {
        let b = self.bytes.clone();
        proof {
            assert(b@ =~= self.bytes@);
        }
        RawString { bytes: b }
    }
}

impl PartialEq for RawString {
    fn eq(&self, other: &Self) -> (r: bool)
    {
        let r = self.bytes == other.bytes;
        proof {
            if r {
                assert(self.bytes@ =~= other.bytes@);
            } else {
                if self.bytes@ == other.bytes@ {
                    assert(forall|i: int|
                        0 <= i < self.bytes@.len() ==> self.bytes@[i] == other.bytes@[i]);
                }
            }
        }
        r
    }
}

impl vstd::std_specs::cmp::PartialEqSpecImpl for RawString {
    open spec fn obeys_eq_spec() -> bool {
        true
    }

    open spec fn eq_spec(&self, other: &Self) -> bool {
        self@ == other@
    }
}

impl RawString {
    /// Wraps a byte vector as a raw string.
    pub fn from_vec(bytes: Vec<u8>) -> (r: RawString)
        ensures
            r@ == bytes@,
    {
        RawString { bytes }
    }

    /// The bytes of the string.
    pub fn as_bytes(&self) -> (r: &[u8])
        ensures
            r@ == self@,
    {
        self.bytes.as_slice()
    }

    /// Gives the byte vector back.
    pub fn into_vec(self) -> (r: Vec<u8>)
        ensures
            r@ == self@,
    {
        self.bytes
    }

    /// The length of the string in bytes.
    pub fn len(&self) -> (r: usize)
        ensures
            r == self@.len(),
    {
        self.bytes.len()
    }

    /// True when the string holds no bytes.
    pub fn is_empty(&self) -> (r: bool)
        ensures
            r == (self@.len() == 0),
    {
        self.bytes.len() == 0
    }

    /// True when `index` is a valid slicing offset per [`is_boundary`].
    ///
    /// An offset past the end of the string is never valid.
    pub fn is_valid_boundary(&self, index: usize) -> (r: bool)
        ensures
            r == (index <= self@.len() && is_boundary(self@, index as int)),
    {
        let n = self.bytes.len();
        if index > n {
            return false;
        }
        if index == 0 || index == n {
            return true;
        }
        // a well-formed scalar encoding starting at `index` makes it a
        // boundary on the after side
        let tail = slice_subrange(self.bytes.as_slice(), index, n);
        match unicode::first_codepoint(tail) {
            Ok(Some(_)) => {
                proof {
                    assert(tail@ =~= self@.subrange(index as int, self@.len() as int));
                }
                return true;
            },
            _ => (),
        }
        // otherwise search for a short run of valid UTF-8 ending at `index`
        let mut l: usize = 1;
        while l <= 4 && l <= index
            invariant
                1 <= l <= 5,
                index <= self@.len(),
                0 < index < self@.len(),
                forall|k: int|
                    1 <= k < l && k <= index ==> !valid_utf8(
                        #[trigger] self@.subrange(index - k, index as int),
                    ),
            decreases 5 - l,
        {
            let run = slice_subrange(self.bytes.as_slice(), index - l, index);
            proof {
                assert(run@ =~= self@.subrange(index - l, index as int));
            }
            if unicode::utf8_to_string(run).is_some() {
                return true;
            }
            l = l + 1;
        }
        // or for a malformed unit that ends exactly at `index`
        let mut l: usize = 1;
        while l <= 3 && l <= index
            invariant
                1 <= l <= 4,
                0 < index < self@.len(),
                n == self@.len(),
                forall|k: int|
                    1 <= k < l && k <= index ==> !(!valid_first_scalar(
                        self@.subrange(index - k, self@.len() as int),
                    ) && #[trigger] utf8_error_len(self@.subrange(index - k, self@.len() as int))
                        == Some(k)),
            decreases 4 - l,
        {
            match unicode::utf8_step_at(self.bytes.as_slice(), index - l) {
                Err(e) => {
                    let hit: bool = match e {
                        Some(k) => k == l,
                        None => false,
                    };
                    if hit {
                        proof {
                            assert(ends_malformed_unit(self@, index as int));
                        }
                        return true;
                    }
                },
                Ok(_) => (),
            }
            l = l + 1;
        }
        proof {
            let tl = self@.subrange(index as int, self@.len() as int);
            assert(tail@ =~= tl);
            assert(!valid_first_scalar(tl));
            assert(!ends_malformed_unit(self@, index as int));
        }
        false
    }

    /// Takes the substring between two byte offsets.
    ///
    /// Both offsets must lie on valid boundaries, which is how the
    /// tokenizer always computes them; the offsets it discovers while
    /// scanning sit at the edge of a decoded character or at an end of
    /// the string.
    pub fn slice(&self, start: usize, end: usize) -> (r: RawString)
        requires
            start <= end <= self@.len(),
            is_boundary(self@, start as int),
            is_boundary(self@, end as int),
        ensures
            r@ == self@.subrange(start as int, end as int),
    {
        let piece = slice_subrange(self.bytes.as_slice(), start, end);
        RawString { bytes: slice_to_vec(piece) }
    }
}

/// An offset holding an ASCII byte is a valid boundary.
pub proof fn lemma_boundary_at_ascii(s: Seq<u8>, i: int)
    requires
        0 <= i < s.len(),
        s[i] < 0x80,
    ensures
        is_boundary(s, i),
{
    if i > 0 {
        let tail = s.subrange(i, s.len() as int);
        assert(tail[0] == s[i]);
        assert(valid_first_scalar(tail));
    }
}

/// The offset just past an ASCII byte is a valid boundary.
pub proof fn lemma_boundary_after_ascii(s: Seq<u8>, i: int)
    requires
        0 <= i < s.len(),
        s[i] < 0x80,
    ensures
        is_boundary(s, i + 1),
{
    if i + 1 < s.len() {
        let u = s.subrange(i, i + 1);
        assert(u[0] == s[i]);
        assert(valid_first_scalar(u));
        reveal_with_fuel(valid_utf8, 2);
        assert(pop_first_scalar(u) =~= Seq::<u8>::empty());
        assert(valid_utf8(u));
        assert(1 <= 1 <= 4 && 1 <= i + 1 && valid_utf8(s.subrange(i + 1 - 1, i + 1)));
    }
}

/// The offset just past a well-formed scalar encoding is a valid
/// boundary.
pub proof fn lemma_boundary_after_scalar(s: Seq<u8>, pos: int)
    requires
        0 <= pos < s.len(),
        valid_first_scalar(s.subrange(pos, s.len() as int)),
    ensures
        is_boundary(s, pos + length_of_first_scalar(s.subrange(pos, s.len() as int))),
{
    let rest = s.subrange(pos, s.len() as int);
    let k = length_of_first_scalar(rest);
    crate::unicode::lemma_first_scalar_prefix(rest);
    if pos + k < s.len() {
        assert(s.subrange(pos + k - k, pos + k) =~= rest.subrange(0, k));
        assert(1 <= k <= 4 && k <= pos + k && valid_utf8(s.subrange(pos + k - k, pos + k)));
    }
}

/// Slicing a string at valid boundaries loses nothing: the two pieces on
/// either side of a middle boundary concatenate back to the whole
/// substring between the outer offsets.
pub proof fn lemma_slice_round_trip(s: Seq<u8>, a: int, b: int, c: int)
    requires
        0 <= a <= b <= c <= s.len(),
        is_boundary(s, a),
        is_boundary(s, b),
        is_boundary(s, c),
    ensures
        s.subrange(a, b) + s.subrange(b, c) == s.subrange(a, c),
{
    assert(s.subrange(a, b) + s.subrange(b, c) =~= s.subrange(a, c));
}

} // verus!
