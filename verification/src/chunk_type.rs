//! The 4-byte chunk tag: each byte must be an ASCII letter, and the case of
//! each byte encodes an informational flag.

use vstd::prelude::*;

use vstd::string::StringSliceAdditionalSpecFns;
use vstd::utf8::{is_ascii_chars, is_ascii_chars_encode_utf8};

use crate::wire::ascii_to_string;

verus! {

/// True of a byte that is an ASCII letter (`A`-`Z` or `a`-`z`).
pub open spec fn is_alphabetic(b: u8) -> bool {
    (65 <= b && b <= 90) || (97 <= b && b <= 122)
}

/// True of a byte that is an uppercase ASCII letter.
pub open spec fn is_uppercase(b: u8) -> bool {
    65 <= b && b <= 90
}

/// True of a byte that is a lowercase ASCII letter.
pub open spec fn is_lowercase(b: u8) -> bool {
    97 <= b && b <= 122
}

/// The characters spelled by a tag's bytes, case preserved.
pub open spec fn spec_tag_chars(t: Seq<u8>) -> Seq<char> {
    t.map_values(|b: u8| b as char)
}

/// A 4-byte chunk type tag.
///
/// Construction only requires every byte to be alphabetic ([`Self::wf`]);
/// the stricter aggregate validity that also pins the reserved bit is the
/// separate predicate behind [`Self::is_valid`].
#[derive(Debug, PartialEq, Eq, Structural, Clone, Copy)]
pub struct ChunkType {
    pub byte1: u8,
    pub byte2: u8,
    pub byte3: u8,
    pub byte4: u8,
}

/// The bytes or string offered as a tag are not 4 ASCII letters.
#[derive(Debug, PartialEq, Eq, Structural, Clone, Copy)]
pub struct ParseChunkTypeError;

impl View for ChunkType {
    type V = Seq<u8>;

    open spec fn view(&self) -> Seq<u8> {
        seq![self.byte1, self.byte2, self.byte3, self.byte4]
    }
}

impl ChunkType {
    /// Every stored byte is an ASCII letter: what construction guarantees.
    pub open spec fn wf(self) -> bool {
        is_alphabetic(self.byte1) && is_alphabetic(self.byte2) && is_alphabetic(self.byte3)
            && is_alphabetic(self.byte4)
    }

    /// Accepts exactly the 4-byte arrays whose every byte is an ASCII letter.
    pub fn try_from(value: [u8; 4]) -> (r: Result<ChunkType, ParseChunkTypeError>)
        ensures
            r is Ok <==> (is_alphabetic(value[0]) && is_alphabetic(value[1]) && is_alphabetic(
                value[2],
            ) && is_alphabetic(value[3])),
            r matches Ok(t) ==> t.wf() && t@ == value@,
    {
        let b1 = value[0];
        let b2 = value[1];
        let b3 = value[2];
        let b4 = value[3];
        if Self::byte_is_alphabetic(b1) && Self::byte_is_alphabetic(b2) && Self::byte_is_alphabetic(
            b3,
        ) && Self::byte_is_alphabetic(b4) {
            let t = ChunkType { byte1: b1, byte2: b2, byte3: b3, byte4: b4 };
            proof {
                assert(t@ =~= value@);
            }
            Ok(t)
        } else {
            Err(ParseChunkTypeError)
        }
    }

    /// Accepts exactly the strings of 4 bytes that form a tag; any other
    /// length, non-ASCII text, or a non-alphabetic byte is rejected alike.
    pub fn from_str(s: &str) -> (r: Result<ChunkType, ParseChunkTypeError>)
        ensures
            r is Ok <==> (s.spec_bytes().len() == 4 && is_alphabetic(s.spec_bytes()[0])
                && is_alphabetic(s.spec_bytes()[1]) && is_alphabetic(s.spec_bytes()[2])
                && is_alphabetic(s.spec_bytes()[3])),
            r matches Ok(t) ==> t.wf() && t@ == s.spec_bytes(),
    {
        let b = s.as_bytes();
        if b.len() == 4 {
            let r = Self::try_from([b[0], b[1], b[2], b[3]]);
            proof {
                if r is Ok {
                    assert(r->Ok_0@ =~= s.spec_bytes());
                }
            }
            r
        } else {
            Err(ParseChunkTypeError)
        }
    }

    /// The stored 4 bytes, verbatim.
    pub fn bytes(&self) -> (r: [u8; 4])
        ensures
            r@ == self@,
    {
        let r = [self.byte1, self.byte2, self.byte3, self.byte4];
        proof {
            assert(r@ =~= self@);
        }
        r
    }

    /// The tag as a 4-character string, case preserved.
    pub fn to_string(&self) -> (r: String)
        requires
            self.wf(),
        ensures
            r@ == spec_tag_chars(self@),
    {
        let v: Vec<u8> = vec![self.byte1, self.byte2, self.byte3, self.byte4];
        let r = ascii_to_string(v.as_slice());
        proof {
            assert(v@ =~= self@);
        }
        r
    }

    /// A tag is valid when every byte is alphabetic and the reserved bit
    /// (the case of the 3rd byte) is uppercase.
    pub fn is_valid(&self) -> (r: bool)
        ensures
            r == (self.wf() && is_uppercase(self.byte3)),
    {
        Self::byte_is_alphabetic(self.byte1) && Self::byte_is_alphabetic(self.byte2)
            && Self::byte_is_alphabetic(self.byte3) && Self::byte_is_alphabetic(self.byte4)
            && Self::byte_is_uppercase(self.byte3)
    }

    /// Critical chunks carry an uppercase 1st byte.
    pub fn is_critical(&self) -> (r: bool)
        ensures
            r == is_uppercase(self.byte1),
    {
        Self::byte_is_uppercase(self.byte1)
    }

    /// Public chunks carry an uppercase 2nd byte.
    pub fn is_public(&self) -> (r: bool)
        ensures
            r == is_uppercase(self.byte2),
    {
        Self::byte_is_uppercase(self.byte2)
    }

    /// The reserved bit is valid when the 3rd byte is uppercase.
    pub fn is_reserved_bit_valid(&self) -> (r: bool)
        ensures
            r == is_uppercase(self.byte3),
    {
        Self::byte_is_uppercase(self.byte3)
    }

    /// Safe-to-copy chunks carry a lowercase 4th byte.
    pub fn is_safe_to_copy(&self) -> (r: bool)
        ensures
            r == is_lowercase(self.byte4),
    {
        97 <= self.byte4 && self.byte4 <= 122
    }

    fn byte_is_alphabetic(b: u8) -> (r: bool)
        ensures
            r == is_alphabetic(b),
    {
        (65 <= b && b <= 90) || (97 <= b && b <= 122)
    }

    fn byte_is_uppercase(b: u8) -> (r: bool)
        ensures
            r == is_uppercase(b),
    {
        65 <= b && b <= 90
    }
}

/// String conversion is an exact, case-preserving, 4-character round trip:
/// the string a tag renders to is made of the tag's own 4 bytes, so reading
/// it back accepts it and recovers the identical tag.
pub proof fn lemma_tag_string_round_trip(t: ChunkType, s: &str)
    requires
        t.wf(),
        s@ == spec_tag_chars(t@),
    ensures
        s.spec_bytes() == t@,
{
    let chars = spec_tag_chars(t@);
    assert(chars.len() == 4);
    assert(is_ascii_chars(chars)) by {
        assert(forall|i: int| 0 <= i < chars.len() ==> '\0' <= #[trigger] chars[i] <= '\u{7f}')
            by {
            assert(forall|i: int| 0 <= i < t@.len() ==> #[trigger] t@[i] < 128);
        }
    }
    is_ascii_chars_encode_utf8(chars);
    assert(s.spec_bytes() =~= t@);
}

} // verus!
