//! Byte-level building blocks of the wire format: big-endian 32-bit fields,
//! the CRC-32/ISO-HDLC checksum, and UTF-8 text decoding.

use vstd::prelude::*;

verus! {

/// The big-endian 4-byte encoding of a 32-bit value.
#[verifier::opaque]
pub open spec fn spec_u32_to_be_bytes(x: u32) -> Seq<u8> {
    seq![
        (x >> 24) as u8,
        ((x >> 16) & 0xff) as u8,
        ((x >> 8) & 0xff) as u8,
        (x & 0xff) as u8,
    ]
}

/// The 32-bit value read big-endian from a 4-byte sequence.
#[verifier::opaque]
pub open spec fn spec_u32_from_be_bytes(s: Seq<u8>) -> u32
    recommends
        s.len() == 4,
{
    ((s[0] as u32) << 24) | ((s[1] as u32) << 16) | ((s[2] as u32) << 8) | (s[3] as u32)
}

/// The encoding of any value is exactly 4 bytes long.
pub broadcast proof fn lemma_u32_be_bytes_len(x: u32)
    ensures
        (#[trigger] spec_u32_to_be_bytes(x)).len() == 4,
{
    reveal(spec_u32_to_be_bytes);
}

/// Decoding the big-endian encoding of a value gives the value back.
pub proof fn lemma_u32_be_bytes_roundtrip(x: u32)
    ensures
        spec_u32_from_be_bytes(spec_u32_to_be_bytes(x)) == x,
{
    reveal(spec_u32_to_be_bytes);
    reveal(spec_u32_from_be_bytes);
    let b0 = (x >> 24) as u8;
    let b1 = ((x >> 16) & 0xff) as u8;
    let b2 = ((x >> 8) & 0xff) as u8;
    let b3 = (x & 0xff) as u8;
    assert(((b0 as u32) << 24) | ((b1 as u32) << 16) | ((b2 as u32) << 8) | (b3 as u32) == x)
        by (bit_vector)
        requires
            b0 == (x >> 24) as u8,
            b1 == ((x >> 16) & 0xff) as u8,
            b2 == ((x >> 8) & 0xff) as u8,
            b3 == (x & 0xff) as u8,
    ;
}

/// Encoding the value read from 4 bytes gives the same 4 bytes back:
/// big-endian decoding is injective.
pub proof fn lemma_u32_be_bytes_injective(s: Seq<u8>)
    requires
        s.len() == 4,
    ensures
        spec_u32_to_be_bytes(spec_u32_from_be_bytes(s)) == s,
{
    reveal(spec_u32_to_be_bytes);
    reveal(spec_u32_from_be_bytes);
    let b0 = s[0];
    let b1 = s[1];
    let b2 = s[2];
    let b3 = s[3];
    let x = spec_u32_from_be_bytes(s);
    assert((x >> 24) as u8 == b0 && ((x >> 16) & 0xff) as u8 == b1 && ((x >> 8) & 0xff) as u8
        == b2 && (x & 0xff) as u8 == b3) by (bit_vector)
        requires
            x == ((b0 as u32) << 24) | ((b1 as u32) << 16) | ((b2 as u32) << 8) | (b3 as u32),
    ;
    assert(spec_u32_to_be_bytes(x) =~= s);
}

/// Reads a big-endian 32-bit field that starts at `off`.
pub fn read_be_u32(bytes: &[u8], off: usize) -> (x: u32)
    requires
        off + 4 <= bytes@.len(),
    ensures
        x == spec_u32_from_be_bytes(bytes@.subrange(off as int, off as int + 4)),
{
    proof {
        reveal(spec_u32_from_be_bytes);
    }
    let x = ((bytes[off] as u32) << 24u32) | ((bytes[off + 1] as u32) << 16u32) | ((bytes[off
        + 2] as u32) << 8u32) | (bytes[off + 3] as u32);
    proof {
        let s = bytes@.subrange(off as int, off as int + 4);
        assert(s[0] == bytes@[off as int] && s[1] == bytes@[off as int + 1] && s[2]
            == bytes@[off as int + 2] && s[3] == bytes@[off as int + 3]);
    }
    x
}

/// Appends the big-endian 4-byte encoding of `x` to `out`.
pub fn write_be_u32(out: &mut Vec<u8>, x: u32)
    ensures
        final(out)@ == old(out)@ + spec_u32_to_be_bytes(x),
{
    proof {
        reveal(spec_u32_to_be_bytes);
        assert(x >> 24 <= 0xff && (x >> 16) & 0xff <= 0xff && (x >> 8) & 0xff <= 0xff && x & 0xff
            <= 0xff) by (bit_vector);
    }
    out.push((x >> 24u32) as u8);
    out.push(((x >> 16u32) & 0xff) as u8);
    out.push(((x >> 8u32) & 0xff) as u8);
    out.push((x & 0xff) as u8);
    assert(final(out)@ =~= old(out)@ + spec_u32_to_be_bytes(x));
}

/// Appends every byte of `src` to `dst` in order.
pub fn push_all(dst: &mut Vec<u8>, src: &[u8])
    ensures
        final(dst)@ == old(dst)@ + src@,
{
    let mut i: usize = 0;
    while i < src.len()
        invariant
            i <= src@.len(),
            dst@ == old(dst)@ + src@.subrange(0, i as int),
        decreases src@.len() - i,
    {
        dst.push(src[i]);
        proof {
            assert(dst@ =~= old(dst)@ + src@.subrange(0, i as int + 1));
        }
        i = i + 1;
    }
    assert(dst@ =~= old(dst)@ + src@);
}

/// The CRC-32/ISO-HDLC checksum of a byte sequence, as the crc crate
/// computes it: a pure function of the bytes alone.
pub uninterp spec fn spec_crc32(bytes: Seq<u8>) -> u32;

/// Relies on crc's `Crc::<u32>::checksum` with the `CRC_32_ISO_HDLC`
/// algorithm of crc-catalog: a deterministic checksum of the input bytes.
#[verifier::external_body]
pub(crate) fn crc32_checksum(bytes: &[u8]) -> (r: u32)
    ensures
        r == spec_crc32(bytes@),
{
    crc::Crc::<u32>::new(&crc::CRC_32_ISO_HDLC).checksum(bytes)
}

/// Relies on std's `str::from_utf8`: it succeeds exactly on valid UTF-8
/// input and decodes it to the corresponding characters.
#[verifier::external_body]
pub(crate) fn utf8_to_string(bytes: &[u8]) -> (r: Option<String>)
    ensures
        r is Some <==> vstd::utf8::valid_utf8(bytes@),
        r is Some ==> r->0@ == vstd::utf8::decode_utf8(bytes@),
{
    match std::str::from_utf8(bytes) {
        Ok(s) => Some(s.to_owned()),
        Err(_) => None,
    }
}

/// Relies on std's `String::from_utf8`: ASCII bytes are valid UTF-8 and
/// decode one-for-one to the characters with the same code points.
#[verifier::external_body]
pub(crate) fn ascii_to_string(bytes: &[u8]) -> (r: String)
    requires
        forall|i: int| 0 <= i < bytes@.len() ==> bytes@[i] < 128,
    ensures
        r@ == bytes@.map_values(|b: u8| b as char),
{
    String::from_utf8(bytes.to_vec()).unwrap()
}

} // verus!
