//! One chunk record of the container format: a big-endian length, a 4-byte
//! tag, the payload, and a CRC-32/ISO-HDLC checksum over tag and payload.

use vstd::prelude::*;

use crate::chunk_type::{is_alphabetic, ChunkType, ParseChunkTypeError};
use crate::wire::{
    crc32_checksum, push_all, read_be_u32, spec_crc32, spec_u32_from_be_bytes,
    spec_u32_to_be_bytes, utf8_to_string, write_be_u32, lemma_u32_be_bytes_roundtrip,
    lemma_u32_be_bytes_injective,
};

verus! {

broadcast use crate::wire::lemma_u32_be_bytes_len;

/// A chunk's payload is not valid UTF-8 text.
#[derive(Debug, PartialEq, Eq, Structural, Clone, Copy)]
pub struct ParseChunkDataError;

/// Why a byte buffer does not hold a chunk record.
#[derive(Debug, PartialEq, Eq, Structural, Clone, Copy)]
pub enum ParseChunkError {
    /// The type field is not 4 ASCII letters.
    TagError,
    /// The buffer is too short for the record it claims to hold.
    FormatError,
    /// The stored CRC differs from the one computed over type and data.
    IntegrityError,
}

/// One length-prefixed, typed, checksummed record.
///
/// The invariant [`Self::wf`] ties the cached fields together: `len` is the
/// payload length and `crc` is the checksum over type and payload.
#[derive(Debug, Clone)]
pub struct Chunk {
    pub len: u32,
    pub chunk_type: ChunkType,
    pub data: Vec<u8>,
    pub crc: u32,
}

/// The payload length a record at the front of `s` declares.
pub open spec fn spec_chunk_data_len(s: Seq<u8>) -> int {
    spec_u32_from_be_bytes(s.subrange(0, 4)) as int
}

/// The type field of a record at the front of `s` is 4 ASCII letters.
pub open spec fn spec_chunk_tag_ok(s: Seq<u8>) -> bool {
    is_alphabetic(s[4]) && is_alphabetic(s[5]) && is_alphabetic(s[6]) && is_alphabetic(s[7])
}

/// Whether and why parsing one record at the front of `s` fails; trailing
/// bytes past the record are permitted. `None` means the record parses.
pub open spec fn spec_chunk_parse_err(s: Seq<u8>) -> Option<ParseChunkError> {
    if s.len() < 12 {
        Some(ParseChunkError::FormatError)
    } else if !spec_chunk_tag_ok(s) {
        Some(ParseChunkError::TagError)
    } else if s.len() < 12 + spec_chunk_data_len(s) {
        Some(ParseChunkError::FormatError)
    } else if spec_u32_from_be_bytes(
        s.subrange(8 + spec_chunk_data_len(s), 12 + spec_chunk_data_len(s)),
    ) != spec_crc32(s.subrange(4, 8) + s.subrange(8, 8 + spec_chunk_data_len(s))) {
        Some(ParseChunkError::IntegrityError)
    } else {
        None
    }
}

impl Chunk {
    /// The structural invariant: the cached length and checksum agree with
    /// the tag and payload.
    pub open spec fn wf(self) -> bool {
        &&& self.chunk_type.wf()
        &&& self.len == self.data@.len()
        &&& self.data@.len() <= u32::MAX
        &&& self.crc == spec_crc32(self.chunk_type@ + self.data@)
    }

    /// The record's exact wire layout: big-endian length, tag, payload,
    /// big-endian CRC.
    pub open spec fn wire(self) -> Seq<u8> {
        spec_u32_to_be_bytes(self.len) + self.chunk_type@ + self.data@ + spec_u32_to_be_bytes(
            self.crc,
        )
    }

    /// Builds a record over the given tag and payload, caching the payload
    /// length and the checksum over tag and payload.
    pub fn new(chunk_type: ChunkType, data: Vec<u8>) -> (r: Chunk)
        requires
            chunk_type.wf(),
            data@.len() <= u32::MAX,
        ensures
            r.wf(),
            r.chunk_type == chunk_type,
            r.data@ == data@,
            r.len == data@.len(),
            r.crc == spec_crc32(chunk_type@ + data@),
    {
        let len = data.len() as u32;
        let mut buf: Vec<u8> = Vec::new();
        buf.push(chunk_type.byte1);
        buf.push(chunk_type.byte2);
        buf.push(chunk_type.byte3);
        buf.push(chunk_type.byte4);
        push_all(&mut buf, data.as_slice());
        proof {
            assert(buf@ =~= chunk_type@ + data@);
        }
        let crc = crc32_checksum(buf.as_slice());
        Chunk { len, chunk_type, data, crc }
    }

    /// The cached payload length.
    pub fn length(&self) -> (r: u32)
        ensures
            r == self.len,
    {
        self.len
    }

    /// The record's tag.
    pub fn chunk_type(&self) -> (r: &ChunkType)
        ensures
            *r == self.chunk_type,
    {
        &self.chunk_type
    }

    /// The raw payload.
    pub fn data(&self) -> (r: &[u8])
        ensures
            r@ == self.data@,
    {
        self.data.as_slice()
    }

    /// The cached checksum.
    pub fn crc(&self) -> (r: u32)
        ensures
            r == self.crc,
    {
        self.crc
    }

    /// Decodes the payload as UTF-8 text; fails exactly when the payload is
    /// not valid UTF-8.
    pub fn data_as_string(&self) -> (r: Result<String, ParseChunkDataError>)
        ensures
            r is Ok <==> vstd::utf8::valid_utf8(self.data@),
            r matches Ok(s) ==> s@ == vstd::utf8::decode_utf8(self.data@),
    {
        match utf8_to_string(self.data.as_slice()) {
            Some(s) => Ok(s),
            None => Err(ParseChunkDataError),
        }
    }

    /// Serializes the record to its exact wire layout.
    pub fn as_bytes(&self) -> (r: Vec<u8>)
        ensures
            r@ == self.wire(),
    {
        let mut out: Vec<u8> = Vec::new();
        write_be_u32(&mut out, self.len);
        out.push(self.chunk_type.byte1);
        out.push(self.chunk_type.byte2);
        out.push(self.chunk_type.byte3);
        out.push(self.chunk_type.byte4);
        push_all(&mut out, self.data.as_slice());
        write_be_u32(&mut out, self.crc);
        proof {
            assert(out@ =~= self.wire());
        }
        out
    }

    /// Parses one record from the front of the buffer; bytes past the record
    /// are ignored. Succeeds exactly when the buffer starts with a record
    /// whose tag is alphabetic and whose stored CRC matches the one computed
    /// over tag and payload.
    pub fn try_from(value: &[u8]) -> (r: Result<Chunk, ParseChunkError>)
        ensures
            r is Ok <==> spec_chunk_parse_err(value@) is None,
            r matches Err(e) ==> Some(e) == spec_chunk_parse_err(value@),
            r matches Ok(c) ==> {
                &&& c.wf()
                &&& c.chunk_type@ == value@.subrange(4, 8)
                &&& c.data@ == value@.subrange(8, 8 + spec_chunk_data_len(value@))
            },
    {
        proof {
            assert(value@.skip(0) =~= value@);
        }
        match parse_chunk_at(value, 0) {
            Ok((c, _)) => Ok(c),
            Err(e) => Err(e),
        }
    }
}

/// Reads the 4-byte type field that starts at `off`.
pub fn read_chunk_type(bytes: &[u8], off: usize) -> (r: Result<ChunkType, ParseChunkTypeError>)
    requires
        off + 4 <= bytes@.len(),
    ensures
        r is Ok <==> (is_alphabetic(bytes@[off as int]) && is_alphabetic(bytes@[off as int + 1])
            && is_alphabetic(bytes@[off as int + 2]) && is_alphabetic(bytes@[off as int + 3])),
        r matches Ok(t) ==> t.wf() && t@ == bytes@.subrange(off as int, off as int + 4),
{
    let r = ChunkType::try_from([bytes[off], bytes[off + 1], bytes[off + 2], bytes[off + 3]]);
    proof {
        if r is Ok {
            assert(r->Ok_0@ =~= bytes@.subrange(off as int, off as int + 4));
        }
    }
    r
}

/// Copies the `n` payload bytes that start at `off`.
pub fn read_chunk_data(bytes: &[u8], off: usize, n: usize) -> (r: Vec<u8>)
    requires
        off + n <= bytes@.len(),
    ensures
        r@ == bytes@.subrange(off as int, off as int + n as int),
{
    let total = bytes.len();
    assert(off + n <= total);
    vstd::slice::slice_to_vec(vstd::slice::slice_subrange(bytes, off, off + n))
}

/// Parses one record of `bytes` that starts at `off` and returns it with
/// the offset just past it.
pub(crate) fn parse_chunk_at(bytes: &[u8], off: usize) -> (r: Result<
    (Chunk, usize),
    ParseChunkError,
>)
    requires
        off <= bytes@.len(),
    ensures
        ({
            let s = bytes@.skip(off as int);
            &&& (r is Ok <==> spec_chunk_parse_err(s) is None)
            &&& (r matches Err(e) ==> Some(e) == spec_chunk_parse_err(s))
            &&& (r matches Ok(p) ==> {
                &&& p.0.wf()
                &&& p.0.chunk_type@ == s.subrange(4, 8)
                &&& p.0.data@ == s.subrange(8, 8 + spec_chunk_data_len(s))
                &&& p.1 == off + 12 + spec_chunk_data_len(s)
                &&& p.0.wire() == s.subrange(0, 12 + spec_chunk_data_len(s))
            })
        }),
{
    let ghost s = bytes@.skip(off as int);
    let len_total = bytes.len();
    if len_total - off < 12 {
        return Err(ParseChunkError::FormatError);
    }
    let n32 = read_be_u32(bytes, off);
    proof {
        assert(bytes@.subrange(off as int, off as int + 4) =~= s.subrange(0, 4));
    }
    let t = match read_chunk_type(bytes, off + 4) {
        Ok(t) => t,
        Err(_) => {
            return Err(ParseChunkError::TagError);
        },
    };
    proof {
        assert(bytes@.subrange(off as int + 4, off as int + 8) =~= s.subrange(4, 8));
    }
    let n = n32 as usize;
    if len_total - off - 12 < n {
        return Err(ParseChunkError::FormatError);
    }
    let data = read_chunk_data(bytes, off + 8, n);
    proof {
        assert(data@ =~= s.subrange(8, 8 + n as int));
    }
    let stored = read_be_u32(bytes, off + 8 + n);
    proof {
        assert(bytes@.subrange(off as int + 8 + n as int, off as int + 12 + n as int) =~= s.subrange(
            8 + n as int,
            12 + n as int,
        ));
    }
    let mut buf: Vec<u8> = Vec::new();
    buf.push(t.byte1);
    buf.push(t.byte2);
    buf.push(t.byte3);
    buf.push(t.byte4);
    push_all(&mut buf, data.as_slice());
    proof {
        assert(buf@ =~= t@ + data@);
        assert(buf@ =~= s.subrange(4, 8) + s.subrange(8, 8 + spec_chunk_data_len(s)));
    }
    let computed = crc32_checksum(buf.as_slice());
    if stored != computed {
        return Err(ParseChunkError::IntegrityError);
    }
    let c = Chunk { len: n32, chunk_type: t, data, crc: stored };
    proof {
        lemma_u32_be_bytes_injective(s.subrange(0, 4));
        lemma_u32_be_bytes_injective(s.subrange(8 + n as int, 12 + n as int));
        assert(c.wire() =~= s.subrange(0, 12 + n as int));
    }
    Ok((c, off + 12 + n))
}

/// Parsing a well-formed record's own wire bytes succeeds and recovers the
/// same length, type, payload and checksum: serialization and parsing are
/// exact inverses, record by record.
pub proof fn lemma_chunk_round_trip(c: Chunk)
    requires
        c.wf(),
    ensures
        spec_chunk_parse_err(c.wire()) is None,
        spec_chunk_data_len(c.wire()) == c.data@.len(),
        c.wire().subrange(4, 8) == c.chunk_type@,
        c.wire().subrange(8, 8 + spec_chunk_data_len(c.wire())) == c.data@,
        spec_u32_from_be_bytes(c.wire().subrange(0, 4)) == c.len,
        spec_u32_from_be_bytes(
            c.wire().subrange(
                8 + spec_chunk_data_len(c.wire()),
                12 + spec_chunk_data_len(c.wire()),
            ),
        ) == c.crc,
{
    let w = c.wire();
    let n = c.data@.len() as int;
    assert(w.len() == 12 + n);
    assert(w.subrange(0, 4) =~= spec_u32_to_be_bytes(c.len));
    lemma_u32_be_bytes_roundtrip(c.len);
    assert(w.subrange(4, 8) =~= c.chunk_type@);
    assert(w.subrange(8, 8 + n) =~= c.data@);
    assert(w.subrange(8 + n, 12 + n) =~= spec_u32_to_be_bytes(c.crc));
    lemma_u32_be_bytes_roundtrip(c.crc);
    assert(w.subrange(4, 8) + w.subrange(8, 8 + n) =~= c.chunk_type@ + c.data@);
    assert(spec_chunk_tag_ok(w));
}

/// Flipping any single bit inside the stored CRC field of a serialized
/// record makes re-parsing fail with `IntegrityError`.
pub proof fn lemma_crc_bit_flip_detected(c: Chunk, i: int, bit: u8)
    requires
        c.wf(),
        c.wire().len() - 4 <= i < c.wire().len(),
        bit < 8,
    ensures
        spec_chunk_parse_err(c.wire().update(i, c.wire()[i] ^ (1u8 << bit))) == Some(
            ParseChunkError::IntegrityError,
        ),
{
    let w = c.wire();
    let n = c.data@.len() as int;
    let b0 = w[i];
    let b1 = b0 ^ (1u8 << bit);
    assert(b1 != b0) by (bit_vector)
        requires
            b1 == b0 ^ (1u8 << bit),
            bit < 8,
    ;
    let t = w.update(i, b1);
    assert(w.len() == 12 + n);
    assert(t.subrange(0, 4) =~= w.subrange(0, 4));
    assert(t.subrange(4, 8) =~= w.subrange(4, 8));
    assert(t.subrange(8, 8 + n) =~= w.subrange(8, 8 + n));
    lemma_chunk_round_trip(c);
    assert(spec_chunk_data_len(t) == n);
    assert(spec_chunk_tag_ok(t));
    // The tampered CRC field decodes to a different value than the stored
    // one, because big-endian decoding is injective on 4-byte sequences.
    let cf = w.subrange(8 + n, 12 + n);
    let tf = t.subrange(8 + n, 12 + n);
    assert(tf[i - (8 + n)] == b1 && cf[i - (8 + n)] == b0);
    assert(tf != cf);
    if spec_u32_from_be_bytes(tf) == spec_u32_from_be_bytes(cf) {
        lemma_u32_be_bytes_injective(tf);
        lemma_u32_be_bytes_injective(cf);
        assert(tf == cf);
    }
    assert(spec_u32_from_be_bytes(tf) != c.crc);
    assert(t.subrange(4, 8) + t.subrange(8, 8 + n) == w.subrange(4, 8) + w.subrange(8, 8 + n));
    assert(spec_crc32(t.subrange(4, 8) + t.subrange(8, 8 + n)) == c.crc);
}

} // verus!
