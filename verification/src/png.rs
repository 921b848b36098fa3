//! The container: a fixed 8-byte signature followed by an ordered sequence
//! of chunk records.

use vstd::prelude::*;
use vstd::string::StringSliceAdditionalSpecFns;

use crate::chunk::{
    lemma_chunk_round_trip, parse_chunk_at, spec_chunk_data_len, spec_chunk_parse_err, Chunk,
    ParseChunkError,
};
use crate::wire::push_all;

verus! {

broadcast use crate::wire::lemma_u32_be_bytes_len;

/// No chunk in the container carries the requested type tag.
#[derive(Debug, PartialEq, Eq, Structural, Clone, Copy)]
pub struct NotFoundError;

/// The fixed 8 bytes that open every container.
pub open spec fn spec_signature() -> Seq<u8> {
    seq![137u8, 80u8, 78u8, 71u8, 13u8, 10u8, 26u8, 10u8]
}

/// The concatenated wire layout of a sequence of records.
pub open spec fn spec_chunks_wire(cs: Seq<Chunk>) -> Seq<u8>
    decreases cs.len(),
{
    if cs.len() == 0 {
        Seq::<u8>::empty()
    } else {
        cs[0].wire() + spec_chunks_wire(cs.drop_first())
    }
}

/// Whether and why parsing a run of consecutive records that must exhaust
/// `s` fails. `None` means the whole run parses.
pub open spec fn spec_png_chunks_err(s: Seq<u8>) -> Option<ParseChunkError>
    decreases s.len(),
{
    if s.len() == 0 {
        None
    } else if s.len() < 12 + spec_chunk_data_len(s) || spec_chunk_parse_err(s) is Some {
        spec_chunk_parse_err(s)
    } else {
        spec_png_chunks_err(s.skip(12 + spec_chunk_data_len(s)))
    }
}

/// Whether and why parsing a whole container image fails: a missing or
/// wrong signature, then the chunk run.
pub open spec fn spec_png_parse_err(s: Seq<u8>) -> Option<ParseChunkError> {
    if s.len() < 8 || s.subrange(0, 8) != spec_signature() {
        Some(ParseChunkError::FormatError)
    } else {
        spec_png_chunks_err(s.skip(8))
    }
}

/// A record's tag spells the given byte string.
pub open spec fn spec_matches(c: Chunk, tag: Seq<u8>) -> bool {
    c.chunk_type@ == tag
}

/// `i` is the position of the first record whose tag spells `tag`.
pub open spec fn is_first_match(cs: Seq<Chunk>, tag: Seq<u8>, i: int) -> bool {
    &&& 0 <= i < cs.len()
    &&& spec_matches(cs[i], tag)
    &&& forall|j: int| 0 <= j < i ==> !spec_matches(#[trigger] cs[j], tag)
}

/// The ordered container: the fixed signature plus the chunk sequence.
#[derive(Debug)]
pub struct Png {
    pub chunks: Vec<Chunk>,
}

impl Png {
    /// Every held record is well formed.
    pub open spec fn wf(self) -> bool {
        forall|k: int| 0 <= k < self.chunks@.len() ==> (#[trigger] self.chunks@[k]).wf()
    }

    /// The container's exact wire layout.
    pub open spec fn wire(self) -> Seq<u8> {
        spec_signature() + spec_chunks_wire(self.chunks@)
    }

    /// An empty container: the signature and no chunks.
    pub fn new() -> (p: Png)
        ensures
            p.wf(),
            p.chunks@.len() == 0,
    {
        Png { chunks: Vec::new() }
    }

    /// Parses a container image. Succeeds exactly when the bytes open with
    /// the signature and the rest is a run of valid records that uses the
    /// buffer up; the result serializes back to the input, byte for byte.
    #[verifier::rlimit(100)]
    pub fn try_from(bytes: &[u8]) -> (r: Result<Png, ParseChunkError>)
        ensures
            r is Ok <==> spec_png_parse_err(bytes@) is None,
            r matches Err(e) ==> Some(e) == spec_png_parse_err(bytes@),
            r matches Ok(p) ==> p.wf() && p.wire() == bytes@,
    {
        if !check_signature(bytes) {
            return Err(ParseChunkError::FormatError);
        }
        let total = bytes.len();
        let mut chunks: Vec<Chunk> = Vec::new();
        let mut off: usize = 8;
        while off < total
            invariant
                8 <= off <= total,
                total == bytes@.len(),
                bytes@.subrange(0, 8) == spec_signature(),
                forall|k: int| 0 <= k < chunks@.len() ==> (#[trigger] chunks@[k]).wf(),
                spec_chunks_wire(chunks@) == bytes@.subrange(8, off as int),
                spec_png_chunks_err(bytes@.skip(8)) == spec_png_chunks_err(
                    bytes@.skip(off as int),
                ),
            decreases total - off,
        {
            match parse_chunk_at(bytes, off) {
                Err(e) => {
                    proof {
                        let s = bytes@.skip(off as int);
                        assert(s.len() > 0);
                        assert(spec_png_chunks_err(s) == Some(e));
                    }
                    return Err(e);
                },
                Ok((c, next)) => {
                    proof {
                        let s = bytes@.skip(off as int);
                        let n = spec_chunk_data_len(s);
                        assert(s.len() >= 12 + n);
                        assert(spec_png_chunks_err(s) == spec_png_chunks_err(s.skip(12 + n)));
                        lemma_chunks_wire_push(chunks@, c);
                        assert(c.wire() =~= bytes@.subrange(off as int, off as int + 12 + n));
                        assert(spec_chunks_wire(chunks@.push(c)) =~= bytes@.subrange(
                            8,
                            off as int + 12 + n,
                        ));
                        assert(s.skip(12 + n) =~= bytes@.skip(off as int + 12 + n));
                    }
                    chunks.push(c);
                    off = next;
                },
            }
        }
        proof {
            assert(bytes@.skip(off as int).len() == 0);
        }
        let p = Png { chunks };
        proof {
            assert(p.wire() =~= bytes@);
        }
        Ok(p)
    }

    /// Appends the record at the end of the sequence; always succeeds.
    pub fn append_chunk(&mut self, chunk: Chunk)
        requires
            old(self).wf(),
            chunk.wf(),
        ensures
            final(self).wf(),
            final(self).chunks@ == old(self).chunks@.push(chunk),
    {
        self.chunks.push(chunk);
    }

    /// The first record in order whose tag spells the given string, if any;
    /// a string that no 4-byte tag can spell simply never matches.
    pub fn chunk_by_type(&self, chunk_type: &str) -> (r: Option<&Chunk>)
        ensures
            match r {
                Some(c) => exists|i: int|
                    #[trigger] is_first_match(self.chunks@, chunk_type.spec_bytes(), i) && *c
                        == self.chunks@[i],
                None => forall|j: int|
                    0 <= j < self.chunks@.len() ==> !spec_matches(
                        #[trigger] self.chunks@[j],
                        chunk_type.spec_bytes(),
                    ),
            },
    {
        match find_chunk_index(&self.chunks, chunk_type) {
            Some(i) => Some(&self.chunks[i]),
            None => None,
        }
    }

    /// Removes and returns the first record whose tag spells the given
    /// string; when none matches, reports the failure and leaves the
    /// container untouched.
    pub fn remove_chunk(&mut self, chunk_type: &str) -> (r: Result<Chunk, NotFoundError>)
        requires
            old(self).wf(),
        ensures
            final(self).wf(),
            (r is Ok <==> exists|i: int|
                is_first_match(old(self).chunks@, chunk_type.spec_bytes(), i)),
            r matches Ok(c) ==> exists|i: int|
                #[trigger] is_first_match(old(self).chunks@, chunk_type.spec_bytes(), i) && c
                    == old(self).chunks@[i] && final(self).chunks@ == old(self).chunks@.remove(i),
            r is Err ==> final(self).chunks@ == old(self).chunks@,
    {
        match find_chunk_index(&self.chunks, chunk_type) {
            Some(i) => {
                let c = self.chunks.remove(i);
                Ok(c)
            },
            None => Err(NotFoundError),
        }
    }

    /// A read-only view over the current ordered chunk sequence.
    pub fn chunks(&self) -> (r: &[Chunk])
        ensures
            r@ == self.chunks@,
    {
        self.chunks.as_slice()
    }

    /// Serializes the signature followed by every record in order; the
    /// exact inverse of parsing.
    pub fn as_bytes(&self) -> (r: Vec<u8>)
        ensures
            r@ == self.wire(),
    {
        let mut out: Vec<u8> = Vec::new();
        out.push(137);
        out.push(80);
        out.push(78);
        out.push(71);
        out.push(13);
        out.push(10);
        out.push(26);
        out.push(10);
        proof {
            assert(out@ =~= spec_signature());
        }
        let mut i: usize = 0;
        while i < self.chunks.len()
            invariant
                i <= self.chunks@.len(),
                out@ == spec_signature() + spec_chunks_wire(self.chunks@.take(i as int)),
            decreases self.chunks@.len() - i,
        {
            let cb = self.chunks[i].as_bytes();
            push_all(&mut out, cb.as_slice());
            proof {
                lemma_chunks_wire_push(self.chunks@.take(i as int), self.chunks@[i as int]);
                assert(self.chunks@.take(i as int).push(self.chunks@[i as int])
                    =~= self.chunks@.take(i as int + 1));
            }
            i = i + 1;
        }
        proof {
            assert(self.chunks@.take(self.chunks@.len() as int) =~= self.chunks@);
        }
        out
    }
}

/// The buffer opens with the fixed signature.
fn check_signature(bytes: &[u8]) -> (r: bool)
    ensures
        r == (bytes@.len() >= 8 && bytes@.subrange(0, 8) == spec_signature()),
{
    if bytes.len() < 8 {
        return false;
    }
    let ok = bytes[0] == 137 && bytes[1] == 80 && bytes[2] == 78 && bytes[3] == 71 && bytes[4]
        == 13 && bytes[5] == 10 && bytes[6] == 26 && bytes[7] == 10;
    proof {
        if ok {
            assert(bytes@.subrange(0, 8) =~= spec_signature());
        } else {
            assert(bytes@.subrange(0, 8) != spec_signature()) by {
                if bytes@.subrange(0, 8) == spec_signature() {
                    assert(forall|k: int|
                        0 <= k < 8 ==> bytes@[k] == #[trigger] spec_signature()[k]);
                }
            }
        }
    }
    ok
}

/// The position of the first record whose tag spells the given string.
fn find_chunk_index(chunks: &Vec<Chunk>, tag: &str) -> (r: Option<usize>)
    ensures
        match r {
            Some(i) => is_first_match(chunks@, tag.spec_bytes(), i as int),
            None => forall|j: int|
                0 <= j < chunks@.len() ==> !spec_matches(#[trigger] chunks@[j], tag.spec_bytes()),
        },
{
    let b = tag.as_bytes();
    if b.len() != 4 {
        proof {
            assert(forall|j: int|
                0 <= j < chunks@.len() ==> (#[trigger] chunks@[j]).chunk_type@.len() == 4);
        }
        return None;
    }
    let mut i: usize = 0;
    while i < chunks.len()
        invariant
            i <= chunks@.len(),
            b@ == tag.spec_bytes(),
            b@.len() == 4,
            forall|j: int| 0 <= j < i ==> !spec_matches(#[trigger] chunks@[j], tag.spec_bytes()),
        decreases chunks@.len() - i,
    {
        let c = &chunks[i];
        if c.chunk_type.byte1 == b[0] && c.chunk_type.byte2 == b[1] && c.chunk_type.byte3 == b[2]
            && c.chunk_type.byte4 == b[3] {
            proof {
                assert(chunks@[i as int].chunk_type@ =~= tag.spec_bytes());
            }
            return Some(i);
        }
        proof {
            assert(!spec_matches(chunks@[i as int], tag.spec_bytes())) by {
                if chunks@[i as int].chunk_type@ == tag.spec_bytes() {
                    assert(chunks@[i as int].chunk_type@[0] == tag.spec_bytes()[0]);
                    assert(chunks@[i as int].chunk_type@[1] == tag.spec_bytes()[1]);
                    assert(chunks@[i as int].chunk_type@[2] == tag.spec_bytes()[2]);
                    assert(chunks@[i as int].chunk_type@[3] == tag.spec_bytes()[3]);
                }
            }
        }
        i = i + 1;
    }
    None
}

/// Appending one record appends exactly its wire bytes.
pub proof fn lemma_chunks_wire_push(cs: Seq<Chunk>, c: Chunk)
    ensures
        spec_chunks_wire(cs.push(c)) == spec_chunks_wire(cs) + c.wire(),
    decreases cs.len(),
{
    if cs.len() == 0 {
        let d = cs.push(c).drop_first();
        assert(d =~= Seq::<Chunk>::empty());
        assert(spec_chunks_wire(d) =~= Seq::<u8>::empty());
        assert(cs.push(c)[0] == c);
        assert(spec_chunks_wire(cs.push(c)) == c.wire() + spec_chunks_wire(d));
        assert(spec_chunks_wire(cs) =~= Seq::<u8>::empty());
        assert(c.wire() + Seq::<u8>::empty() =~= Seq::<u8>::empty() + c.wire());
    } else {
        assert(cs.push(c)[0] == cs[0]);
        assert(cs.push(c).drop_first() =~= cs.drop_first().push(c));
        lemma_chunks_wire_push(cs.drop_first(), c);
        assert(cs[0].wire() + (spec_chunks_wire(cs.drop_first()) + c.wire()) =~= (cs[0].wire()
            + spec_chunks_wire(cs.drop_first())) + c.wire());
    }
}

/// The serialized bytes of any well-formed record run parse back whole.
#[verifier::rlimit(100)]
#[verifier::spinoff_prover]
pub proof fn lemma_chunks_wire_parses(cs: Seq<Chunk>)
    requires
        forall|k: int| 0 <= k < cs.len() ==> (#[trigger] cs[k]).wf(),
    ensures
        spec_png_chunks_err(spec_chunks_wire(cs)) is None,
    decreases cs.len(),
{
    if cs.len() == 0 {
        assert(spec_chunks_wire(cs).len() == 0);
    } else {
        let c = cs[0];
        let w = spec_chunks_wire(cs);
        let rest = spec_chunks_wire(cs.drop_first());
        let n = c.data@.len() as int;
        lemma_chunk_round_trip(c);
        assert(w =~= c.wire() + rest);
        assert(w.subrange(0, 4) =~= c.wire().subrange(0, 4));
        assert(w.subrange(4, 8) =~= c.wire().subrange(4, 8));
        assert(w.subrange(8, 8 + n) =~= c.wire().subrange(8, 8 + n));
        assert(w.subrange(8 + n, 12 + n) =~= c.wire().subrange(8 + n, 12 + n));
        assert(w.subrange(4, 8) + w.subrange(8, 8 + n) =~= c.wire().subrange(4, 8)
            + c.wire().subrange(8, 8 + n));
        assert(spec_chunk_parse_err(w) is None);
        assert(w.skip(12 + n) =~= rest);
        lemma_chunks_wire_parses(cs.drop_first());
    }
}

/// Two well-formed record runs with the same serialized bytes hold the same
/// records: equal tags, payloads, lengths and checksums, in the same order.
#[verifier::rlimit(100)]
#[verifier::spinoff_prover]
pub proof fn lemma_chunks_wire_injective(a: Seq<Chunk>, b: Seq<Chunk>)
    requires
        forall|k: int| 0 <= k < a.len() ==> (#[trigger] a[k]).wf(),
        forall|k: int| 0 <= k < b.len() ==> (#[trigger] b[k]).wf(),
        spec_chunks_wire(a) == spec_chunks_wire(b),
    ensures
        a.len() == b.len(),
        forall|k: int|
            0 <= k < a.len() ==> {
                &&& (#[trigger] a[k]).chunk_type@ == b[k].chunk_type@
                &&& a[k].data@ == b[k].data@
                &&& a[k].len == b[k].len
                &&& a[k].crc == b[k].crc
            },
    decreases a.len(),
{
    if a.len() == 0 && b.len() == 0 {
    } else if a.len() == 0 {
        assert(spec_chunks_wire(b).len() >= 12) by {
            assert(spec_chunks_wire(b) =~= b[0].wire() + spec_chunks_wire(b.drop_first()));
        }
        assert(false);
    } else if b.len() == 0 {
        assert(spec_chunks_wire(a).len() >= 12) by {
            assert(spec_chunks_wire(a) =~= a[0].wire() + spec_chunks_wire(a.drop_first()));
        }
        assert(false);
    } else {
        let w = spec_chunks_wire(a);
        let ra = spec_chunks_wire(a.drop_first());
        let rb = spec_chunks_wire(b.drop_first());
        lemma_chunk_round_trip(a[0]);
        lemma_chunk_round_trip(b[0]);
        let na = a[0].data@.len() as int;
        let nb = b[0].data@.len() as int;
        assert(w =~= a[0].wire() + ra);
        assert(w =~= b[0].wire() + rb);
        assert(w.subrange(0, 4) =~= a[0].wire().subrange(0, 4));
        assert(w.subrange(0, 4) =~= b[0].wire().subrange(0, 4));
        assert(a[0].len == b[0].len);
        assert(na == nb);
        assert(w.subrange(4, 8) =~= a[0].wire().subrange(4, 8));
        assert(w.subrange(4, 8) =~= b[0].wire().subrange(4, 8));
        assert(a[0].chunk_type@ == b[0].chunk_type@);
        assert(w.subrange(8, 8 + na) =~= a[0].wire().subrange(8, 8 + na));
        assert(w.subrange(8, 8 + nb) =~= b[0].wire().subrange(8, 8 + nb));
        assert(a[0].data@ == b[0].data@);
        assert(w.skip(12 + na) =~= ra);
        assert(w.skip(12 + nb) =~= rb);
        lemma_chunks_wire_injective(a.drop_first(), b.drop_first());
        assert(forall|k: int|
            1 <= k < a.len() ==> #[trigger] a[k] == a.drop_first()[k - 1] && b[k]
                == b.drop_first()[k - 1]);
    }
}

/// Any two well-formed containers that serialize to the same bytes hold the
/// identical ordered chunk sequence; with `try_from`'s contract this says a
/// parsed-back container reproduces the original, chunk for chunk.
pub proof fn lemma_png_round_trip(p: Png, q: Png)
    requires
        p.wf(),
        q.wf(),
        q.wire() == p.wire(),
    ensures
        q.chunks@.len() == p.chunks@.len(),
        forall|k: int|
            0 <= k < p.chunks@.len() ==> {
                &&& (#[trigger] p.chunks@[k]).chunk_type@ == q.chunks@[k].chunk_type@
                &&& p.chunks@[k].data@ == q.chunks@[k].data@
                &&& p.chunks@[k].len == q.chunks@[k].len
                &&& p.chunks@[k].crc == q.chunks@[k].crc
            },
{
    assert(spec_chunks_wire(p.chunks@) =~= p.wire().skip(8));
    assert(spec_chunks_wire(q.chunks@) =~= q.wire().skip(8));
    lemma_chunks_wire_injective(p.chunks@, q.chunks@);
}

/// A well-formed container's serialized bytes always parse back.
pub proof fn lemma_png_wire_parses(p: Png)
    requires
        p.wf(),
    ensures
        spec_png_parse_err(p.wire()) is None,
{
    assert(p.wire().subrange(0, 8) =~= spec_signature());
    assert(p.wire().skip(8) =~= spec_chunks_wire(p.chunks@));
    lemma_chunks_wire_parses(p.chunks@);
}

} // verus!
