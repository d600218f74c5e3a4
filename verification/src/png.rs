//! The container: a fixed 8-byte signature followed by an ordered
//! sequence of records, with decode, lookup, append, removal and full
//! re-serialization.

use vstd::prelude::*;
use vstd::slice::slice_subrange;
use vstd::string::StringSliceAdditionalSpecFns;
use crate::be_bytes::{
    lemma_u32_be_bytes_round_trip, spec_u32_from_be_bytes, spec_u32_to_be_bytes, u32_from_be_bytes,
};
use crate::chunk::{
    lemma_chunk_reencode, lemma_chunk_round_trip, lemma_chunk_type_code_len, spec_chunk_decode,
    spec_chunk_encode, Chunk, ChunkView,
};
use crate::chunk_type::spec_type_valid;
use crate::error::PngError;

verus! {

/// The fixed 8-byte signature that every container starts with.
pub open spec fn spec_header() -> Seq<u8> {
    seq![137u8, 80u8, 78u8, 71u8, 13u8, 10u8, 26u8, 10u8]
}

/// The fixed 8-byte signature, as bytes.
pub fn standard_header() -> (r: [u8; 8])
    ensures
        r@ == spec_header(),
{
    let r = [137u8, 80u8, 78u8, 71u8, 13u8, 10u8, 26u8, 10u8];
    proof {
        assert(r@ =~= spec_header());
    }
    r
}

/// The on-wire bytes of a sequence of records, in order.
#[verifier::opaque]
pub open spec fn spec_chunks_encode(vs: Seq<ChunkView>) -> Seq<u8>
    decreases vs.len(),
{
    if vs.len() == 0 {
        Seq::empty()
    } else {
        spec_chunk_encode(vs[0]) + spec_chunks_encode(vs.drop_first())
    }
}

/// The on-wire bytes of a whole container: signature, then records.
pub open spec fn spec_png_encode(vs: Seq<ChunkView>) -> Seq<u8> {
    spec_header() + spec_chunks_encode(vs)
}

/// What decoding a byte buffer as a sequence of records yields: the
/// records, or the exact error the buffer deserves. Each record's frame
/// is `12 + declared length` bytes; the buffer must be consumed exactly.
#[verifier::opaque]
pub open spec fn spec_chunks_decode(bytes: Seq<u8>) -> Result<Seq<ChunkView>, PngError>
    decreases bytes.len(),
{
    if bytes.len() == 0 {
        Ok(Seq::empty())
    } else if bytes.len() < 4 {
        Err(PngError::TooShort)
    } else {
        let dl = spec_u32_from_be_bytes(bytes.subrange(0, 4)) as int;
        if 12 + dl > bytes.len() {
            Err(PngError::TooShort)
        } else {
            match spec_chunk_decode(bytes.subrange(0, 12 + dl)) {
                Ok(v) => match spec_chunks_decode(bytes.skip(12 + dl)) {
                    Ok(rest) => Ok(seq![v] + rest),
                    Err(e) => Err(e),
                },
                Err(e) => Err(e),
            }
        }
    }
}

/// What decoding a byte buffer as a whole container yields.
pub open spec fn spec_png_decode(bytes: Seq<u8>) -> Result<Seq<ChunkView>, PngError> {
    if bytes.len() < 8 {
        Err(PngError::TooShort)
    } else if bytes.subrange(0, 8) != spec_header() {
        Err(PngError::BadHeader)
    } else {
        spec_chunks_decode(bytes.skip(8))
    }
}

/// Prefixes already-decoded records onto the outcome of decoding the
/// rest of a buffer.
pub open spec fn spec_prepend_decoded(
    prefix: Seq<ChunkView>,
    rest: Result<Seq<ChunkView>, PngError>,
) -> Result<Seq<ChunkView>, PngError> {
    match rest {
        Ok(vs) => Ok(prefix + vs),
        Err(e) => Err(e),
    }
}

/// The index of the first record whose type bytes equal `t`, or the
/// number of records when none matches.
pub open spec fn spec_find_index(vs: Seq<ChunkView>, t: Seq<u8>) -> int
    decreases vs.len(),
{
    if vs.len() == 0 {
        0
    } else if vs[0].type_code == t {
        0
    } else {
        1 + spec_find_index(vs.drop_first(), t)
    }
}

/// `spec_find_index` names the first match: it is in range, it matches,
/// and nothing before it does.
pub proof fn lemma_find_index_first_match(vs: Seq<ChunkView>, t: Seq<u8>)
    ensures
        0 <= spec_find_index(vs, t) <= vs.len(),
        spec_find_index(vs, t) < vs.len() ==> vs[spec_find_index(vs, t)].type_code == t,
        forall|j: int| 0 <= j < spec_find_index(vs, t) ==> vs[j].type_code != t,
    decreases vs.len(),
{
    if vs.len() > 0 && vs[0].type_code != t {
        lemma_find_index_first_match(vs.drop_first(), t);
        assert(forall|j: int|
            1 <= j < spec_find_index(vs, t) ==> vs[j] == vs.drop_first()[j - 1]);
    }
}

/// The abstract values of a sequence of records, in order.
pub open spec fn views_of(chunks: Seq<Chunk>) -> Seq<ChunkView> {
    chunks.map_values(|c: Chunk| c@)
}

/// The container: an ordered sequence of records. Its abstract value is
/// the sequence of the records' abstract values, in order.
#[derive(Debug)]
pub struct Png {
    chunks: Vec<Chunk>,
}

impl View for Png {
    type V = Seq<ChunkView>;

    closed spec fn view(&self) -> Seq<ChunkView> {
        views_of(self.chunks@)
    }
}

impl Png {
    /// Wraps a pre-built sequence of records, trusting the caller: no
    /// validation is made here.
    pub fn from_chunks(chunks: Vec<Chunk>) -> (r: Png)
        ensures
            r@.len() == chunks@.len(),
            forall|i: int| 0 <= i < chunks@.len() ==> r@[i] == chunks@[i]@,
    {
        Png { chunks }
    }

    /// A read-only view of the records, in insertion order.
    pub fn chunks(&self) -> (r: &[Chunk])
        ensures
            r@.len() == self@.len(),
            forall|i: int| 0 <= i < r@.len() ==> r@[i]@ == self@[i],
    {
        self.chunks.as_slice()
    }

    /// True when the record's type bytes equal `key`.
    fn type_matches(c: &Chunk, key: &[u8]) -> (r: bool)
        ensures
            r == (c@.type_code == key@),
    {
        proof {
            lemma_chunk_type_code_len(c);
        }
        if key.len() != 4 {
            return false;
        }
        let tb = c.chunk_type().bytes();
        let m = tb[0] == key[0] && tb[1] == key[1] && tb[2] == key[2] && tb[3] == key[3];
        proof {
            if m {
                assert(c@.type_code =~= key@);
            }
        }
        m
    }

    /// The first record whose type text matches, if any.
    pub fn chunk_by_type(&self, chunk_type: &str) -> (r: Option<&Chunk>)
        ensures
            ({
                let i = spec_find_index(self@, chunk_type.spec_bytes());
                match r {
                    Some(c) => i < self@.len() && c@ == self@[i],
                    None => i == self@.len(),
                }
            }),
    {
        let key = chunk_type.as_bytes();
        proof {
            lemma_find_index_first_match(self@, chunk_type.spec_bytes());
        }
        let ghost f = spec_find_index(self@, chunk_type.spec_bytes());
        let mut i: usize = 0;
        while i < self.chunks.len()
            invariant
                i <= self@.len(),
                self@ == views_of(self.chunks@),
                forall|j: int| 0 <= j < i ==> self@[j].type_code != key@,
                key@ == chunk_type.spec_bytes(),
                f == spec_find_index(self@, chunk_type.spec_bytes()),
                0 <= f <= self@.len(),
                f < self@.len() ==> self@[f].type_code == key@,
                forall|j: int| 0 <= j < f ==> self@[j].type_code != key@,
            decreases self@.len() - i,
        {
            if Self::type_matches(&self.chunks[i], key) {
                proof {
                    assert(self@[i as int] == self.chunks@[i as int]@);
                    assert(self@[i as int].type_code == key@);
                    if f < i {
                        assert(self@[f].type_code != key@);
                        assert(false);
                    }
                    if f > i {
                        assert(self@[i as int].type_code != key@);
                        assert(false);
                    }
                }
                return Some(&self.chunks[i]);
            }
            proof {
                assert(self@[i as int] == self.chunks@[i as int]@);
            }
            i = i + 1;
        }
        None
    }

    /// Appends a record at the end; no duplicate-type check is made.
    pub fn append_chunk(&mut self, chunk: Chunk)
        ensures
            final(self)@ == old(self)@.push(chunk@),
    {
        let ghost before = self@;
        self.chunks.push(chunk);
        proof {
            assert(self@ =~= before.push(chunk@));
        }
    }

    /// Removes and returns the first record whose type text matches,
    /// preserving the order of the rest; fails with `NotFound`, leaving
    /// the container unchanged, when no record matches.
    #[verifier::rlimit(30)]
    pub fn remove_chunk(&mut self, chunk_type: &str) -> (r: Result<Chunk, PngError>)
        ensures
            ({
                let i = spec_find_index(old(self)@, chunk_type.spec_bytes());
                if i < old(self)@.len() {
                    r matches Ok(c) && c@ == old(self)@[i] && final(self)@ == old(self)@.remove(i)
                } else {
                    r == Err::<Chunk, PngError>(PngError::NotFound) && final(self)@ == old(self)@
                }
            }),
    {
        let key = chunk_type.as_bytes();
        proof {
            lemma_find_index_first_match(self@, chunk_type.spec_bytes());
        }
        let ghost before = self@;
        let ghost f = spec_find_index(before, chunk_type.spec_bytes());
        let mut i: usize = 0;
        while i < self.chunks.len()
            invariant
                i <= before.len(),
                before == old(self)@,
                self@ == before,
                self@ == views_of(self.chunks@),
                forall|j: int| 0 <= j < i ==> before[j].type_code != key@,
                key@ == chunk_type.spec_bytes(),
                f == spec_find_index(before, chunk_type.spec_bytes()),
                0 <= f <= before.len(),
                f < before.len() ==> before[f].type_code == key@,
                forall|j: int| 0 <= j < f ==> before[j].type_code != key@,
            decreases before.len() - i,
        {
            if Self::type_matches(&self.chunks[i], key) {
                proof {
                    assert(before[i as int] == self.chunks@[i as int]@);
                    assert(before[i as int].type_code == key@);
                    if f < i {
                        assert(before[f].type_code != key@);
                        assert(false);
                    }
                    if f > i {
                        assert(before[i as int].type_code != key@);
                        assert(false);
                    }
                }
                let c = self.chunks.remove(i);
                proof {
                    assert(self@ =~= before.remove(i as int));
                }
                return Ok(c);
            }
            proof {
                assert(before[i as int] == self.chunks@[i as int]@);
            }
            i = i + 1;
        }
        Err(PngError::NotFound)
    }

    /// The container's exact on-wire bytes: the fixed signature followed
    /// by each record's encoding, in order.
    pub fn as_bytes(&self) -> (r: Vec<u8>)
        ensures
            r@ == spec_png_encode(self@),
    {
        let header = standard_header();
        let mut r: Vec<u8> = Vec::new();
        r.push(header[0]);
        r.push(header[1]);
        r.push(header[2]);
        r.push(header[3]);
        r.push(header[4]);
        r.push(header[5]);
        r.push(header[6]);
        r.push(header[7]);
        proof {
            assert(r@ =~= spec_header());
            assert(spec_chunks_encode(self@.take(0)) =~= Seq::<u8>::empty()) by {
                reveal(spec_chunks_encode);
            }
            assert(r@ =~= spec_header() + spec_chunks_encode(self@.take(0)));
        }
        let mut i: usize = 0;
        while i < self.chunks.len()
            invariant
                i <= self@.len(),
                self@.len() == self.chunks@.len(),
                forall|j: int| 0 <= j < self.chunks@.len() ==> self.chunks@[j]@ == self@[j],
                r@ =~= spec_header() + spec_chunks_encode(self@.take(i as int)),
            decreases self@.len() - i,
        {
            let mut cb = self.chunks[i].as_bytes();
            r.append(&mut cb);
            proof {
                assert(self@.take(i + 1) =~= self@.take(i as int).push(self@[i as int]));
                lemma_chunks_encode_push(self@.take(i as int), self@[i as int]);
            }
            i = i + 1;
        }
        proof {
            assert(self@.take(self@.len() as int) =~= self@);
        }
        r
    }

    /// Decodes a whole container: the signature, then records until the
    /// buffer is consumed exactly. Any malformed record is a hard
    /// failure; nothing is skipped or patched.
    #[verifier::rlimit(80)]
    pub fn try_from(bytes: &[u8]) -> (r: Result<Png, PngError>)
        ensures
            r is Ok <==> spec_png_decode(bytes@) is Ok,
            r matches Ok(p) ==> spec_png_decode(bytes@) == Ok::<Seq<ChunkView>, PngError>(p@)
                && (forall|i: int|
                0 <= i < p@.len() ==> (#[trigger] p@[i]).wf() && spec_type_valid(p@[i].type_code)),
            r matches Err(e) ==> spec_png_decode(bytes@) == Err::<Seq<ChunkView>, PngError>(e),
    {
        let length = bytes.len();
        if length < 8 {
            return Err(PngError::TooShort);
        }
        let header_ok = bytes[0] == 137 && bytes[1] == 80 && bytes[2] == 78 && bytes[3] == 71
            && bytes[4] == 13 && bytes[5] == 10 && bytes[6] == 26 && bytes[7] == 10;
        proof {
            if header_ok {
                assert(bytes@.subrange(0, 8) =~= spec_header());
            } else {
                assert(bytes@.subrange(0, 8) != spec_header());
            }
        }
        if !header_ok {
            return Err(PngError::BadHeader);
        }
        let mut chunks: Vec<Chunk> = Vec::new();
        let mut next_index: usize = 8;
        proof {
            let x = spec_chunks_decode(bytes@.skip(8));
            assert(views_of(chunks@) =~= Seq::<ChunkView>::empty());
            if x is Ok {
                assert(views_of(chunks@) + x->Ok_0 =~= x->Ok_0);
            }
        }
        while next_index < length
            invariant
                8 <= next_index <= bytes@.len(),
                length == bytes@.len(),
                spec_png_decode(bytes@) == spec_chunks_decode(bytes@.skip(8)),
                spec_chunks_decode(bytes@.skip(8)) == spec_prepend_decoded(
                    views_of(chunks@),
                    spec_chunks_decode(bytes@.skip(next_index as int)),
                ),
                forall|i: int|
                    0 <= i < chunks@.len() ==> (#[trigger] chunks@[i]@).wf() && spec_type_valid(
                        chunks@[i]@.type_code,
                    ),
            decreases bytes@.len() - next_index,
        {
            let ghost views = views_of(chunks@);
            let ghost rest = bytes@.skip(next_index as int);
            let available = length - next_index;
            if available < 4 {
                proof {
                    assert(spec_chunks_decode(rest) == Err::<Seq<ChunkView>, PngError>(
                        PngError::TooShort,
                    )) by {
                        reveal(spec_chunks_decode);
                    }
                }
                return Err(PngError::TooShort);
            }
            let dl = u32_from_be_bytes(slice_subrange(bytes, next_index, next_index + 4));
            proof {
                assert(bytes@.subrange(next_index as int, next_index + 4) =~= rest.subrange(0, 4));
            }
            if available < 12 || dl as usize > available - 12 {
                proof {
                    assert(spec_chunks_decode(rest) == Err::<Seq<ChunkView>, PngError>(
                        PngError::TooShort,
                    )) by {
                        reveal(spec_chunks_decode);
                    }
                }
                return Err(PngError::TooShort);
            }
            let frame_end = next_index + 12 + dl as usize;
            let chunk = match Chunk::try_from(slice_subrange(bytes, next_index, frame_end)) {
                Ok(c) => c,
                Err(e) => {
                    proof {
                        assert(bytes@.subrange(next_index as int, frame_end as int)
                            =~= rest.subrange(0, 12 + dl as int));
                        assert(spec_chunks_decode(rest) == Err::<Seq<ChunkView>, PngError>(e)) by {
                            reveal(spec_chunks_decode);
                        }
                    }
                    return Err(e);
                },
            };
            proof {
                assert(bytes@.subrange(next_index as int, frame_end as int) =~= rest.subrange(
                    0,
                    12 + dl as int,
                ));
            }
            chunks.push(chunk);
            proof {
                assert(rest.skip(12 + dl as int) =~= bytes@.skip(frame_end as int));
                assert(views_of(chunks@) =~= views.push(chunk@));
                let tail = spec_chunks_decode(bytes@.skip(frame_end as int));
                assert(spec_chunks_decode(rest) == spec_prepend_decoded(seq![chunk@], tail)) by {
                    reveal(spec_chunks_decode);
                }
                if tail is Ok {
                    assert(views + (seq![chunk@] + tail->Ok_0) =~= views.push(chunk@)
                        + tail->Ok_0);
                }
            }
            next_index = frame_end;
        }
        proof {
            assert(bytes@.skip(next_index as int) =~= Seq::<u8>::empty());
            assert(spec_chunks_decode(bytes@.skip(next_index as int)) == Ok::<
                Seq<ChunkView>,
                PngError,
            >(Seq::<ChunkView>::empty())) by {
                reveal(spec_chunks_decode);
            }
            assert(views_of(chunks@) + Seq::<ChunkView>::empty() =~= views_of(chunks@));
        }
        let png = Png { chunks };
        Ok(png)
    }
}

/// Concatenating one more record's encoding extends the sequence
/// encoding on the right.
pub proof fn lemma_chunks_encode_push(vs: Seq<ChunkView>, v: ChunkView)
    ensures
        spec_chunks_encode(vs.push(v)) == spec_chunks_encode(vs) + spec_chunk_encode(v),
    decreases vs.len(),
{
    reveal_with_fuel(spec_chunks_encode, 3);
    if vs.len() == 0 {
        assert(vs.push(v).drop_first() =~= Seq::<ChunkView>::empty());
        Seq::add_empty_right(spec_chunk_encode(v), Seq::<u8>::empty());
        Seq::add_empty_left(Seq::<u8>::empty(), spec_chunk_encode(v));
        assert(spec_chunks_encode(vs.push(v)) == spec_chunk_encode(v) + spec_chunks_encode(
            Seq::<ChunkView>::empty(),
        ));
    } else {
        assert(vs.push(v).drop_first() =~= vs.drop_first().push(v));
        lemma_chunks_encode_push(vs.drop_first(), v);
        vstd::seq_lib::lemma_concat_associative(
            spec_chunk_encode(vs[0]),
            spec_chunks_encode(vs.drop_first()),
            spec_chunk_encode(v),
        );
        assert(vs.push(v)[0] == vs[0]);
    }
}

/// Splits the frame of one well-formed record off the front of a byte
/// stream: the length field, the whole frame, and the rest.
#[verifier::rlimit(80)]
pub proof fn lemma_chunk_frame_split(v: ChunkView, tail: Seq<u8>)
    requires
        v.wf(),
    ensures
        (spec_chunk_encode(v) + tail).subrange(0, 4) == spec_u32_to_be_bytes(v.data_length),
        (spec_chunk_encode(v) + tail).subrange(0, 12 + v.data_length as int) == spec_chunk_encode(
            v,
        ),
        (spec_chunk_encode(v) + tail).skip(12 + v.data_length as int) == tail,
        spec_chunk_encode(v).len() == 12 + v.data_length as int,
{
    let head = spec_chunk_encode(v);
    let bytes = head + tail;
    assert(head.len() == 12 + v.data.len());
    assert(bytes.subrange(0, 4) =~= spec_u32_to_be_bytes(v.data_length));
    assert(bytes.subrange(0, 12 + v.data_length as int) =~= head);
    assert(bytes.skip(12 + v.data_length as int) =~= tail);
}

/// Decoding one well-formed, valid-typed record's frame followed by
/// bytes that decode to `rest` yields the record followed by `rest`.
#[verifier::rlimit(80)]
proof fn lemma_chunks_decode_step(v: ChunkView, rest: Seq<ChunkView>, tail: Seq<u8>)
    requires
        v.wf(),
        spec_type_valid(v.type_code),
        spec_chunks_decode(tail) == Ok::<Seq<ChunkView>, PngError>(rest),
    ensures
        spec_chunks_decode(spec_chunk_encode(v) + tail) == Ok::<Seq<ChunkView>, PngError>(
            seq![v] + rest,
        ),
{
    let bytes = spec_chunk_encode(v) + tail;
    let dl = v.data_length as int;
    lemma_chunk_frame_split(v, tail);
    lemma_u32_be_bytes_round_trip(v.data_length);
    assert(spec_u32_from_be_bytes(bytes.subrange(0, 4)) == v.data_length);
    lemma_chunk_round_trip(v);
    assert(spec_chunk_decode(bytes.subrange(0, 12 + dl)) == Ok::<ChunkView, PngError>(v));
    assert(spec_chunks_decode(bytes.skip(12 + dl)) == Ok::<Seq<ChunkView>, PngError>(rest));
    assert(spec_chunks_decode(bytes) == Ok::<Seq<ChunkView>, PngError>(seq![v] + rest)) by {
        reveal(spec_chunks_decode);
    }
}

/// Law: decoding the encoding of a sequence of well-formed, valid-typed
/// records yields the same records, in order.
#[verifier::rlimit(100)]
pub proof fn lemma_chunks_round_trip(vs: Seq<ChunkView>)
    requires
        forall|i: int|
            0 <= i < vs.len() ==> (#[trigger] vs[i]).wf() && spec_type_valid(vs[i].type_code),
    ensures
        spec_chunks_decode(spec_chunks_encode(vs)) == Ok::<Seq<ChunkView>, PngError>(vs),
    decreases vs.len(),
{
    if vs.len() == 0 {
        assert(spec_chunks_encode(vs) == Seq::<u8>::empty()) by {
            reveal(spec_chunks_encode);
        }
        assert(spec_chunks_decode(Seq::<u8>::empty()) == Ok::<Seq<ChunkView>, PngError>(
            Seq::<ChunkView>::empty(),
        )) by {
            reveal(spec_chunks_decode);
        }
        assert(vs =~= Seq::<ChunkView>::empty());
    } else {
        let v = vs[0];
        let rest = vs.drop_first();
        assert forall|i: int|
            0 <= i < rest.len() implies (#[trigger] rest[i]).wf() && spec_type_valid(
            rest[i].type_code,
        ) by {
            assert(rest[i] == vs[i + 1]);
        }
        lemma_chunks_round_trip(rest);
        lemma_chunks_decode_step(v, rest, spec_chunks_encode(rest));
        assert(spec_chunks_encode(vs) == spec_chunk_encode(v) + spec_chunks_encode(rest)) by {
            reveal(spec_chunks_encode);
        }
        assert(seq![v] + rest =~= vs);
        assert(seq![v] + rest == vs);
    }
}

/// Law: decoding the encoding of a container built from well-formed,
/// valid-typed records yields records equal to the originals, in order
/// and content.
pub proof fn lemma_png_round_trip(vs: Seq<ChunkView>)
    requires
        forall|i: int|
            0 <= i < vs.len() ==> (#[trigger] vs[i]).wf() && spec_type_valid(vs[i].type_code),
    ensures
        spec_png_decode(spec_png_encode(vs)) == Ok::<Seq<ChunkView>, PngError>(vs),
{
    let bytes = spec_png_encode(vs);
    assert(bytes.subrange(0, 8) =~= spec_header());
    assert(bytes.skip(8) =~= spec_chunks_encode(vs));
    lemma_chunks_round_trip(vs);
}

/// Law: re-encoding a successfully decoded sequence of records
/// reproduces the exact input bytes.
#[verifier::rlimit(80)]
pub proof fn lemma_chunks_reencode(bytes: Seq<u8>)
    requires
        spec_chunks_decode(bytes) is Ok,
    ensures
        spec_chunks_encode(spec_chunks_decode(bytes)->Ok_0) == bytes,
    decreases bytes.len(),
{
    let vs = spec_chunks_decode(bytes)->Ok_0;
    if bytes.len() == 0 {
        assert(vs =~= Seq::<ChunkView>::empty()) by {
            reveal(spec_chunks_decode);
        }
        assert(spec_chunks_encode(vs) == Seq::<u8>::empty()) by {
            reveal(spec_chunks_encode);
        }
        assert(spec_chunks_encode(vs) =~= bytes);
    } else {
        let dl = spec_u32_from_be_bytes(bytes.subrange(0, 4)) as int;
        let head_v = spec_chunk_decode(bytes.subrange(0, 12 + dl))->Ok_0;
        let rest_v = spec_chunks_decode(bytes.skip(12 + dl))->Ok_0;
        assert(bytes.len() >= 4 && 12 + dl <= bytes.len() && spec_chunk_decode(
            bytes.subrange(0, 12 + dl),
        ) is Ok && spec_chunks_decode(bytes.skip(12 + dl)) is Ok && vs == seq![head_v]
            + rest_v) by {
            reveal(spec_chunks_decode);
        }
        lemma_chunk_reencode(bytes.subrange(0, 12 + dl));
        lemma_chunks_reencode(bytes.skip(12 + dl));
        assert(vs[0] == head_v);
        assert(vs.drop_first() =~= rest_v);
        assert(spec_chunks_encode(vs) == spec_chunk_encode(vs[0]) + spec_chunks_encode(
            vs.drop_first(),
        )) by {
            reveal(spec_chunks_encode);
        }
        assert(bytes.subrange(0, 12 + dl) + bytes.skip(12 + dl) =~= bytes);
    }
}

/// Law: re-encoding a successfully decoded container reproduces the
/// exact input bytes — serialization is the inverse of decoding on its
/// range.
pub proof fn lemma_png_reencode(bytes: Seq<u8>)
    requires
        spec_png_decode(bytes) is Ok,
    ensures
        spec_png_encode(spec_png_decode(bytes)->Ok_0) == bytes,
{
    assert(bytes.len() >= 8 && bytes.subrange(0, 8) == spec_header() && spec_png_decode(bytes)
        == spec_chunks_decode(bytes.skip(8)));
    lemma_chunks_reencode(bytes.skip(8));
    assert(spec_header() + bytes.skip(8) =~= bytes);
}

} // verus!
