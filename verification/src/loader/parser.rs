//! The chunked container of a `.beam` file.
//!
//! Takes the container apart into chunks of raw bytes without interpreting
//! what they hold.

use vstd::prelude::*;
use crate::error::LoadError;
use super::decode::bounded::be_u32;

verus! {

/// Four-byte chunk identifier, such as `Code`, `AtU8`, or `StrT`.
pub type FourCC = [u8; 4];

/// A chunk: its identifier and its bytes.
#[verifier::ext_equal]
pub struct ChunkView {
    pub tag: Seq<u8>,
    pub data: Seq<u8>,
}

/// How many bytes make the length of a chunk's data a multiple of four.
pub open spec fn padding(len: nat) -> nat {
    ((4 - len % 4) % 4) as nat
}

/// The chunk at the start of `s` and what follows it.
///
/// A chunk is its identifier, the length of its data, the data, and padding.
pub open spec fn first_chunk(s: Seq<u8>) -> Option<(ChunkView, Seq<u8>)> {
    if s.len() < 8 {
        None
    } else {
        let len = be_u32(s, 4) as nat;
        if 8 + len + padding(len) > s.len() {
            None
        } else {
            Some(
                (
                    ChunkView { tag: s.take(4), data: s.subrange(8, (8 + len) as int) },
                    s.skip((8 + len + padding(len)) as int),
                ),
            )
        }
    }
}

/// The chunks that `s` consists of, after those in `found`.
pub open spec fn chunks_of(s: Seq<u8>, found: Seq<ChunkView>) -> Option<Seq<ChunkView>>
    decreases s.len(),
{
    if s.len() == 0 {
        Some(found)
    } else {
        match first_chunk(s) {
            None => None,
            Some((chunk, rest)) => chunks_of(rest, found.push(chunk)),
        }
    }
}

/// The identifier that starts every container.
pub open spec fn form_id() -> Seq<u8> {
    seq![70u8, 79u8, 82u8, 49u8]
}

/// The type of the containers that hold a module.
pub open spec fn beam_id() -> Seq<u8> {
    seq![66u8, 69u8, 65u8, 77u8]
}

/// The chunks of a container, or nothing when the bytes are no container.
///
/// A container is `FOR1`, the number of bytes that follow the number, `BEAM`,
/// and the chunks. Bytes after the declared ones do not matter.
pub open spec fn container(b: Seq<u8>) -> Option<Seq<ChunkView>> {
    if b.len() < 12 || b.take(4) != form_id() || b.subrange(8, 12) != beam_id() {
        None
    } else {
        let declared = be_u32(b, 4);
        if declared < 4 || declared + 8 > b.len() {
            None
        } else {
            chunks_of(b.subrange(12, declared + 8), Seq::empty())
        }
    }
}

/// The view of a parsed chunk.
pub open spec fn chunk_view(chunk: (FourCC, &[u8])) -> ChunkView {
    ChunkView { tag: chunk.0@, data: chunk.1@ }
}

/// The views of parsed chunks.
pub open spec fn chunk_views(chunks: Seq<(FourCC, &[u8])>) -> Seq<ChunkView> {
    Seq::new(chunks.len(), |i: int| chunk_view(chunks[i]))
}

fn read_u32_at(bytes: &[u8], offset: usize) -> (r: u32)
    requires
        offset + 4 <= bytes@.len(),
    ensures
        r == be_u32(bytes@, offset as int),
{
    let high: u32 = (bytes[offset] as u32) * 256 + bytes[offset + 1] as u32;
    let low: u32 = (bytes[offset + 2] as u32) * 256 + bytes[offset + 3] as u32;
    high * 65536 + low
}

fn read_fourcc_at(bytes: &[u8], offset: usize) -> (r: FourCC)
    requires
        offset + 4 <= bytes@.len(),
    ensures
        r@ == bytes@.subrange(offset as int, offset + 4),
{
    let tag: FourCC = [bytes[offset], bytes[offset + 1], bytes[offset + 2], bytes[offset + 3]];
    assert(tag@ =~= bytes@.subrange(offset as int, offset + 4));
    tag
}

fn is_container(bytes: &[u8]) -> (r: bool)
    ensures
        r == (bytes@.len() >= 12 && bytes@.take(4) == form_id() && bytes@.subrange(8, 12)
            == beam_id()),
{
    if bytes.len() < 12 {
        return false;
    }
    let form = bytes[0] == 70 && bytes[1] == 79 && bytes[2] == 82 && bytes[3] == 49;
    let beam = bytes[8] == 66 && bytes[9] == 69 && bytes[10] == 65 && bytes[11] == 77;
    proof {
        let a = bytes@.take(4);
        let b = bytes@.subrange(8, 12);
        assert(a[0] == bytes@[0] && a[1] == bytes@[1] && a[2] == bytes@[2] && a[3] == bytes@[3]);
        assert(b[0] == bytes@[8] && b[1] == bytes@[9] && b[2] == bytes@[10] && b[3] == bytes@[11]);
        if form {
            assert(a =~= form_id());
        }
        if beam {
            assert(b =~= beam_id());
        }
    }
    form && beam
}

/// Takes a container apart into chunks.
pub fn parse_beam_chunks(bytes: &[u8]) -> (r: Result<Vec<(FourCC, &[u8])>, LoadError>)
    ensures
        match container(bytes@) {
            Some(chunks) => r matches Ok(found) && chunk_views(found@) == chunks,
            None => r matches Err(e) && e is InvalidFormat,
        },
{
    if !is_container(bytes) {
        return Err(LoadError::InvalidFormat);
    }
    let total: usize = bytes.len();
    let declared: usize = read_u32_at(bytes, 4) as usize;
    let end: usize = match declared.checked_add(8) {
        Some(end) => end,
        None => {
            return Err(LoadError::InvalidFormat);
        },
    };
    if end > total || declared < 4 {
        return Err(LoadError::InvalidFormat);
    }
    let mut offset: usize = 12;
    let mut chunks: Vec<(FourCC, &[u8])> = Vec::new();
    let ghost whole = bytes@.subrange(12, end as int);
    proof {
        assert(chunk_views(chunks@) =~= Seq::empty());
        assert(bytes@.subrange(offset as int, end as int) =~= whole);
    }
    while offset < end
        invariant
            12 <= offset <= end <= bytes@.len(),
            container(bytes@) == chunks_of(whole, Seq::empty()),
            chunks_of(whole, Seq::empty()) == chunks_of(
                bytes@.subrange(offset as int, end as int),
                chunk_views(chunks@),
            ),
        decreases end - offset,
    {
        let ghost rest = bytes@.subrange(offset as int, end as int);
        if end - offset < 8 {
            return Err(LoadError::InvalidFormat);
        }
        let tag = read_fourcc_at(bytes, offset);
        let length: usize = read_u32_at(bytes, offset + 4) as usize;
        proof {
            assert(rest[4] == bytes@[offset + 4]);
            assert(rest[5] == bytes@[offset + 5]);
            assert(rest[6] == bytes@[offset + 6]);
            assert(rest[7] == bytes@[offset + 7]);
            assert(be_u32(rest, 4) == length);
        }
        let data_start: usize = offset + 8;
        if length > end - data_start {
            return Err(LoadError::InvalidFormat);
        }
        let data_end: usize = data_start + length;
        let pad: usize = (4 - length % 4) % 4;
        if pad > end - data_end {
            return Err(LoadError::InvalidFormat);
        }
        let data = vstd::slice::slice_subrange(bytes, data_start, data_end);
        proof {
            let chunk = ChunkView { tag: tag@, data: data@ };
            assert(rest.take(4) =~= tag@);
            assert(rest.subrange(8, 8 + length) =~= data@);
            assert(rest.skip(8 + length + pad) =~= bytes@.subrange(data_end + pad, end as int));
            assert(chunk_views(chunks@.push((tag, data))) =~= chunk_views(chunks@).push(chunk));
        }
        chunks.push((tag, data));
        offset = data_end + pad;
    }
    proof {
        assert(bytes@.subrange(offset as int, end as int) =~= Seq::empty());
    }
    Ok(chunks)
}

// ---------------------------------------------------------------------------
// Writing a container down
// ---------------------------------------------------------------------------

/// A number as four bytes, most significant first.
pub open spec fn be32(n: nat) -> Seq<u8> {
    seq![
        (n / 0x100_0000) as u8,
        ((n / 0x1_0000) % 256) as u8,
        ((n / 0x100) % 256) as u8,
        (n % 256) as u8,
    ]
}

/// The bytes of a chunk.
pub open spec fn chunk_bytes(chunk: ChunkView) -> Seq<u8> {
    chunk.tag + be32(chunk.data.len()) + chunk.data + Seq::new(
        padding(chunk.data.len()),
        |i: int| 0u8,
    )
}

/// The bytes of chunks, one after the other.
pub open spec fn chunks_bytes(chunks: Seq<ChunkView>) -> Seq<u8>
    decreases chunks.len(),
{
    if chunks.len() == 0 {
        Seq::empty()
    } else {
        chunk_bytes(chunks[0]) + chunks_bytes(chunks.skip(1))
    }
}

/// The bytes of a container with the given chunks.
pub open spec fn container_bytes(chunks: Seq<ChunkView>) -> Seq<u8> {
    form_id() + be32(4 + chunks_bytes(chunks).len()) + beam_id() + chunks_bytes(chunks)
}

/// A chunk that the format can hold.
pub open spec fn chunk_fits(chunk: ChunkView) -> bool {
    chunk.tag.len() == 4 && chunk.data.len() < 0x1_0000_0000
}

proof fn lemma_be32(n: nat, s: Seq<u8>, at: int)
    requires
        n < 0x1_0000_0000,
        0 <= at,
        at + 4 <= s.len(),
        s.subrange(at, at + 4) == be32(n),
    ensures
        be_u32(s, at) == n,
{
    let d = s.subrange(at, at + 4);
    assert(d[0] == s[at] && d[1] == s[at + 1] && d[2] == s[at + 2] && d[3] == s[at + 3]);
}

proof fn lemma_first_chunk(chunk: ChunkView, rest: Seq<u8>)
    requires
        chunk_fits(chunk),
    ensures
        first_chunk(chunk_bytes(chunk) + rest) == Some((chunk, rest)),
{
    let s = chunk_bytes(chunk) + rest;
    let len = chunk.data.len();
    assert(s.subrange(4, 8) =~= be32(len));
    lemma_be32(len, s, 4);
    assert(s.take(4) =~= chunk.tag);
    assert(s.subrange(8, (8 + len) as int) =~= chunk.data);
    assert(s.skip((8 + len + padding(len)) as int) =~= rest);
}

proof fn lemma_chunks_of(chunks: Seq<ChunkView>, found: Seq<ChunkView>)
    requires
        forall|i: int| 0 <= i < chunks.len() ==> chunk_fits(#[trigger] chunks[i]),
    ensures
        chunks_of(chunks_bytes(chunks), found) == Some(found + chunks),
    decreases chunks.len(),
{
    if chunks.len() == 0 {
        assert(found + chunks =~= found);
    } else {
        lemma_first_chunk(chunks[0], chunks_bytes(chunks.skip(1)));
        lemma_chunks_of(chunks.skip(1), found.push(chunks[0]));
        assert(found.push(chunks[0]) + chunks.skip(1) =~= found + chunks);
        assert(chunk_bytes(chunks[0]).len() > 0);
    }
}

/// Taking a container apart gives back the chunks it was written from, whatever
/// follows it.
pub proof fn law_container_round_trip(chunks: Seq<ChunkView>, after: Seq<u8>)
    requires
        forall|i: int| 0 <= i < chunks.len() ==> chunk_fits(#[trigger] chunks[i]),
        4 + chunks_bytes(chunks).len() < 0x1_0000_0000,
    ensures
        container(container_bytes(chunks) + after) == Some(chunks),
{
    let body = chunks_bytes(chunks);
    let b = container_bytes(chunks) + after;
    let declared = (4 + body.len()) as nat;
    assert(b.take(4) =~= form_id());
    assert(b.subrange(4, 8) =~= be32(declared));
    lemma_be32(declared, b, 4);
    assert(b.subrange(8, 12) =~= beam_id());
    assert(b.subrange(12, declared as int + 8) =~= body);
    lemma_chunks_of(chunks, Seq::empty());
    assert(Seq::<ChunkView>::empty() + chunks =~= chunks);
}

} // verus!
