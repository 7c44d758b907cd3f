//! The chunk codec: typed, length-prefixed records in a RIFF container.
//!
//! A chunk is a four-byte identifier, the length of its payload as four
//! little-endian bytes, the payload, and one padding byte where the length
//! is odd. The padding byte is not counted in the length. A container is the
//! signature `RIFF`, the size of all that follows the size field, a four-byte
//! form type, and chunks one after another.

use vstd::prelude::*;
use vstd::slice::{slice_subrange, slice_to_vec};
use crate::error::Error;

verus! {

/// The signature of a container: `RIFF`.
pub const RIFF: [u8; 4] = [82, 73, 70, 70];

/// The largest number that a size field can hold.
pub const MAX_SIZE: u64 = 0xffff_ffff;

/// A chunk: an identifier and a payload.
#[derive(Clone, Debug, PartialEq, Eq)]
pub struct Chunk {
    pub id: [u8; 4],
    pub data: Vec<u8>,
}

/// What a `Chunk` holds.
pub struct ChunkView {
    pub id: Seq<u8>,
    pub data: Seq<u8>,
}

impl View for Chunk {
    type V = ChunkView;

    open spec fn view(&self) -> ChunkView {
        ChunkView { id: self.id@, data: self.data@ }
    }
}

/// What each chunk of a sequence holds.
pub open spec fn chunks_view(s: Seq<Chunk>) -> Seq<ChunkView> {
    Seq::new(s.len(), |i: int| s[i]@)
}

/// A container: a form type and chunks.
#[derive(Clone, Debug, PartialEq, Eq)]
pub struct Container {
    pub form: [u8; 4],
    pub chunks: Vec<Chunk>,
}

/// What a `Container` holds.
pub struct ContainerView {
    pub form: Seq<u8>,
    pub chunks: Seq<ChunkView>,
}

impl View for Container {
    type V = ContainerView;

    open spec fn view(&self) -> ContainerView {
        ContainerView { form: self.form@, chunks: chunks_view(self.chunks@) }
    }
}

/// The four little-endian bytes of a number below 2^32.
pub open spec fn le_bytes(n: nat) -> Seq<u8> {
    seq![
        (n % 256) as u8,
        (n / 256 % 256) as u8,
        (n / 65536 % 256) as u8,
        (n / 16777216 % 256) as u8,
    ]
}

/// The number that the first four bytes hold, little-endian.
pub open spec fn le_value(b: Seq<u8>) -> int {
    b[0] + 256 * b[1] + 65536 * b[2] + 16777216 * b[3]
}

/// A chunk that can be written: four identifier bytes, and a payload whose
/// length fits the length field.
pub open spec fn writable(c: ChunkView) -> bool {
    c.id.len() == 4 && c.data.len() <= 0xffff_ffff
}

/// Whether every chunk can be written.
pub open spec fn all_writable(cs: Seq<ChunkView>) -> bool {
    forall|i: int| 0 <= i < cs.len() ==> writable(#[trigger] cs[i])
}

/// The padding after a payload of `n` bytes.
pub open spec fn padding(n: nat) -> Seq<u8> {
    if n % 2 == 1 {
        seq![0u8]
    } else {
        Seq::<u8>::empty()
    }
}

/// The bytes of one chunk.
pub open spec fn chunk_bytes(c: ChunkView) -> Seq<u8> {
    c.id + le_bytes(c.data.len()) + c.data + padding(c.data.len())
}

/// The bytes of chunks, one after another in the order given.
pub open spec fn chunks_bytes(cs: Seq<ChunkView>) -> Seq<u8>
    decreases cs.len(),
{
    if cs.len() == 0 {
        Seq::<u8>::empty()
    } else {
        chunks_bytes(cs.drop_last()) + chunk_bytes(cs.last())
    }
}

/// A container that can be written: writable chunks whose bytes, with the
/// form type, fit the size field.
pub open spec fn fits(c: ContainerView) -> bool {
    c.form.len() == 4 && all_writable(c.chunks) && 4 + chunks_bytes(c.chunks).len() <= 0xffff_ffff
}

/// The bytes of a container. The size field is computed from the chunks.
pub open spec fn container_bytes(c: ContainerView) -> Seq<u8> {
    RIFF@ + le_bytes(4 + chunks_bytes(c.chunks).len()) + c.form + chunks_bytes(c.chunks)
}

/// Where the chunk at the start of `b` ends, padding included. One missing
/// padding byte at the very end of the bytes is let pass.
pub open spec fn first_chunk_end(b: Seq<u8>) -> int {
    let len = le_value(b.subrange(4, 8));
    let end = 8 + len;
    if len % 2 == 1 && end < b.len() {
        end + 1
    } else {
        end
    }
}

/// The chunks that bytes hold, or nothing where a header is cut short or a
/// length runs past the end.
pub open spec fn parsed_chunks(b: Seq<u8>) -> Option<Seq<ChunkView>>
    decreases b.len(),
{
    if b.len() == 0 {
        Some(Seq::<ChunkView>::empty())
    } else if b.len() < 8 || 8 + le_value(b.subrange(4, 8)) > b.len() {
        None
    } else {
        let c = ChunkView {
            id: b.subrange(0, 4),
            data: b.subrange(8, 8 + le_value(b.subrange(4, 8))),
        };
        match parsed_chunks(b.skip(first_chunk_end(b))) {
            Some(rest) => Some(seq![c] + rest),
            None => None,
        }
    }
}

/// The container that bytes hold: the chunks up to the boundary that the
/// size field gives; bytes beyond it are not looked at. Nothing where the
/// signature is wrong, the header is cut short, the size runs past the end,
/// or the chunks are malformed.
pub open spec fn parsed_container(b: Seq<u8>) -> Option<ContainerView> {
    if b.len() < 12 || b.subrange(0, 4) != RIFF@ {
        None
    } else {
        let size = le_value(b.subrange(4, 8));
        if size < 4 || 8 + size > b.len() {
            None
        } else {
            match parsed_chunks(b.subrange(12, 8 + size)) {
                Some(cs) => Some(ContainerView { form: b.subrange(8, 12), chunks: cs }),
                None => None,
            }
        }
    }
}

/// A number below 2^32 is read back from its four bytes.
pub proof fn lemma_le_round_trip(n: nat)
    requires
        n <= 0xffff_ffff,
    ensures
        le_bytes(n).len() == 4,
        le_value(le_bytes(n)) == n,
{
}

/// The bytes of chunks are the bytes of the first chunk and then those of
/// the others.
pub proof fn lemma_chunks_bytes_first(cs: Seq<ChunkView>)
    requires
        cs.len() > 0,
    ensures
        chunks_bytes(cs) == chunk_bytes(cs[0]) + chunks_bytes(cs.drop_first()),
    decreases cs.len(),
{
    if cs.len() == 1 {
        assert(cs.drop_last() =~= Seq::<ChunkView>::empty());
        assert(cs.drop_first() =~= Seq::<ChunkView>::empty());
        assert(chunks_bytes(cs) =~= chunk_bytes(cs[0]) + chunks_bytes(cs.drop_first()));
    } else {
        lemma_chunks_bytes_first(cs.drop_last());
        assert(cs.drop_last().drop_first() =~= cs.drop_first().drop_last());
        assert(cs.drop_first().last() == cs.last());
        assert(cs.drop_last()[0] == cs[0]);
        assert(chunks_bytes(cs) =~= chunk_bytes(cs[0]) + chunks_bytes(cs.drop_first()));
    }
}

/// The bytes of chunks, one sequence after another.
pub proof fn lemma_chunks_bytes_concat(a: Seq<ChunkView>, b: Seq<ChunkView>)
    ensures
        chunks_bytes(a + b) == chunks_bytes(a) + chunks_bytes(b),
    decreases b.len(),
{
    if b.len() == 0 {
        assert(a + b =~= a);
        assert(chunks_bytes(a + b) =~= chunks_bytes(a) + chunks_bytes(b));
    } else {
        lemma_chunks_bytes_concat(a, b.drop_last());
        assert((a + b).drop_last() =~= a + b.drop_last());
        assert((a + b).last() == b.last());
        assert(chunks_bytes(a + b) =~= chunks_bytes(a) + chunks_bytes(b));
    }
}

/// Round trip: chunks that were written are read back as they were, in
/// identifier, payload and order; the padding does not show.
pub proof fn lemma_chunks_round_trip(cs: Seq<ChunkView>)
    requires
        all_writable(cs),
    ensures
        parsed_chunks(chunks_bytes(cs)) == Some(cs),
    decreases cs.len(),
{
    if cs.len() == 0 {
    } else {
        let c = cs[0];
        let rest = cs.drop_first();
        lemma_chunks_bytes_first(cs);
        let head = chunk_bytes(c);
        let tail = chunks_bytes(rest);
        let b = head + tail;
        let n = c.data.len();
        assert(writable(c));
        lemma_le_round_trip(n);
        assert(head.len() == 8 + n + padding(n).len());
        assert(b.subrange(4, 8) =~= le_bytes(n));
        assert(b.subrange(0, 4) =~= c.id);
        assert(b.subrange(8, 8 + n as int) =~= c.data);
        assert(first_chunk_end(b) == head.len());
        assert(b.skip(head.len() as int) =~= tail);
        assert forall|i: int| 0 <= i < rest.len() implies writable(#[trigger] rest[i]) by {
            assert(rest[i] == cs[i + 1]);
        }
        lemma_chunks_round_trip(rest);
        assert(seq![c] + rest =~= cs);
    }
}

/// Length invariant: the size field of a written container holds the number
/// of bytes that follow it.
pub proof fn lemma_container_size(c: ContainerView)
    requires
        fits(c),
    ensures
        container_bytes(c).len() >= 12,
        le_value(container_bytes(c).subrange(4, 8)) == container_bytes(c).len() - 8,
{
    let body = chunks_bytes(c.chunks);
    lemma_le_round_trip(4 + body.len());
    assert(container_bytes(c).subrange(4, 8) =~= le_bytes(4 + body.len()));
}

/// Round trip: a container that was written is read back as it was.
pub proof fn lemma_container_round_trip(c: ContainerView)
    requires
        fits(c),
    ensures
        parsed_container(container_bytes(c)) == Some(c),
{
    let body = chunks_bytes(c.chunks);
    let b = container_bytes(c);
    lemma_container_size(c);
    assert(b.subrange(0, 4) =~= RIFF@);
    assert(b.subrange(8, 12) =~= c.form);
    assert(b.subrange(12, 12 + body.len() as int) =~= body);
    lemma_chunks_round_trip(c.chunks);
}

/// Appends `src` to `out`.
pub fn append(out: &mut Vec<u8>, src: &[u8])
    ensures
        final(out)@ == old(out)@ + src@,
{
    let mut i: usize = 0;
    assert(out@ =~= old(out)@ + src@.take(0));
    while i < src.len()
        invariant
            i <= src.len(),
            out@ == old(out)@ + src@.take(i as int),
        decreases src.len() - i,
    {
        out.push(src[i]);
        assert(out@ =~= old(out)@ + src@.take(i + 1));
        i = i + 1;
    }
    assert(src@.take(i as int) =~= src@);
}

/// Appends the four little-endian bytes of `n` to `out`.
pub fn append_le(out: &mut Vec<u8>, n: u32)
    ensures
        final(out)@ == old(out)@ + le_bytes(n as nat),
{
    out.push((n % 256) as u8);
    out.push((n / 256 % 256) as u8);
    out.push((n / 65536 % 256) as u8);
    out.push((n / 16777216 % 256) as u8);
    assert(out@ =~= old(out)@ + le_bytes(n as nat));
}

/// Reads the four little-endian bytes at `at`.
pub fn read_le(b: &[u8], at: usize) -> (r: u32)
    requires
        at + 4 <= b.len(),
    ensures
        r == le_value(b@.subrange(at as int, at + 4)),
{
    let b0 = b[at] as u32;
    let b1 = b[at + 1] as u32;
    let b2 = b[at + 2] as u32;
    let b3 = b[at + 3] as u32;
    b0 + 256 * b1 + 65536 * b2 + 16777216 * b3
}

/// Reads the four bytes at `at` as an identifier.
pub fn read_id(b: &[u8], at: usize) -> (r: [u8; 4])
    requires
        at + 4 <= b.len(),
    ensures
        r@ == b@.subrange(at as int, at + 4),
{
    let r = [b[at], b[at + 1], b[at + 2], b[at + 3]];
    assert(r@ =~= b@.subrange(at as int, at + 4));
    r
}

/// Whether two identifiers are the same.
pub fn same_id(a: &[u8; 4], b: &[u8; 4]) -> (r: bool)
    ensures
        r == (a@ == b@),
{
    let r = a[0] == b[0] && a[1] == b[1] && a[2] == b[2] && a[3] == b[3];
    proof {
        if r {
            assert(a@ =~= b@);
        }
    }
    r
}

/// Appends the bytes of one chunk to `out`.
fn append_chunk(out: &mut Vec<u8>, c: &Chunk)
    requires
        writable(c@),
    ensures
        final(out)@ == old(out)@ + chunk_bytes(c@),
{
    let n = c.data.len();
    append(out, c.id.as_slice());
    append_le(out, n as u32);
    append(out, c.data.as_slice());
    if n % 2 == 1 {
        out.push(0);
    }
    assert(out@ =~= old(out)@ + chunk_bytes(c@));
}

/// Writes chunks one after another, in the order given. Fails where a
/// payload is too long for its length field. What was written is read back
/// as it was.
pub fn serialize_chunks(chunks: &Vec<Chunk>) -> (r: Result<Vec<u8>, Error>)
    ensures
        match r {
            Ok(b) => all_writable(chunks_view(chunks@)) && b@ == chunks_bytes(
                chunks_view(chunks@),
            ),
            Err(e) => e == Error::MalformedContainer && !all_writable(chunks_view(chunks@)),
        },
        r matches Ok(b) ==> parsed_chunks(b@) == Some(chunks_view(chunks@)),
{
    let ghost cs = chunks_view(chunks@);
    let mut out: Vec<u8> = Vec::new();
    let mut i: usize = 0;
    assert(cs.take(0) =~= Seq::<ChunkView>::empty());
    while i < chunks.len()
        invariant
            i <= chunks.len(),
            cs == chunks_view(chunks@),
            all_writable(cs.take(i as int)),
            out@ == chunks_bytes(cs.take(i as int)),
        decreases chunks.len() - i,
    {
        let c = &chunks[i];
        assert(cs[i as int] == c@);
        if c.data.len() as u64 > MAX_SIZE {
            assert(!writable(cs[i as int]));
            return Err(Error::MalformedContainer);
        }
        append_chunk(&mut out, c);
        proof {
            let next = cs.take(i + 1);
            assert(next.drop_last() =~= cs.take(i as int));
            assert(next.last() == c@);
            assert forall|j: int| 0 <= j < next.len() implies writable(#[trigger] next[j]) by {
                if j < i {
                    assert(next[j] == cs.take(i as int)[j]);
                }
            }
        }
        i = i + 1;
    }
    assert(cs.take(i as int) =~= cs);
    proof {
        lemma_chunks_round_trip(cs);
    }
    Ok(out)
}

/// Reads chunks one after another until the bytes end. Fails where a header
/// is cut short or a length runs past the end of the bytes.
pub fn parse_chunks(b: &[u8]) -> (r: Result<Vec<Chunk>, Error>)
    ensures
        match parsed_chunks(b@) {
            Some(cs) => r is Ok && chunks_view(r->Ok_0@) == cs,
            None => r == Err::<Vec<Chunk>, Error>(Error::MalformedContainer),
        },
{
    let mut chunks: Vec<Chunk> = Vec::new();
    let mut pos: usize = 0;
    assert(b@.skip(0) =~= b@);
    assert(chunks_view(chunks@) =~= Seq::<ChunkView>::empty());
    while pos < b.len()
        invariant
            pos <= b.len(),
            parsed_chunks(b@) == match parsed_chunks(b@.skip(pos as int)) {
                Some(rest) => Some(chunks_view(chunks@) + rest),
                None => None,
            },
        decreases b.len() - pos,
    {
        let ghost tail = b@.skip(pos as int);
        let left = b.len() - pos;
        if left < 8 {
            return Err(Error::MalformedContainer);
        }
        let len = read_le(b, pos + 4);
        assert(b@.subrange(pos + 4, pos + 8) =~= tail.subrange(4, 8));
        if len as u64 > (left - 8) as u64 {
            return Err(Error::MalformedContainer);
        }
        let len = len as usize;
        let id = read_id(b, pos);
        let data = slice_to_vec(slice_subrange(b, pos + 8, pos + 8 + len));
        let end = pos + 8 + len;
        let next = if len % 2 == 1 && end < b.len() {
            end + 1
        } else {
            end
        };
        let chunk = Chunk { id, data };
        proof {
            assert(b@.subrange(pos as int, pos + 4) =~= tail.subrange(0, 4));
            assert(b@.subrange(pos + 8, pos + 8 + len) =~= tail.subrange(8, 8 + len));
            assert(first_chunk_end(tail) == next - pos);
            assert(tail.skip(next - pos) =~= b@.skip(next as int));
            let before = chunks_view(chunks@);
            let after = chunks_view(chunks@.push(chunk));
            assert(after =~= before + seq![chunk@]);
            assert forall|rest: Seq<ChunkView>| before + (seq![chunk@] + rest) == after + rest by {
                assert(before + (seq![chunk@] + rest) =~= after + rest);
            }
        }
        chunks.push(chunk);
        pos = next;
    }
    assert(b@.skip(pos as int) =~= Seq::<u8>::empty());
    assert(chunks_view(chunks@) + Seq::<ChunkView>::empty() =~= chunks_view(chunks@));
    Ok(chunks)
}

/// Writes a container. The size field is computed here, from the chunks, and
/// holds the number of bytes that follow it; the call fails where the
/// contents are too large for it. What was written is read back as it was.
pub fn serialize(container: &Container) -> (r: Result<Vec<u8>, Error>)
    ensures
        match r {
            Ok(b) => fits(container@) && b@ == container_bytes(container@),
            Err(e) => e == Error::MalformedContainer && !fits(container@),
        },
        r matches Ok(b) ==> b@.len() >= 12 && le_value(b@.subrange(4, 8)) == b@.len() - 8,
        r matches Ok(b) ==> parsed_container(b@) == Some(container@),
{
    let body = match serialize_chunks(&container.chunks) {
        Ok(body) => body,
        Err(e) => {
            return Err(Error::MalformedContainer);
        },
    };
    if body.len() as u64 > MAX_SIZE - 4 {
        return Err(Error::MalformedContainer);
    }
    let mut out: Vec<u8> = Vec::new();
    append(&mut out, RIFF.as_slice());
    append_le(&mut out, (body.len() + 4) as u32);
    append(&mut out, container.form.as_slice());
    append(&mut out, body.as_slice());
    assert(out@ =~= container_bytes(container@));
    proof {
        vstd::array::array_len_matches_n(&container.form);
        lemma_container_size(container@);
        lemma_container_round_trip(container@);
    }
    Ok(out)
}

/// Reads a container. Fails where the signature is not `RIFF`, the header
/// is cut short, the size runs past the end of the bytes, or the chunks are
/// malformed.
pub fn parse(b: &[u8]) -> (r: Result<Container, Error>)
    ensures
        match parsed_container(b@) {
            Some(c) => r is Ok && r->Ok_0@ == c,
            None => r == Err::<Container, Error>(Error::MalformedContainer),
        },
{
    if b.len() < 12 {
        return Err(Error::MalformedContainer);
    }
    let magic = read_id(b, 0);
    if !same_id(&magic, &RIFF) {
        return Err(Error::MalformedContainer);
    }
    let size = read_le(b, 4);
    if size < 4 || size as u64 > (b.len() - 8) as u64 {
        return Err(Error::MalformedContainer);
    }
    let form = read_id(b, 8);
    match parse_chunks(slice_subrange(b, 12, 8 + size as usize)) {
        Ok(chunks) => Ok(Container { form, chunks }),
        Err(e) => Err(Error::MalformedContainer),
    }
}

} // verus!
