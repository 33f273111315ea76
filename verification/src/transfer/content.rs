//! What the bytes on disk are: a file whose chunks all arrived is, byte for byte,
//! the file that was sent.

use vstd::prelude::*;

use crate::digest::blake3_digest;
use crate::transfer::chunks::{
    chunk_count, chunk_len, lemma_chunk_inside, lemma_chunks_tile,
};
use crate::transfer::session::{
    blank_bitmap, lemma_complete, one_more_bit, verdict, ChunkStep, FileState,
};
use crate::util::{bit, hex, lemma_hex_round_trip};

verus! {

/// The bytes of chunk `idx` of a file.
pub open spec fn chunk_of(file: Seq<u8>, chunk_size: int, idx: int) -> Seq<u8> {
    file.subrange(
        idx * chunk_size,
        idx * chunk_size + chunk_len(file.len() as int, chunk_size, idx),
    )
}

/// A file on disk after bytes are written at an offset.
pub open spec fn overwritten(disk: Seq<u8>, offset: int, bytes: Seq<u8>) -> Seq<u8> {
    Seq::new(
        disk.len(),
        |i: int|
            if offset <= i < offset + bytes.len() {
                bytes[i - offset]
            } else {
                disk[i]
            },
    )
}

/// The file on disk has the size of the one that is sent, and every chunk that the
/// bitmap marks is the chunk that is sent.
pub open spec fn agrees(disk: Seq<u8>, source: Seq<u8>, chunk_size: int, bitmap: Seq<u8>) -> bool {
    &&& disk.len() == source.len()
    &&& forall|idx: int|
        0 <= idx < chunk_count(source.len() as int, chunk_size) && #[trigger] bit(bitmap, idx)
            ==> chunk_of(disk, chunk_size, idx) == chunk_of(source, chunk_size, idx)
}

/// A file that starts from nothing marks nothing, so whatever is on disk agrees.
pub proof fn lemma_fresh_agrees(disk: Seq<u8>, source: Seq<u8>, chunk_size: int)
    requires
        disk.len() == source.len(),
        0 < chunk_size,
    ensures
        agrees(
            disk,
            source,
            chunk_size,
            blank_bitmap(chunk_count(source.len() as int, chunk_size)),
        ),
{
    crate::util::lemma_bits_set_none(
        blank_bitmap(chunk_count(source.len() as int, chunk_size)),
        0,
    );
}

/// Writing a chunk at its place and marking it keeps the agreement: no other chunk
/// is touched.
pub proof fn lemma_chunk_lands(
    disk: Seq<u8>,
    source: Seq<u8>,
    chunk_size: int,
    before: Seq<u8>,
    after: Seq<u8>,
    idx: int,
)
    requires
        0 < chunk_size,
        agrees(disk, source, chunk_size, before),
        one_more_bit(before, after, idx),
        0 <= idx < chunk_count(source.len() as int, chunk_size),
    ensures
        agrees(
            overwritten(disk, idx * chunk_size, chunk_of(source, chunk_size, idx)),
            source,
            chunk_size,
            after,
        ),
{
    let size = source.len() as int;
    let now = overwritten(disk, idx * chunk_size, chunk_of(source, chunk_size, idx));
    lemma_chunk_inside(size, chunk_size, idx);
    assert forall|j: int| 0 <= j < chunk_count(size, chunk_size) && #[trigger] bit(after, j) implies chunk_of(
        now,
        chunk_size,
        j,
    ) == chunk_of(source, chunk_size, j) by {
        lemma_chunk_inside(size, chunk_size, j);
        if j == idx {
            assert(chunk_of(now, chunk_size, j) =~= chunk_of(source, chunk_size, j));
        } else {
            assert(bit(before, j));
            assert(j < idx ==> j * chunk_size + chunk_size <= idx * chunk_size) by (nonlinear_arith)
                requires
                    0 < chunk_size,
            ;
            assert(j > idx ==> idx * chunk_size + chunk_size <= j * chunk_size) by (nonlinear_arith)
                requires
                    0 < chunk_size,
            ;
            assert(chunk_of(now, chunk_size, j) =~= chunk_of(disk, chunk_size, j));
        }
    }
}

/// From the checksum to the bytes. A payload that the receiver writes has the digest
/// that was announced. Where that is the digest of the chunk that is sent, and the
/// digest tells the two apart should they differ, writing the payload itself at the
/// offset of the verdict and marking the chunk keeps the agreement.
pub proof fn lemma_checked_chunk_lands(
    f: FileState,
    chunk_size: u64,
    idx: u64,
    disk: Seq<u8>,
    source: Seq<u8>,
    payload: Seq<u8>,
    announced: Seq<char>,
    after: Seq<u8>,
)
    requires
        f.wf(chunk_size),
        f.entry.size == source.len(),
        agrees(disk, source, chunk_size as int, f.prog.bitmap@),
        verdict(f, chunk_size, idx, hex(blake3_digest(payload)), announced) is Write,
        announced == hex(blake3_digest(chunk_of(source, chunk_size as int, idx as int))),
        payload != chunk_of(source, chunk_size as int, idx as int) ==> blake3_digest(payload)
            != blake3_digest(chunk_of(source, chunk_size as int, idx as int)),
        one_more_bit(f.prog.bitmap@, after, idx as int),
    ensures
        verdict(f, chunk_size, idx, hex(blake3_digest(payload)), announced) == (
        ChunkStep::Write { offset: (idx * chunk_size) as u64 }),
        (idx * chunk_size) as u64 == idx * chunk_size,
        agrees(
            overwritten(disk, idx * chunk_size, payload),
            source,
            chunk_size as int,
            after,
        ),
{
    let chunk = chunk_of(source, chunk_size as int, idx as int);
    lemma_hex_round_trip(blake3_digest(payload));
    lemma_hex_round_trip(blake3_digest(chunk));
    assert(payload == chunk);
    lemma_chunk_inside(source.len() as int, chunk_size as int, idx as int);
    lemma_chunk_lands(disk, source, chunk_size as int, f.prog.bitmap@, after, idx as int);
}

/// A file with every chunk is the file that was sent.
pub proof fn lemma_all_chunks(disk: Seq<u8>, source: Seq<u8>, chunk_size: int, bitmap: Seq<u8>)
    requires
        0 < chunk_size,
        agrees(disk, source, chunk_size, bitmap),
        forall|idx: int|
            0 <= idx < chunk_count(source.len() as int, chunk_size) ==> #[trigger] bit(
                bitmap,
                idx,
            ),
    ensures
        disk == source,
{
    let size = source.len() as int;
    assert forall|i: int| 0 <= i < size implies disk[i] == source[i] by {
        let c = i / chunk_size;
        lemma_chunk_inside(size, chunk_size, 0);
        assert(0 < chunk_count(size, chunk_size)) by {
            assert(0 * chunk_size < size);
        }
        lemma_chunks_tile(size, chunk_size, i, 0);
        lemma_chunks_tile(size, chunk_size, i, c);
        lemma_chunk_inside(size, chunk_size, c);
        assert(bit(bitmap, c));
        let at = i - c * chunk_size;
        assert(chunk_of(disk, chunk_size, c)[at] == chunk_of(source, chunk_size, c)[at]);
    }
    assert(disk =~= source);
}

/// What is received is what was sent: a file whose count is full, and whose marked
/// chunks are those that were sent, is the file that was sent.
pub proof fn lemma_file_arrives(f: FileState, chunk_size: u64, disk: Seq<u8>, source: Seq<u8>)
    requires
        f.wf(chunk_size),
        f.entry.size == source.len(),
        f.prog.done_chunks == f.total_chunks,
        agrees(disk, source, chunk_size as int, f.prog.bitmap@),
    ensures
        disk == source,
{
    lemma_complete(f, chunk_size);
    assert forall|idx: int|
        0 <= idx < chunk_count(source.len() as int, chunk_size as int) implies #[trigger] bit(
        f.prog.bitmap@,
        idx,
    ) by {
        assert(f.has(idx));
    }
    lemma_all_chunks(disk, source, chunk_size as int, f.prog.bitmap@);
}

} // verus!
