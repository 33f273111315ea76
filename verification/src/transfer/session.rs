//! One incoming transfer: which chunks of which files are there.
//!
//! While a file is incomplete it lives as `<name>.caybulpart` next to a
//! `<name>.caybulmeta` that records which chunks are already present. If a
//! transfer is interrupted, re-sending skips those chunks.

use vstd::prelude::*;
use vstd::utf8::encode_utf8;

use crate::digest::{blake3_digest, blake3_hash};
use crate::protocol::{ControlMsg, FileEntry, MsgView, ResumeInfo, ResumeView};
use crate::text::{dec, dec_u64, same};
use crate::transfer::chunks::{chunk_count, lemma_chunk_inside, total_chunks};
use crate::transfer::events::{Event, EventView};
use crate::transfer::paths::{
    answered, meta_name, meta_of, part_name, part_of, uniquify, unique_name, RelPath,
};
use crate::util::{
    all_pairs, bit, bitmap_bytes, bitmap_count, bitmap_get, bitmap_len, bitmap_set, bits_set, hex,
    hex_decode, hex_encode, unhex,
};

verus! {

/// What is written beside an incomplete file.
#[derive(Debug)]
pub struct PartMeta {
    pub size: u64,
    pub chunk_size: u64,
    /// Bitmap (hex) of the chunks that are there.
    pub bitmap_hex: String,
}

/// How far a file has come.
#[derive(Debug)]
pub struct FileProgress {
    /// The incomplete file is open for writing.
    pub open: bool,
    pub bitmap: Vec<u8>,
    pub done_chunks: u64,
    /// The file is complete and has its final name.
    pub finalized: bool,
}

/// A file of a session.
#[derive(Debug)]
pub struct FileState {
    pub entry: FileEntry,
    pub final_path: RelPath,
    pub part_path: RelPath,
    pub meta_path: RelPath,
    pub total_chunks: u64,
    pub prog: FileProgress,
}

impl FileState {
    /// The bookkeeping of a file is right: the bitmap has a bit for every chunk,
    /// the count is the count of its bits, a file is closed or final only when
    /// every chunk is there, and the names beside it are the file's own.
    pub open spec fn wf(&self, chunk_size: u64) -> bool {
        &&& chunk_size > 0
        &&& self.total_chunks == chunk_count(self.entry.size as int, chunk_size as int)
        &&& self.entry.size > 0 ==> self.prog.bitmap@.len() == bitmap_bytes(
            self.total_chunks as int,
        )
        &&& self.prog.done_chunks == bits_set(self.prog.bitmap@, self.total_chunks as nat)
        &&& self.prog.finalized ==> self.prog.done_chunks == self.total_chunks
        &&& self.prog.open ==> !self.prog.finalized && self.entry.size > 0
        &&& self.entry.size > 0 && !self.prog.open ==> self.prog.done_chunks == self.total_chunks
        &&& self.entry.size == 0 ==> self.prog.finalized
        &&& self.final_path@.len() > 0
        &&& self.part_path@ == part_of(self.final_path@)
        &&& self.meta_path@ == meta_of(self.final_path@)
    }

    /// Chunk `idx` is there.
    pub open spec fn has(&self, idx: int) -> bool {
        bit(self.prog.bitmap@, idx)
    }
}

/// A record that belongs to this very file, cut into chunks of this size.
pub open spec fn meta_matches(meta: Option<PartMeta>, size: u64, chunk_size: u64) -> bool {
    meta matches Some(m) && m.size == size && m.chunk_size == chunk_size
}

/// The bitmap that a record gives a file of `chunks` chunks: what its hex text
/// spells, cut or filled up with zeros to the right length; a text that is no
/// hex text counts as empty.
pub open spec fn resumed_bitmap(bitmap_hex: Seq<char>, chunks: int) -> Seq<u8> {
    let text = encode_utf8(bitmap_hex);
    let bytes = if text.len() % 2 == 0 && all_pairs(text) {
        unhex(text)
    } else {
        Seq::empty()
    };
    Seq::new(
        bitmap_bytes(chunks) as nat,
        |i: int|
            if i < bytes.len() {
                bytes[i]
            } else {
                0u8
            },
    )
}

/// A bitmap with no chunk in it.
pub open spec fn blank_bitmap(chunks: int) -> Seq<u8> {
    Seq::new(bitmap_bytes(chunks) as nat, |i: int| 0u8)
}

/// What is written of a bitmap is what is read of it: a transfer goes on with
/// exactly the chunks it had.
pub proof fn lemma_resume_round_trip(bitmap: Seq<u8>, chunks: int)
    requires
        0 <= chunks,
        bitmap.len() == bitmap_bytes(chunks),
    ensures
        resumed_bitmap(hex(bitmap), chunks) == bitmap,
{
    crate::util::lemma_hex_round_trip(bitmap);
    assert(resumed_bitmap(hex(bitmap), chunks) =~= bitmap);
}

/// A file is complete by count exactly when every one of its chunks is there.
pub proof fn lemma_complete(f: FileState, chunk_size: u64)
    requires
        f.wf(chunk_size),
    ensures
        f.prog.done_chunks <= f.total_chunks,
        f.prog.done_chunks == f.total_chunks <==> forall|i: int|
            0 <= i < f.total_chunks ==> f.has(i),
        f.prog.finalized ==> forall|i: int| 0 <= i < f.total_chunks ==> f.has(i),
{
    crate::util::lemma_bits_set_full(f.prog.bitmap@, f.total_chunks as nat);
    if f.prog.done_chunks == f.total_chunks {
        assert forall|i: int| 0 <= i < f.total_chunks implies f.has(i) by {
            assert(bit(f.prog.bitmap@, i));
        }
    }
    if forall|i: int| 0 <= i < f.total_chunks ==> f.has(i) {
        assert forall|i: int| 0 <= i < f.total_chunks implies bit(f.prog.bitmap@, i) by {
            assert(f.has(i));
        }
    }
}

fn read_bitmap(bitmap_hex: &str, chunks: u64) -> (r: Vec<u8>)
    requires
        bitmap_bytes(chunks as int) <= usize::MAX,
    ensures
        r@ == resumed_bitmap(bitmap_hex@, chunks as int),
{
    let mut bm: Vec<u8> = match hex_decode(bitmap_hex) {
        Ok(v) => v,
        Err(_) => Vec::new(),
    };
    bm.resize(bitmap_len(chunks), 0);
    assert(bm@ =~= resumed_bitmap(bitmap_hex@, chunks as int));
    bm
}

/// The record to resume from, if there is one: it belongs to this very file, and
/// its incomplete file is still in place.
pub fn resumable(
    meta: Option<PartMeta>,
    size: u64,
    chunk_size: u64,
    part_there: bool,
) -> (r: Option<PartMeta>)
    ensures
        r == if meta_matches(meta, size, chunk_size) && part_there {
            meta
        } else {
            None
        },
{
    match meta {
        Some(m) => if m.size == size && m.chunk_size == chunk_size && part_there {
            Some(m)
        } else {
            None
        },
        None => None,
    }
}

/// The bitmap that a file starts with: that of the record it is resumed from, or
/// a blank one.
pub open spec fn first_bitmap(resume: Option<PartMeta>, chunks: int) -> Seq<u8> {
    match resume {
        Some(m) => resumed_bitmap(m.bitmap_hex@, chunks),
        None => blank_bitmap(chunks),
    }
}

/// A file at its place: what of it is there comes from the record it is resumed
/// from. A file without bytes is complete at once.
pub fn place_file(
    entry: &FileEntry,
    final_path: RelPath,
    chunk_size: u64,
    resume: Option<PartMeta>,
) -> (r: FileState)
    requires
        chunk_size > 0,
        final_path@.len() > 0,
        bitmap_bytes(chunk_count(entry.size as int, chunk_size as int)) <= usize::MAX,
    ensures
        r.wf(chunk_size),
        r.entry == *entry,
        r.final_path == final_path,
        r.prog.open == (entry.size > 0),
        r.prog.finalized == (entry.size == 0),
        entry.size > 0 ==> r.prog.bitmap@ == first_bitmap(resume, r.total_chunks as int),
        entry.size == 0 ==> r.prog.bitmap@.len() == 0,
{
    let chunks: u64 = total_chunks(entry.size, chunk_size);
    let part_path = part_name(&final_path);
    let meta_path = meta_name(&final_path);
    proof {
        lemma_chunk_inside(entry.size as int, chunk_size as int, 0);
    }
    if entry.size == 0 {
        let prog = FileProgress {
            open: false,
            bitmap: Vec::new(),
            done_chunks: 0,
            finalized: true,
        };
        proof {
            crate::util::lemma_bits_set_none(prog.bitmap@, chunks as nat);
        }
        return FileState {
            entry: entry.clone(),
            final_path,
            part_path,
            meta_path,
            total_chunks: chunks,
            prog,
        };
    }
    let bitmap: Vec<u8> = match &resume {
        Some(m) => read_bitmap(m.bitmap_hex.as_str(), chunks),
        None => {
            let mut bm: Vec<u8> = Vec::new();
            bm.resize(bitmap_len(chunks), 0);
            assert(bm@ =~= blank_bitmap(chunks as int));
            bm
        },
    };
    let done: u64 = bitmap_count(bitmap.as_slice(), chunks);
    FileState {
        entry: entry.clone(),
        final_path,
        part_path,
        meta_path,
        total_chunks: chunks,
        prog: FileProgress { open: true, bitmap, done_chunks: done, finalized: false },
    }
}

/// Where a file goes when it is resumed from `resume` or from nothing: to its own
/// name, unless it starts from nothing and its name is taken.
pub open spec fn chosen_path<F: Fn(&RelPath) -> bool>(
    taken: F,
    rel: Seq<Seq<char>>,
    resume: Option<PartMeta>,
    chosen: Seq<Seq<char>>,
) -> bool {
    match resume {
        Some(_) => chosen == rel,
        None => (answered(taken, rel, false) && chosen == rel) || (answered(taken, rel, true)
            && unique_name(taken, rel, chosen)),
    }
}

/// Decides where an announced file goes and what of it is already there.
///
/// A record that matches the file, with its incomplete file still in place, is
/// resumed. Otherwise the file starts from nothing, under a fresh name when its
/// own is taken. `taken` tells whether there is something at a path.
pub fn plan_file<F: Fn(&RelPath) -> bool>(
    entry: &FileEntry,
    rel: RelPath,
    chunk_size: u64,
    meta: Option<PartMeta>,
    taken: &F,
) -> (r: FileState)
    requires
        chunk_size > 0,
        rel@.len() > 0,
        bitmap_bytes(chunk_count(entry.size as int, chunk_size as int)) <= usize::MAX,
        forall|p: RelPath| call_requires(*taken, (&p,)),
    ensures
        r.wf(chunk_size),
        r.entry == *entry,
        r.prog.open == (entry.size > 0),
        r.prog.finalized == (entry.size == 0),
        entry.size == 0 ==> r.prog.bitmap@.len() == 0,
        exists|part_there: bool|
            {
                let resume = if meta_matches(meta, entry.size, chunk_size) && part_there {
                    meta
                } else {
                    None
                };
                &&& #[trigger] answered(*taken, part_of(rel@), part_there)
                &&& chosen_path(*taken, rel@, resume, r.final_path@)
                &&& entry.size > 0 ==> r.prog.bitmap@ == first_bitmap(
                    resume,
                    r.total_chunks as int,
                )
            },
{
    let part = part_name(&rel);
    let part_there = taken(&part);
    assert(answered(*taken, part_of(rel@), part_there));
    let resume = resumable(meta, entry.size, chunk_size, part_there);
    let final_path = if resume.is_none() {
        let there = taken(&rel);
        assert(answered(*taken, rel@, there));
        if there {
            uniquify(&rel, taken)
        } else {
            rel
        }
    } else {
        rel
    };
    place_file(entry, final_path, chunk_size, resume)
}

// ---- chunks as they arrive ----

/// What to do with a chunk that arrived.
#[derive(Debug, Clone, Copy, PartialEq, Eq, Structural)]
pub enum ChunkStep {
    /// Nothing is written; tell the sender whether the chunk is there.
    Ack(bool),
    /// Write the payload at this offset of the incomplete file.
    Write { offset: u64 },
}

/// What to do with chunk `idx`, given the digest of its payload and the one that
/// was announced: an index outside the file is refused, a chunk that is already
/// there is fine, a digest that differs is refused, and so is a chunk for a file
/// that is not open; everything else is written at its place.
pub open spec fn verdict(
    f: FileState,
    chunk_size: u64,
    idx: u64,
    digest_hex: Seq<char>,
    announced: Seq<char>,
) -> ChunkStep {
    if idx >= f.total_chunks {
        ChunkStep::Ack(false)
    } else if f.has(idx as int) {
        ChunkStep::Ack(true)
    } else if digest_hex != announced || !f.prog.open {
        ChunkStep::Ack(false)
    } else {
        ChunkStep::Write { offset: (idx * chunk_size) as u64 }
    }
}

/// What to do once a chunk is written.
#[derive(Debug)]
pub struct Written {
    /// The record to write beside the file.
    pub persist: PartMeta,
    /// Every chunk is there: close the file, give it its final name and take
    /// the record away.
    pub complete: bool,
}

/// The record of the chunks that a file has.
pub open spec fn is_record(m: PartMeta, f: FileState, chunk_size: u64) -> bool {
    &&& m.size == f.entry.size
    &&& m.chunk_size == chunk_size
    &&& m.bitmap_hex@ == hex(f.prog.bitmap@)
}

/// The bits of `after` are those of `before` and bit `idx`.
pub open spec fn one_more_bit(before: Seq<u8>, after: Seq<u8>, idx: int) -> bool {
    &&& after.len() == before.len()
    &&& forall|j: int|
        #![trigger bit(after, j)]
        0 <= j ==> bit(after, j) == (j == idx || bit(before, j))
}

impl FileState {
    /// Decides about a chunk from the digest of its payload, in hex.
    pub fn judge_chunk(
        &self,
        chunk_size: u64,
        idx: u64,
        digest_hex: &str,
        announced: &str,
    ) -> (r: ChunkStep)
        requires
            self.wf(chunk_size),
        ensures
            r == verdict(*self, chunk_size, idx, digest_hex@, announced@),
            r matches ChunkStep::Write { offset } ==> offset == idx * chunk_size && offset
                < self.entry.size,
    {
        if idx >= self.total_chunks {
            return ChunkStep::Ack(false);
        }
        if bitmap_get(self.prog.bitmap.as_slice(), idx) {
            return ChunkStep::Ack(true);
        }
        if !same(digest_hex, announced) || !self.prog.open {
            return ChunkStep::Ack(false);
        }
        proof {
            lemma_chunk_inside(self.entry.size as int, chunk_size as int, idx as int);
        }
        ChunkStep::Write { offset: idx * chunk_size }
    }

    /// Decides about a chunk that arrived: only a payload with the announced
    /// digest is ever written.
    pub fn receive_chunk(
        &self,
        chunk_size: u64,
        idx: u64,
        payload: &[u8],
        announced: &str,
    ) -> (r: ChunkStep)
        requires
            self.wf(chunk_size),
        ensures
            r == verdict(*self, chunk_size, idx, hex(blake3_digest(payload@)), announced@),
            r matches ChunkStep::Write { offset } ==> offset == idx * chunk_size && offset
                < self.entry.size && hex(blake3_digest(payload@)) == announced@,
    {
        if idx >= self.total_chunks {
            return ChunkStep::Ack(false);
        }
        if bitmap_get(self.prog.bitmap.as_slice(), idx) {
            // A retry after a lost ack: it is already there.
            return ChunkStep::Ack(true);
        }
        let digest = blake3_hash(payload);
        let digest_hex = hex_encode(digest.as_slice());
        self.judge_chunk(chunk_size, idx, digest_hex.as_str(), announced)
    }

    /// The record of the chunks that are there. It stands beside the file from the
    /// start and is written anew with every chunk.
    pub fn record(&self, chunk_size: u64) -> (r: PartMeta)
        ensures
            is_record(r, *self, chunk_size),
    {
        PartMeta {
            size: self.entry.size,
            chunk_size,
            bitmap_hex: hex_encode(self.prog.bitmap.as_slice()),
        }
    }

    /// Notes that chunk `idx` is on disk. The record to write beside the file has
    /// every chunk that is there, this one among them, so that none is sent again
    /// when the transfer breaks off. With the last chunk the file is closed.
    pub fn chunk_written(&mut self, chunk_size: u64, idx: u64) -> (r: Written)
        requires
            old(self).wf(chunk_size),
            old(self).prog.open,
            idx < old(self).total_chunks,
            !old(self).has(idx as int),
        ensures
            final(self).wf(chunk_size),
            final(self).entry == old(self).entry,
            final(self).final_path == old(self).final_path,
            final(self).part_path == old(self).part_path,
            final(self).meta_path == old(self).meta_path,
            final(self).total_chunks == old(self).total_chunks,
            one_more_bit(old(self).prog.bitmap@, final(self).prog.bitmap@, idx as int),
            final(self).prog.done_chunks == old(self).prog.done_chunks + 1,
            final(self).prog.finalized == old(self).prog.finalized,
            r.complete == (final(self).prog.done_chunks == final(self).total_chunks),
            final(self).prog.open == !r.complete,
            is_record(r.persist, *final(self), chunk_size),
    {
        let ghost before = self.prog.bitmap@;
        proof {
            lemma_complete(*self, chunk_size);
            lemma_chunk_inside(self.entry.size as int, chunk_size as int, idx as int);
        }
        bitmap_set(self.prog.bitmap.as_mut_slice(), idx);
        proof {
            crate::util::lemma_bits_set_one_more(
                before,
                self.prog.bitmap@,
                idx as int,
                self.total_chunks as nat,
            );
            crate::util::lemma_bits_set_full(self.prog.bitmap@, self.total_chunks as nat);
        }
        self.prog.done_chunks = self.prog.done_chunks + 1;
        let complete = self.prog.done_chunks == self.total_chunks;
        let persist = self.record(chunk_size);
        if complete {
            self.prog.open = false;
        }
        Written { persist, complete }
    }

    /// Notes that the complete file has its final name.
    pub fn renamed(&mut self, chunk_size: u64) -> (r: Event)
        requires
            old(self).wf(chunk_size),
            old(self).prog.done_chunks == old(self).total_chunks,
            !old(self).prog.open,
        ensures
            final(self).wf(chunk_size),
            *final(self) == (FileState {
                prog: FileProgress { finalized: true, ..old(self).prog },
                ..*old(self)
            }),
            r@ == (EventView::FileCompleted {
                rel_path: old(self).entry.rel_path@,
                bytes: old(self).entry.size,
            }),
    {
        self.prog.finalized = true;
        Event::FileCompleted { rel_path: self.entry.rel_path.clone(), bytes: self.entry.size }
    }
}

/// Sending a chunk again does no harm: once it is written, the same chunk is
/// acknowledged and nothing is written.
pub proof fn lemma_duplicate_is_acknowledged(
    before: FileState,
    after: FileState,
    chunk_size: u64,
    idx: u64,
    digest_hex: Seq<char>,
    announced: Seq<char>,
)
    requires
        idx < before.total_chunks,
        after.total_chunks == before.total_chunks,
        one_more_bit(before.prog.bitmap@, after.prog.bitmap@, idx as int),
    ensures
        verdict(after, chunk_size, idx, digest_hex, announced) == ChunkStep::Ack(true),
{
    assert(bit(after.prog.bitmap@, idx as int));
}

/// No chunk is lost: a record that was written and read back resumes the file
/// with every chunk it had, and no other.
pub proof fn lemma_record_resumes(f: FileState, chunk_size: u64, m: PartMeta)
    requires
        f.wf(chunk_size),
        f.entry.size > 0,
        is_record(m, f, chunk_size),
    ensures
        meta_matches(Some(m), f.entry.size, chunk_size),
        resumed_bitmap(m.bitmap_hex@, f.total_chunks as int) == f.prog.bitmap@,
        first_bitmap(Some(m), f.total_chunks as int) == f.prog.bitmap@,
        bits_set(resumed_bitmap(m.bitmap_hex@, f.total_chunks as int), f.total_chunks as nat)
            == f.prog.done_chunks,
{
    lemma_resume_round_trip(f.prog.bitmap@, f.total_chunks as int);
}

// ---- the session ----

/// An incoming transfer.
#[derive(Debug)]
pub struct Session {
    pub token: String,
    pub chunk_size: u64,
    pub files: Vec<FileState>,
    pub total_bytes: u64,
    pub received_bytes: u64,
}

/// The bytes of all files together.
pub open spec fn sizes_total(files: Seq<FileState>) -> int
    decreases files.len(),
{
    if files.len() == 0 {
        0
    } else {
        sizes_total(files.drop_last()) + files.last().entry.size
    }
}

/// The bytes that a file has already: whole chunks, but no more than the file.
pub open spec fn bytes_there(f: FileState, chunk_size: u64) -> int {
    if f.prog.done_chunks * chunk_size < f.entry.size {
        f.prog.done_chunks * chunk_size
    } else {
        f.entry.size as int
    }
}

/// The bytes that all files have already.
pub open spec fn bytes_there_total(files: Seq<FileState>, chunk_size: u64) -> int
    decreases files.len(),
{
    if files.len() == 0 {
        0
    } else {
        bytes_there_total(files.drop_last(), chunk_size) + bytes_there(files.last(), chunk_size)
    }
}

proof fn lemma_sizes_prefix(files: Seq<FileState>, n: int, chunk_size: u64)
    requires
        0 <= n <= files.len(),
    ensures
        0 <= sizes_total(files.take(n)) <= sizes_total(files),
        0 <= bytes_there_total(files.take(n), chunk_size) <= sizes_total(files.take(n)),
    decreases files.len(),
{
    if n < files.len() {
        lemma_sizes_prefix(files.drop_last(), n, chunk_size);
        assert(files.drop_last().take(n) =~= files.take(n));
    } else if n > 0 {
        assert(files.take(n) =~= files);
        lemma_sizes_prefix(files.drop_last(), n - 1, chunk_size);
        assert(files.drop_last().take(n - 1) =~= files.drop_last());
        let f = files.last();
        assert(f.prog.done_chunks * chunk_size >= 0) by (nonlinear_arith);
    }
}

impl Session {
    /// Every file of the session is in order.
    pub open spec fn wf(&self) -> bool {
        &&& self.chunk_size > 0
        &&& forall|i: int| 0 <= i < self.files@.len() ==> (#[trigger] self.files@[i]).wf(
            self.chunk_size,
        )
    }
}

fn there(f: &FileState, chunk_size: u64) -> (r: u64)
    ensures
        r == bytes_there(*f, chunk_size),
{
    match f.prog.done_chunks.checked_mul(chunk_size) {
        Some(n) => if n < f.entry.size {
            n
        } else {
            f.entry.size
        },
        None => f.entry.size,
    }
}

/// The session of files whose places are decided.
pub fn build_session(token: String, chunk_size: u64, files: Vec<FileState>) -> (r: Session)
    requires
        chunk_size > 0,
        forall|i: int| 0 <= i < files@.len() ==> (#[trigger] files@[i]).wf(chunk_size),
        sizes_total(files@) <= u64::MAX,
    ensures
        r.wf(),
        r.token == token,
        r.chunk_size == chunk_size,
        r.files == files,
        r.total_bytes == sizes_total(files@),
        r.received_bytes == bytes_there_total(files@, chunk_size),
{
    let mut total: u64 = 0;
    let mut have: u64 = 0;
    let mut i: usize = 0;
    assert(files@.take(0) =~= Seq::<FileState>::empty());
    while i < files.len()
        invariant
            i <= files@.len(),
            sizes_total(files@) <= u64::MAX,
            total == sizes_total(files@.take(i as int)),
            have == bytes_there_total(files@.take(i as int), chunk_size),
        decreases files@.len() - i,
    {
        proof {
            lemma_sizes_prefix(files@, i + 1, chunk_size);
            assert(files@.take(i + 1).drop_last() =~= files@.take(i as int));
        }
        total = total + files[i].entry.size;
        have = have + there(&files[i], chunk_size);
        i = i + 1;
    }
    assert(files@.take(files@.len() as int) =~= files@);
    Session { token, chunk_size, files, total_bytes: total, received_bytes: have }
}

/// What the receiver has of every file, for the sender to skip.
pub open spec fn resume_of(files: Seq<FileState>) -> Seq<ResumeView> {
    Seq::new(
        files.len(),
        |i: int|
            ResumeView { file_idx: i as u32, have_bitmap_hex: hex(files[i].prog.bitmap@) },
    )
}

/// How the sender is told about one file at the end.
pub open spec fn report_of(f: FileState, idx: int) -> MsgView {
    MsgView::FileDone {
        file_idx: idx as u32,
        ok: f.prog.finalized,
        message: if f.prog.finalized {
            "complete"@
        } else {
            "incomplete ("@ + dec(f.prog.done_chunks as nat) + "/"@ + dec(f.total_chunks as nat)
                + " chunks)"@
        },
    }
}

/// Every file has its final name.
pub open spec fn all_finalized(files: Seq<FileState>) -> bool {
    forall|i: int| 0 <= i < files.len() ==> (#[trigger] files[i]).prog.finalized
}

/// How a transfer that the sender finished ends.
pub open spec fn end_of(ok: bool) -> EventView {
    EventView::SessionEnded {
        ok,
        message: if ok {
            "all files received and verified"@
        } else {
            "session ended with incomplete files (kept for resume)"@
        },
    }
}

/// Messages, as contracts see them.
pub open spec fn msgs(list: Seq<ControlMsg>) -> Seq<MsgView> {
    list.map_values(|m: ControlMsg| m@)
}

/// What follows from a chunk that is on disk.
#[derive(Debug)]
pub struct Landed {
    pub progress: Event,
    /// The record to write beside the file.
    pub persist: PartMeta,
    /// The file is to be closed and given its final name.
    pub complete: bool,
}

impl Session {
    /// What the receiver has of every file, for the sender to skip.
    pub fn resume_list(&self) -> (r: Vec<ResumeInfo>)
        ensures
            crate::protocol::resumes(r@) == resume_of(self.files@),
    {
        let mut out: Vec<ResumeInfo> = Vec::new();
        let mut i: usize = 0;
        while i < self.files.len()
            invariant
                i <= self.files@.len(),
                out@.len() == i,
                forall|j: int| 0 <= j < i ==> (#[trigger] out@[j])@ == resume_of(self.files@)[j],
            decreases self.files@.len() - i,
        {
            out.push(
                ResumeInfo {
                    file_idx: #[verifier::truncate] (i as u32),
                    have_bitmap_hex: hex_encode(self.files[i].prog.bitmap.as_slice()),
                },
            );
            i = i + 1;
        }
        assert(crate::protocol::resumes(out@) =~= resume_of(self.files@));
        out
    }

    /// Decides about a chunk that arrived; a file that the session does not have
    /// is refused.
    pub fn receive_chunk(
        &self,
        file_idx: u32,
        chunk_idx: u64,
        payload: &[u8],
        announced: &str,
    ) -> (r: ChunkStep)
        requires
            self.wf(),
        ensures
            r == if file_idx < self.files@.len() {
                verdict(
                    self.files@[file_idx as int],
                    self.chunk_size,
                    chunk_idx,
                    hex(blake3_digest(payload@)),
                    announced@,
                )
            } else {
                ChunkStep::Ack(false)
            },
    {
        if file_idx as usize >= self.files.len() {
            return ChunkStep::Ack(false);
        }
        self.files[file_idx as usize].receive_chunk(self.chunk_size, chunk_idx, payload, announced)
    }

    /// Notes that a chunk of `len` bytes is on disk. The byte counter wraps, as
    /// an atomic counter does.
    pub fn chunk_written(&mut self, file_idx: u32, chunk_idx: u64, len: u64) -> (r: Landed)
        requires
            old(self).wf(),
            file_idx < old(self).files@.len(),
            old(self).files@[file_idx as int].prog.open,
            chunk_idx < old(self).files@[file_idx as int].total_chunks,
            !old(self).files@[file_idx as int].has(chunk_idx as int),
        ensures
            final(self).wf(),
            final(self).token == old(self).token,
            final(self).chunk_size == old(self).chunk_size,
            final(self).total_bytes == old(self).total_bytes,
            final(self).received_bytes == (old(self).received_bytes + len) % 0x1_0000_0000_0000_0000,
            final(self).files@.len() == old(self).files@.len(),
            forall|i: int|
                0 <= i < old(self).files@.len() && i != file_idx ==> (#[trigger] final(self).files@[i])
                    == old(self).files@[i],
            ({
                let before = old(self).files@[file_idx as int];
                let after = final(self).files@[file_idx as int];
                &&& after.entry == before.entry
                &&& after.final_path == before.final_path
                &&& after.part_path == before.part_path
                &&& after.meta_path == before.meta_path
                &&& after.total_chunks == before.total_chunks
                &&& one_more_bit(before.prog.bitmap@, after.prog.bitmap@, chunk_idx as int)
                &&& after.prog.done_chunks == before.prog.done_chunks + 1
                &&& after.prog.finalized == before.prog.finalized
                &&& after.prog.open == !r.complete
                &&& r.complete == (after.prog.done_chunks == after.total_chunks)
                &&& is_record(r.persist, after, final(self).chunk_size)
            }),
            r.progress@ == (EventView::Progress {
                done_bytes: final(self).received_bytes,
                total_bytes: old(self).total_bytes,
            }),
    {
        let chunk_size: u64 = self.chunk_size;
        let w = self.files[file_idx as usize].chunk_written(chunk_size, chunk_idx);
        self.received_bytes = self.received_bytes.wrapping_add(len);
        Landed {
            progress: Event::Progress {
                done_bytes: self.received_bytes,
                total_bytes: self.total_bytes,
            },
            persist: w.persist,
            complete: w.complete,
        }
    }

    /// Notes that a complete file has its final name.
    pub fn renamed(&mut self, file_idx: u32) -> (r: Event)
        requires
            old(self).wf(),
            file_idx < old(self).files@.len(),
            old(self).files@[file_idx as int].prog.done_chunks == old(self).files@[file_idx as int].total_chunks,
            !old(self).files@[file_idx as int].prog.open,
        ensures
            final(self).wf(),
            final(self).token == old(self).token,
            final(self).chunk_size == old(self).chunk_size,
            final(self).total_bytes == old(self).total_bytes,
            final(self).received_bytes == old(self).received_bytes,
            final(self).files@ == old(self).files@.update(
                file_idx as int,
                FileState {
                    prog: FileProgress {
                        finalized: true,
                        ..old(self).files@[file_idx as int].prog
                    },
                    ..old(self).files@[file_idx as int]
                },
            ),
            r@ == (EventView::FileCompleted {
                rel_path: old(self).files@[file_idx as int].entry.rel_path@,
                bytes: old(self).files@[file_idx as int].entry.size,
            }),
    {
        let chunk_size: u64 = self.chunk_size;
        self.files[file_idx as usize].renamed(chunk_size)
    }

    /// How the session ends when the sender says that it is done: a report for
    /// every file, then the last word, and what to tell the program.
    pub fn finish(&self) -> (r: (Vec<ControlMsg>, Event))
        ensures
            msgs(r.0@) == Seq::new(
                self.files@.len(),
                |i: int| report_of(self.files@[i], i),
            ).push(MsgView::AllDone),
            r.1@ == end_of(all_finalized(self.files@)),
    {
        let mut out: Vec<ControlMsg> = Vec::new();
        let mut all_ok = true;
        let mut i: usize = 0;
        while i < self.files.len()
            invariant
                i <= self.files@.len(),
                out@.len() == i,
                forall|j: int| 0 <= j < i ==> (#[trigger] out@[j])@ == report_of(self.files@[j], j),
                all_ok <==> forall|j: int| 0 <= j < i ==> (#[trigger] self.files@[j]).prog.finalized,
            decreases self.files@.len() - i,
        {
            let f = &self.files[i];
            let message = if f.prog.finalized {
                "complete".to_string()
            } else {
                all_ok = false;
                let mut m = "incomplete (".to_string();
                m.append(dec_u64(f.prog.done_chunks).as_str());
                m.append("/");
                m.append(dec_u64(f.total_chunks).as_str());
                m.append(" chunks)");
                m
            };
            out.push(
                ControlMsg::FileDone {
                    file_idx: #[verifier::truncate] (i as u32),
                    ok: f.prog.finalized,
                    message,
                },
            );
            i = i + 1;
        }
        out.push(ControlMsg::AllDone);
        assert(msgs(out@) =~= Seq::new(
            self.files@.len(),
            |i: int| report_of(self.files@[i], i),
        ).push(MsgView::AllDone));
        let message = if all_ok {
            "all files received and verified".to_string()
        } else {
            "session ended with incomplete files (kept for resume)".to_string()
        };
        (out, Event::SessionEnded { ok: all_ok, message })
    }

    /// What a message on the control connection asks for: at the sender's last
    /// word the session ends, everything else is passed over.
    pub fn on_control(&self, msg: ControlMsg) -> (r: Option<(Vec<ControlMsg>, Event)>)
        ensures
            r is Some <==> msg is AllDone,
            r matches Some(end) ==> msgs(end.0@) == Seq::new(
                self.files@.len(),
                |i: int| report_of(self.files@[i], i),
            ).push(MsgView::AllDone) && end.1@ == end_of(all_finalized(self.files@)),
    {
        match msg {
            ControlMsg::AllDone => Some(self.finish()),
            _ => None,
        }
    }
}

/// The session is reported as a success only when every chunk of every file has
/// arrived.
pub proof fn lemma_success_means_complete(s: Session)
    requires
        s.wf(),
        all_finalized(s.files@),
    ensures
        forall|i: int, c: int|
            0 <= i < s.files@.len() && 0 <= c < s.files@[i].total_chunks ==> #[trigger] s.files@[i].has(
                c,
            ),
{
    assert forall|i: int, c: int|
        0 <= i < s.files@.len() && 0 <= c < s.files@[i].total_chunks implies #[trigger] s.files@[i].has(
        c,
    ) by {
        lemma_complete(s.files@[i], s.chunk_size);
    }
}

} // verus!
