//! Sender: handshakes with the receiver, then pushes verified chunks over
//! parallel streams. This module decides what is sent, what is tried again and
//! what is reported; the connections are the program's.

use vstd::prelude::*;
use vstd::utf8::encode_utf8;

use crate::digest::{blake3_digest, blake3_hash};
use crate::protocol::{
    entries, resumes, ControlMsg, EntryView, FileEntry, MsgView, ResumeInfo, ResumeView, CHUNK_SIZE,
    PROTOCOL_VERSION,
};
use crate::text::{dec, dec_u64};
use crate::transfer::chunks::{
    chunk_count, chunk_len, chunk_span, chunks_total, lemma_chunk_inside, lemma_chunks_total,
    total_chunks,
};
use crate::transfer::manifest::{lemma_manifest_prefix, manifest_bytes};
use crate::transfer::session::{
    first_bitmap, is_record, lemma_complete, lemma_record_resumes, meta_matches, one_more_bit,
    resume_of, verdict, ChunkStep, FileState, PartMeta,
};
use crate::util::{all_pairs, bit, bitmap_get, hex, hex_decode, hex_encode, unhex};

verus! {

/// How often one chunk is tried.
pub const MAX_CHUNK_ATTEMPTS: u32 = 3;

/// The most streams that are opened.
pub const MAX_STREAMS: u32 = 16;

/// How many streams to open where so many were asked for.
pub fn stream_count(streams: u32) -> (r: u32)
    ensures
        r == if streams < 1 {
            1
        } else if streams > MAX_STREAMS {
            MAX_STREAMS
        } else {
            streams
        },
{
    if streams < 1 {
        1
    } else if streams > MAX_STREAMS {
        MAX_STREAMS
    } else {
        streams
    }
}

// ---- the handshake ----

/// The message that opens a transfer.
pub fn hello(sender_name: String, pair_token: String, files: Vec<FileEntry>) -> (r: ControlMsg)
    ensures
        r@ == (MsgView::Hello {
            version: PROTOCOL_VERSION,
            sender_name: sender_name@,
            pair_token: pair_token@,
            chunk_size: CHUNK_SIZE,
            files: entries(files@),
        }),
{
    ControlMsg::Hello {
        version: PROTOCOL_VERSION,
        sender_name,
        pair_token,
        chunk_size: CHUNK_SIZE,
        files,
    }
}

/// What the receiver said to a transfer that it takes.
#[derive(Debug)]
pub struct Accepted {
    pub receiver_name: String,
    pub token: String,
    pub resume: Vec<ResumeInfo>,
}

/// Why there is no transfer.
#[derive(Debug)]
pub enum SendError {
    /// The receiver does not want it.
    Rejected(String),
    /// The reply is not one that belongs here.
    Unexpected(ControlMsg),
}

impl SendError {
    /// The error in words; `shown` is how an unexpected message reads.
    pub fn message(&self, shown: &str) -> (r: String)
        ensures
            r@ == match self {
                SendError::Rejected(why) => "receiver rejected transfer: "@ + why@,
                SendError::Unexpected(_) => "unexpected reply to Hello: "@ + shown@,
            },
    {
        match self {
            SendError::Rejected(why) => {
                let mut s = "receiver rejected transfer: ".to_string();
                s.append(why.as_str());
                s
            },
            SendError::Unexpected(_) => {
                let mut s = "unexpected reply to Hello: ".to_string();
                s.append(shown);
                s
            },
        }
    }
}

/// Takes the reply to the opening message.
pub fn on_hello_reply(reply: ControlMsg) -> (r: Result<Accepted, SendError>)
    ensures
        match reply@ {
            MsgView::Accept { receiver_name, token, resume } => r matches Ok(a)
                && a.receiver_name@ == receiver_name && a.token@ == token && resumes(a.resume@)
                == resume,
            MsgView::Reject { reason } => r matches Err(SendError::Rejected(why)) && why@ == reason,
            _ => r == Err::<Accepted, _>(SendError::Unexpected(reply)),
        },
{
    match reply {
        ControlMsg::Accept { receiver_name, token, resume } => Ok(
            Accepted { receiver_name, token, resume },
        ),
        ControlMsg::Reject { reason } => Err(SendError::Rejected(reason)),
        other => Err(SendError::Unexpected(other)),
    }
}

// ---- what is to be sent ----

/// One chunk that has to get across.
#[derive(Debug, Clone, Copy, PartialEq, Eq, Structural)]
pub struct Job {
    pub file_idx: u32,
    pub chunk_idx: u64,
    pub attempts: u32,
}

/// A resume text that can be read.
pub open spec fn readable(hex_text: Seq<char>) -> bool {
    encode_utf8(hex_text).len() % 2 == 0 && all_pairs(encode_utf8(hex_text))
}

/// The bitmap of what the receiver has of a file: the last one that it sent for
/// the file and that can be read.
pub open spec fn have_of(resume: Seq<ResumeView>, file_idx: u32) -> Option<Seq<u8>>
    decreases resume.len(),
{
    if resume.len() == 0 {
        None
    } else if resume.last().file_idx == file_idx && readable(resume.last().have_bitmap_hex) {
        Some(unhex(encode_utf8(resume.last().have_bitmap_hex)))
    } else {
        have_of(resume.drop_last(), file_idx)
    }
}

/// The receiver has this chunk.
pub open spec fn held(have: Option<Seq<u8>>, chunk_idx: int) -> bool {
    have matches Some(bm) && bit(bm, chunk_idx)
}

/// The jobs for the chunks below `n` of a file that the receiver lacks.
pub open spec fn file_jobs(file_idx: u32, have: Option<Seq<u8>>, n: nat) -> Seq<Job>
    decreases n,
{
    if n == 0 {
        Seq::empty()
    } else {
        let before = file_jobs(file_idx, have, (n - 1) as nat);
        if held(have, n - 1) {
            before
        } else {
            before.push(Job { file_idx, chunk_idx: (n - 1) as u64, attempts: 0 })
        }
    }
}

/// The bytes of the chunks below `n` of a file that the receiver has.
pub open spec fn held_bytes(size: int, have: Option<Seq<u8>>, n: nat) -> int
    decreases n,
{
    if n == 0 {
        0
    } else {
        held_bytes(size, have, (n - 1) as nat) + if held(have, n - 1) {
            chunk_len(size, CHUNK_SIZE as int, n - 1)
        } else {
            0
        }
    }
}

/// The chunks of a file.
pub open spec fn file_chunks(file: EntryView) -> nat {
    chunk_count(file.size as int, CHUNK_SIZE as int) as nat
}

/// The jobs of all files, in the order of the manifest.
pub open spec fn all_jobs(files: Seq<EntryView>, resume: Seq<ResumeView>) -> Seq<Job>
    decreases files.len(),
{
    if files.len() == 0 {
        Seq::empty()
    } else {
        let idx = (files.len() - 1) as u32;
        all_jobs(files.drop_last(), resume) + file_jobs(
            idx,
            have_of(resume, idx),
            file_chunks(files.last()),
        )
    }
}

/// The bytes of all files that the receiver has.
pub open spec fn all_held(files: Seq<EntryView>, resume: Seq<ResumeView>) -> int
    decreases files.len(),
{
    if files.len() == 0 {
        0
    } else {
        let idx = (files.len() - 1) as u32;
        all_held(files.drop_last(), resume) + held_bytes(
            files.last().size as int,
            have_of(resume, idx),
            file_chunks(files.last()),
        )
    }
}

/// A file has no more held bytes than bytes.
proof fn lemma_held_bytes(size: int, have: Option<Seq<u8>>, n: nat)
    requires
        0 <= size,
        n <= chunk_count(size, CHUNK_SIZE as int),
    ensures
        0 <= held_bytes(size, have, n) <= chunks_total(size, CHUNK_SIZE as int, n) <= size,
    decreases n,
{
    lemma_chunks_total(size, CHUNK_SIZE as int, n);
    if n > 0 {
        lemma_held_bytes(size, have, (n - 1) as nat);
        lemma_chunk_inside(size, CHUNK_SIZE as int, n - 1);
    }
}

/// The receiver has no more bytes than the manifest has.
proof fn lemma_all_held(files: Seq<EntryView>, resume: Seq<ResumeView>)
    ensures
        0 <= all_held(files, resume) <= manifest_bytes(files),
    decreases files.len(),
{
    if files.len() > 0 {
        let idx = (files.len() - 1) as u32;
        lemma_all_held(files.drop_last(), resume);
        lemma_chunk_inside(files.last().size as int, CHUNK_SIZE as int, 0);
        lemma_held_bytes(files.last().size as int, have_of(resume, idx), file_chunks(files.last()));
    }
}

/// A job is planned for a chunk of a file exactly when the receiver lacks it.
proof fn lemma_file_jobs(file_idx: u32, have: Option<Seq<u8>>, n: nat)
    requires
        n <= u64::MAX,
    ensures
        forall|j: Job|
            #![trigger file_jobs(file_idx, have, n).contains(j)]
            file_jobs(file_idx, have, n).contains(j) <==> j.file_idx == file_idx && j.chunk_idx < n
                && j.attempts == 0 && !held(have, j.chunk_idx as int),
        file_jobs(file_idx, have, n).no_duplicates(),
    decreases n,
{
    if n > 0 {
        let m = (n - 1) as nat;
        lemma_file_jobs(file_idx, have, m);
        let before = file_jobs(file_idx, have, m);
        let new = Job { file_idx, chunk_idx: m as u64, attempts: 0 };
        assert(!before.contains(new));
        if !held(have, n - 1) {
            let after = before.push(new);
            assert forall|j: Job| #[trigger] after.contains(j) <==> before.contains(j) || j
                == new by {
                if before.contains(j) {
                    let k = choose|k: int| 0 <= k < before.len() && before[k] == j;
                    assert(after[k] == j);
                }
                assert(after[before.len() as int] == new);
            }
            assert forall|a: int, b: int|
                0 <= a < after.len() && 0 <= b < after.len() && a != b implies after[a]
                != after[b] by {
                if a == before.len() {
                    assert(before.contains(before[b]));
                } else if b == before.len() {
                    assert(before.contains(before[a]));
                }
            }
        }
    }
}

/// What has to be sent is exactly what the receiver lacks: there is a job for a
/// chunk of a file of the manifest if and only if the receiver does not have the
/// chunk, and never two jobs for one chunk.
pub proof fn lemma_jobs_are_what_is_missing(files: Seq<EntryView>, resume: Seq<ResumeView>)
    requires
        files.len() <= 0x1_0000_0000,
    ensures
        forall|j: Job|
            #![trigger all_jobs(files, resume).contains(j)]
            all_jobs(files, resume).contains(j) <==> j.attempts == 0 && j.file_idx < files.len()
                && j.chunk_idx < file_chunks(files[j.file_idx as int]) && !held(
                have_of(resume, j.file_idx),
                j.chunk_idx as int,
            ),
        all_jobs(files, resume).no_duplicates(),
    decreases files.len(),
{
    if files.len() > 0 {
        let idx = (files.len() - 1) as u32;
        let rest = files.drop_last();
        lemma_jobs_are_what_is_missing(rest, resume);
        lemma_chunk_inside(files.last().size as int, CHUNK_SIZE as int, 0);
        lemma_file_jobs(idx, have_of(resume, idx), file_chunks(files.last()));
        let a = all_jobs(rest, resume);
        let b = file_jobs(idx, have_of(resume, idx), file_chunks(files.last()));
        assert(all_jobs(files, resume) == a + b);
        assert forall|j: Job| #[trigger] (a + b).contains(j) <==> a.contains(j) || b.contains(j) by {
            if a.contains(j) {
                let k = choose|k: int| 0 <= k < a.len() && a[k] == j;
                assert((a + b)[k] == j);
            }
            if b.contains(j) {
                let k = choose|k: int| 0 <= k < b.len() && b[k] == j;
                assert((a + b)[a.len() + k] == j);
            }
        }
        assert forall|j: Job| #[trigger] all_jobs(files, resume).contains(j) <==> j.attempts == 0
            && j.file_idx < files.len() && j.chunk_idx < file_chunks(files[j.file_idx as int])
            && !held(have_of(resume, j.file_idx), j.chunk_idx as int) by {
            assert((a + b).contains(j) <==> a.contains(j) || b.contains(j));
            if j.file_idx < rest.len() {
                assert(rest[j.file_idx as int] == files[j.file_idx as int]);
            }
        }
        assert forall|i: int, k: int|
            0 <= i < (a + b).len() && 0 <= k < (a + b).len() && i != k implies (a + b)[i] != (a
            + b)[k] by {
            if i < a.len() {
                assert(a.contains((a + b)[i]));
            } else {
                assert(b.contains((a + b)[i]));
            }
            if k < a.len() {
                assert(a.contains((a + b)[k]));
            } else {
                assert(b.contains((a + b)[k]));
            }
        }
    }
}

/// Resume is exact: what the sender takes the receiver to have of a file, out of
/// the list that the receiver sends, is the receiver's own bitmap of the file.
pub proof fn lemma_resume_is_exact(files: Seq<FileState>, i: int)
    requires
        files.len() <= 0x1_0000_0000,
        0 <= i < files.len(),
    ensures
        have_of(resume_of(files), i as u32) == Some(files[i].prog.bitmap@),
{
    lemma_resume_prefix(files, i, files.len() as int);
    assert(resume_of(files).take(files.len() as int) =~= resume_of(files));
}

proof fn lemma_resume_prefix(files: Seq<FileState>, i: int, n: int)
    requires
        files.len() <= 0x1_0000_0000,
        0 <= i < n <= files.len(),
    ensures
        have_of(resume_of(files).take(n), i as u32) == Some(files[i].prog.bitmap@),
    decreases n,
{
    let list = resume_of(files).take(n);
    crate::util::lemma_hex_round_trip(files[n - 1].prog.bitmap@);
    assert(list.last().file_idx == (n - 1) as u32);
    if i < n - 1 {
        lemma_resume_prefix(files, i, n - 1);
        assert(list.drop_last() =~= resume_of(files).take(n - 1));
    }
}

/// The job of a chunk, before it is tried.
pub open spec fn untried(file_idx: u32, chunk_idx: u64) -> Job {
    Job { file_idx, chunk_idx, attempts: 0 }
}

/// The two sides fit together. Every chunk of a file is on the receiver's disk or
/// planned by the sender, and a planned chunk that arrives whole is written at
/// its place.
pub proof fn lemma_sides_agree(
    files: Seq<FileState>,
    manifest: Seq<EntryView>,
    i: int,
    chunk_idx: u64,
    digest_hex: Seq<char>,
)
    requires
        files.len() == manifest.len() <= 0x1_0000_0000,
        0 <= i < files.len(),
        manifest[i] == files[i].entry@,
        files[i].wf(CHUNK_SIZE),
        chunk_idx < files[i].total_chunks,
    ensures
        all_jobs(manifest, resume_of(files)).contains(untried(i as u32, chunk_idx)) <==> !files[i].has(chunk_idx as int),
        !files[i].has(chunk_idx as int) ==> verdict(
            files[i],
            CHUNK_SIZE,
            chunk_idx,
            digest_hex,
            digest_hex,
        ) == (ChunkStep::Write { offset: (chunk_idx * CHUNK_SIZE) as u64 }),
{
    lemma_jobs_are_what_is_missing(manifest, resume_of(files));
    lemma_resume_is_exact(files, i);
    lemma_complete(files[i], CHUNK_SIZE);
    lemma_chunk_inside(files[i].entry.size as int, CHUNK_SIZE as int, chunk_idx as int);
    assert(manifest[i].size == files[i].entry.size);
}

/// What was acknowledged is not sent again. A file takes chunk `idx`, and the record
/// that is due with it, `m`, is on disk when the transfer breaks off. When the same
/// file is announced again and resumed from that record, the sender plans exactly
/// the chunks that were not there: none for `idx`, and none for any chunk that was
/// there before.
pub proof fn lemma_acknowledged_is_kept(
    before: FileState,
    after: FileState,
    idx: u64,
    m: PartMeta,
    files: Seq<FileState>,
    manifest: Seq<EntryView>,
    i: int,
)
    requires
        after.wf(CHUNK_SIZE),
        after.entry.size > 0,
        after.total_chunks == before.total_chunks,
        idx < before.total_chunks,
        one_more_bit(before.prog.bitmap@, after.prog.bitmap@, idx as int),
        is_record(m, after, CHUNK_SIZE),
        files.len() == manifest.len() <= 0x1_0000_0000,
        0 <= i < files.len(),
        manifest[i] == files[i].entry@,
        files[i].wf(CHUNK_SIZE),
        files[i].entry.size == after.entry.size,
        files[i].prog.bitmap@ == first_bitmap(Some(m), files[i].total_chunks as int),
    ensures
        meta_matches(Some(m), files[i].entry.size, CHUNK_SIZE),
        forall|c: u64|
            c < after.total_chunks ==> (all_jobs(manifest, resume_of(files)).contains(
                #[trigger] untried(i as u32, c),
            ) <==> c != idx && !before.has(c as int)),
{
    lemma_record_resumes(after, CHUNK_SIZE, m);
    assert forall|c: u64| c < after.total_chunks implies (all_jobs(
        manifest,
        resume_of(files),
    ).contains(#[trigger] untried(i as u32, c)) <==> c != idx && !before.has(c as int)) by {
        lemma_sides_agree(files, manifest, i, c, Seq::empty());
        assert(bit(after.prog.bitmap@, c as int) == (c == idx || bit(
            before.prog.bitmap@,
            c as int,
        )));
    }
}

/// The bitmap of what the receiver has of a file, where it sent one.
fn find_have(resume: &Vec<ResumeInfo>, file_idx: u32) -> (r: Option<Vec<u8>>)
    ensures
        match have_of(resumes(resume@), file_idx) {
            Some(bm) => r matches Some(v) && v@ == bm,
            None => r is None,
        },
{
    let ghost list = resumes(resume@);
    let mut n: usize = resume.len();
    assert(list.take(n as int) =~= list);
    while n > 0
        invariant
            n <= resume@.len(),
            list == resumes(resume@),
            have_of(list, file_idx) == have_of(list.take(n as int), file_idx),
        decreases n,
    {
        n = n - 1;
        let ghost part = list.take(n + 1);
        assert(part.drop_last() =~= list.take(n as int));
        assert(part.last() == resume@[n as int]@);
        if resume[n].file_idx == file_idx {
            match hex_decode(resume[n].have_bitmap_hex.as_str()) {
                Ok(bm) => {
                    return Some(bm);
                },
                Err(_) => {},
            }
        }
    }
    None
}

/// What is on its way to the receiver: the chunks that wait, and what became of
/// the others.
#[derive(Debug)]
pub struct Outbox {
    pub sizes: Vec<u64>,
    /// The chunks that wait; the last of them goes next.
    pub queue: Vec<Job>,
    /// The bytes that the receiver lacked at the start.
    pub total_pending: u64,
    /// The bytes that the receiver had at the start.
    pub skipped: u64,
    pub sent_bytes: u64,
    pub failures: Vec<String>,
}

/// A job that stands for a chunk of a file and may be tried.
pub open spec fn job_ok(sizes: Seq<u64>, job: Job) -> bool {
    &&& job.file_idx < sizes.len()
    &&& job.chunk_idx < chunk_count(sizes[job.file_idx as int] as int, CHUNK_SIZE as int)
    &&& job.attempts < MAX_CHUNK_ATTEMPTS
}

/// A chunk to read and send.
#[derive(Debug, Clone, Copy, PartialEq, Eq, Structural)]
pub struct Task {
    pub job: Job,
    pub offset: u64,
    pub len: u32,
}

/// What became of a chunk that was sent.
#[derive(Debug)]
pub enum ChunkOutcome {
    /// The receiver has it.
    Taken,
    /// The receiver saw a corrupt chunk.
    Refused,
    /// The connection broke, in these words.
    Broken(String),
}

/// What a stream does next.
#[derive(Debug)]
pub enum StreamStep {
    /// Tell of the progress and go on.
    Progress { done: u64, total: u64 },
    /// Go on.
    Continue,
    /// End the stream, for this reason.
    Stop(String),
}

/// The words for a chunk that was tried too often.
pub open spec fn gave_up(job: Job, why: Seq<char>) -> Seq<char> {
    "chunk "@ + dec(job.file_idx as nat) + ":"@ + dec(job.chunk_idx as nat) + " failed "@ + dec(
        (job.attempts + 1) as nat,
    ) + " times: "@ + why
}

/// The job, tried once more.
pub open spec fn tried(job: Job) -> Job {
    Job { attempts: (job.attempts + 1) as u32, ..job }
}

/// How many tries the jobs that wait have left, all together.
pub open spec fn tries_left(queue: Seq<Job>) -> int
    decreases queue.len(),
{
    if queue.len() == 0 {
        0
    } else {
        tries_left(queue.drop_last()) + (MAX_CHUNK_ATTEMPTS - queue.last().attempts)
    }
}

/// A transfer comes to an end: every chunk that is taken and put back costs a try,
/// one that is not put back costs all of its tries, and there are never fewer than
/// none.
pub proof fn lemma_trying_costs(sizes: Seq<u64>, queue: Seq<Job>)
    requires
        queue.len() > 0,
        forall|i: int| 0 <= i < queue.len() ==> job_ok(sizes, #[trigger] queue[i]),
    ensures
        0 <= tries_left(queue.drop_last()) < tries_left(queue),
        tries_left(queue.drop_last().push(tried(queue.last()))) == tries_left(queue) - 1,
    decreases queue.len(),
{
    let rest = queue.drop_last();
    assert(job_ok(sizes, queue[queue.len() - 1]));
    assert(rest.push(tried(queue.last())).drop_last() =~= rest);
    if rest.len() > 0 {
        assert forall|i: int| 0 <= i < rest.len() implies job_ok(sizes, #[trigger] rest[i]) by {
            assert(rest[i] == queue[i]);
        }
        lemma_trying_costs(sizes, rest);
    }
}

/// The bytes of the chunks that wait.
pub open spec fn waiting_bytes(sizes: Seq<u64>, queue: Seq<Job>) -> int
    decreases queue.len(),
{
    if queue.len() == 0 {
        0
    } else {
        let job = queue.last();
        waiting_bytes(sizes, queue.drop_last()) + chunk_len(
            sizes[job.file_idx as int] as int,
            CHUNK_SIZE as int,
            job.chunk_idx as int,
        )
    }
}

proof fn lemma_waiting_concat(sizes: Seq<u64>, a: Seq<Job>, b: Seq<Job>)
    ensures
        waiting_bytes(sizes, a + b) == waiting_bytes(sizes, a) + waiting_bytes(sizes, b),
    decreases b.len(),
{
    if b.len() == 0 {
        assert(a + b =~= a);
    } else {
        assert((a + b).drop_last() =~= a + b.drop_last());
        lemma_waiting_concat(sizes, a, b.drop_last());
    }
}

proof fn lemma_waiting_reversed(sizes: Seq<u64>, queue: Seq<Job>)
    ensures
        waiting_bytes(sizes, queue.reverse()) == waiting_bytes(sizes, queue),
    decreases queue.len(),
{
    if queue.len() > 0 {
        let one = seq![queue.last()];
        assert(queue.reverse() =~= one + queue.drop_last().reverse());
        lemma_waiting_concat(sizes, one, queue.drop_last().reverse());
        lemma_waiting_reversed(sizes, queue.drop_last());
        assert(one.drop_last() =~= Seq::<Job>::empty());
        assert(waiting_bytes(sizes, one.drop_last()) == 0);
    }
}

proof fn lemma_file_waiting(sizes: Seq<u64>, file_idx: u32, have: Option<Seq<u8>>, n: nat)
    requires
        file_idx < sizes.len(),
        n <= chunk_count(sizes[file_idx as int] as int, CHUNK_SIZE as int),
    ensures
        waiting_bytes(sizes, file_jobs(file_idx, have, n)) + held_bytes(
            sizes[file_idx as int] as int,
            have,
            n,
        ) == chunks_total(sizes[file_idx as int] as int, CHUNK_SIZE as int, n),
    decreases n,
{
    if n > 0 {
        let before = file_jobs(file_idx, have, (n - 1) as nat);
        lemma_file_waiting(sizes, file_idx, have, (n - 1) as nat);
        lemma_chunk_inside(sizes[file_idx as int] as int, CHUNK_SIZE as int, 0);
        if !held(have, n - 1) {
            let job = Job { file_idx, chunk_idx: (n - 1) as u64, attempts: 0 };
            assert(before.push(job).drop_last() =~= before);
        }
    }
}

proof fn lemma_all_waiting(sizes: Seq<u64>, files: Seq<EntryView>, resume: Seq<ResumeView>)
    requires
        files.len() <= 0x1_0000_0000,
        files.len() <= sizes.len(),
        forall|i: int| 0 <= i < files.len() ==> sizes[i] == (#[trigger] files[i]).size,
    ensures
        waiting_bytes(sizes, all_jobs(files, resume)) + all_held(files, resume) == manifest_bytes(
            files,
        ),
    decreases files.len(),
{
    if files.len() > 0 {
        let rest = files.drop_last();
        let idx = (files.len() - 1) as u32;
        let size = files.last().size as int;
        assert forall|i: int| 0 <= i < rest.len() implies sizes[i] == (#[trigger] rest[i]).size by {
            assert(rest[i] == files[i]);
        }
        lemma_all_waiting(sizes, rest, resume);
        assert(sizes[idx as int] == files[idx as int].size);
        lemma_chunk_inside(size, CHUNK_SIZE as int, 0);
        lemma_file_waiting(sizes, idx, have_of(resume, idx), file_chunks(files.last()));
        lemma_chunks_total(size, CHUNK_SIZE as int, file_chunks(files.last()));
        lemma_waiting_concat(
            sizes,
            all_jobs(rest, resume),
            file_jobs(idx, have_of(resume, idx), file_chunks(files.last())),
        );
    }
}

/// What is planned adds up: the bytes of the chunks that wait at the start are the
/// bytes of the manifest without those that the receiver has.
pub proof fn lemma_plan_adds_up(
    sizes: Seq<u64>,
    files: Seq<EntryView>,
    resume: Seq<ResumeView>,
)
    requires
        files.len() <= 0x1_0000_0000,
        sizes == files.map_values(|f: EntryView| f.size),
    ensures
        waiting_bytes(sizes, all_jobs(files, resume).reverse()) == manifest_bytes(files)
            - all_held(files, resume),
{
    lemma_all_waiting(sizes, files, resume);
    lemma_waiting_reversed(sizes, all_jobs(files, resume));
}

/// The books of a transfer are in order. `away` are the chunks that were taken and
/// neither delivered nor put back: they are on their way, or were given up. What was
/// sent, what waits and what is away is together what was pending at the start.
pub open spec fn balanced(o: Outbox, away: Seq<Job>) -> bool {
    &&& o.wf()
    &&& forall|i: int| 0 <= i < away.len() ==> job_ok(o.sizes@, #[trigger] away[i])
    &&& o.sent_bytes + waiting_bytes(o.sizes@, o.queue@) + waiting_bytes(o.sizes@, away)
        == o.total_pending
}

proof fn lemma_waiting_positive(sizes: Seq<u64>, queue: Seq<Job>)
    requires
        forall|i: int| 0 <= i < queue.len() ==> job_ok(sizes, #[trigger] queue[i]),
    ensures
        0 <= waiting_bytes(sizes, queue),
    decreases queue.len(),
{
    if queue.len() > 0 {
        let job = queue[queue.len() - 1];
        assert(job_ok(sizes, job));
        lemma_chunk_inside(
            sizes[job.file_idx as int] as int,
            CHUNK_SIZE as int,
            job.chunk_idx as int,
        );
        assert forall|i: int| 0 <= i < queue.drop_last().len() implies job_ok(
            sizes,
            #[trigger] queue.drop_last()[i],
        ) by {
            assert(queue.drop_last()[i] == queue[i]);
        }
        lemma_waiting_positive(sizes, queue.drop_last());
    }
}

/// The bytes of a job.
pub open spec fn job_bytes(sizes: Seq<u64>, job: Job) -> int {
    chunk_len(sizes[job.file_idx as int] as int, CHUNK_SIZE as int, job.chunk_idx as int)
}

proof fn lemma_waiting_push(sizes: Seq<u64>, queue: Seq<Job>, job: Job)
    ensures
        waiting_bytes(sizes, queue.push(job)) == waiting_bytes(sizes, queue) + job_bytes(
            sizes,
            job,
        ),
{
    assert(queue.push(job).drop_last() =~= queue);
}

proof fn lemma_waiting_remove(sizes: Seq<u64>, queue: Seq<Job>, k: int)
    requires
        0 <= k < queue.len(),
    ensures
        waiting_bytes(sizes, queue.remove(k)) == waiting_bytes(sizes, queue) - job_bytes(
            sizes,
            queue[k],
        ),
{
    let a = queue.take(k);
    let b = queue.skip(k + 1);
    assert(queue.remove(k) =~= a + b);
    assert(queue =~= a.push(queue[k]) + b);
    lemma_waiting_concat(sizes, a, b);
    lemma_waiting_concat(sizes, a.push(queue[k]), b);
    lemma_waiting_push(sizes, a, queue[k]);
}

/// Taking a chunk off the queue keeps the balance.
proof fn lemma_take_balances(before: Outbox, after: Outbox, away: Seq<Job>)
    requires
        balanced(before, away),
        before.queue@.len() > 0,
        after.wf(),
        after.same_but_queue(&before),
        after.queue@ == before.queue@.drop_last(),
    ensures
        balanced(after, away.push(before.queue@.last())),
{
    let job = before.queue@.last();
    assert(job_ok(before.sizes@, before.queue@[before.queue@.len() - 1]));
    lemma_waiting_push(before.sizes@, away, job);
}

/// A chunk that is delivered moves from those that are away to what was sent, which
/// never exceeds what was pending.
proof fn lemma_delivery_balances(before: Outbox, after: Outbox, away: Seq<Job>, k: int)
    requires
        balanced(before, away),
        0 <= k < away.len(),
        after.wf(),
        after.sizes == before.sizes,
        after.total_pending == before.total_pending,
        after.queue@ == before.queue@,
        after.sent_bytes == before.sent_bytes.wrapping_add(
            job_bytes(before.sizes@, away[k]) as u64,
        ),
    ensures
        balanced(after, away.remove(k)),
        after.sent_bytes == before.sent_bytes + job_bytes(before.sizes@, away[k]),
        after.sent_bytes <= after.total_pending,
{
    let sizes = before.sizes@;
    let job = away[k];
    assert(job_ok(sizes, job));
    lemma_chunk_inside(
        sizes[job.file_idx as int] as int,
        CHUNK_SIZE as int,
        job.chunk_idx as int,
    );
    lemma_waiting_remove(sizes, away, k);
    assert forall|i: int| 0 <= i < away.remove(k).len() implies job_ok(
        sizes,
        #[trigger] away.remove(k)[i],
    ) by {
        if i < k {
            assert(away.remove(k)[i] == away[i]);
        } else {
            assert(away.remove(k)[i] == away[i + 1]);
        }
    }
    lemma_waiting_positive(sizes, away.remove(k));
    lemma_waiting_positive(sizes, before.queue@);
}

/// Putting a chunk back keeps the balance.
proof fn lemma_return_balances(before: Outbox, after: Outbox, away: Seq<Job>, k: int)
    requires
        balanced(before, away),
        0 <= k < away.len(),
        after.wf(),
        after.sizes == before.sizes,
        after.total_pending == before.total_pending,
        after.sent_bytes == before.sent_bytes,
        after.queue@ == before.queue@.push(tried(away[k])),
    ensures
        balanced(after, away.remove(k)),
{
    let sizes = before.sizes@;
    lemma_waiting_remove(sizes, away, k);
    lemma_waiting_push(sizes, before.queue@, tried(away[k]));
    assert forall|i: int| 0 <= i < away.remove(k).len() implies job_ok(
        sizes,
        #[trigger] away.remove(k)[i],
    ) by {
        if i < k {
            assert(away.remove(k)[i] == away[i]);
        } else {
            assert(away.remove(k)[i] == away[i + 1]);
        }
    }
}

/// The books after it is known what became of chunk `k` of those that are away. When
/// it was delivered, it counts as sent, and what was sent is within the total. When it
/// was put back, it waits again. When it was given up, it stays away.
pub open spec fn stays_balanced(
    before: Outbox,
    after: Outbox,
    task: Task,
    outcome: ChunkOutcome,
    away: Seq<Job>,
    k: int,
) -> bool {
    if outcome is Taken {
        &&& balanced(after, away.remove(k))
        &&& after.sent_bytes == before.sent_bytes + task.len
        &&& after.sent_bytes <= before.total_pending
    } else if task.job.attempts + 1 < MAX_CHUNK_ATTEMPTS {
        balanced(after, away.remove(k))
    } else {
        balanced(after, away)
    }
}

/// Progress ends at the total: at every moment no more was sent than was pending,
/// and when nothing waits and nothing is away, what was sent and what was skipped is
/// the whole manifest.
pub proof fn lemma_progress_adds_up(o: Outbox, away: Seq<Job>, files: Seq<EntryView>)
    requires
        balanced(o, away),
        o.total_pending + o.skipped == manifest_bytes(files),
    ensures
        o.sent_bytes <= o.total_pending,
        o.queue@.len() == 0 && away.len() == 0 ==> o.sent_bytes == o.total_pending && o.sent_bytes
            + o.skipped == manifest_bytes(files),
{
    lemma_waiting_positive(o.sizes@, o.queue@);
    lemma_waiting_positive(o.sizes@, away);
}

impl Outbox {
    /// Every job that waits stands for a chunk.
    pub open spec fn wf(&self) -> bool {
        forall|i: int| 0 <= i < self.queue@.len() ==> job_ok(self.sizes@, #[trigger] self.queue@[i])
    }

    /// Nothing but the queue differs.
    pub open spec fn same_but_queue(&self, other: &Outbox) -> bool {
        &&& self.sizes == other.sizes
        &&& self.total_pending == other.total_pending
        &&& self.skipped == other.skipped
        &&& self.sent_bytes == other.sent_bytes
        &&& self.failures == other.failures
    }

    /// Plans a transfer: one job for every chunk that the receiver lacks. Files
    /// are told apart by 32 bits.
    pub fn plan(files: &Vec<FileEntry>, resume: &Vec<ResumeInfo>) -> (r: Outbox)
        requires
            files@.len() <= 0x1_0000_0000,
            manifest_bytes(entries(files@)) <= u64::MAX,
        ensures
            r.wf(),
            r.sizes@ == files@.map_values(|f: FileEntry| f.size),
            r.queue@ == all_jobs(entries(files@), resumes(resume@)).reverse(),
            r.skipped == all_held(entries(files@), resumes(resume@)),
            r.total_pending + r.skipped == manifest_bytes(entries(files@)),
            r.sent_bytes == 0,
            r.failures@.len() == 0,
            balanced(r, Seq::empty()),
    {
        let ghost all = entries(files@);
        let ghost list = resumes(resume@);
        let mut sizes: Vec<u64> = Vec::new();
        let mut jobs: Vec<Job> = Vec::new();
        let mut total_pending: u64 = 0;
        let mut skipped: u64 = 0;
        let mut i: usize = 0;
        assert(all.take(0) =~= Seq::<EntryView>::empty());
        while i < files.len()
            invariant
                i <= files@.len() <= 0x1_0000_0000,
                all == entries(files@),
                list == resumes(resume@),
                manifest_bytes(all) <= u64::MAX,
                sizes@ =~= files@.take(i as int).map_values(|f: FileEntry| f.size),
                jobs@ == all_jobs(all.take(i as int), list),
                skipped == all_held(all.take(i as int), list),
                total_pending + skipped == manifest_bytes(all.take(i as int)),
            decreases files@.len() - i,
        {
            let size: u64 = files[i].size;
            let idx: u32 = i as u32;
            let chunks: u64 = total_chunks(size, CHUNK_SIZE);
            let have: Option<Vec<u8>> = find_have(resume, idx);
            let ghost hv = have_of(list, idx);
            let ghost before = jobs@;
            let ghost skipped_before = skipped;
            let ghost done_before = manifest_bytes(all.take(i as int));
            proof {
                assert(all.take(i + 1).drop_last() =~= all.take(i as int));
                assert(all.take(i + 1).last() == all[i as int]);
                lemma_manifest_prefix(all, i + 1);
                lemma_chunk_inside(size as int, CHUNK_SIZE as int, 0);
                assert(before + file_jobs(idx, hv, 0) =~= before);
            }
            let mut c: u64 = 0;
            while c < chunks
                invariant
                    c <= chunks,
                    chunks == chunk_count(size as int, CHUNK_SIZE as int),
                    match hv {
                        Some(bm) => have matches Some(v) && v@ == bm,
                        None => have is None,
                    },
                    done_before + size <= u64::MAX,
                    jobs@ == before + file_jobs(idx, hv, c as nat),
                    skipped == skipped_before + held_bytes(size as int, hv, c as nat),
                    total_pending + skipped == done_before + chunks_total(
                        size as int,
                        CHUNK_SIZE as int,
                        c as nat,
                    ),
                decreases chunks - c,
            {
                let span = chunk_span(size, CHUNK_SIZE, c);
                let there = match &have {
                    Some(bm) => bitmap_get(bm.as_slice(), c),
                    None => false,
                };
                proof {
                    lemma_chunks_total(size as int, CHUNK_SIZE as int, (c + 1) as nat);
                }
                if there {
                    skipped = skipped + span.1;
                } else {
                    total_pending = total_pending + span.1;
                    jobs.push(Job { file_idx: idx, chunk_idx: c, attempts: 0 });
                    assert(jobs@ =~= before + file_jobs(idx, hv, (c + 1) as nat));
                }
                c = c + 1;
            }
            proof {
                lemma_chunks_total(size as int, CHUNK_SIZE as int, chunks as nat);
            }
            sizes.push(size);
            i = i + 1;
        }
        assert(all.take(all.len() as int) =~= all);
        assert(files@.take(files@.len() as int) =~= files@);
        let queue = reversed(&jobs);
        proof {
            lemma_jobs_are_what_is_missing(all, list);
            assert forall|k: int| 0 <= k < queue@.len() implies job_ok(
                sizes@,
                #[trigger] queue@[k],
            ) by {
                assert(queue@[k] == jobs@[jobs@.len() - 1 - k]);
                assert(jobs@.contains(queue@[k]));
            }
        }
        proof {
            assert(sizes@ =~= all.map_values(|f: EntryView| f.size));
            lemma_plan_adds_up(sizes@, all, list);
        }
        Outbox { sizes, queue, total_pending, skipped, sent_bytes: 0, failures: Vec::new() }
    }

    /// True when nothing waits.
    pub fn is_empty(&self) -> (r: bool)
        ensures
            r == (self.queue@.len() == 0),
    {
        self.queue.len() == 0
    }

    /// Takes the next chunk to send.
    pub fn take(&mut self) -> (r: Option<Task>)
        requires
            old(self).wf(),
        ensures
            final(self).wf(),
            final(self).same_but_queue(old(self)),
            old(self).queue@.len() == 0 ==> r is None && final(self).queue@ == old(self).queue@,
            old(self).queue@.len() > 0 ==> {
                let job = old(self).queue@.last();
                let size = old(self).sizes@[job.file_idx as int];
                &&& final(self).queue@ == old(self).queue@.drop_last()
                &&& r matches Some(t)
                &&& t.job == job
                &&& job_ok(old(self).sizes@, job)
                &&& t.offset == job.chunk_idx * CHUNK_SIZE
                &&& t.len == chunk_len(size as int, CHUNK_SIZE as int, job.chunk_idx as int)
                &&& t.offset + t.len <= size
            },
            old(self).queue@.len() > 0 ==> forall|away: Seq<Job>| #[trigger]
                balanced(*old(self), away) ==> balanced(
                    *final(self),
                    away.push(old(self).queue@.last()),
                ),
    {
        match self.queue.pop() {
            None => None,
            Some(job) => {
                assert(job == old(self).queue@.last());
                assert(job_ok(self.sizes@, job));
                assert forall|i: int| 0 <= i < self.queue@.len() implies job_ok(
                    self.sizes@,
                    #[trigger] self.queue@[i],
                ) by {
                    assert(self.queue@[i] == old(self).queue@[i]);
                }
                proof {
                    assert forall|away: Seq<Job>| #[trigger]
                        balanced(*old(self), away) implies balanced(*self, away.push(job)) by {
                        lemma_take_balances(*old(self), *self, away);
                    }
                }
                let size: u64 = self.sizes[job.file_idx as usize];
                let span = chunk_span(size, CHUNK_SIZE, job.chunk_idx);
                Some(Task { job, offset: span.0, len: span.1 as u32 })
            },
        }
    }

    /// Puts a chunk back to be tried again, unless it was tried too often.
    pub fn requeue(&mut self, job: Job, why: &str) -> (r: Result<(), String>)
        requires
            old(self).wf(),
            job_ok(old(self).sizes@, job),
        ensures
            final(self).wf(),
            final(self).same_but_queue(old(self)),
            job.attempts + 1 < MAX_CHUNK_ATTEMPTS ==> r is Ok && final(self).queue@ == old(
                self,
            ).queue@.push(tried(job)),
            job.attempts + 1 >= MAX_CHUNK_ATTEMPTS ==> (r matches Err(e) && e@ == gave_up(
                job,
                why@,
            )) && final(self).queue@ == old(self).queue@,
    {
        let attempts: u32 = job.attempts + 1;
        if attempts >= MAX_CHUNK_ATTEMPTS {
            let mut s = "chunk ".to_string();
            s.append(dec_u64(job.file_idx as u64).as_str());
            s.append(":");
            s.append(dec_u64(job.chunk_idx).as_str());
            s.append(" failed ");
            s.append(dec_u64(attempts as u64).as_str());
            s.append(" times: ");
            s.append(why);
            return Err(s);
        }
        self.queue.push(Job { file_idx: job.file_idx, chunk_idx: job.chunk_idx, attempts });
        Ok(())
    }

    /// Takes what became of a chunk.
    pub fn settle(&mut self, task: Task, outcome: ChunkOutcome) -> (r: StreamStep)
        requires
            old(self).wf(),
            job_ok(old(self).sizes@, task.job),
        ensures
            final(self).wf(),
            final(self).sizes == old(self).sizes,
            final(self).total_pending == old(self).total_pending,
            final(self).skipped == old(self).skipped,
            final(self).failures == old(self).failures,
            match outcome {
                ChunkOutcome::Taken => {
                    &&& final(self).sent_bytes == old(self).sent_bytes.wrapping_add(task.len as u64)
                    &&& final(self).queue@ == old(self).queue@
                    &&& r == (StreamStep::Progress {
                        done: final(self).sent_bytes,
                        total: old(self).total_pending,
                    })
                },
                _ => {
                    &&& final(self).sent_bytes == old(self).sent_bytes
                    &&& final(self).queue@ == if task.job.attempts + 1 < MAX_CHUNK_ATTEMPTS {
                        old(self).queue@.push(tried(task.job))
                    } else {
                        old(self).queue@
                    }
                },
            },
            outcome is Refused ==> if task.job.attempts + 1 < MAX_CHUNK_ATTEMPTS {
                r is Continue
            } else {
                r matches StreamStep::Stop(e) && e@ == gave_up(
                    task.job,
                    "chunk rejected by receiver"@,
                )
            },
            outcome matches ChunkOutcome::Broken(why) ==> r == StreamStep::Stop(why),
            task.len == job_bytes(old(self).sizes@, task.job) ==> forall|away: Seq<Job>, k: int|
                #![trigger away.remove(k)]
                balanced(*old(self), away) && 0 <= k < away.len() && away[k] == task.job
                    ==> stays_balanced(*old(self), *final(self), task, outcome, away, k),
    {
        let r = match outcome {
            ChunkOutcome::Taken => {
                self.sent_bytes = self.sent_bytes.wrapping_add(task.len as u64);
                StreamStep::Progress { done: self.sent_bytes, total: self.total_pending }
            },
            ChunkOutcome::Refused => match self.requeue(task.job, "chunk rejected by receiver") {
                Ok(()) => StreamStep::Continue,
                Err(e) => StreamStep::Stop(e),
            },
            ChunkOutcome::Broken(why) => {
                let _ = self.requeue(task.job, why.as_str());
                StreamStep::Stop(why)
            },
        };
        proof {
            if task.len == job_bytes(old(self).sizes@, task.job) {
                assert forall|away: Seq<Job>, k: int|
                    #![trigger away.remove(k)]
                    balanced(*old(self), away) && 0 <= k < away.len() && away[k]
                        == task.job implies stays_balanced(
                    *old(self),
                    *self,
                    task,
                    outcome,
                    away,
                    k,
                ) by {
                    if outcome is Taken {
                        lemma_delivery_balances(*old(self), *self, away, k);
                    } else if task.job.attempts + 1 < MAX_CHUNK_ATTEMPTS {
                        lemma_return_balances(*old(self), *self, away, k);
                    }
                }
            }
        }
        r
    }

    /// Notes why a stream ended.
    pub fn note_failure(&mut self, why: String)
        ensures
            final(self).failures@ == old(self).failures@.push(why),
            final(self).queue == old(self).queue,
            final(self).sizes == old(self).sizes,
            final(self).total_pending == old(self).total_pending,
            final(self).skipped == old(self).skipped,
            final(self).sent_bytes == old(self).sent_bytes,
    {
        self.failures.push(why);
    }

    /// What to say when the streams are done: chunks that still wait mean that
    /// every stream died with work pending.
    pub fn drained(&self) -> (r: Result<(), String>)
        ensures
            self.queue@.len() == 0 ==> r is Ok,
            self.queue@.len() > 0 ==> (r matches Err(e) && e@ == "transfer incomplete: "@ + dec(
                self.queue@.len(),
            ) + " chunks undelivered ("@ + (if self.failures@.len() > 0 {
                self.failures@.last()@
            } else {
                "connection lost"@
            })
                + "); partial data is kept on the receiver — run the same send again to resume"@),
    {
        if self.queue.len() == 0 {
            return Ok(());
        }
        let mut s = "transfer incomplete: ".to_string();
        s.append(dec_u64(self.queue.len() as u64).as_str());
        s.append(" chunks undelivered (");
        if self.failures.len() > 0 {
            s.append(self.failures[self.failures.len() - 1].as_str());
        } else {
            s.append("connection lost");
        }
        s.append(
            "); partial data is kept on the receiver — run the same send again to resume",
        );
        Err(s)
    }
}

/// The jobs in the opposite order.
fn reversed(jobs: &Vec<Job>) -> (r: Vec<Job>)
    ensures
        r@ == jobs@.reverse(),
{
    let mut out: Vec<Job> = Vec::new();
    let mut n: usize = jobs.len();
    while n > 0
        invariant
            n <= jobs@.len(),
            out@.len() == jobs@.len() - n,
            forall|k: int| 0 <= k < out@.len() ==> out@[k] == jobs@[jobs@.len() - 1 - k],
        decreases n,
    {
        n = n - 1;
        out.push(jobs[n]);
    }
    assert(out@ =~= jobs@.reverse());
    out
}

// ---- one stream ----

/// The message that ties a stream to the transfer.
pub fn data_auth(token: String) -> (r: ControlMsg)
    ensures
        r@ == (MsgView::DataAuth { token: token@ }),
{
    ControlMsg::DataAuth { token }
}

/// Whether the stream was let in; another message comes back as it is.
pub fn on_auth_reply(reply: ControlMsg) -> (r: Result<(), ControlMsg>)
    ensures
        match reply@ {
            MsgView::DataAuthOk => r is Ok,
            _ => r == Err::<(), _>(reply),
        },
{
    match reply {
        ControlMsg::DataAuthOk => Ok(()),
        other => Err(other),
    }
}

/// The words for a stream that was not let in; `shown` is how the reply reads.
pub fn auth_failed(shown: &str) -> (r: String)
    ensures
        r@ == "data stream auth failed: "@ + shown@,
{
    let mut s = "data stream auth failed: ".to_string();
    s.append(shown);
    s
}

/// The message ahead of a chunk's bytes.
pub fn chunk_header(job: Job, payload: &[u8]) -> (r: ControlMsg)
    requires
        payload@.len() <= u32::MAX,
    ensures
        r@ == (MsgView::ChunkHeader {
            file_idx: job.file_idx,
            chunk_idx: job.chunk_idx,
            len: payload@.len() as u32,
            hash_hex: hex(blake3_digest(payload@)),
        }),
{
    let digest = blake3_hash(payload);
    let hash_hex = hex_encode(digest.as_slice());
    ControlMsg::ChunkHeader {
        file_idx: job.file_idx,
        chunk_idx: job.chunk_idx,
        len: payload.len() as u32,
        hash_hex,
    }
}

/// Whether the receiver took the chunk; another message comes back as it is.
pub fn on_chunk_reply(reply: ControlMsg) -> (r: Result<bool, ControlMsg>)
    ensures
        match reply@ {
            MsgView::ChunkAck { ok, .. } => r == Ok::<bool, ControlMsg>(ok),
            _ => r == Err::<bool, _>(reply),
        },
{
    match reply {
        ControlMsg::ChunkAck { ok, .. } => Ok(ok),
        other => Err(other),
    }
}

// ---- the report ----

/// How one file came across.
#[derive(Debug)]
pub struct FileResult {
    pub rel_path: String,
    pub ok: bool,
    pub message: String,
}

/// The same, as contracts see it.
pub struct ResultView {
    pub rel_path: Seq<char>,
    pub ok: bool,
    pub message: Seq<char>,
}

impl View for FileResult {
    type V = ResultView;

    open spec fn view(&self) -> ResultView {
        ResultView { rel_path: self.rel_path@, ok: self.ok, message: self.message@ }
    }
}

/// Results, as contracts see them.
pub open spec fn results(list: Seq<FileResult>) -> Seq<ResultView> {
    list.map_values(|f: FileResult| f@)
}

/// What holds of a file that the receiver has not spoken of.
pub open spec fn unreported(file: EntryView) -> ResultView {
    ResultView { rel_path: file.rel_path, ok: false, message: "no report from receiver"@ }
}

/// The results before the receiver has spoken.
pub fn no_reports(files: &Vec<FileEntry>) -> (r: Vec<FileResult>)
    ensures
        results(r@) == entries(files@).map_values(|f: EntryView| unreported(f)),
{
    let mut out: Vec<FileResult> = Vec::new();
    let mut i: usize = 0;
    let ghost target = entries(files@).map_values(|f: EntryView| unreported(f));
    while i < files.len()
        invariant
            i <= files@.len(),
            target == entries(files@).map_values(|f: EntryView| unreported(f)),
            results(out@) =~= target.take(i as int),
        decreases files@.len() - i,
    {
        let ghost before = out@;
        let rel_path = files[i].rel_path.clone();
        let message = "no report from receiver".to_string();
        out.push(FileResult { rel_path, ok: false, message });
        assert(results(out@) =~= results(before).push(out@.last()@));
        i = i + 1;
    }
    assert(target.take(target.len() as int) =~= target);
    out
}

/// What a message of the receiver makes of the results.
pub open spec fn reported(list: Seq<ResultView>, msg: MsgView) -> Seq<ResultView> {
    match msg {
        MsgView::FileDone { file_idx, ok, message } => if file_idx < list.len() {
            list.update(file_idx as int, ResultView { ok, message, ..list[file_idx as int] })
        } else {
            list
        },
        _ => list,
    }
}

/// What these messages make of the results, one after the other.
pub open spec fn all_reported(list: Seq<ResultView>, msgs: Seq<MsgView>) -> Seq<ResultView>
    decreases msgs.len(),
{
    if msgs.len() == 0 {
        list
    } else {
        reported(all_reported(list, msgs.drop_last()), msgs.last())
    }
}

/// The last that was said of a file.
pub open spec fn last_word(msgs: Seq<MsgView>, idx: int) -> Option<(bool, Seq<char>)>
    decreases msgs.len(),
{
    if msgs.len() == 0 {
        None
    } else {
        match msgs.last() {
            MsgView::FileDone { file_idx, ok, message } => if file_idx == idx {
                Some((ok, message))
            } else {
                last_word(msgs.drop_last(), idx)
            },
            _ => last_word(msgs.drop_last(), idx),
        }
    }
}

/// The report over everything that the receiver says: a file of the manifest keeps
/// its name and has what was last said of it, and where nothing was said it counts
/// as not reported.
pub proof fn lemma_last_word_counts(files: Seq<EntryView>, msgs: Seq<MsgView>, idx: int)
    requires
        0 <= idx < files.len(),
    ensures
        ({
            let start = files.map_values(|f: EntryView| unreported(f));
            &&& all_reported(start, msgs).len() == files.len()
            &&& all_reported(start, msgs)[idx] == match last_word(msgs, idx) {
                Some((ok, message)) => ResultView { rel_path: files[idx].rel_path, ok, message },
                None => unreported(files[idx]),
            }
        }),
    decreases msgs.len(),
{
    if msgs.len() > 0 {
        lemma_last_word_counts(files, msgs.drop_last(), idx);
    }
}

/// Takes a message of the receiver into the results. True when it is the last.
pub fn on_report(list: &mut Vec<FileResult>, msg: ControlMsg) -> (last: bool)
    ensures
        last == (msg@ is AllDone),
        results(final(list)@) == reported(results(old(list)@), msg@),
{
    match msg {
        ControlMsg::FileDone { file_idx, ok, message } => {
            if (file_idx as u64) < list.len() as u64 {
                let i: usize = file_idx as usize;
                let ghost before = list@;
                let rel_path = list[i].rel_path.clone();
                list.set(i, FileResult { rel_path, ok, message });
                assert(results(list@) =~= results(before).update(i as int, list@[i as int]@));
            }
            false
        },
        ControlMsg::AllDone => true,
        _ => false,
    }
}

/// What a transfer came to.
#[derive(Debug)]
pub struct SendReport {
    pub receiver_name: String,
    pub files: Vec<FileResult>,
    pub bytes_sent: u64,
    pub bytes_skipped: u64,
    /// How long it took, in nanoseconds.
    pub elapsed: u128,
}

impl SendReport {
    /// True when every file is there.
    pub fn all_ok(&self) -> (r: bool)
        ensures
            r == forall|i: int| 0 <= i < self.files@.len() ==> (#[trigger] self.files@[i]).ok,
    {
        let mut i: usize = 0;
        while i < self.files.len()
            invariant
                i <= self.files@.len(),
                forall|j: int| 0 <= j < i ==> (#[trigger] self.files@[j]).ok,
            decreases self.files@.len() - i,
        {
            if !self.files[i].ok {
                return false;
            }
            i = i + 1;
        }
        true
    }
}

} // verus!
