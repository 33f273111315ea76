//! What is asked of a receiver, and what a sender makes of the answers.

use vstd::prelude::*;
use vstd::utf8::encode_utf8;

use crate::net::{IpAddr, SocketAddr};
use crate::protocol::{EntryView, MsgView, ResumeView};
use crate::text::{dec, split};
use crate::transfer::chunks::{chunk_count, chunk_len, lemma_chunk_inside};
use crate::transfer::events::EventView;
use crate::transfer::paths::{clean_name, problem_text, sanitized, steps, PathProblem};
use crate::transfer::receiver::{after_opening, listener_of, opening, OpeningView, ReceiverView};
use crate::transfer::sender::{
    all_held, all_jobs, file_chunks, file_jobs, gave_up, have_of, held, held_bytes, job_bytes,
    job_ok, readable, reported, tried, unreported, waiting_bytes, Job, ResultView,
};
use crate::transfer::session::{
    bytes_there, bytes_there_total, end_of, lemma_complete, report_of, resume_of, sizes_total,
    FileState,
};
use crate::transfer::speed::next_piece;
use crate::util::{all_pairs, bit, hex, unhex};

verus! {

// ---- requests ----

/// Which requests are let in: a transfer exactly from a paired device of the same
/// version, with a chunk size from one byte to 32 MiB, while no other transfer runs;
/// a probe exactly from a paired device and of at most 512 MiB; a stream exactly with
/// the token of the running transfer; a pairing exactly from a device of the same
/// version; and a device is unpaired exactly by one that is paired. What is let in
/// carries what was asked for, unchanged.
pub proof fn lemma_let_in(r: ReceiverView, msg: MsgView)
    ensures
        opening(r, msg) is Prepare <==> (msg matches MsgView::Hello {
            version,
            pair_token,
            chunk_size,
            ..
        } && version == 1 && r.accepted.contains(pair_token) && 1 <= chunk_size <= 33554432
            && r.active is None),
        opening(r, msg) matches OpeningView::Prepare { sender_name, chunk_size, files } ==> (msg
            matches MsgView::Hello { sender_name: s, chunk_size: c, files: f, .. } && s
            == sender_name && c == chunk_size && f == files),
        opening(r, msg) is Probe <==> (msg matches MsgView::SpeedProbe { pair_token, len }
            && r.accepted.contains(pair_token) && len <= 536870912),
        opening(r, msg) matches OpeningView::Probe { len } ==> (msg matches MsgView::SpeedProbe {
            len: l,
            ..
        } && l == len),
        opening(r, msg) is ProbeTooLarge <==> (msg matches MsgView::SpeedProbe { pair_token, len }
            && r.accepted.contains(pair_token) && len > 536870912),
        opening(r, msg) is Data <==> (msg matches MsgView::DataAuth { token } && r.active == Some(
            token,
        )),
        opening(r, msg) is Pair <==> (msg matches MsgView::PairRequest { version, .. } && version
            == 1),
        opening(r, msg) matches OpeningView::Pair { name, nonce_hex, listen_port } ==> (msg
            matches MsgView::PairRequest { name: n, nonce_hex: x, listen_port: p, .. } && n == name
            && x == nonce_hex && p == listen_port),
        opening(r, msg) is Unpaired <==> (msg matches MsgView::Unpair { pair_token }
            && r.accepted.contains(pair_token)),
{
}

/// Which requests are turned away, and with what reason. Whoever is not paired hears
/// that first, whatever else is wrong with the request.
pub proof fn lemma_turned_away(r: ReceiverView, msg: MsgView)
    ensures
        opening(r, msg) is Close <==> match msg {
            MsgView::PairRequest { .. } => false,
            MsgView::SpeedProbe { .. } => false,
            MsgView::Hello { .. } => false,
            MsgView::DataAuth { .. } => false,
            MsgView::Unpair { pair_token } => !r.accepted.contains(pair_token),
            _ => true,
        },
        opening(r, msg) matches OpeningView::Answer(a) ==> a is Reject || a is PairReject,
        msg matches MsgView::PairRequest { version, .. } ==> version != 1 ==> opening(r, msg)
            == OpeningView::Answer(
            MsgView::PairReject {
                reason: "protocol version mismatch (ours "@ + dec(1) + ", theirs "@ + dec(
                    version as nat,
                ) + ")"@,
            },
        ),
        msg matches MsgView::SpeedProbe { pair_token, .. } ==> !r.accepted.contains(pair_token)
            ==> opening(r, msg) == OpeningView::Answer(MsgView::Reject { reason: "not paired"@ }),
        msg matches MsgView::DataAuth { token } ==> r.active != Some(token) ==> opening(r, msg)
            == OpeningView::Answer(MsgView::Reject { reason: "bad or expired token"@ }),
        msg matches MsgView::Hello { version, pair_token, chunk_size, .. } ==> {
            let paired = r.accepted.contains(pair_token);
            let fits = 1 <= chunk_size <= 33554432;
            &&& !paired ==> opening(r, msg) == OpeningView::Answer(
                MsgView::Reject { reason: "not paired — pair with this device first"@ },
            )
            &&& paired && version != 1 ==> opening(r, msg) == OpeningView::Answer(
                MsgView::Reject {
                    reason: "protocol version mismatch (ours "@ + dec(1) + ", theirs "@ + dec(
                        version as nat,
                    ) + ")"@,
                },
            )
            &&& paired && version == 1 && !fits ==> opening(r, msg) == OpeningView::Answer(
                MsgView::Reject { reason: "unacceptable chunk size"@ },
            )
            &&& paired && version == 1 && fits && r.active is Some ==> opening(r, msg)
                == OpeningView::Answer(
                MsgView::Reject { reason: "another transfer is already in progress"@ },
            )
        },
{
}

/// A request changes nothing but this: when a paired device unpairs, no token is
/// accepted any more. The name, the port and a running transfer stay.
pub proof fn lemma_requests_change_little(r: ReceiverView, msg: MsgView, token: Seq<char>)
    ensures
        after_opening(r, msg).name == r.name,
        after_opening(r, msg).port == r.port,
        after_opening(r, msg).active == r.active,
        after_opening(r, msg).accepted.contains(token) <==> r.accepted.contains(token) && !(msg
            matches MsgView::Unpair { pair_token } && r.accepted.contains(pair_token)),
{
}

/// Where a device that pairs can be reached: at the address that it called from and
/// the port that it names, exactly when both are known.
pub proof fn lemma_where_to_call_back(peer_ip: Option<IpAddr>, listen_port: u16)
    ensures
        listener_of(peer_ip, listen_port) is Some <==> peer_ip is Some && listen_port != 0,
        listener_of(peer_ip, listen_port) matches Some(a) ==> (match a {
            SocketAddr::V4 { ip, port } => peer_ip == Some(IpAddr::V4(ip)) && port == listen_port,
            SocketAddr::V6 { ip, port, flowinfo, scope_id } => peer_ip == Some(IpAddr::V6(ip))
                && port == listen_port && flowinfo == 0 && scope_id == 0,
        }),
{
}

// ---- names in a manifest ----

/// A part that no path may hold: the way up, and anything with a colon.
pub open spec fn is_bad_part(part: Seq<char>) -> bool {
    part == ".."@ || part.contains(':')
}

proof fn lemma_steps_good(parts: Seq<Seq<char>>, whole: Seq<char>)
    requires
        forall|i: int| 0 <= i < parts.len() ==> !is_bad_part(#[trigger] parts[i]),
    ensures
        steps(parts, whole) == Ok::<Seq<Seq<char>>, PathProblem>(
            parts.filter(|p: Seq<char>| p.len() > 0 && p != "."@),
        ),
    decreases parts.len(),
{
    reveal(Seq::filter);
    let keep = |p: Seq<char>| p.len() > 0 && p != "."@;
    if parts.len() == 0 {
        assert(parts.filter(keep) =~= Seq::empty());
    } else {
        assert forall|i: int| 0 <= i < parts.drop_last().len() implies !is_bad_part(
            #[trigger] parts.drop_last()[i],
        ) by {
            assert(!is_bad_part(parts[i]));
        }
        lemma_steps_good(parts.drop_last(), whole);
        assert(!is_bad_part(parts[parts.len() - 1]));
    }
}

proof fn lemma_steps_bad(parts: Seq<Seq<char>>, whole: Seq<char>, k: int)
    requires
        0 <= k < parts.len(),
        is_bad_part(parts[k]),
        forall|i: int| 0 <= i < k ==> !is_bad_part(#[trigger] parts[i]),
    ensures
        parts[k] == ".."@ ==> steps(parts, whole) == Err::<Seq<Seq<char>>, PathProblem>(
            PathProblem::Traversal(whole),
        ),
        parts[k] != ".."@ ==> steps(parts, whole) == Err::<Seq<Seq<char>>, PathProblem>(
            PathProblem::InvalidComponent(parts[k]),
        ),
    decreases parts.len(),
{
    if k < parts.len() - 1 {
        assert forall|i: int| 0 <= i < k implies !is_bad_part(#[trigger] parts.drop_last()[i]) by {
            assert(!is_bad_part(parts[i]));
        }
        lemma_steps_bad(parts.drop_last(), whole, k);
    } else {
        assert forall|i: int| 0 <= i < parts.drop_last().len() implies !is_bad_part(
            #[trigger] parts.drop_last()[i],
        ) by {
            assert(!is_bad_part(parts[i]));
        }
        lemma_steps_good(parts.drop_last(), whole);
        reveal_strlit(".");
        reveal_strlit("..");
        assert("."@.len() == 1);
        assert("."@[0] == '.');
        if parts[k] == "."@ {
            assert(parts[k].contains(':'));
            let i = choose|i: int| 0 <= i < parts[k].len() && parts[k][i] == ':';
        }
    }
}

/// What becomes of a path in a manifest. `whole` is the path with slashes for
/// backslashes, cut at the slashes. A path that begins with a slash is refused; so is
/// one with a bad part, and the first such part says how. Otherwise all parts are
/// kept, in order, but for empty ones and single dots; and if none is left the path
/// is refused as empty.
pub proof fn lemma_path_taken_apart(rel: Seq<char>, whole: Seq<char>, k: int)
    requires
        whole.len() == rel.len(),
        forall|i: int|
            0 <= i < rel.len() ==> #[trigger] whole[i] == if rel[i] == '\\' {
                '/'
            } else {
                rel[i]
            },
    ensures
        ({
            let parts = split(whole, '/');
            let kept = parts.filter(|p: Seq<char>| p.len() > 0 && p != "."@);
            let relative = rel.len() == 0 || (rel[0] != '/' && rel[0] != '\\');
            &&& !relative ==> sanitized(rel) == Err::<Seq<Seq<char>>, PathProblem>(
                PathProblem::Absolute(whole),
            )
            &&& relative && 0 <= k < parts.len() && is_bad_part(parts[k]) && (forall|i: int|
                0 <= i < k ==> !is_bad_part(#[trigger] parts[i])) ==> sanitized(rel) == Err::<
                Seq<Seq<char>>,
                PathProblem,
            >(
                if parts[k] == ".."@ {
                    PathProblem::Traversal(whole)
                } else {
                    PathProblem::InvalidComponent(parts[k])
                },
            )
            &&& relative && (forall|i: int|
                0 <= i < parts.len() ==> !is_bad_part(#[trigger] parts[i])) ==> sanitized(rel)
                == if kept.len() == 0 {
                Err::<Seq<Seq<char>>, PathProblem>(PathProblem::Empty)
            } else {
                Ok(kept)
            }
        }),
{
    assert(crate::text::replaced(rel, '\\', '/') =~= whole);
    let parts = split(whole, '/');
    if 0 <= k < parts.len() && is_bad_part(parts[k]) && (forall|i: int|
        0 <= i < k ==> !is_bad_part(#[trigger] parts[i])) {
        lemma_steps_bad(parts, whole, k);
    }
    if forall|i: int| 0 <= i < parts.len() ==> !is_bad_part(#[trigger] parts[i]) {
        lemma_steps_good(parts, whole);
    }
}

/// A clean name is one that means a file in its folder and nothing else.
pub proof fn lemma_clean_name(s: Seq<char>)
    ensures
        clean_name(s) <==> s.len() > 0 && s != seq!['.'] && s != seq!['.', '.'] && forall|i: int|
            0 <= i < s.len() ==> #[trigger] s[i] != ':' && s[i] != '/' && s[i] != '\\',
{
    reveal_strlit(".");
    reveal_strlit("..");
    assert("."@ =~= seq!['.']);
    assert(".."@ =~= seq!['.', '.']);
    if clean_name(s) {
        assert forall|i: int| 0 <= i < s.len() implies #[trigger] s[i] != ':' && s[i] != '/' && s[i]
            != '\\' by {
            assert(s.contains(s[i]));
        }
    }
}

/// What is wrong with a path is told with the path, or with the part that is wrong.
pub proof fn lemma_problem_text(s: Seq<char>)
    ensures
        problem_text(PathProblem::Absolute(s)) == "absolute path in manifest: "@ + s,
        problem_text(PathProblem::Traversal(s)) == "path traversal in manifest: "@ + s,
        problem_text(PathProblem::InvalidComponent(s)) == "invalid path component: "@ + s,
        problem_text(PathProblem::Empty) == "empty path in manifest"@,
{
}

// ---- what is left to send ----

/// What a receiver is taken to have of a file is the last readable word on that file:
/// words on other files change nothing, nor do words that cannot be read, and a later
/// readable one replaces an earlier one.
pub proof fn lemma_last_readable_word(resume: Seq<ResumeView>, word: ResumeView, file_idx: u32)
    ensures
        have_of(Seq::empty(), file_idx) is None,
        word.file_idx != file_idx ==> have_of(resume.push(word), file_idx) == have_of(
            resume,
            file_idx,
        ),
        !readable(word.have_bitmap_hex) ==> have_of(resume.push(word), file_idx) == have_of(
            resume,
            file_idx,
        ),
        forall|bytes: Seq<u8>|
            word.file_idx == file_idx && word.have_bitmap_hex == #[trigger] hex(bytes) ==> have_of(
                resume.push(word),
                file_idx,
            ) == Some(bytes),
        word.file_idx == file_idx && readable(word.have_bitmap_hex) ==> have_of(
            resume.push(word),
            file_idx,
        ) == Some(unhex(encode_utf8(word.have_bitmap_hex))),
        readable(word.have_bitmap_hex) <==> encode_utf8(word.have_bitmap_hex).len() % 2 == 0
            && all_pairs(encode_utf8(word.have_bitmap_hex)),
{
    assert(resume.push(word).drop_last() =~= resume);
    assert forall|bytes: Seq<u8>|
        word.file_idx == file_idx && word.have_bitmap_hex == #[trigger] hex(bytes) implies have_of(
        resume.push(word),
        file_idx,
    ) == Some(bytes) by {
        crate::util::lemma_hex_round_trip(bytes);
    }
}

/// A chunk is held exactly when a bitmap is known and its bit is set.
pub proof fn lemma_held_by_bit(bitmap: Seq<u8>, chunk_idx: int)
    ensures
        held(Some(bitmap), chunk_idx) == bit(bitmap, chunk_idx),
        !held(None, chunk_idx),
{
}

/// A file of a manifest takes as many chunks of 4 MiB as its bytes fill, the last one
/// possibly short, and an empty one takes none.
pub proof fn lemma_chunks_of_an_entry(file: EntryView)
    ensures
        file.size == 0 <==> file_chunks(file) == 0,
        file.size > 0 ==> (file_chunks(file) - 1) * 4194304 < file.size <= file_chunks(file)
            * 4194304,
{
}

/// One chunk stands before another: in an earlier file, or earlier in the same one.
pub open spec fn stands_before(a: Job, b: Job) -> bool {
    a.file_idx < b.file_idx || (a.file_idx == b.file_idx && a.chunk_idx < b.chunk_idx)
}

proof fn lemma_file_jobs_in_order(file_idx: u32, have: Option<Seq<u8>>, n: nat)
    requires
        n <= u64::MAX,
    ensures
        forall|i: int|
            0 <= i < file_jobs(file_idx, have, n).len() ==> (#[trigger] file_jobs(
                file_idx,
                have,
                n,
            )[i]).file_idx == file_idx && file_jobs(file_idx, have, n)[i].chunk_idx < n,
        forall|i: int, j: int|
            0 <= i < j < file_jobs(file_idx, have, n).len() ==> stands_before(
                #[trigger] file_jobs(file_idx, have, n)[i],
                #[trigger] file_jobs(file_idx, have, n)[j],
            ),
    decreases n,
{
    if n > 0 {
        let before = file_jobs(file_idx, have, (n - 1) as nat);
        let after = file_jobs(file_idx, have, n);
        lemma_file_jobs_in_order(file_idx, have, (n - 1) as nat);
        assert(forall|i: int| 0 <= i < before.len() ==> after[i] == #[trigger] before[i]);
        assert forall|i: int| 0 <= i < after.len() implies (#[trigger] after[i]).file_idx
            == file_idx && after[i].chunk_idx < n by {
            if i < before.len() {
                assert(after[i] == before[i]);
            }
        }
        assert forall|i: int, j: int| 0 <= i < j < after.len() implies stands_before(
            #[trigger] after[i],
            #[trigger] after[j],
        ) by {
            assert(after[i] == before[i]);
            if j < before.len() {
                assert(after[j] == before[j]);
            }
        }
    }
}

proof fn lemma_chunk_numbers_fit(size: u64)
    ensures
        0 <= chunk_count(size as int, 4194304) <= u64::MAX,
{
}

/// What is missing is sent file by file and chunk by chunk.
pub proof fn lemma_jobs_in_order(files: Seq<EntryView>, resume: Seq<ResumeView>)
    requires
        files.len() <= 0x1_0000_0000,
    ensures
        forall|i: int, j: int|
            0 <= i < j < all_jobs(files, resume).len() ==> stands_before(
                #[trigger] all_jobs(files, resume)[i],
                #[trigger] all_jobs(files, resume)[j],
            ),
        forall|i: int|
            0 <= i < all_jobs(files, resume).len() ==> (#[trigger] all_jobs(
                files,
                resume,
            )[i]).file_idx < files.len(),
    decreases files.len(),
{
    if files.len() > 0 {
        let idx = (files.len() - 1) as u32;
        lemma_jobs_in_order(files.drop_last(), resume);
        lemma_chunk_numbers_fit(files.last().size);
        lemma_file_jobs_in_order(idx, have_of(resume, idx), file_chunks(files.last()));
        let a = all_jobs(files.drop_last(), resume);
        let b = file_jobs(idx, have_of(resume, idx), file_chunks(files.last()));
        let all = all_jobs(files, resume);
        assert(all == a + b);
        assert forall|i: int| 0 <= i < all.len() implies (#[trigger] all[i]).file_idx
            < files.len() by {
            if i < a.len() {
                assert(all[i] == a[i]);
            } else {
                assert(all[i] == b[i - a.len()]);
            }
        }
        assert forall|i: int, j: int| 0 <= i < j < all.len() implies stands_before(
            #[trigger] all[i],
            #[trigger] all[j],
        ) by {
            if j < a.len() {
                assert(all[i] == a[i] && all[j] == a[j]);
            } else if i < a.len() {
                assert(all[i] == a[i] && all[j] == b[j - a.len()]);
            } else {
                assert(all[i] == b[i - a.len()] && all[j] == b[j - a.len()]);
            }
        }
    }
}

/// What the receiver has already is counted file by file and chunk by chunk: a chunk
/// that is held counts with its bytes, and one that is not counts nothing.
pub proof fn lemma_held_is_counted(
    files: Seq<EntryView>,
    e: EntryView,
    resume: Seq<ResumeView>,
    size: int,
    have: Option<Seq<u8>>,
    n: nat,
)
    requires
        files.len() < 0x1_0000_0000,
    ensures
        all_held(Seq::empty(), resume) == 0,
        all_held(files.push(e), resume) == all_held(files, resume) + held_bytes(
            e.size as int,
            have_of(resume, files.len() as u32),
            file_chunks(e),
        ),
        held_bytes(size, have, 0) == 0,
        held(have, n as int) ==> held_bytes(size, have, n + 1) == held_bytes(size, have, n)
            + chunk_len(size, 4194304, n as int),
        !held(have, n as int) ==> held_bytes(size, have, n + 1) == held_bytes(size, have, n),
{
    assert(files.push(e).drop_last() =~= files);
}

/// A chunk has 4 MiB, or what is left of its file.
pub proof fn lemma_bytes_of_a_job(sizes: Seq<u64>, queue: Seq<Job>, job: Job)
    ensures
        job_bytes(sizes, job) <= 4194304,
        job.chunk_idx * 4194304 + job_bytes(sizes, job) <= sizes[job.file_idx as int],
        job_bytes(sizes, job) == 4194304 || job.chunk_idx * 4194304 + job_bytes(sizes, job)
            == sizes[job.file_idx as int],
        waiting_bytes(sizes, Seq::empty()) == 0,
        waiting_bytes(sizes, queue.push(job)) == waiting_bytes(sizes, queue) + job_bytes(
            sizes,
            job,
        ),
{
    assert(queue.push(job).drop_last() =~= queue);
}

/// A chunk that was tried is the same chunk, tried once more; and a chunk may wait
/// only as long as it was tried fewer than three times.
pub proof fn lemma_tried_once_more(job: Job, sizes: Seq<u64>)
    requires
        job.attempts < u32::MAX,
    ensures
        tried(job).file_idx == job.file_idx,
        tried(job).chunk_idx == job.chunk_idx,
        tried(job).attempts == job.attempts + 1,
        job_ok(sizes, job) <==> job.attempts < 3 && job.file_idx < sizes.len() && job.chunk_idx
            * 4194304 < sizes[job.file_idx as int],
        forall|why: Seq<char>| #[trigger]
            gave_up(job, why) == "chunk "@ + dec(job.file_idx as nat) + ":"@ + dec(
                job.chunk_idx as nat,
            ) + " failed "@ + dec(tried(job).attempts as nat) + " times: "@ + why,
{
    if job.file_idx < sizes.len() {
        lemma_chunk_inside(sizes[job.file_idx as int] as int, 4194304, job.chunk_idx as int);
    }
}

// ---- reports ----

/// A report on a file changes what is known of that file alone, and nothing but the
/// outcome and its message; any other message, and a report on a file that there is
/// not, changes nothing. Until it is reported on, a file has failed.
pub proof fn lemma_report_is_noted(list: Seq<ResultView>, msg: MsgView, i: int, file: EntryView)
    requires
        0 <= i < list.len(),
    ensures
        reported(list, msg).len() == list.len(),
        reported(list, msg)[i].rel_path == list[i].rel_path,
        msg matches MsgView::FileDone { file_idx, ok, message } ==> file_idx == i ==> reported(
            list,
            msg,
        )[i].ok == ok && reported(list, msg)[i].message == message,
        !(msg matches MsgView::FileDone { file_idx, .. } && file_idx == i) ==> reported(
            list,
            msg,
        )[i] == list[i],
        !unreported(file).ok,
        unreported(file).rel_path == file.rel_path,
        unreported(file).message == "no report from receiver"@,
{
}

/// A receiver says of a file that it went well exactly when the file is complete
/// under its final name, and otherwise how many of its chunks are there.
pub proof fn lemma_report_is_true(f: FileState, idx: int)
    requires
        0 <= idx <= u32::MAX,
    ensures
        report_of(f, idx) matches MsgView::FileDone { file_idx, ok, message } && file_idx == idx
            && ok == f.prog.finalized && (f.prog.finalized ==> message == "complete"@) && (
        !f.prog.finalized ==> message == "incomplete ("@ + dec(f.prog.done_chunks as nat) + "/"@
            + dec(f.total_chunks as nat) + " chunks)"@),
        forall|ok: bool|
            (#[trigger] end_of(ok)) matches EventView::SessionEnded { ok: said, message } && said
                == ok && (ok ==> message == "all files received and verified"@) && (!ok ==> message
                == "session ended with incomplete files (kept for resume)"@),
{
}

/// What a receiver offers to go on from: one word for each file, in order, which
/// spells out its bitmap.
pub proof fn lemma_offer_to_resume(files: Seq<FileState>, i: int)
    requires
        0 <= i < files.len() <= 0x1_0000_0000,
    ensures
        resume_of(files).len() == files.len(),
        resume_of(files)[i].file_idx == i,
        unhex(encode_utf8(resume_of(files)[i].have_bitmap_hex)) == files[i].prog.bitmap@,
{
    crate::util::lemma_hex_round_trip(files[i].prog.bitmap@);
}

/// The bytes that are shown as received never exceed the size of the file, and are
/// all of it exactly when every chunk is there. Before that they are those of the
/// chunks that are there, counted as full ones.
pub proof fn lemma_bytes_received(f: FileState, chunk_size: u64)
    requires
        f.wf(chunk_size),
    ensures
        0 <= bytes_there(f, chunk_size) <= f.entry.size,
        bytes_there(f, chunk_size) == f.entry.size <==> f.prog.done_chunks == f.total_chunks,
        f.prog.done_chunks < f.total_chunks ==> bytes_there(f, chunk_size) == f.prog.done_chunks
            * chunk_size,
{
    lemma_complete(f, chunk_size);
    lemma_chunk_inside(f.entry.size as int, chunk_size as int, f.prog.done_chunks as int);
}

/// The sums over a session grow by what each file brings.
pub proof fn lemma_session_sums(files: Seq<FileState>, f: FileState, chunk_size: u64)
    ensures
        sizes_total(Seq::empty()) == 0,
        sizes_total(files.push(f)) == sizes_total(files) + f.entry.size,
        bytes_there_total(Seq::empty(), chunk_size) == 0,
        bytes_there_total(files.push(f), chunk_size) == bytes_there_total(files, chunk_size)
            + bytes_there(f, chunk_size),
{
    assert(files.push(f).drop_last() =~= files);
}

// ---- the probe ----

/// A probe goes in pieces of 1 MiB until 32 MiB are sent, and the last piece ends
/// exactly there.
pub proof fn lemma_probe_pieces(sent: int)
    requires
        0 <= sent < 33554432,
    ensures
        0 < next_piece(sent) <= 1048576,
        sent + next_piece(sent) <= 33554432,
        next_piece(sent) == 1048576 || sent + next_piece(sent) == 33554432,
{
}

} // verus!
