//! What a call changes, and what it leaves alone.
//!
//! Each law is of one call: `old` is what it changes before the call, and `final` the
//! same after it.

use vstd::prelude::*;

use crate::discovery::{first_time, Peer};
use crate::link::{streams_for, Link, LinkKind};
use crate::net::{Interface, IpAddr, SocketAddr};
use crate::pair::PairResult;
use crate::protocol::{ControlMsg, EntryView, FileEntry, MsgView};
use crate::screen::devices::{may_call, Heard};
use crate::screen::show::FolderSize;
use crate::screen::state::{
    App, AppView, PairStep, PairedPeer, RecvMsg, SendView, SpeedView,
};
use crate::transfer::events::{Event, EventView};
use crate::transfer::manifest::{push_unique, Kind, Pending, Walk, WalkStep};
use crate::transfer::receiver::{opening, Opening, OpeningView, Receiver};
use crate::transfer::sender::{
    on_report, results, ChunkOutcome, FileResult, Job, Outbox, SendReport, StreamStep, Task,
};
use crate::transfer::session::{FileState, Landed, Session, Written};
use crate::transfer::tokens::TokenSet;
use crate::util::bit;

verus! {

// ---- a file that comes in ----

/// A chunk that was written is marked, and no other mark changes; nor does anything
/// that the file is known by. The file is complete exactly when every chunk is marked,
/// and only then it is closed.
pub proof fn lemma_chunk_written(
    f: &mut FileState,
    chunk_size: u64,
    idx: u64,
    r: Written,
    other: int,
)
    requires
        call_ensures(FileState::chunk_written, (f, chunk_size, idx), r),
        0 <= other,
    ensures
        bit(final(f).prog.bitmap@, idx as int),
        other != idx ==> bit(final(f).prog.bitmap@, other) == bit(old(f).prog.bitmap@, other),
        final(f).entry == old(f).entry,
        final(f).final_path == old(f).final_path,
        final(f).total_chunks == old(f).total_chunks,
        final(f).prog.done_chunks == old(f).prog.done_chunks + 1,
        final(f).prog.open <==> !r.complete,
        r.complete <==> forall|c: int|
            0 <= c < final(f).total_chunks ==> bit(final(f).prog.bitmap@, c),
        r.persist.size == old(f).entry.size,
        r.persist.chunk_size == chunk_size,
        r.persist.bitmap_hex@ == crate::util::hex(final(f).prog.bitmap@),
{
    let g = *final(f);
    crate::transfer::session::lemma_complete(g, chunk_size);
    if r.complete {
        assert forall|c: int| 0 <= c < g.total_chunks implies bit(g.prog.bitmap@, c) by {
            assert(g.has(c));
        }
    }
    if forall|c: int| 0 <= c < g.total_chunks ==> bit(g.prog.bitmap@, c) {
        assert forall|c: int| 0 <= c < g.total_chunks implies g.has(c) by {
            assert(bit(g.prog.bitmap@, c));
        }
    }
}

/// A file that got its final name is told of by the name in the manifest and its size,
/// and nothing else changes.
pub proof fn lemma_renamed(f: &mut FileState, chunk_size: u64, e: Event)
    requires
        call_ensures(FileState::renamed, (f, chunk_size), e),
    ensures
        final(f).prog.finalized,
        final(f).prog.bitmap == old(f).prog.bitmap,
        final(f).prog.done_chunks == old(f).prog.done_chunks,
        final(f).entry == old(f).entry,
        final(f).final_path == old(f).final_path,
        e@ matches EventView::FileCompleted { rel_path, bytes } && rel_path
            == old(f).entry.rel_path@ && bytes == old(f).entry.size,
{
}

/// A chunk of one file changes nothing in the others, and counts with its bytes.
pub proof fn lemma_chunk_landed(
    s: &mut Session,
    file_idx: u32,
    chunk_idx: u64,
    len: u64,
    r: Landed,
    i: int,
)
    requires
        call_ensures(Session::chunk_written, (s, file_idx, chunk_idx, len), r),
        0 <= i < old(s).files@.len(),
        file_idx < old(s).files@.len(),
        old(s).received_bytes + len <= u64::MAX,
    ensures
        i != file_idx ==> final(s).files@[i] == old(s).files@[i],
        bit(final(s).files@[file_idx as int].prog.bitmap@, chunk_idx as int),
        final(s).token == old(s).token,
        final(s).total_bytes == old(s).total_bytes,
        final(s).received_bytes == old(s).received_bytes + len,
        r.progress@ matches EventView::Progress { done_bytes, total_bytes } && done_bytes
            == final(s).received_bytes && total_bytes == old(s).total_bytes,
{
    if i != file_idx {
        let after = final(s).files@[i];
    }
}

/// A file of a session that got its final name changes nothing in the others.
pub proof fn lemma_renamed_in_session(s: &mut Session, file_idx: u32, e: Event, i: int)
    requires
        call_ensures(Session::renamed, (s, file_idx), e),
        0 <= i < old(s).files@.len(),
        file_idx < old(s).files@.len(),
    ensures
        final(s).files@.len() == old(s).files@.len(),
        i != file_idx ==> final(s).files@[i] == old(s).files@[i],
        final(s).files@[file_idx as int].prog.finalized,
        final(s).files@[file_idx as int].prog.bitmap == old(s).files@[file_idx as int].prog.bitmap,
        final(s).received_bytes == old(s).received_bytes,
        e@ matches EventView::FileCompleted { rel_path, bytes } && rel_path
            == old(s).files@[file_idx as int].entry.rel_path@ && bytes
            == old(s).files@[file_idx as int].entry.size,
{
}

// ---- the receiver ----

/// A new receiver knows no one: every transfer is turned away.
pub proof fn lemma_new_receiver(name: String, port: u16, r: Receiver, msg: MsgView)
    requires
        call_ensures(Receiver::new, (name, port), r),
    ensures
        !(opening(r@, msg) is Prepare),
        !(opening(r@, msg) is Probe),
        !(opening(r@, msg) is Data),
        !(opening(r@, msg) is Unpaired),
        r@.name == name@,
        r@.port == port,
{
}

/// A request is answered by what the receiver knew before it, and only an accepted
/// farewell changes that.
pub proof fn lemma_opened(r: &mut Receiver, msg: ControlMsg, o: Opening)
    requires
        call_ensures(Receiver::open, (r, msg), o),
    ensures
        o@ == opening(old(r)@, msg@),
        !(o@ is Unpaired) ==> final(r)@ == old(r)@,
        o@ is Unpaired ==> final(r)@.accepted == Set::<Seq<char>>::empty() && final(r)@.active
            == old(r)@.active,
{
}

/// A device that was paired may send from then on, and hears its tokens; one that was
/// declined may do no more than before, and hears that.
pub proof fn lemma_pair_settled(
    r: &mut Receiver,
    peer_name: String,
    peer_ip: Option<IpAddr>,
    listen_port: u16,
    tokens: Option<(String, String)>,
    told: (ControlMsg, Option<Event>),
    token: Seq<char>,
    sender_name: Seq<char>,
    chunk_size: u64,
    files: Seq<EntryView>,
)
    requires
        call_ensures(
            Receiver::settle_pair,
            (r, peer_name, peer_ip, listen_port, tokens),
            told,
        ),
        1 <= chunk_size <= 33554432,
    ensures
        tokens is None ==> final(r)@ == old(r)@ && told.0@ is PairReject && told.1 is None,
        tokens matches Some(t) ==> {
            &&& final(r)@.accepted.contains(token) <==> token == t.0@ || old(r)@.accepted.contains(
                token,
            )
            &&& final(r)@.active == old(r)@.active
            &&& told.0@ == (MsgView::PairAccept {
                token_for_requester: t.0@,
                token_for_accepter: t.1@,
            })
            &&& old(r)@.active is None ==> opening(
                final(r)@,
                MsgView::Hello {
                    version: 1,
                    sender_name,
                    pair_token: t.0@,
                    chunk_size,
                    files,
                },
            ) == (OpeningView::Prepare { sender_name, chunk_size, files })
            &&& told.1 is Some
        },
{
}

/// While a transfer runs no other is let in, and its streams are; when it has ended,
/// they are not, and the next one is.
pub proof fn lemma_session_started(
    r: &mut Receiver,
    session: Session,
    sender_name: String,
    told: (ControlMsg, Event),
    msg: MsgView,
)
    requires
        call_ensures(Receiver::start_session, (r, &session, sender_name), told),
    ensures
        !(opening(final(r)@, msg) is Prepare),
        opening(final(r)@, MsgView::DataAuth { token: session.token@ }) is Data,
        final(r)@.accepted == old(r)@.accepted,
        told.0@ matches MsgView::Accept { receiver_name, token, .. } && receiver_name
            == old(r)@.name && token == session.token@,
        told.1@ matches EventView::SessionStarted { sender, total_bytes, resumed_bytes, .. }
            && sender == sender_name@ && total_bytes == session.total_bytes && resumed_bytes
            == session.received_bytes,
{
}

/// When a transfer has ended no stream is let in any more. It is told of exactly when
/// it broke off.
pub proof fn lemma_session_ended(
    r: &mut Receiver,
    broke_off: bool,
    told: Option<Event>,
    token: Seq<char>,
)
    requires
        call_ensures(Receiver::end_session, (r, broke_off), told),
    ensures
        !(opening(final(r)@, MsgView::DataAuth { token }) is Data),
        final(r)@.active is None,
        final(r)@.accepted == old(r)@.accepted,
        told is Some <==> broke_off,
        told matches Some(e) ==> (e@ matches EventView::SessionEnded { ok, .. } && !ok),
{
}

/// A token that is registered is accepted from then on, beside those that were.
pub proof fn lemma_registered(r: &mut Receiver, token: String, other: Seq<char>)
    requires
        call_ensures(Receiver::register, (r, token), ()),
    ensures
        final(r)@.accepted.contains(other) <==> other == token@ || old(r)@.accepted.contains(other),
        final(r)@.active == old(r)@.active,
        final(r)@.name == old(r)@.name,
{
}

/// When all tokens are forgotten none is accepted, and a running transfer goes on.
pub proof fn lemma_all_forgotten(r: &mut Receiver, token: Seq<char>)
    requires
        call_ensures(Receiver::forget_all, (r,), ()),
    ensures
        !final(r)@.accepted.contains(token),
        final(r)@.active == old(r)@.active,
{
}

/// A set of tokens holds what was put in and not taken out.
pub proof fn lemma_token_inserted(set: &mut TokenSet, token: String, new: bool, other: Seq<char>)
    requires
        call_ensures(TokenSet::insert, (set, token), new),
    ensures
        final(set)@.contains(other) <==> other == token@ || old(set)@.contains(other),
        new <==> !old(set)@.contains(token@),
{
}

/// A token that is taken out is gone, and the others stay.
pub proof fn lemma_token_removed(set: &mut TokenSet, token: &str, there: bool, other: Seq<char>)
    requires
        call_ensures(TokenSet::remove, (set, token), there),
    ensures
        final(set)@.contains(other) <==> other != token@ && old(set)@.contains(other),
        there <==> old(set)@.contains(token@),
{
}

// ---- the sender ----

/// A stream takes one chunk, the next in line, and it is no longer waiting.
pub proof fn lemma_taken(o: &mut Outbox, r: Option<Task>)
    requires
        call_ensures(Outbox::take, (o,), r),
    ensures
        r is None <==> old(o).queue@.len() == 0,
        r matches Some(t) ==> t.job == old(o).queue@.last() && final(o).queue@
            == old(o).queue@.drop_last() && t.offset == t.job.chunk_idx * 4194304 && t.offset
            + t.len <= old(o).sizes@[t.job.file_idx as int],
        final(o).sent_bytes == old(o).sent_bytes,
        final(o).total_pending == old(o).total_pending,
{
}

/// What becomes of a chunk: one that was taken counts and does not wait again; one
/// that was not waits again, tried once more, until it was tried three times. A
/// connection that broke ends its stream; a chunk that was refused ends it only the
/// third time.
pub proof fn lemma_settled(o: &mut Outbox, task: Task, outcome: ChunkOutcome, step: StreamStep)
    requires
        call_ensures(Outbox::settle, (o, task, outcome), step),
        old(o).sent_bytes + task.len <= u64::MAX,
        task.job.attempts < 3,
    ensures
        outcome is Taken ==> final(o).queue@ == old(o).queue@ && final(o).sent_bytes
            == old(o).sent_bytes + task.len && step == (StreamStep::Progress {
            done: final(o).sent_bytes,
            total: old(o).total_pending,
        }),
        !(outcome is Taken) ==> final(o).sent_bytes == old(o).sent_bytes,
        !(outcome is Taken) && task.job.attempts == 2 ==> final(o).queue@ == old(o).queue@,
        !(outcome is Taken) && task.job.attempts < 2 ==> final(o).queue@.len()
            == old(o).queue@.len() + 1 && final(o).queue@.drop_last() == old(o).queue@
            && final(o).queue@.last().file_idx == task.job.file_idx
            && final(o).queue@.last().chunk_idx == task.job.chunk_idx
            && final(o).queue@.last().attempts == task.job.attempts + 1,
        outcome is Refused ==> (step is Continue <==> task.job.attempts < 2) && (step is Stop
            <==> task.job.attempts == 2),
        outcome matches ChunkOutcome::Broken(why) ==> step == StreamStep::Stop(why),
{
    if !(outcome is Taken) && task.job.attempts < 2 {
        assert(final(o).queue@.drop_last() =~= old(o).queue@);
    }
}

/// A chunk that is put back waits next, tried once more; after the third time it is
/// given up.
pub proof fn lemma_requeued(o: &mut Outbox, job: Job, why: &str, r: Result<(), String>)
    requires
        call_ensures(Outbox::requeue, (o, job, why), r),
        job.attempts < 3,
    ensures
        r is Ok <==> job.attempts < 2,
        r is Ok ==> final(o).queue@.len() == old(o).queue@.len() + 1
            && final(o).queue@.last().file_idx == job.file_idx && final(o).queue@.last().chunk_idx
            == job.chunk_idx && final(o).queue@.last().attempts == job.attempts + 1,
        r is Err ==> final(o).queue@ == old(o).queue@,
        final(o).sent_bytes == old(o).sent_bytes,
{
}

/// A report is heard of one file, and the last message ends them.
pub proof fn lemma_report_heard(
    list: &mut Vec<FileResult>,
    msg: ControlMsg,
    last: bool,
    i: int,
)
    requires
        call_ensures(on_report, (list, msg), last),
        0 <= i < results(old(list)@).len(),
    ensures
        last <==> msg@ is AllDone,
        results(final(list)@).len() == results(old(list)@).len(),
        results(final(list)@)[i].rel_path == results(old(list)@)[i].rel_path,
        msg@ matches MsgView::FileDone { file_idx, ok, message } ==> (if file_idx == i {
            results(final(list)@)[i].ok == ok && results(final(list)@)[i].message == message
        } else {
            results(final(list)@)[i] == results(old(list)@)[i]
        }),
{
}

// ---- the manifest ----

/// A file is added exactly when no file of its name is there.
pub proof fn lemma_pushed_unique<S>(
    out: &mut Vec<(FileEntry, S)>,
    rel_path: String,
    size: u64,
    source: S,
    r: Result<(), String>,
)
    requires
        call_ensures(push_unique::<S>, (out, rel_path, size, source), r),
    ensures
        r is Err <==> exists|i: int|
            0 <= i < old(out)@.len() && (#[trigger] old(out)@[i]).0.rel_path@ == rel_path@,
        r is Ok ==> final(out)@ == old(out)@.push((FileEntry { rel_path, size }, source)),
        r is Err ==> final(out)@ == old(out)@ && r == Err::<(), String>(rel_path),
{
}

/// A path that is added is spelled out under its own name.
pub proof fn lemma_added<S>(w: &mut Walk<S>, name: String, kind: Kind, source: S)
    requires
        call_ensures(Walk::<S>::add, (w, name, kind, source), ()),
    ensures
        final(w).stack@.last() == (Pending { rel: name, kind, source }),
        final(w).stack@.drop_last() == old(w).stack@,
        final(w).out == old(w).out,
{
    assert(final(w).stack@.drop_last() =~= old(w).stack@);
}

/// Each step takes what waits last: a file is listed with its name, size and source, a
/// folder is to be read, and anything else is passed over.
pub proof fn lemma_stepped<S>(w: &mut Walk<S>, step: WalkStep<S>, p: Pending<S>)
    requires
        call_ensures(Walk::<S>::next, (w,), step),
        old(w).stack@.len() > 0,
        p == old(w).stack@.last(),
    ensures
        final(w).stack@ == old(w).stack@.drop_last(),
        p.kind is Folder <==> step is Read,
        step matches WalkStep::Read { rel, source } ==> rel == p.rel && source == p.source,
        p.kind is Other ==> step is Went && final(w).out@ == old(w).out@,
        p.kind matches Kind::File { size } ==> (if exists|i: int|
            0 <= i < old(w).out@.len() && (#[trigger] old(w).out@[i]).0.rel_path@ == p.rel@ {
            step == WalkStep::<S>::Duplicate(p.rel) && final(w).out@ == old(w).out@
        } else {
            step is Went && final(w).out@ == old(w).out@.push(
                (FileEntry { rel_path: p.rel, size }, p.source),
            )
        }),
{
}

// ---- beacons ----

/// Of the numbers of interfaces each counts once, and zero never.
pub proof fn lemma_first_time(done: &mut Vec<u32>, index: u32, r: bool)
    requires
        call_ensures(first_time, (done, index), r),
    ensures
        r <==> index != 0 && !old(done)@.contains(index),
        r ==> final(done)@ == old(done)@.push(index),
        !r ==> final(done)@ == old(done)@,
{
}

// ---- the screens ----

/// A device that starts is connected to none, shows nothing, and calls by itself.
pub proof fn lemma_new_app(name: String, port: u16, r: App, now: u128)
    requires
        call_ensures(App::new, (name, port), r),
    ensures
        may_call(r@, now),
        r@.my_name == name@,
        r@.listen_port == port,
        r@.recv_log.len() == 0,
        r@.picked.len() == 0,
        r@.peers.len() == 0,
        r@.recv_progress is None,
        r@.last_received is None,
        r@.send_state is Idle,
        r@.speed is Unknown,
        r@.pair_error is None,
        r@.disco_error is None,
        !r@.searching,
{
}

/// A prompt is shown, and nothing else of the screen changes; an error is logged.
pub proof fn lemma_received_message(a: &mut App, msg: RecvMsg, now: u128, probe: bool)
    requires
        call_ensures(App::handle_recv_msg, (a, msg, now), probe),
    ensures
        msg matches RecvMsg::PairPrompt { name, code } ==> final(a)@ == (AppView {
            incoming: Some((name@, code@)),
            ..old(a)@
        }),
        msg is Fatal ==> final(a)@ == (AppView {
            recv_log: final(a)@.recv_log,
            ..old(a)@
        }),
        !(msg is Event) ==> !probe,
{
}

/// What was found replaces what was known; an error is told and what was known stays.
/// Either way the search is over.
pub proof fn lemma_discovered(a: &mut App, found: Result<Vec<Peer>, String>, now: u128)
    requires
        call_ensures(App::on_discovery, (a, found, now), ()),
    ensures
        !final(a)@.searching,
        final(a)@.last_disco == Some(now),
        found matches Ok(list) ==> final(a)@.peers == crate::discovery::peer_views(list@)
            && final(a)@.disco_error is None,
        found matches Err(e) ==> final(a)@.peers == old(a)@.peers && final(a)@.disco_error == Some(
            e@,
        ),
        final(a)@ == (AppView {
            searching: false,
            last_disco: Some(now),
            peers: final(a)@.peers,
            disco_error: final(a)@.disco_error,
            ..old(a)@
        }),
{
}

/// The end of pairing: who was given up on is not connected to, whatever the answer.
/// Otherwise the device is connected to the one that it asked, at the address that it
/// asked, with the token that it was given; or it is told what went wrong.
pub proof fn lemma_pair_result(a: &mut App, result: Result<PairResult, String>, r: PairStep)
    requires
        call_ensures(App::on_pair_result, (a, result), r),
        old(a).outgoing is Some,
    ensures
        final(a)@.outgoing is None,
        old(a)@.outgoing->0.was_cancelled ==> r is Dropped && final(a)@.paired == old(a)@.paired
            && final(a)@.pair_error == old(a)@.pair_error,
        !old(a)@.outgoing->0.was_cancelled ==> match result {
            Ok(p) => {
                &&& final(a)@.paired matches Some(q) && q.name == p.peer_name@ && q.addr
                    == old(a)@.outgoing->0.addr && q.token == p.send_token@
                &&& final(a)@.pair_error is None
                &&& final(a)@.speed is Testing
                &&& r matches PairStep::Register(t) && t@ == p.their_send_token@
            },
            Err(e) => {
                &&& final(a)@.paired == old(a)@.paired
                &&& final(a)@.pair_error == Some(e@)
                &&& r is Failed
            },
        },
        final(a)@.picked == old(a)@.picked,
        final(a)@.auto_connect == old(a)@.auto_connect,
{
}

/// A speed is shown once it is measured, and else that it could not be.
pub proof fn lemma_speed_shown(a: &mut App, shown: Option<String>)
    requires
        call_ensures(App::on_speed, (a, shown), ()),
    ensures
        shown matches Some(s) ==> final(a)@.speed == SpeedView::Done(s@),
        shown is None ==> final(a)@.speed is Failed,
        final(a)@ == (AppView { speed: final(a)@.speed, ..old(a)@ }),
{
}

/// The end of sending is shown with its lines; an error is never a success.
pub proof fn lemma_send_failed(a: &mut App, why: &str)
    requires
        call_ensures(App::on_send_error, (a, why), ()),
    ensures
        final(a)@.send_state matches SendView::Finished { ok, lines } && !ok && lines == seq![
            "✗ "@ + why@,
        ],
        final(a)@ == (AppView { send_state: final(a)@.send_state, ..old(a)@ }),
{
}

/// A report ends the sending and changes nothing else.
pub proof fn lemma_send_reported(a: &mut App, report: SendReport, elapsed: &str, rate: &str)
    requires
        call_ensures(App::on_sent, (a, &report, elapsed, rate), ()),
    ensures
        final(a)@.send_state is Finished,
        final(a)@ == (AppView { send_state: final(a)@.send_state, ..old(a)@ }),
        final(a)@.send_state matches SendView::Finished { lines, .. } && lines.len()
            > report.files@.len(),
{
}

/// A path is picked once, behind the others; folders are told by a slash.
pub proof fn lemma_path_added(
    a: &mut App,
    id: u64,
    name: String,
    is_dir: bool,
    bytes: Option<u64>,
)
    requires
        call_ensures(App::add_path, (a, id, name, is_dir, bytes), ()),
    ensures
        (exists|i: int| 0 <= i < old(a)@.picked.len() && (#[trigger] old(a)@.picked[i]).id == id)
            ==> final(a)@ == old(a)@,
        !(exists|i: int| 0 <= i < old(a)@.picked.len() && (#[trigger] old(a)@.picked[i]).id == id)
            ==> {
            &&& final(a)@.picked.len() == old(a)@.picked.len() + 1
            &&& final(a)@.picked.drop_last() == old(a)@.picked
            &&& final(a)@.picked.last().id == id
            &&& final(a)@.picked.last().bytes == bytes
            &&& is_dir ==> final(a)@.picked.last().label == name@ + "/"@
            &&& !is_dir ==> final(a)@.picked.last().label == name@
        },
{
    crate::laws::screens::lemma_picked(old(a)@.picked, id);
    if !(exists|i: int| 0 <= i < old(a)@.picked.len() && (#[trigger] old(a)@.picked[i]).id == id) {
        assert(final(a)@.picked.drop_last() =~= old(a)@.picked);
    }
}

/// A path that is taken away is the one that was meant, and the others keep their
/// order.
pub proof fn lemma_path_removed(a: &mut App, i: usize, k: int)
    requires
        call_ensures(App::remove_path, (a, i), ()),
        i < old(a)@.picked.len(),
        0 <= k < old(a)@.picked.len(),
    ensures
        final(a)@.picked.len() == old(a)@.picked.len() - 1,
        k < i ==> final(a)@.picked[k] == old(a)@.picked[k],
        k > i ==> final(a)@.picked[k - 1] == old(a)@.picked[k],
{
}

/// Sending starts exactly while a device is connected, to that device, with the
/// streams that suit the link.
pub proof fn lemma_send_started(
    a: &mut App,
    best: Option<LinkKind>,
    r: Option<(PairedPeer, u32)>,
)
    requires
        call_ensures(App::start_send, (a, best), r),
    ensures
        r is Some <==> old(a).paired is Some,
        r is Some ==> final(a)@.send_state is Running,
        r matches Some(t) ==> Some(t.0) == old(a).paired,
        r matches Some(t) ==> (best is None ==> t.1 == 4) && (best is Some ==> t.1 == streams_for(
            best->0,
        )),
        r is None ==> final(a)@ == old(a)@,
{
}

/// A device calls by itself only when it may, and then the one on the best cable, and
/// only where it is its turn; it is then asking that one. Otherwise nothing changes.
pub proof fn lemma_called_by_itself(
    a: &mut App,
    heard: Vec<Heard>,
    links: Vec<Link>,
    ifs: Vec<Interface>,
    now: u128,
    r: Option<SocketAddr>,
)
    requires
        call_ensures(App::maybe_auto_connect, (a, &heard, &links, &ifs, now), r),
    ensures
        r is None ==> final(a)@ == old(a)@,
        r matches Some(addr) ==> {
            let c = crate::screen::devices::cable_peer(
                heard@,
                links@,
                ifs@,
                old(a)@.listen_port,
            );
            &&& may_call(old(a)@, now)
            &&& c is Some
            &&& addr == heard@[(c->0).0].peer.addr
            &&& crate::screen::devices::initiates(
                old(a)@.my_name,
                heard@[(c->0).0].peer.name@,
            )
            &&& final(a)@.outgoing matches Some(o) && o.addr == addr
            &&& final(a)@.last_auto == Some(now)
        },
{
}

/// A device looks for others exactly while it is not connected, not asking and not
/// looking already, and four seconds have gone by since it last did.
pub proof fn lemma_searched(a: &mut App, now: u128, r: bool, last: u128)
    requires
        call_ensures(App::maybe_discover, (a, now), r),
    ensures
        old(a)@.last_disco is None ==> (r <==> old(a)@.paired is None && old(a)@.outgoing is None
            && !old(a)@.searching),
        old(a)@.last_disco == Some(last) ==> (r <==> old(a)@.paired is None && old(a)@.outgoing
            is None && !old(a)@.searching && last + 4000000000 < now),
        final(a)@.searching <==> old(a)@.searching || r,
        final(a)@ == (AppView { searching: final(a)@.searching, ..old(a)@ }),
{
}

/// Who disconnects tells the other, with the token that it was given, exactly where
/// there is one; and does not call again by itself.
pub proof fn lemma_left(a: &mut App, r: Option<(SocketAddr, String)>, now: u128)
    requires
        call_ensures(App::disconnect, (a,), r),
    ensures
        r is Some <==> old(a)@.paired is Some,
        r matches Some(t) ==> t.0 == old(a)@.paired->0.addr && t.1@ == old(a)@.paired->0.token,
        final(a)@.paired is None,
        !may_call(final(a)@, now),
{
}

/// The code is shown with the device that is being asked, where one is.
pub proof fn lemma_code_shown(a: &mut App, code: String)
    requires
        call_ensures(App::on_code, (a, code), ()),
    ensures
        old(a)@.outgoing is None ==> final(a)@ == old(a)@,
        old(a)@.outgoing matches Some(o) ==> (final(a)@.outgoing matches Some(n) && n.code == Some(
            code@,
        ) && n.peer_label == o.peer_label && n.addr == o.addr && n.was_cancelled
            == o.was_cancelled),
{
}

/// Who gives up asking is asking no one, and waits before it calls again by itself.
pub proof fn lemma_gave_up(a: &mut App, now: u128, later: u128)
    requires
        call_ensures(App::cancel_pair, (a, now), ()),
        later < now + 10000000000,
    ensures
        final(a)@.outgoing is None,
        !may_call(final(a)@, later),
        final(a)@.paired == old(a)@.paired,
{
}

/// Who connects by hand is asking that device, and may call by itself again.
pub proof fn lemma_connected_by_hand(a: &mut App, addr: SocketAddr, label: String)
    requires
        call_ensures(App::connect_to, (a, addr, label), ()),
    ensures
        final(a)@.auto_connect,
        final(a)@.outgoing matches Some(o) && o.addr == addr && o.peer_label == label@ && o.code
            is None && !o.was_cancelled,
        final(a)@.paired == old(a)@.paired,
{
}

/// A folder is sized entry by entry, and given up behind the 50000th.
pub proof fn lemma_visited(s: &mut FolderSize, bytes: Option<u64>, r: bool)
    requires
        call_ensures(FolderSize::visit, (s, bytes), r),
        bytes matches Some(n) ==> old(s).total + n <= u64::MAX,
    ensures
        final(s).visited == old(s).visited + 1,
        r <==> final(s).visited <= 50000,
        r && bytes is Some ==> final(s).total == old(s).total + bytes->0,
        !r || bytes is None ==> final(s).total == old(s).total,
{
}

} // verus!
