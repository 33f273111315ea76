//! What callers can rely on, call by call and from one call to the next.

use vstd::prelude::*;

use crate::cli::{
    accepts, choose_receiver, choose_streams, first_receiver, has_port, is_port, listen_time,
    with_default_port, Choice, Found,
};
use crate::config::{load, Config};
use crate::digest::blake3_digest;
use crate::discovery::{broadcast_targets, Broadcast, Peer};
use crate::laws::basics::is_blank;
use crate::link::linux::{classify, Probed};
use crate::link::macos::{bus_cable, fastest, mac_usb_device_present, Bus};
use crate::link::{
    best_link, best_of, detect_links, generic_detect, grouped, leaves, link_views, of_kind,
    opt_cable, streams_for, CableInfo, Link, LinkKind, Speed,
};
use crate::net::{
    canonical, connect_cable_aware, owns_peer, wire_sources, ConnectPlan, IfAddr, Interface, IpAddr,
    SocketAddr,
};
use crate::order::{
    lemma_sorted_same_values, lemma_stable_sorted, lemma_with_key_is_filter, lex_le, stable_sorted,
    with_key, Keyed,
};
use crate::pair::{
    code_of, on_challenge, on_pair_answer, pair_request, unpair, PairError, PairResult,
};
use crate::protocol::{
    entries, read_msg_len, write_msg, ControlMsg, FileEntry, FrameTooLarge, MsgView,
};
use crate::screen::devices::Tone;
use crate::screen::show::{link_banner, typed_address, Banner};
use crate::text::{dec, has_part, has_prefix, joined, lossy_text};
use crate::transfer::manifest::{manifest_bytes, manifest_size, Walk};
use crate::transfer::paths::{candidate, part_of, RelPath};
use crate::transfer::receiver::{
    chunk_ack, data_step, opening, pair_consent, DataStep, OpeningView, Receiver, ReceiverView,
};
use crate::transfer::sender::{
    all_reported, chunk_header, data_auth, hello, on_auth_reply, on_chunk_reply, on_hello_reply,
    reported, stream_count, Accepted, Job, Outbox, ResultView, SendError,
};
use crate::transfer::session::{
    end_of, first_bitmap, msgs, place_file, plan_file, report_of, resumable, ChunkStep, FileState,
    PartMeta, Session,
};
use crate::transfer::speed::{on_probe_reply, probe_request, ProbeError};
use crate::util::{bit, hex, hex_decode, hex_encode, HexError};

verus! {

// ---- chunks ----

/// A chunk is acknowledged without a write exactly when it is below the count and
/// marked; one that is not marked and whose digest is not the announced one is
/// refused.
pub proof fn lemma_judged(
    f: FileState,
    chunk_size: u64,
    idx: u64,
    digest_hex: &str,
    announced: &str,
    r: ChunkStep,
)
    requires
        call_ensures(FileState::judge_chunk, (&f, chunk_size, idx, digest_hex, announced), r),
    ensures
        r == ChunkStep::Ack(true) <==> idx < f.total_chunks && bit(f.prog.bitmap@, idx as int),
        !bit(f.prog.bitmap@, idx as int) && digest_hex@ != announced@ ==> r == ChunkStep::Ack(
            false,
        ),
        r matches ChunkStep::Write { offset } ==> offset == idx * chunk_size,
{
}

/// The same of a payload: it is judged by its own digest.
pub proof fn lemma_received(
    f: FileState,
    chunk_size: u64,
    idx: u64,
    payload: &[u8],
    announced: &str,
    r: ChunkStep,
)
    requires
        call_ensures(FileState::receive_chunk, (&f, chunk_size, idx, payload, announced), r),
    ensures
        ({
            let marked = idx < f.total_chunks && bit(f.prog.bitmap@, idx as int);
            let sound = hex(blake3_digest(payload@)) == announced@;
            &&& r == ChunkStep::Ack(true) <==> marked
            &&& r is Write <==> idx < f.total_chunks && !marked && sound && f.prog.open
            &&& !marked && !sound ==> r == ChunkStep::Ack(false)
        }),
{
}

/// In a session a chunk is judged by the file that it names, and one that names no
/// file is refused.
pub proof fn lemma_received_in_session(
    s: Session,
    file_idx: u32,
    chunk_idx: u64,
    payload: &[u8],
    announced: &str,
    r: ChunkStep,
)
    requires
        call_ensures(Session::receive_chunk, (&s, file_idx, chunk_idx, payload, announced), r),
    ensures
        ({
            let f = s.files@[file_idx as int];
            let known = file_idx < s.files@.len() && chunk_idx < f.total_chunks;
            let marked = known && bit(f.prog.bitmap@, chunk_idx as int);
            let sound = hex(blake3_digest(payload@)) == announced@;
            &&& r == ChunkStep::Ack(true) <==> marked
            &&& r is Write <==> known && !marked && sound && f.prog.open
            &&& !marked && !(known && sound && f.prog.open) ==> r == ChunkStep::Ack(false)
        }),
{
}

/// What a sender sends is taken: the header that it writes for a payload is read as it
/// was written, and the payload that came with it is stored in a file that is open and
/// lacks it.
pub proof fn lemma_sent_chunk_is_taken(
    job: Job,
    payload: &[u8],
    header: ControlMsg,
    step: DataStep,
    f: FileState,
    chunk_size: u64,
)
    requires
        payload@.len() <= 33554432,
        call_ensures(chunk_header, (job, payload), header),
        call_ensures(data_step, (header,), step),
    ensures
        step matches DataStep::Payload { file_idx, chunk_idx, len, hash_hex } && file_idx
            == job.file_idx && chunk_idx == job.chunk_idx && len == payload@.len() && hash_hex@
            == hex(blake3_digest(payload@)),
        f.prog.open && job.chunk_idx < f.total_chunks && !bit(
            f.prog.bitmap@,
            job.chunk_idx as int,
        ) ==> crate::transfer::session::verdict(
            f,
            chunk_size,
            job.chunk_idx,
            hex(blake3_digest(payload@)),
            step->hash_hex@,
        ) is Write,
{
}

/// Of the messages on a data stream only headers are followed by a payload, and only
/// where that has at most 32 MiB.
pub proof fn lemma_data_stream(msg: ControlMsg, step: DataStep)
    requires
        call_ensures(data_step, (msg,), step),
    ensures
        step is Close <==> !(msg@ is ChunkHeader),
        step is TooLarge <==> (msg@ matches MsgView::ChunkHeader { len, .. } && len > 33554432),
        step is Payload <==> (msg@ matches MsgView::ChunkHeader { len, .. } && len <= 33554432),
{
}

/// The sender hears what became of its chunk: yes exactly when it was there already
/// or has been stored.
pub proof fn lemma_ack_is_heard(
    file_idx: u32,
    chunk_idx: u64,
    step: ChunkStep,
    stored: bool,
    ack: ControlMsg,
    r: Result<bool, ControlMsg>,
)
    requires
        call_ensures(chunk_ack, (file_idx, chunk_idx, step, stored), ack),
        call_ensures(on_chunk_reply, (ack,), r),
    ensures
        r matches Ok(heard) && (heard <==> step == ChunkStep::Ack(true) || (step is Write
            && stored)),
{
}

/// Only an acknowledgement is taken for an answer to a chunk, and only a yes for an
/// answer to a token.
pub proof fn lemma_answers_on_a_stream(
    reply: ControlMsg,
    chunk: Result<bool, ControlMsg>,
    auth: Result<(), ControlMsg>,
)
    requires
        call_ensures(on_chunk_reply, (reply,), chunk),
        call_ensures(on_auth_reply, (reply,), auth),
    ensures
        chunk is Ok <==> reply@ is ChunkAck,
        reply@ matches MsgView::ChunkAck { ok, .. } ==> (chunk matches Ok(heard) && heard == ok),
        auth is Ok <==> reply@ is DataAuthOk,
{
}

// ---- where a file goes ----

/// A file goes where nothing is, unless it is resumed: without a record of it, the
/// path that is chosen is one at which nothing was found, whatever its depth. The one
/// exception is a name whose 9999 numbers are all blocked.
pub proof fn lemma_planned<F: Fn(&RelPath) -> bool>(
    entry: FileEntry,
    rel: RelPath,
    chunk_size: u64,
    meta: Option<PartMeta>,
    taken: F,
    r: FileState,
)
    requires
        call_ensures(plan_file::<F>, (&entry, rel, chunk_size, meta, &taken), r),
        meta is None || meta->0.size != entry.size || meta->0.chunk_size != chunk_size || !(exists|
            p: RelPath,
        |
            p@ == part_of(rel@) && #[trigger] call_ensures(taken, (&p,), true)),
    ensures
        (exists|p: RelPath| p@ == r.final_path@ && #[trigger] call_ensures(taken, (&p,), false))
            || (r.final_path@ == rel@ && (exists|p: RelPath|
            p@ == rel@ && #[trigger] call_ensures(taken, (&p,), true)) && forall|n: nat|
            1 <= n <= 9999 ==> exists|p: RelPath|
                (p@ == #[trigger] candidate(rel@, n) || p@ == part_of(candidate(rel@, n)))
                    && #[trigger] call_ensures(taken, (&p,), true)),
        !(exists|p: RelPath| p@ == rel@ && #[trigger] call_ensures(taken, (&p,), true))
            ==> r.final_path@ == rel@,
        entry.size > 0 ==> forall|c: int| !bit(r.prog.bitmap@, c),
{
    crate::laws::transfer::lemma_nothing_is_overwritten(taken, rel@, r.final_path@);
    crate::laws::transfer::lemma_blank(r.total_chunks as int);
}

/// A record is used exactly when it is of a file of this size and this chunk size and
/// the incomplete file is there.
pub proof fn lemma_resumable(
    meta: Option<PartMeta>,
    size: u64,
    chunk_size: u64,
    part_there: bool,
    r: Option<PartMeta>,
)
    requires
        call_ensures(resumable, (meta, size, chunk_size, part_there), r),
    ensures
        r is Some <==> meta is Some && meta->0.size == size && meta->0.chunk_size == chunk_size
            && part_there,
        r is Some ==> r == meta,
{
}

// ---- transfers ----

/// The request of a sender is let in wherever its token is accepted and no transfer
/// runs, with its name, its files and chunks of 4 MiB.
pub proof fn lemma_hello_is_let_in(
    sender_name: String,
    pair_token: String,
    files: Vec<FileEntry>,
    msg: ControlMsg,
    receiver: ReceiverView,
)
    requires
        call_ensures(hello, (sender_name, pair_token, files), msg),
        receiver.accepted.contains(pair_token@),
        receiver.active is None,
    ensures
        opening(receiver, msg@) == (OpeningView::Prepare {
            sender_name: sender_name@,
            chunk_size: 4194304,
            files: entries(files@),
        }),
{
}

/// A sender goes on exactly when it is accepted, with the receiver's token and what
/// the receiver has, and otherwise hears the reason.
pub proof fn lemma_hello_reply(reply: ControlMsg, r: Result<Accepted, SendError>)
    requires
        call_ensures(on_hello_reply, (reply,), r),
    ensures
        r is Ok <==> reply@ is Accept,
        reply@ matches MsgView::Accept { receiver_name, token, resume } ==> (r matches Ok(a)
            && a.receiver_name@ == receiver_name && a.token@ == token && crate::protocol::resumes(
            a.resume@,
        ) == resume),
        r matches Err(SendError::Rejected(why)) ==> reply@ == (MsgView::Reject { reason: why@ }),
{
}

/// A stream is let in exactly with the token of the running transfer.
pub proof fn lemma_stream_is_let_in(token: String, msg: ControlMsg, receiver: ReceiverView)
    requires
        call_ensures(data_auth, (token,), msg),
    ensures
        opening(receiver, msg@) is Data <==> receiver.active == Some(token@),
{
}

/// A probe is let in exactly with an accepted token, and is one of 32 MiB.
pub proof fn lemma_probe_is_let_in(token: String, msg: ControlMsg, receiver: ReceiverView)
    requires
        call_ensures(probe_request, (token,), msg),
    ensures
        opening(receiver, msg@) == (OpeningView::Probe { len: 33554432 })
            <==> receiver.accepted.contains(token@),
{
}

/// A probe starts exactly when it is let in.
pub proof fn lemma_probe_reply(reply: ControlMsg, r: Result<(), ProbeError>)
    requires
        call_ensures(on_probe_reply, (reply,), r),
    ensures
        r is Ok <==> reply@ is SpeedProbeOk,
        r matches Err(ProbeError::Rejected(why)) ==> reply@ == (MsgView::Reject { reason: why@ }),
{
}

proof fn lemma_reported_so_far(list: Seq<ResultView>, reports: Seq<MsgView>, n: int)
    requires
        0 <= n <= reports.len() <= list.len(),
        forall|i: int|
            0 <= i < reports.len() ==> (#[trigger] reports[i] matches MsgView::FileDone {
                file_idx,
                ..
            } && file_idx == i),
    ensures
        all_reported(list, reports.take(n)).len() == list.len(),
        forall|i: int|
            0 <= i < n ==> (#[trigger] reports[i] matches MsgView::FileDone { ok, message, .. }
                && all_reported(list, reports.take(n))[i].ok == ok && all_reported(
                list,
                reports.take(n),
            )[i].message == message),
        forall|i: int|
            0 <= i < list.len() ==> (#[trigger] all_reported(list, reports.take(n))[i]).rel_path
                == list[i].rel_path,
    decreases n,
{
    if n > 0 {
        lemma_reported_so_far(list, reports, n - 1);
        assert(reports.take(n).drop_last() =~= reports.take(n - 1));
        assert(reports.take(n).last() == reports[n - 1]);
    } else {
        assert(reports.take(0) =~= Seq::empty());
    }
}

/// At the end the sender knows of each file what the receiver knows: that it went well
/// exactly when the receiver has it under its final name. The receiver itself says
/// that all went well exactly when all of them have.
pub proof fn lemma_end_is_told(
    s: Session,
    end: (Vec<ControlMsg>, crate::transfer::events::Event),
    list: Seq<ResultView>,
    i: int,
)
    requires
        call_ensures(Session::finish, (&s,), end),
        s.files@.len() == list.len() <= 0x1_0000_0000,
        0 <= i < list.len(),
    ensures
        all_reported(list, msgs(end.0@))[i].ok == s.files@[i].prog.finalized,
        all_reported(list, msgs(end.0@))[i].rel_path == list[i].rel_path,
        end.1@ == end_of(
            forall|k: int| 0 <= k < list.len() ==> (#[trigger] s.files@[k]).prog.finalized,
        ),
        msgs(end.0@).last() == MsgView::AllDone,
{
    let reports = Seq::new(s.files@.len(), |i: int| report_of(s.files@[i], i));
    let all = msgs(end.0@);
    assert(all.drop_last() =~= reports);
    assert(reports.take(reports.len() as int) =~= reports);
    lemma_reported_so_far(list, reports, reports.len() as int);
    assert(reports[i] == report_of(s.files@[i], i));
    assert(all.last() is AllDone);
    assert(all_reported(list, all) == reported(all_reported(list, reports), all.last()));
    assert((forall|k: int| 0 <= k < list.len() ==> (#[trigger] s.files@[k]).prog.finalized)
        == crate::transfer::session::all_finalized(s.files@));
}

/// At least one stream is used, and sixteen at most; within that as many as were asked
/// for.
pub proof fn lemma_stream_count(streams: u32, r: u32)
    requires
        call_ensures(stream_count, (streams,), r),
    ensures
        1 <= r <= 16,
        1 <= streams <= 16 ==> r == streams,
        streams == 0 ==> r == 1,
        streams > 16 ==> r == 16,
{
}

/// A manifest is counted exactly when its size fits.
pub proof fn lemma_manifest_size(files: Vec<FileEntry>, r: Option<u64>)
    requires
        call_ensures(manifest_size, (&files,), r),
    ensures
        r is Some <==> manifest_bytes(entries(files@)) <= 0xffff_ffff_ffff_ffff,
        r matches Some(n) ==> n == manifest_bytes(entries(files@)),
{
}

/// A selection with nothing to send is an error, and every other is sent as it is.
pub proof fn lemma_walk_finished<S>(w: Walk<S>, r: Result<Vec<(FileEntry, S)>, String>)
    requires
        call_ensures(Walk::<S>::finish, (w,), r),
    ensures
        r is Err <==> w.out@.len() == 0,
        r matches Ok(list) ==> list@ == w.out@,
{
}

/// A sender is done exactly when no chunk waits; otherwise it tells how many do.
pub proof fn lemma_drained(o: Outbox, r: Result<(), String>)
    requires
        call_ensures(Outbox::drained, (&o,), r),
    ensures
        r is Ok <==> o.queue@.len() == 0,
{
}

/// A new file has what its record says, and no more; an empty one is complete at once.
pub proof fn lemma_placed(
    entry: FileEntry,
    final_path: RelPath,
    chunk_size: u64,
    resume: Option<PartMeta>,
    r: FileState,
)
    requires
        call_ensures(place_file, (&entry, final_path, chunk_size, resume), r),
    ensures
        r.entry == entry,
        r.final_path == final_path,
        r.prog.finalized <==> entry.size == 0,
        r.prog.open <==> entry.size > 0,
        entry.size > 0 && resume is None ==> forall|c: int| !bit(r.prog.bitmap@, c),
        entry.size > 0 && resume is Some ==> r.prog.bitmap@ == first_bitmap(
            resume,
            r.total_chunks as int,
        ),
{
    crate::laws::transfer::lemma_blank(r.total_chunks as int);
}

// ---- pairing ----

/// Both devices show the same code: the one that asks computes it from the challenge
/// that the other sends, from the same two nonces in the same order.
pub proof fn lemma_codes_agree(
    receiver: Receiver,
    nonce: &str,
    their_nonce: &str,
    challenge: (ControlMsg, String),
    r: Result<(String, String), PairError>,
)
    requires
        call_ensures(Receiver::challenge, (&receiver, nonce, their_nonce), challenge),
        call_ensures(on_challenge, (nonce, challenge.0), r),
    ensures
        r matches Ok(p) && p.0@ == receiver@.name && p.1@ == challenge.1@ && p.1@ == code_of(
            nonce@,
            their_nonce@,
        ),
{
}

/// A request to pair is let in as it was asked.
pub proof fn lemma_pair_request_is_let_in(
    name: &str,
    nonce: &str,
    listen_port: u16,
    msg: ControlMsg,
    receiver: ReceiverView,
)
    requires
        call_ensures(pair_request, (name, nonce, listen_port), msg),
    ensures
        opening(receiver, msg@) == (OpeningView::Pair {
            name: name@,
            nonce_hex: nonce@,
            listen_port,
        }),
{
}

/// Pairing succeeds exactly when it is accepted: the token to send with is the one for
/// the device that asked, and the other is for the device that accepted. Silence is
/// told apart from a refusal.
pub proof fn lemma_pair_answer(
    peer_name: String,
    answer: Option<ControlMsg>,
    r: Result<PairResult, PairError>,
)
    requires
        call_ensures(on_pair_answer, (peer_name, answer), r),
    ensures
        r is Ok <==> answer is Some && answer->0@ is PairAccept,
        r matches Ok(p) ==> (answer->0@ matches MsgView::PairAccept {
            token_for_requester,
            token_for_accepter,
        } && p.peer_name@ == peer_name@ && p.send_token@ == token_for_requester
            && p.their_send_token@ == token_for_accepter),
        (r matches Err(PairError::NoAnswer)) <==> answer is None,
        (r matches Err(PairError::Declined(_))) <==> answer is Some && answer->0@ is PairReject,
{
}

/// A device that unpairs is heard exactly when its token is accepted.
pub proof fn lemma_unpair_is_heard(token: &str, msg: ControlMsg, receiver: ReceiverView)
    requires
        call_ensures(unpair, (token,), msg),
    ensures
        opening(receiver, msg@) is Unpaired <==> receiver.accepted.contains(token@),
{
}

/// A device on a cable is let in without asking; of every other one the user is asked,
/// and the answer counts.
pub proof fn lemma_asked<F: FnOnce(&str, &str) -> bool>(
    cable: bool,
    name: &str,
    code: &str,
    ask: F,
    r: bool,
)
    requires
        call_ensures(pair_consent::<F>, (cable, name, code, ask), r),
    ensures
        cable ==> r,
        !cable ==> call_ensures(ask, (name, code), r),
{
}

// ---- bytes ----

/// A frame is read back: its first four bytes say how long the rest is.
pub proof fn lemma_frame_is_read_back(
    body: Vec<u8>,
    frame: Vec<u8>,
    header: [u8; 4],
    r: Result<usize, FrameTooLarge>,
)
    requires
        body@.len() <= 33554432,
        call_ensures(write_msg, (&body,), frame),
        header@ == frame@.take(4),
        call_ensures(read_msg_len, (header,), r),
    ensures
        r matches Ok(n) && n == body@.len() && frame@.skip(4) == body@,
{
    crate::protocol::lemma_frame_round_trip(body@);
}

/// Bytes are read back from their hexadecimal text.
pub proof fn lemma_hex_is_read_back(
    bytes: &[u8],
    text: String,
    shown: &str,
    r: Result<Vec<u8>, HexError>,
)
    requires
        call_ensures(hex_encode, (bytes,), text),
        shown@ == text@,
        call_ensures(hex_decode, (shown,), r),
    ensures
        r matches Ok(v) && v@ == bytes@,
{
    crate::util::lemma_hex_round_trip(bytes@);
}

// ---- links and addresses ----

/// An interface with a `wireless` directory is never taken for Ethernet, whatever its
/// name; where it is neither the loopback, a tunnel nor Thunderbolt, it is Wi-Fi.
pub proof fn lemma_classified(
    name: &str,
    loopback: bool,
    driver: &str,
    wireless: bool,
    device: bool,
    r: LinkKind,
)
    requires
        call_ensures(classify, (name, loopback, driver, wireless, device), r),
    ensures
        wireless ==> r != LinkKind::Ethernet && r != LinkKind::Other,
        r != LinkKind::Loopback && r != LinkKind::Vpn && r != LinkKind::ThunderboltOrUsb4 ==> (r
            == LinkKind::WiFi <==> wireless) && (r == LinkKind::Ethernet <==> !wireless && device),
        r == LinkKind::ThunderboltOrUsb4 ==> has_part(driver@, "thunderbolt"@) || has_prefix(
            name@,
            "tb"@,
        ),
        r == LinkKind::Loopback <==> loopback,
{
}

/// A broadcast goes out from each address that has a broadcast address, to that, and
/// from no other.
pub proof fn lemma_broadcast_sent(ifs: Vec<Interface>, r: Vec<Broadcast>, from: u32, to: u32)
    requires
        call_ensures(broadcast_targets, (&ifs,), r),
    ensures
        r@.contains(Broadcast { from, to }) <==> exists|k: int|
            0 <= k < ifs@.len() && ((#[trigger] ifs@[k]).addr matches IfAddr::V4 {
                ip,
                broadcast,
                ..
            } && ip == from && broadcast == Some(to)),
{
    crate::laws::devices::lemma_broadcast_from_every_address(ifs@, from, to);
}

/// A call goes to the peer itself, and leaves by its wires: by the one that there is,
/// by all of them at once where there are several, and freely where there is none.
pub proof fn lemma_connect_plan(addr: SocketAddr, ifs: Vec<Interface>, r: ConnectPlan, peer: u32)
    requires
        call_ensures(connect_cable_aware, (addr, &ifs), r),
        canonical(addr).host() == IpAddr::V4(peer),
    ensures
        match r {
            ConnectPlan::Anywhere { addr: a } => a == canonical(addr) && forall|k: int|
                0 <= k < ifs@.len() ==> !owns_peer(#[trigger] ifs@[k], peer),
            ConnectPlan::From { source, addr: a } => a == canonical(addr) && wire_sources(
                ifs@,
                peer,
            ) == seq![source],
            ConnectPlan::Race { sources, addr: a } => a == canonical(addr) && sources@
                == wire_sources(ifs@, peer) && sources@.len() > 1,
        },
{
    let sources = wire_sources(ifs@, peer);
    if sources.len() == 0 {
        assert forall|k: int| 0 <= k < ifs@.len() implies !owns_peer(
            #[trigger] ifs@[k],
            peer,
        ) by {
            if owns_peer(ifs@[k], peer) {
                crate::laws::devices::lemma_every_wire_is_tried(ifs@, peer, k);
            }
        }
    } else if sources.len() == 1 {
        assert(sources =~= seq![sources[0]]);
    }
}

/// The banner tells the best cable that there is.
pub proof fn lemma_link_banner(links: Vec<Link>, r: Banner, k: int)
    requires
        call_ensures(link_banner, (&links,), r),
        0 <= k < links@.len(),
    ensures
        links@[k].kind == LinkKind::ThunderboltOrUsb4 ==> r.tone == Tone::Fast && r.text@
            == "Fast cable connected"@,
        links@[k].kind == LinkKind::UsbLink || links@[k].kind == LinkKind::Ethernet ==> r.tone
            != Tone::Wireless,
        r.tone == Tone::Fast ==> exists|j: int|
            0 <= j < links@.len() && (#[trigger] links@[j]).kind == LinkKind::ThunderboltOrUsb4,
        r.tone == Tone::Cable ==> exists|j: int|
            0 <= j < links@.len() && ((#[trigger] links@[j]).kind == LinkKind::UsbLink
                || links@[j].kind == LinkKind::Ethernet),
        r.tone == Tone::Cable ==> r.text@ == "Cable connected"@,
        r.tone == Tone::Wireless ==> r.text@ == "No cable — using Wi-Fi"@,
{
}

/// Links come out by rank, all that were found and no others, and links of one kind in
/// the order in which they were found.
pub proof fn lemma_links_sorted(found: Vec<Link>, r: Vec<Link>, i: int, j: int, kind: LinkKind)
    requires
        call_ensures(detect_links, (found,), r),
        0 <= i < j < r@.len(),
    ensures
        r@.to_multiset() == found@.to_multiset(),
        r@.len() == found@.len(),
        r@[i].kind.ranked() <= r@[j].kind.ranked(),
        r@.filter(of_kind(kind)) == found@.filter(of_kind(kind)),
{
    lemma_stable_sorted(found@);
    lemma_sorted_same_values(found@);
    crate::order::lemma_lex_single(r@[i].kind.ranked(), r@[j].kind.ranked());
    assert(lex_le(r@[i].key(), r@[j].key()));
    let k = seq![kind.ranked()];
    assert forall|l: Link| #[trigger] of_kind(kind)(l) == (l.key() == k) by {
        crate::laws::links::lemma_ranks(l.kind, kind);
        assert(l.key()[0] == l.kind.ranked());
        if l.kind == kind {
            assert(l.key() =~= k);
        } else {
            assert(k[0] == kind.ranked());
        }
    }
    assert(with_key(r@, k) == with_key(found@, k));
    lemma_with_key_is_filter(r@, k, of_kind(kind));
    lemma_with_key_is_filter(found@, k, of_kind(kind));
}

/// The best link is one of those that were found and is not the loopback, and none of
/// them but the loopback has a better rank; there is none exactly when there is only
/// the loopback.
pub proof fn lemma_best_link_found(found: Vec<Link>, r: Option<Link>, k: int)
    requires
        call_ensures(best_link, (found,), r),
        0 <= k < found@.len(),
    ensures
        r matches Some(l) ==> found@.contains(l) && l.kind != LinkKind::Loopback,
        found@[k].kind != LinkKind::Loopback ==> (r matches Some(l) && l.kind.ranked()
            <= found@[k].kind.ranked()),
{
    broadcast use vstd::seq_lib::group_to_multiset_ensures;

    let sorted = stable_sorted(found@);
    crate::laws::links::lemma_best_of(found@);
    lemma_sorted_same_values(found@);
    if found@[k].kind != LinkKind::Loopback {
        assert(leaves()(found@[k]));
        crate::link::lemma_best_link(found@, k);
    }
    if best_of(found@) is Some {
        let b = best_of(found@)->0;
        assert(sorted.contains(sorted[b]));
        assert(sorted.to_multiset().count(sorted[b]) > 0);
    }
}

/// On Linux each interface has one link, with its own name and addresses.
pub proof fn lemma_linux_links(
    found: Vec<Probed>,
    thunderbolt: Option<CableInfo>,
    r: Vec<Link>,
    i: int,
)
    requires
        call_ensures(crate::link::linux::detect, (found, &thunderbolt), r),
        0 <= i < found@.len(),
    ensures
        r@.len() == found@.len(),
        r@[i]@.interface == found@[i].iface@.name,
        r@[i]@.ips == found@[i].iface@.ips,
        r@[i]@.kind == LinkKind::WiFi ==> found@[i].sysfs.wireless,
        found@[i].sysfs.wireless ==> r@[i]@.kind != LinkKind::Ethernet,
        r@[i]@.kind == LinkKind::ThunderboltOrUsb4 ==> r@[i]@.cable == opt_cable(thunderbolt),
{
    assert(link_views(r@).len() == r@.len());
    assert(link_views(r@)[i] == r@[i]@);
}

/// Where nothing more is known, each interface still has one link.
pub proof fn lemma_plain_links(ifs: Vec<Interface>, r: Vec<Link>, i: int)
    requires
        call_ensures(generic_detect, (&ifs,), r),
        0 <= i < r@.len(),
    ensures
        r@.len() == grouped(ifs@).len(),
        r@[i]@.interface == grouped(ifs@)[i].name,
        r@[i]@.ips == grouped(ifs@)[i].ips,
        r@[i]@.kind == LinkKind::Loopback <==> grouped(ifs@)[i].loopback,
        r@[i]@.cable is None,
{
    assert(link_views(r@).len() == r@.len());
    assert(link_views(r@)[i] == r@[i]@);
}

/// The cable of a bus has the fastest of its speeds, and details exactly when
/// something is plugged in.
pub proof fn lemma_bus_cable(bus: Bus, speeds: Vec<Speed>, r: CableInfo)
    requires
        call_ensures(bus_cable, (&bus, &speeds), r),
    ensures
        r@.is_usb4 == bus@.is_usb4,
        r@.generation == bus@.generation,
        r@.max_speed_gbps == fastest(speeds@),
        r@.detail is Some <==> bus.devices@.len() > 0,
        r@.detail is Some ==> r@.detail->0 == "connected: "@ + joined(bus@.devices, ", "@),
{
}

/// Another Mac is there exactly when the system's report names it.
pub proof fn lemma_mac_usb(output: Option<Vec<u8>>, r: bool)
    requires
        call_ensures(mac_usb_device_present, (output,), r),
    ensures
        r <==> output is Some && has_part(
            lossy_text(output->0@),
            "\"USB Product Name\" = \"Mac\""@,
        ),
{
}

// ---- commands ----

/// A target always comes out with a port: its own where it names one, and else 45821.
pub proof fn lemma_port_is_added(target: &str, r: String)
    requires
        call_ensures(with_default_port, (target,), r),
    ensures
        has_port(target@) ==> r@ == target@,
        !has_port(target@) ==> r@ == target@ + ":"@ + dec(45821),
        target@.len() > 0 && !target@.contains(':') ==> has_port(r@),
{
    if target@.len() > 0 && !target@.contains(':') {
        crate::text::lemma_dec_value(45821);
        assert(!dec(45821).contains(':')) by {
            if dec(45821).contains(':') {
                let i = choose|i: int| 0 <= i < dec(45821).len() && dec(45821)[i] == ':';
                assert(crate::text::is_digit(dec(45821)[i]));
            }
        }
        crate::laws::commands::lemma_port(dec(45821), 45821);
        crate::laws::commands::lemma_target(target@, dec(45821));
        assert(is_port(dec(45821)));
    }
}

/// One receiver is taken, none and several are not.
pub proof fn lemma_chosen_receiver(found: Vec<Found>, r: Choice)
    requires
        call_ensures(choose_receiver, (&found,), r),
    ensures
        r is One <==> found@.len() == 1,
        r matches Choice::One { addr, .. } ==> addr == found@[0].peer.addr,
        r matches Choice::Unclear { lines, .. } ==> (if found@.len() == 0 {
            lines@.len() == 0
        } else {
            lines@.len() == found@.len() + 1
        }),
{
    if found@.len() > 1 {
        crate::laws::commands::lemma_found(found@, found@[0]);
        assert(r matches Choice::Unclear { lines, .. } && crate::text::texts(lines@).len()
            == found@.len() + 1);
    }
}

/// Of several receivers the first is measured, and without one there is an error.
pub proof fn lemma_first_receiver(peers: Vec<Peer>, r: Result<(SocketAddr, String), String>)
    requires
        call_ensures(first_receiver, (&peers,), r),
    ensures
        r is Ok <==> peers@.len() > 0,
        r matches Ok(p) ==> p.0 == peers@[0].addr,
{
}

/// Devices are listened for as long as was asked, and for a second at least.
pub proof fn lemma_listen_time(wait: u64, r: u64)
    requires
        call_ensures(listen_time, (wait,), r),
    ensures
        r >= 1,
        wait >= 1 ==> r == wait,
{
}

/// As many streams are used as were asked for, and else as many as suit the link.
pub proof fn lemma_chosen_streams(asked: Option<u32>, link: Option<LinkKind>, r: u32)
    requires
        call_ensures(choose_streams, (asked, link), r),
    ensures
        asked matches Some(n) ==> r == n,
        asked is None && link is None ==> r == 4,
        asked is None && link is Some ==> r == streams_for(link->0),
{
}

/// An empty answer is no consent, and blanks around an answer do not matter.
pub proof fn lemma_consent(line: &str, r: bool)
    requires
        call_ensures(accepts, (line,), r),
    ensures
        is_blank(line@) ==> !r,
        r <==> ({
            let answer = crate::text::trimmed(line@);
            answer == seq!['y'] || answer == seq!['Y'] || answer == seq!['y', 'e', 's']
        }),
{
    crate::laws::commands::lemma_yes(crate::text::trimmed(line@));
    crate::laws::basics::lemma_trimmed(line@);
}

/// An address that is typed in counts without the blanks around it, and is asked for
/// again exactly when there is nothing else.
pub proof fn lemma_typed_address(text: &str, r: Result<String, String>)
    requires
        call_ensures(typed_address, (text,), r),
    ensures
        r is Err <==> is_blank(text@),
        r matches Ok(s) ==> s@ == crate::text::trimmed(text@),
{
    crate::laws::basics::lemma_trimmed(text@);
}

/// What was stored is what is loaded; without it no folder is set.
pub proof fn lemma_loaded(stored: Option<Config>, r: Config)
    requires
        call_ensures(load, (stored,), r),
    ensures
        stored matches Some(c) ==> r == c,
        stored is None ==> r.dest_dir is None,
{
}

} // verus!
