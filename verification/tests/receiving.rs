use caybul::net::{IpAddr, SocketAddr};
use caybul::protocol::{ControlMsg, FileEntry, CHUNK_SIZE, MAX_FRAME, PROTOCOL_VERSION};
use caybul::transfer::chunks::{chunk_span, total_chunks};
use caybul::transfer::events::Event;
use caybul::transfer::paths::{
    meta_name, number_name, part_name, sanitize_rel_path, uniquify, PathError, RelPath,
};
use caybul::transfer::receiver::{
    cannot_prepare, chunk_ack, data_step, pair_consent, DataStep, Opening, Receiver, MAX_PROBE,
};
use caybul::transfer::session::{
    build_session, place_file, plan_file, resumable, ChunkStep, PartMeta, Session,
};
use caybul::transfer::sender::Outbox;
use caybul::transfer::tokens::TokenSet;
use caybul::util::{hex_decode, hex_encode};

fn entry(path: &str, size: u64) -> FileEntry {
    FileEntry { rel_path: path.to_string(), size }
}

fn path(text: &str) -> RelPath {
    sanitize_rel_path(text).unwrap()
}

fn nothing(_: &RelPath) -> bool {
    false
}

fn digest_of(bytes: &[u8]) -> String {
    blake3::hash(bytes).to_hex().to_string()
}

// ---- chunks ----

#[test]
fn chunks_cover_a_file() {
    assert_eq!(total_chunks(0, 10), 0);
    assert_eq!(total_chunks(10, 10), 1);
    assert_eq!(total_chunks(11, 10), 2);
    assert_eq!(chunk_span(11, 10, 1), (10, 1));
    assert_eq!(chunk_span(20, 10, 1), (10, 10));
    let mut sum: u64 = 0;
    for i in 0..total_chunks(12345, 100) {
        let (off, len) = chunk_span(12345, 100, i);
        assert_eq!(off, sum);
        sum += len;
    }
    assert_eq!(sum, 12345);
    assert_eq!(total_chunks(u64::MAX, CHUNK_SIZE), 1 << 42);
}

// ---- paths ----

#[test]
fn paths_are_normalized() {
    assert_eq!(path("photos\\2026/./img.jpg").parts, vec!["photos", "2026", "img.jpg"]);
    assert_eq!(path("a//b/").text(), "a/b");
}

#[test]
fn paths_that_step_out_are_refused() {
    let e = sanitize_rel_path("a/../b").unwrap_err();
    assert!(matches!(e, PathError::Traversal(_)));
    assert_eq!(e.message(), "path traversal in manifest: a/../b");
    let e = sanitize_rel_path("..\\x").unwrap_err();
    assert_eq!(e.message(), "path traversal in manifest: ../x");
}

#[test]
fn absolute_paths_are_refused() {
    assert_eq!(
        sanitize_rel_path("/etc/passwd").unwrap_err().message(),
        "absolute path in manifest: /etc/passwd"
    );
    assert!(matches!(sanitize_rel_path("\\srv\\x"), Err(PathError::Absolute(_))));
    assert_eq!(
        sanitize_rel_path("C:\\x").unwrap_err().message(),
        "invalid path component: C:"
    );
}

#[test]
fn paths_must_name_something() {
    assert_eq!(sanitize_rel_path("").unwrap_err().message(), "empty path in manifest");
    assert!(matches!(sanitize_rel_path("./."), Err(PathError::Empty)));
}

#[test]
fn companions_stand_beside_the_file() {
    assert_eq!(part_name(&path("a/b.txt")).text(), "a/b.txt.caybulpart");
    assert_eq!(meta_name(&path("a/b.txt")).text(), "a/b.txt.caybulmeta");
}

#[test]
fn numbers_go_before_the_extension() {
    assert_eq!(number_name("photo.jpg", 1), "photo (1).jpg");
    assert_eq!(number_name("a.tar.gz", 2), "a.tar (2).gz");
    assert_eq!(number_name("README", 3), "README (3)");
    assert_eq!(number_name(".bashrc", 4), ".bashrc (4)");
}

#[test]
fn a_taken_name_gets_the_next_number() {
    let taken = |p: &RelPath| {
        let t = p.text();
        t == "d/photo (1).jpg" || t == "d/photo (2).jpg.caybulpart"
    };
    assert_eq!(uniquify(&path("d/photo.jpg"), &taken).text(), "d/photo (3).jpg");
    let all = |_: &RelPath| true;
    assert_eq!(uniquify(&path("d/photo.jpg"), &all).text(), "d/photo.jpg");
}

// ---- one file ----

#[test]
fn a_new_file_starts_from_nothing() {
    let f = plan_file(&entry("x.bin", 25), path("x.bin"), 10, None, &nothing);
    assert_eq!(f.final_path.text(), "x.bin");
    assert_eq!(f.part_path.text(), "x.bin.caybulpart");
    assert_eq!(f.meta_path.text(), "x.bin.caybulmeta");
    assert_eq!(f.total_chunks, 3);
    assert_eq!(f.prog.bitmap, vec![0]);
    assert_eq!(f.prog.done_chunks, 0);
    assert!(f.prog.open && !f.prog.finalized);
}

#[test]
fn an_existing_file_is_not_overwritten() {
    let taken = |p: &RelPath| p.text() == "x.bin";
    let f = plan_file(&entry("x.bin", 25), path("x.bin"), 10, None, &taken);
    assert_eq!(f.final_path.text(), "x (1).bin");
    assert_eq!(f.part_path.text(), "x (1).bin.caybulpart");
}

#[test]
fn a_matching_record_is_resumed() {
    let part = |p: &RelPath| p.text() == "x.bin.caybulpart" || p.text() == "x.bin";
    let meta = PartMeta { size: 25, chunk_size: 10, bitmap_hex: "05".to_string() };
    let f = plan_file(&entry("x.bin", 25), path("x.bin"), 10, Some(meta), &part);
    assert_eq!(f.final_path.text(), "x.bin");
    assert_eq!(f.prog.bitmap, vec![5]);
    assert_eq!(f.prog.done_chunks, 2);
    assert!(f.prog.open);
}

#[test]
fn a_record_of_another_file_is_not_resumed() {
    let part = |p: &RelPath| p.text() == "x.bin.caybulpart";
    for (size, chunk) in [(24, 10), (25, 11)] {
        let meta = PartMeta { size, chunk_size: chunk, bitmap_hex: "05".to_string() };
        let f = plan_file(&entry("x.bin", 25), path("x.bin"), 10, Some(meta), &part);
        assert_eq!(f.prog.done_chunks, 0);
    }
    let meta = PartMeta { size: 25, chunk_size: 10, bitmap_hex: "05".to_string() };
    let f = plan_file(&entry("x.bin", 25), path("x.bin"), 10, Some(meta), &nothing);
    assert_eq!(f.prog.done_chunks, 0);
}

#[test]
fn an_unreadable_record_counts_as_empty() {
    let part = |p: &RelPath| p.text() == "x.bin.caybulpart";
    let meta = PartMeta { size: 250, chunk_size: 10, bitmap_hex: "zz".to_string() };
    let f = plan_file(&entry("x.bin", 250), path("x.bin"), 10, Some(meta), &part);
    assert_eq!(f.prog.bitmap, vec![0; 4]);
    let meta = PartMeta { size: 250, chunk_size: 10, bitmap_hex: "ffffffffff".to_string() };
    let f = plan_file(&entry("x.bin", 250), path("x.bin"), 10, Some(meta), &part);
    assert_eq!(f.prog.bitmap, vec![0xff; 4]);
    assert_eq!(f.prog.done_chunks, 25);
}

#[test]
fn a_record_is_resumable_when_everything_matches() {
    let meta = || Some(PartMeta { size: 25, chunk_size: 10, bitmap_hex: "05".to_string() });
    assert!(resumable(meta(), 25, 10, true).is_some());
    assert!(resumable(meta(), 25, 10, false).is_none());
    assert!(resumable(meta(), 26, 10, true).is_none());
    assert!(resumable(meta(), 25, 11, true).is_none());
    assert!(resumable(None, 25, 10, true).is_none());
    let f = place_file(&entry("x", 25), path("y"), 10, meta());
    assert_eq!(f.final_path.text(), "y");
    assert_eq!((f.prog.done_chunks, f.prog.bitmap.clone()), (2, vec![5]));
}

#[test]
fn a_received_file_is_the_one_that_was_sent() {
    let source: Vec<u8> = (0..25).collect();
    let mut disk = vec![0u8; 25];
    let mut f = plan_file(&entry("x", 25), path("x"), 10, None, &nothing);
    for idx in [2u64, 0, 1] {
        let (off, len) = chunk_span(25, 10, idx);
        let payload = &source[off as usize..(off + len) as usize];
        match f.receive_chunk(10, idx, payload, &digest_of(payload)) {
            ChunkStep::Write { offset } => {
                let at = offset as usize;
                disk[at..at + payload.len()].copy_from_slice(payload);
            }
            other => panic!("{other:?}"),
        }
        f.chunk_written(10, idx);
    }
    assert_eq!(f.prog.done_chunks, f.total_chunks);
    assert_eq!(disk, source);
}

#[test]
fn an_empty_file_is_there_at_once() {
    let f = plan_file(&entry("e", 0), path("e"), 10, None, &nothing);
    assert!(f.prog.finalized && !f.prog.open);
    assert_eq!(f.total_chunks, 0);
}

#[test]
fn chunks_are_judged() {
    let mut f = plan_file(&entry("x", 25), path("x"), 10, None, &nothing);
    let data = [7u8; 10];
    let good = digest_of(&data);
    assert_eq!(f.receive_chunk(10, 3, &data, &good), ChunkStep::Ack(false));
    assert_eq!(f.receive_chunk(10, 1, &data, "00"), ChunkStep::Ack(false));
    assert_eq!(f.receive_chunk(10, 1, &data, &good), ChunkStep::Write { offset: 10 });
    let w = f.chunk_written(10, 1);
    assert!(!w.complete);
    assert_eq!((w.persist.size, w.persist.chunk_size), (25, 10));
    assert_eq!(w.persist.bitmap_hex, "02");
    assert_eq!(f.receive_chunk(10, 1, &data, "anything"), ChunkStep::Ack(true));
    assert_eq!(f.prog.bitmap, vec![2]);
}

#[test]
fn the_last_chunk_completes_the_file() {
    let mut f = plan_file(&entry("x", 25), path("x"), 10, None, &nothing);
    f.chunk_written(10, 0);
    f.chunk_written(10, 2);
    let w = f.chunk_written(10, 1);
    assert!(w.complete);
    let m = w.persist;
    assert_eq!((m.size, m.chunk_size, m.bitmap_hex.as_str()), (25, 10, "07"));
    assert!(!f.prog.open && !f.prog.finalized);
    match f.renamed(10) {
        Event::FileCompleted { rel_path, bytes } => assert_eq!((rel_path.as_str(), bytes), ("x", 25)),
        other => panic!("{other:?}"),
    }
    assert!(f.prog.finalized);
}

#[test]
fn the_record_is_written_with_every_chunk() {
    let mut f = plan_file(&entry("x", 1000), path("x"), 10, None, &nothing);
    assert_eq!(f.record(10).bitmap_hex, "00".repeat(13));
    for i in 0..64u64 {
        let w = f.chunk_written(10, i);
        assert_eq!(w.persist.bitmap_hex, f.record(10).bitmap_hex, "{i}");
        assert_eq!(hex_decode(&w.persist.bitmap_hex).unwrap(), f.prog.bitmap, "{i}");
    }
}

#[test]
fn what_was_acknowledged_is_not_sent_again() {
    let size = 3 * CHUNK_SIZE;
    let mut f = plan_file(&entry("x", size), path("x"), CHUNK_SIZE, None, &nothing);
    let left = f.chunk_written(CHUNK_SIZE, 1).persist;
    let part = |p: &RelPath| p.text() == "x.caybulpart";
    let again = plan_file(&entry("x", size), path("x"), CHUNK_SIZE, Some(left), &part);
    let s = build_session("t".to_string(), CHUNK_SIZE, vec![again]);
    assert_eq!(s.received_bytes, CHUNK_SIZE);
    let o = Outbox::plan(&vec![entry("x", size)], &s.resume_list());
    let chunks: Vec<u64> = o.queue.iter().map(|j| j.chunk_idx).collect();
    assert_eq!(chunks, vec![2, 0]);
    assert_eq!(o.skipped, CHUNK_SIZE);
}

#[test]
fn chunks_are_answered() {
    let ok_of = |step: ChunkStep, stored: bool| match chunk_ack(4, 5, step, stored) {
        ControlMsg::ChunkAck { file_idx, chunk_idx, ok } => {
            assert_eq!((file_idx, chunk_idx), (4, 5));
            ok
        }
        other => panic!("{other:?}"),
    };
    assert!(ok_of(ChunkStep::Ack(true), false));
    assert!(!ok_of(ChunkStep::Ack(false), true));
    assert!(ok_of(ChunkStep::Write { offset: 0 }, true));
    assert!(!ok_of(ChunkStep::Write { offset: 0 }, false));
}

#[test]
fn a_record_resumes_every_chunk_it_had() {
    let mut f = plan_file(&entry("x", 1000), path("x"), 10, None, &nothing);
    for i in [0u64, 5, 17, 99] {
        f.chunk_written(10, i);
    }
    let bitmap = f.prog.bitmap.clone();
    let part = |p: &RelPath| p.text() == "x.caybulpart";
    let again = plan_file(&entry("x", 1000), path("x"), 10, Some(f.record(10)), &part);
    assert_eq!(again.prog.bitmap, bitmap);
    assert_eq!(again.prog.done_chunks, 4);
}

#[test]
fn a_full_record_stays_unfinished() {
    let part = |p: &RelPath| p.text() == "x.caybulpart";
    let meta = PartMeta { size: 25, chunk_size: 10, bitmap_hex: "07".to_string() };
    let f = plan_file(&entry("x", 25), path("x"), 10, Some(meta), &part);
    assert_eq!(f.prog.done_chunks, 3);
    assert!(f.prog.open && !f.prog.finalized);
    let s = build_session("t".to_string(), 10, vec![f]);
    let (msgs, _) = s.finish();
    match &msgs[0] {
        ControlMsg::FileDone { ok, message, .. } => {
            assert!(!*ok);
            assert_eq!(message, "incomplete (3/3 chunks)");
        }
        other => panic!("{other:?}"),
    }
}

// ---- the session ----

fn two_files() -> Session {
    let a = plan_file(&entry("a", 25), path("a"), 10, None, &nothing);
    let part = |p: &RelPath| p.text() == "b.caybulpart";
    let meta = PartMeta { size: 15, chunk_size: 10, bitmap_hex: "01".to_string() };
    let b = plan_file(&entry("b", 15), path("b"), 10, Some(meta), &part);
    build_session("tok".to_string(), 10, vec![a, b])
}

#[test]
fn a_session_adds_up() {
    let s = two_files();
    assert_eq!(s.total_bytes, 40);
    assert_eq!(s.received_bytes, 10);
    let r = s.resume_list();
    assert_eq!(r.len(), 2);
    assert_eq!((r[0].file_idx, r[0].have_bitmap_hex.as_str()), (0, "00"));
    assert_eq!((r[1].file_idx, r[1].have_bitmap_hex.as_str()), (1, "01"));
}

#[test]
fn a_session_counts_no_more_than_a_file_has() {
    let part = |p: &RelPath| p.text() == "b.caybulpart";
    let meta = PartMeta { size: 15, chunk_size: 10, bitmap_hex: "03".to_string() };
    let b = plan_file(&entry("b", 15), path("b"), 10, Some(meta), &part);
    let s = build_session("t".to_string(), 10, vec![b]);
    assert_eq!(s.received_bytes, 15);
}

#[test]
fn a_session_takes_chunks_to_the_end() {
    let mut s = two_files();
    let data = [1u8; 5];
    let sum = digest_of(&data);
    assert_eq!(s.receive_chunk(2, 0, &data, &sum), ChunkStep::Ack(false));
    assert_eq!(s.receive_chunk(1, 0, &data, &sum), ChunkStep::Ack(true));
    assert_eq!(s.receive_chunk(1, 1, &data, &sum), ChunkStep::Write { offset: 10 });
    let landed = s.chunk_written(1, 1, 5);
    assert!(landed.complete);
    assert_eq!(landed.persist.bitmap_hex, "03");
    match landed.progress {
        Event::Progress { done_bytes, total_bytes } => assert_eq!((done_bytes, total_bytes), (15, 40)),
        other => panic!("{other:?}"),
    }
    assert!(matches!(s.renamed(1), Event::FileCompleted { .. }));
    assert!(s.on_control(ControlMsg::SpeedProbeOk).is_none());
    let (msgs, end) = s.on_control(ControlMsg::AllDone).unwrap();
    assert_eq!(msgs.len(), 3);
    match &msgs[0] {
        ControlMsg::FileDone { file_idx, ok, message } => {
            assert_eq!((*file_idx, *ok, message.as_str()), (0, false, "incomplete (0/3 chunks)"));
        }
        other => panic!("{other:?}"),
    }
    match &msgs[1] {
        ControlMsg::FileDone { file_idx, ok, message } => {
            assert_eq!((*file_idx, *ok, message.as_str()), (1, true, "complete"));
        }
        other => panic!("{other:?}"),
    }
    assert!(matches!(msgs[2], ControlMsg::AllDone));
    match end {
        Event::SessionEnded { ok, message } => {
            assert!(!ok);
            assert_eq!(message, "session ended with incomplete files (kept for resume)");
        }
        other => panic!("{other:?}"),
    }
}

#[test]
fn a_complete_session_ends_well() {
    let e = plan_file(&entry("e", 0), path("e"), 10, None, &nothing);
    let s = build_session("t".to_string(), 10, vec![e]);
    match s.finish().1 {
        Event::SessionEnded { ok, message } => {
            assert!(ok);
            assert_eq!(message, "all files received and verified");
        }
        other => panic!("{other:?}"),
    }
}

// ---- the receiver ----

fn hello(token: &str) -> ControlMsg {
    ControlMsg::Hello {
        version: PROTOCOL_VERSION,
        sender_name: "laptop".to_string(),
        pair_token: token.to_string(),
        chunk_size: CHUNK_SIZE,
        files: vec![entry("a", 1)],
    }
}

fn reason_of(o: Opening) -> String {
    match o {
        Opening::Answer(ControlMsg::Reject { reason }) => reason,
        Opening::Answer(ControlMsg::PairReject { reason }) => reason,
        other => panic!("{other:?}"),
    }
}

fn paired_receiver() -> Receiver {
    let mut r = Receiver::new("desk".to_string(), 45821);
    r.register("tok".to_string());
    r
}

#[test]
fn nobody_sends_without_pairing() {
    let mut r = Receiver::new("desk".to_string(), 45821);
    assert_eq!(reason_of(r.open(hello("tok"))), "not paired — pair with this device first");
    let probe = ControlMsg::SpeedProbe { pair_token: "tok".to_string(), len: 1 };
    assert_eq!(reason_of(r.open(probe)), "not paired");
    let bye = ControlMsg::Unpair { pair_token: "tok".to_string() };
    assert!(matches!(r.open(bye), Opening::Close));
}

#[test]
fn a_paired_device_may_send() {
    let mut r = paired_receiver();
    match r.open(hello("tok")) {
        Opening::Prepare { sender_name, chunk_size, files } => {
            assert_eq!((sender_name.as_str(), chunk_size, files.len()), ("laptop", CHUNK_SIZE, 1));
        }
        other => panic!("{other:?}"),
    }
}

#[test]
fn versions_must_match() {
    let mut r = paired_receiver();
    let mut msg = hello("tok");
    if let ControlMsg::Hello { version, .. } = &mut msg {
        *version = 2;
    }
    assert_eq!(reason_of(r.open(msg)), "protocol version mismatch (ours 1, theirs 2)");
    let ask = ControlMsg::PairRequest {
        version: 9,
        name: "x".to_string(),
        nonce_hex: "n".to_string(),
        listen_port: 0,
    };
    assert_eq!(reason_of(r.open(ask)), "protocol version mismatch (ours 1, theirs 9)");
}

#[test]
fn chunk_sizes_have_limits() {
    for size in [0, MAX_FRAME as u64 + 1] {
        let mut r = paired_receiver();
        let mut msg = hello("tok");
        if let ControlMsg::Hello { chunk_size, .. } = &mut msg {
            *chunk_size = size;
        }
        assert_eq!(reason_of(r.open(msg)), "unacceptable chunk size");
    }
}

#[test]
fn one_transfer_runs_at_a_time() {
    let mut r = paired_receiver();
    let s = two_files();
    let (reply, ev) = r.start_session(&s, "laptop".to_string());
    match reply {
        ControlMsg::Accept { receiver_name, token, resume } => {
            assert_eq!((receiver_name.as_str(), token.as_str(), resume.len()), ("desk", "tok", 2));
        }
        other => panic!("{other:?}"),
    }
    match ev {
        Event::SessionStarted { sender, files, total_bytes, resumed_bytes } => {
            assert_eq!((sender.as_str(), files, total_bytes, resumed_bytes), ("laptop", 2, 40, 10));
        }
        other => panic!("{other:?}"),
    }
    assert_eq!(reason_of(r.open(hello("tok"))), "another transfer is already in progress");
    let data = ControlMsg::DataAuth { token: "tok".to_string() };
    assert!(matches!(r.open(data), Opening::Data));
    let wrong = ControlMsg::DataAuth { token: "other".to_string() };
    assert_eq!(reason_of(r.open(wrong)), "bad or expired token");
    assert!(r.end_session(false).is_none());
    assert!(matches!(r.open(hello("tok")), Opening::Prepare { .. }));
    let late = ControlMsg::DataAuth { token: "tok".to_string() };
    assert_eq!(reason_of(r.open(late)), "bad or expired token");
}

#[test]
fn a_broken_session_is_told() {
    let mut r = paired_receiver();
    match r.end_session(true).unwrap() {
        Event::SessionEnded { ok, message } => {
            assert!(!ok);
            assert_eq!(message, "sender disconnected; partial files kept for resume");
        }
        other => panic!("{other:?}"),
    }
    match cannot_prepare("disk full") {
        ControlMsg::Reject { reason } => {
            assert_eq!(reason, "could not prepare destination: disk full")
        }
        other => panic!("{other:?}"),
    }
}

#[test]
fn probes_have_a_limit() {
    let mut r = paired_receiver();
    let probe = |len| ControlMsg::SpeedProbe { pair_token: "tok".to_string(), len };
    assert!(matches!(r.open(probe(MAX_PROBE)), Opening::Probe { len: MAX_PROBE }));
    assert!(matches!(r.open(probe(MAX_PROBE + 1)), Opening::ProbeTooLarge));
}

#[test]
fn disconnecting_drops_every_token() {
    let mut r = paired_receiver();
    r.register("second".to_string());
    let bye = ControlMsg::Unpair { pair_token: "tok".to_string() };
    assert!(matches!(r.open(bye), Opening::Unpaired));
    assert!(!r.accepted.contains("second"));
    assert_eq!(reason_of(r.open(hello("second"))), "not paired — pair with this device first");
}

#[test]
fn pairing_works_in_both_directions() {
    let mut accepter = Receiver::new("desk".to_string(), 1);
    let mut requester = Receiver::new("laptop".to_string(), 2);
    let tokens = Some(("for requester".to_string(), "for accepter".to_string()));
    let ip = Some(IpAddr::V4(0x0a000001));
    let (reply, ev) = accepter.settle_pair("laptop".to_string(), ip, 2, tokens);
    let got = caybul::pair::on_pair_answer("desk".to_string(), Some(reply)).unwrap();
    requester.register(got.their_send_token);
    match ev.unwrap() {
        Event::Paired { peer_name, peer_addr, send_token } => {
            assert_eq!(peer_name, "laptop");
            assert_eq!(peer_addr, Some(SocketAddr::V4 { ip: 0x0a000001, port: 2 }));
            assert!(matches!(requester.open(hello(&send_token)), Opening::Prepare { .. }));
        }
        other => panic!("{other:?}"),
    }
    assert!(matches!(accepter.open(hello(&got.send_token)), Opening::Prepare { .. }));
}

#[test]
fn a_declined_pairing_changes_nothing() {
    let mut r = Receiver::new("desk".to_string(), 1);
    let (reply, ev) = r.settle_pair("x".to_string(), None, 0, None);
    assert!(ev.is_none());
    match reply {
        ControlMsg::PairReject { reason } => assert_eq!(reason, "declined on the other device"),
        other => panic!("{other:?}"),
    }
    let tokens = Some(("a".to_string(), "b".to_string()));
    let (_, ev) = r.settle_pair("x".to_string(), Some(IpAddr::V4(1)), 0, tokens);
    assert!(matches!(ev, Some(Event::Paired { peer_addr: None, .. })));
}

#[test]
fn a_cable_is_consent() {
    assert!(pair_consent(true, "n", "c", |_, _| panic!("asked")));
    assert!(!pair_consent(false, "n", "c", |n, c| n == "c" && c == "n"));
    assert!(pair_consent(false, "n", "c", |n, c| n == "n" && c == "c"));
}

#[test]
fn data_connections_carry_chunks_only() {
    let header = ControlMsg::ChunkHeader {
        file_idx: 3,
        chunk_idx: 4,
        len: 5,
        hash_hex: "aa".to_string(),
    };
    match data_step(header) {
        DataStep::Payload { file_idx, chunk_idx, len, hash_hex } => {
            assert_eq!((file_idx, chunk_idx, len, hash_hex.as_str()), (3, 4, 5, "aa"));
        }
        other => panic!("{other:?}"),
    }
    let big = ControlMsg::ChunkHeader {
        file_idx: 0,
        chunk_idx: 0,
        len: MAX_FRAME as u32 + 1,
        hash_hex: String::new(),
    };
    assert!(matches!(data_step(big), DataStep::TooLarge));
    assert!(matches!(data_step(ControlMsg::AllDone), DataStep::Close));
}

#[test]
fn token_sets_hold_each_token_once() {
    let mut t = TokenSet::new();
    assert!(t.insert("a".to_string()));
    assert!(!t.insert("a".to_string()));
    assert!(t.insert("b".to_string()));
    assert!(t.remove("a"));
    assert!(!t.remove("a"));
    assert!(t.contains("b"));
    t.clear();
    assert!(!t.contains("b"));
}

#[test]
fn digests_are_compared_in_hex() {
    let f = plan_file(&entry("x", 4), path("x"), 10, None, &nothing);
    let data = b"abcd";
    let upper = digest_of(data).to_uppercase();
    assert_eq!(f.receive_chunk(10, 0, data, &upper), ChunkStep::Ack(false));
    assert_eq!(f.judge_chunk(10, 0, "00", "00"), ChunkStep::Write { offset: 0 });
    assert_eq!(hex_encode(blake3::hash(data).as_bytes()), digest_of(data));
}
