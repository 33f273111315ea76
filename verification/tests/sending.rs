use caybul::protocol::{ControlMsg, FileEntry, ResumeInfo, CHUNK_SIZE, PROTOCOL_VERSION};
use caybul::transfer::manifest::{
    duplicate_message, manifest_size, push_unique, Found, Kind, Walk, WalkStep,
};
use caybul::transfer::paths::{sanitize_rel_path, RelPath};
use caybul::transfer::sender::{
    auth_failed, chunk_header, data_auth, hello, no_reports, on_auth_reply, on_chunk_reply,
    on_hello_reply, on_report, stream_count, ChunkOutcome, FileResult, Job, Outbox, SendError, SendReport, StreamStep, Task,
};
use caybul::transfer::session::{build_session, plan_file, ChunkStep, PartMeta};
use caybul::transfer::speed::{
    on_probe_done, on_probe_reply, probe_piece, probe_request, PROBE_BYTES,
};

fn entry(path: &str, size: u64) -> FileEntry {
    FileEntry { rel_path: path.to_string(), size }
}

fn have(file_idx: u32, hex: &str) -> ResumeInfo {
    ResumeInfo { file_idx, have_bitmap_hex: hex.to_string() }
}

// ---- the manifest ----

fn found(name: &str, kind: Kind) -> Found<String> {
    Found {
        key: name.as_bytes().to_vec(),
        name: name.to_string(),
        kind,
        source: format!("src/{name}"),
    }
}

#[test]
fn folders_are_spelled_out_in_order() {
    let mut w: Walk<String> = Walk::new();
    w.add("top".to_string(), Kind::Folder, "/top".to_string());
    let mut read: Vec<String> = Vec::new();
    loop {
        match w.next() {
            WalkStep::Finished => break,
            WalkStep::Went => {}
            WalkStep::Read { rel, source } => {
                read.push(format!("{rel} at {source}"));
                if rel == "top" {
                    w.entered(
                        &rel,
                        vec![
                            found("z.txt", Kind::File { size: 3 }),
                            found("mid", Kind::Folder),
                            found("link", Kind::Other),
                            found("a.txt", Kind::File { size: 1 }),
                        ],
                    );
                } else {
                    w.entered(&rel, vec![found("b.txt", Kind::File { size: 2 })]);
                }
            }
            WalkStep::Duplicate(name) => panic!("{name}"),
        }
    }
    let names: Vec<&str> = w.out.iter().map(|(e, _)| e.rel_path.as_str()).collect();
    assert_eq!(names, vec!["top/a.txt", "top/mid/b.txt", "top/z.txt"]);
    assert_eq!(w.out[2].0.size, 3);
    assert_eq!(w.out[1].1, "src/b.txt");
    assert_eq!(read, vec!["top at /top", "top/mid at src/mid"]);
}

#[test]
fn two_files_of_one_name_are_refused() {
    let mut out: Vec<(FileEntry, u8)> = Vec::new();
    assert_eq!(push_unique(&mut out, "a".to_string(), 1, 10), Ok(()));
    assert_eq!(push_unique(&mut out, "b".to_string(), 2, 20), Ok(()));
    assert_eq!(push_unique(&mut out, "a".to_string(), 3, 30), Err("a".to_string()));
    assert_eq!(out.len(), 2);
    assert_eq!(duplicate_message("a"), "duplicate name in selection: a");
    let mut w: Walk<u8> = Walk::new();
    w.add("x".to_string(), Kind::File { size: 1 }, 1);
    assert!(matches!(w.next(), WalkStep::Went));
    w.add("x".to_string(), Kind::File { size: 1 }, 2);
    assert!(matches!(w.next(), WalkStep::Duplicate(n) if n == "x"));
}

#[test]
fn an_empty_selection_is_refused() {
    let w: Walk<u8> = Walk::new();
    assert_eq!(w.finish().unwrap_err(), "nothing to send");
    let mut w: Walk<u8> = Walk::new();
    w.add("x".to_string(), Kind::File { size: 1 }, 1);
    assert!(matches!(w.next(), WalkStep::Went));
    let out = w.finish().unwrap();
    assert_eq!((out.len(), out[0].0.rel_path.as_str(), out[0].1), (1, "x", 1));
}

#[test]
fn streams_have_to_be_let_in() {
    assert!(on_auth_reply(ControlMsg::DataAuthOk).is_ok());
    let e = on_auth_reply(ControlMsg::Reject { reason: "bad".to_string() }).unwrap_err();
    assert!(matches!(e, ControlMsg::Reject { .. }));
    assert_eq!(auth_failed("Reject"), "data stream auth failed: Reject");
}

#[test]
fn manifests_add_up() {
    assert_eq!(manifest_size(&vec![entry("a", 1), entry("b", 2)]), Some(3));
    assert_eq!(manifest_size(&vec![entry("a", u64::MAX), entry("b", 1)]), None);
    assert_eq!(manifest_size(&vec![]), Some(0));
}

// ---- the handshake ----

#[test]
fn the_opening_message_carries_the_manifest() {
    match hello("me".to_string(), "tok".to_string(), vec![entry("a", 1)]) {
        ControlMsg::Hello { version, sender_name, pair_token, chunk_size, files } => {
            assert_eq!((version, chunk_size), (PROTOCOL_VERSION, CHUNK_SIZE));
            assert_eq!((sender_name.as_str(), pair_token.as_str(), files.len()), ("me", "tok", 1));
        }
        other => panic!("{other:?}"),
    }
}

#[test]
fn the_receiver_may_say_no() {
    let e = on_hello_reply(ControlMsg::Reject { reason: "full".to_string() }).unwrap_err();
    assert!(matches!(e, SendError::Rejected(_)));
    assert_eq!(e.message(""), "receiver rejected transfer: full");
    let e = on_hello_reply(ControlMsg::AllDone).unwrap_err();
    assert_eq!(e.message("AllDone"), "unexpected reply to Hello: AllDone");
    let yes = ControlMsg::Accept {
        receiver_name: "desk".to_string(),
        token: "t".to_string(),
        resume: vec![have(0, "01")],
    };
    let a = on_hello_reply(yes).unwrap();
    assert_eq!((a.receiver_name.as_str(), a.token.as_str(), a.resume.len()), ("desk", "t", 1));
}

#[test]
fn streams_are_limited() {
    assert_eq!(stream_count(0), 1);
    assert_eq!(stream_count(7), 7);
    assert_eq!(stream_count(99), 16);
}

// ---- what is sent ----

fn jobs(o: &Outbox) -> Vec<(u32, u64)> {
    o.queue.iter().map(|j| (j.file_idx, j.chunk_idx)).collect()
}

#[test]
fn only_what_is_missing_is_sent() {
    let files = vec![
        entry("a", 2 * CHUNK_SIZE + 5),
        entry("empty", 0),
        entry("b", CHUNK_SIZE),
    ];
    let resume = vec![have(0, "02"), have(1, ""), have(2, "00")];
    let o = Outbox::plan(&files, &resume);
    assert_eq!(jobs(&o), vec![(2, 0), (0, 2), (0, 0)]);
    assert_eq!(o.skipped, CHUNK_SIZE);
    assert_eq!(o.total_pending, 2 * CHUNK_SIZE + 5);
    assert_eq!(o.total_pending + o.skipped, manifest_size(&files).unwrap());
}

#[test]
fn the_last_readable_record_counts() {
    let files = vec![entry("a", 3 * CHUNK_SIZE)];
    let o = Outbox::plan(&files, &vec![have(0, "01"), have(0, "04"), have(0, "x")]);
    assert_eq!(jobs(&o), vec![(0, 1), (0, 0)]);
    let o = Outbox::plan(&files, &vec![]);
    assert_eq!(jobs(&o), vec![(0, 2), (0, 1), (0, 0)]);
}

#[test]
fn tasks_cover_their_chunk() {
    let files = vec![entry("a", CHUNK_SIZE + 5)];
    let mut o = Outbox::plan(&files, &vec![]);
    let t = o.take().unwrap();
    assert_eq!((t.job.chunk_idx, t.offset, t.len as u64), (0, 0, CHUNK_SIZE));
    let t = o.take().unwrap();
    assert_eq!((t.job.chunk_idx, t.offset, t.len), (1, CHUNK_SIZE, 5));
    assert!(o.take().is_none());
    assert!(o.is_empty());
}

#[test]
fn delivered_chunks_are_counted() {
    let mut o = Outbox::plan(&vec![entry("a", CHUNK_SIZE + 5)], &vec![]);
    let t = o.take().unwrap();
    match o.settle(t, ChunkOutcome::Taken) {
        StreamStep::Progress { done, total } => {
            assert_eq!((done, total), (CHUNK_SIZE, CHUNK_SIZE + 5))
        }
        other => panic!("{other:?}"),
    }
}

#[test]
fn progress_ends_at_the_total() {
    let files = vec![entry("a", 2 * CHUNK_SIZE + 5), entry("empty", 0), entry("b", 7)];
    let mut o = Outbox::plan(&files, &vec![have(0, "02")]);
    assert_eq!((o.total_pending, o.skipped), (CHUNK_SIZE + 12, CHUNK_SIZE));
    let mut seen: Vec<u64> = Vec::new();
    while let Some(task) = o.take() {
        match o.settle(task, ChunkOutcome::Taken) {
            StreamStep::Progress { done, total } => {
                assert_eq!(total, CHUNK_SIZE + 12);
                seen.push(done);
            }
            other => panic!("{other:?}"),
        }
    }
    assert_eq!(seen, vec![CHUNK_SIZE, CHUNK_SIZE + 5, CHUNK_SIZE + 12]);
    assert!(o.drained().is_ok());
}

#[test]
fn a_refused_chunk_is_tried_three_times() {
    let mut o = Outbox::plan(&vec![entry("a", 5)], &vec![]);
    for attempts in 1..3u32 {
        let t = o.take().unwrap();
        assert!(matches!(o.settle(t, ChunkOutcome::Refused), StreamStep::Continue));
        assert_eq!(o.queue[0].attempts, attempts);
    }
    let t = o.take().unwrap();
    match o.settle(t, ChunkOutcome::Refused) {
        StreamStep::Stop(why) => {
            assert_eq!(why, "chunk 0:0 failed 3 times: chunk rejected by receiver")
        }
        other => panic!("{other:?}"),
    }
    assert!(o.is_empty());
}

#[test]
fn a_broken_stream_gives_its_chunk_back() {
    let mut o = Outbox::plan(&vec![entry("a", 5)], &vec![]);
    let t = o.take().unwrap();
    match o.settle(t, ChunkOutcome::Broken("reset".to_string())) {
        StreamStep::Stop(why) => assert_eq!(why, "reset"),
        other => panic!("{other:?}"),
    }
    assert_eq!(o.queue.len(), 1);
    assert_eq!(o.queue[0].attempts, 1);
    let last = Task { job: Job { file_idx: 0, chunk_idx: 0, attempts: 2 }, offset: 0, len: 5 };
    o.settle(last, ChunkOutcome::Broken("again".to_string()));
    assert_eq!(o.queue.len(), 1);
}

#[test]
fn undelivered_chunks_are_told() {
    let mut o = Outbox::plan(&vec![entry("a", CHUNK_SIZE + 1)], &vec![]);
    assert_eq!(
        o.drained().unwrap_err(),
        "transfer incomplete: 2 chunks undelivered (connection lost); partial data is kept on \
         the receiver — run the same send again to resume"
    );
    o.note_failure("first".to_string());
    o.note_failure("second".to_string());
    assert!(o.drained().unwrap_err().contains("undelivered (second);"));
    o.take();
    o.take();
    assert_eq!(o.drained(), Ok(()));
}

#[test]
fn chunks_are_announced_with_their_digest() {
    let job = Job { file_idx: 1, chunk_idx: 2, attempts: 0 };
    match chunk_header(job, b"") {
        ControlMsg::ChunkHeader { file_idx, chunk_idx, len, hash_hex } => {
            assert_eq!((file_idx, chunk_idx, len), (1, 2, 0));
            assert_eq!(
                hash_hex,
                "af1349b9f5f9a1a6a0404dea36dcc9499bcb25c9adc112b7cc9a93cae41f3262"
            );
        }
        other => panic!("{other:?}"),
    }
    assert!(matches!(data_auth("t".to_string()), ControlMsg::DataAuth { token } if token == "t"));
}

#[test]
fn replies_to_chunks() {
    let ack = ControlMsg::ChunkAck { file_idx: 0, chunk_idx: 0, ok: true };
    assert!(on_chunk_reply(ack).unwrap());
    let nak = ControlMsg::ChunkAck { file_idx: 0, chunk_idx: 0, ok: false };
    assert!(!on_chunk_reply(nak).unwrap());
    assert!(matches!(on_chunk_reply(ControlMsg::AllDone), Err(ControlMsg::AllDone)));
}

#[test]
fn both_sides_agree_on_what_is_missing() {
    let part = |p: &RelPath| p.text() == "a.caybulpart";
    let size = 3 * CHUNK_SIZE;
    let meta = PartMeta { size, chunk_size: CHUNK_SIZE, bitmap_hex: "02".to_string() };
    let rel = sanitize_rel_path("a").unwrap();
    let f = plan_file(&entry("a", size), rel, CHUNK_SIZE, Some(meta), &part);
    let session = build_session("t".to_string(), CHUNK_SIZE, vec![f]);
    let mut o = Outbox::plan(&vec![entry("a", size)], &session.resume_list());
    assert_eq!(jobs(&o), vec![(0, 2), (0, 0)]);
    let payload = vec![9u8; 100];
    while let Some(t) = o.take() {
        let header = chunk_header(t.job, &payload);
        match header {
            ControlMsg::ChunkHeader { file_idx, chunk_idx, hash_hex, .. } => {
                assert_eq!(
                    session.receive_chunk(file_idx, chunk_idx, &payload, &hash_hex),
                    ChunkStep::Write { offset: t.offset }
                );
            }
            other => panic!("{other:?}"),
        }
    }
}

// ---- the report ----

#[test]
fn the_receiver_reports_on_every_file() {
    let files = vec![entry("a", 1), entry("b", 2)];
    let mut list = no_reports(&files);
    assert_eq!(list[1].rel_path, "b");
    assert!(!list[1].ok);
    assert_eq!(list[1].message, "no report from receiver");
    let done = |file_idx| ControlMsg::FileDone { file_idx, ok: true, message: "complete".to_string() };
    assert!(!on_report(&mut list, done(0)));
    assert!(!on_report(&mut list, done(7)));
    assert!(!on_report(&mut list, ControlMsg::DataAuthOk));
    assert!(on_report(&mut list, ControlMsg::AllDone));
    assert!(list[0].ok && list[0].message == "complete" && list[0].rel_path == "a");
    assert!(!list[1].ok);
    let report = SendReport {
        receiver_name: "desk".to_string(),
        files: list,
        bytes_sent: 1,
        bytes_skipped: 0,
        elapsed: 5,
    };
    assert!(!report.all_ok());
}

#[test]
fn the_last_word_on_a_file_counts() {
    let mut list = no_reports(&vec![entry("a", 1), entry("b", 2), entry("c", 3)]);
    let done = |file_idx, ok, message: &str| ControlMsg::FileDone {
        file_idx,
        ok,
        message: message.to_string(),
    };
    for msg in [done(0, true, "complete"), done(1, false, "bad"), done(0, false, "worse")] {
        assert!(!on_report(&mut list, msg));
    }
    assert!(!on_report(&mut list, done(1, true, "good")));
    let shown: Vec<(&str, bool, &str)> =
        list.iter().map(|r| (r.rel_path.as_str(), r.ok, r.message.as_str())).collect();
    assert_eq!(
        shown,
        vec![("a", false, "worse"), ("b", true, "good"), ("c", false, "no report from receiver")]
    );
}

#[test]
fn a_report_is_fine_when_every_file_is() {
    let file = |ok| FileResult { rel_path: "f".to_string(), ok, message: String::new() };
    let report = |files| SendReport {
        receiver_name: String::new(),
        files,
        bytes_sent: 0,
        bytes_skipped: 0,
        elapsed: 0,
    };
    assert!(report(vec![]).all_ok());
    assert!(report(vec![file(true), file(true)]).all_ok());
    assert!(!report(vec![file(true), file(false)]).all_ok());
}

// ---- the probe ----

#[test]
fn a_probe_is_one_burst_in_pieces() {
    let mut sent: u64 = 0;
    let mut pieces = 0;
    while let Some(n) = probe_piece(sent) {
        assert!(n <= 1 << 20);
        sent += n;
        pieces += 1;
    }
    assert_eq!((sent, pieces), (PROBE_BYTES, 32));
    assert_eq!(probe_piece(PROBE_BYTES - 3), Some(3));
    assert!(matches!(
        probe_request("t".to_string()),
        ControlMsg::SpeedProbe { pair_token, len: PROBE_BYTES } if pair_token == "t"
    ));
}

#[test]
fn a_probe_needs_the_right_replies() {
    assert!(on_probe_reply(ControlMsg::SpeedProbeOk).is_ok());
    let e = on_probe_reply(ControlMsg::Reject { reason: "not paired".to_string() }).unwrap_err();
    assert_eq!(e.message(""), "probe rejected: not paired");
    let e = on_probe_reply(ControlMsg::AllDone).unwrap_err();
    assert_eq!(e.message("AllDone"), "unexpected probe reply: AllDone");
    assert!(on_probe_done(ControlMsg::SpeedProbeDone).is_ok());
    assert!(on_probe_done(ControlMsg::SpeedProbeOk).is_err());
}
