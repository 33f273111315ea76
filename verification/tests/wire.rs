use caybul::pair::{
    code_from_digest, on_challenge, on_pair_answer, pair_code, pair_request, unpair, PairError,
    PAIR_ACCEPT_TIMEOUT,
};
use caybul::protocol::{
    read_msg_len, write_msg, ControlMsg, FrameTooLarge, MAX_FRAME, PROTOCOL_VERSION,
};
use caybul::transfer::receiver::Receiver;

#[test]
fn frames_start_with_their_length() {
    assert_eq!(write_msg(&vec![7, 8, 9]), vec![0, 0, 0, 3, 7, 8, 9]);
    assert_eq!(write_msg(&vec![]), vec![0, 0, 0, 0]);
}

#[test]
fn frames_come_back_whole() {
    let body: Vec<u8> = (0..300).map(|i| (i % 251) as u8).collect();
    let frame = write_msg(&body);
    let n = read_msg_len([frame[0], frame[1], frame[2], frame[3]]).unwrap();
    assert_eq!(n, body.len());
    assert_eq!(&frame[4..], &body[..]);
}

#[test]
fn frames_beyond_the_limit_are_refused() {
    let most = (MAX_FRAME as u32).to_be_bytes();
    assert_eq!(read_msg_len(most), Ok(MAX_FRAME));
    let more = (MAX_FRAME as u32 + 1).to_be_bytes();
    let e = read_msg_len(more).unwrap_err();
    assert_eq!(e, FrameTooLarge { len: MAX_FRAME as u32 + 1 });
    assert_eq!(e.message(), "control frame too large (33554433 bytes)");
}

#[test]
fn codes_are_the_first_bytes_of_the_digest() {
    let mut digest = [0u8; 32];
    digest[0] = 0x39;
    digest[1] = 0x30;
    assert_eq!(code_from_digest(&digest), "012345");
    digest = [0xff; 32];
    assert_eq!(code_from_digest(&digest), "967295");
}

#[test]
fn codes_come_from_both_nonces() {
    let h = blake3::hash(b"caybul-pair:abc:def");
    let b = h.as_bytes();
    let n = u32::from_le_bytes([b[0], b[1], b[2], b[3]]) % 1_000_000;
    assert_eq!(pair_code("abc", "def"), format!("{n:06}"));
    assert_ne!(pair_code("abc", "def"), pair_code("def", "abc"));
}

#[test]
fn both_sides_show_the_same_code() {
    let accepter = Receiver::new("desk".to_string(), 45821);
    let (reply, shown_there) = accepter.challenge("requester nonce", "accepter nonce");
    let (name, shown_here) = on_challenge("requester nonce", reply).unwrap();
    assert_eq!(name, "desk");
    assert_eq!(shown_here, shown_there);
    assert_eq!(shown_here.len(), 6);
}

#[test]
fn pair_requests_carry_the_version() {
    match pair_request("laptop", "n", 7) {
        ControlMsg::PairRequest { version, name, nonce_hex, listen_port } => {
            assert_eq!(version, PROTOCOL_VERSION);
            assert_eq!(name, "laptop");
            assert_eq!(nonce_hex, "n");
            assert_eq!(listen_port, 7);
        }
        other => panic!("{other:?}"),
    }
    assert!(matches!(unpair("tok"), ControlMsg::Unpair { pair_token } if pair_token == "tok"));
    assert_eq!(PAIR_ACCEPT_TIMEOUT, 120);
}

#[test]
fn a_rejected_challenge_is_an_error() {
    let e = on_challenge("n", ControlMsg::PairReject { reason: "busy".to_string() }).unwrap_err();
    assert_eq!(e.message(""), "pairing rejected: busy");
    let e = on_challenge("n", ControlMsg::AllDone).unwrap_err();
    assert!(matches!(e, PairError::Unexpected(ControlMsg::AllDone)));
    assert_eq!(e.message("AllDone"), "unexpected pairing reply: AllDone");
}

#[test]
fn an_accepted_pairing_gives_both_tokens() {
    let answer = ControlMsg::PairAccept {
        token_for_requester: "r".to_string(),
        token_for_accepter: "a".to_string(),
    };
    let p = on_pair_answer("desk".to_string(), Some(answer)).unwrap();
    assert_eq!(p.peer_name, "desk");
    assert_eq!(p.send_token, "r");
    assert_eq!(p.their_send_token, "a");
}

#[test]
fn a_pairing_can_come_to_nothing() {
    let declined = ControlMsg::PairReject { reason: "no".to_string() };
    let e = on_pair_answer("x".to_string(), Some(declined)).unwrap_err();
    assert_eq!(e.message(""), "pairing declined: no");
    let e = on_pair_answer("x".to_string(), None).unwrap_err();
    assert_eq!(e.message(""), "no answer from the other device (pairing timed out)");
    let e = on_pair_answer("x".to_string(), Some(ControlMsg::SpeedProbeOk)).unwrap_err();
    assert_eq!(e.message("SpeedProbeOk"), "unexpected pairing reply: SpeedProbeOk");
}
