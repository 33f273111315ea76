//! Pairing: before any transfer, the two devices exchange nonces, both display
//! the same 6-digit code, and the receiving user confirms. Only then are send
//! tokens issued; the receiver rejects any transfer without one.
//!
//! Pairing is symmetric: one accept issues tokens in both directions, so
//! either machine can send afterwards.

use vstd::prelude::*;
use vstd::utf8::encode_utf8;

use crate::digest::{blake3_digest, blake3_hash};
use crate::protocol::{ControlMsg, MsgView, PROTOCOL_VERSION};
use crate::text::{digit, digits_value};

verus! {

// ---- the confirmation code ----

/// The text whose digest the code comes from.
pub open spec fn pair_text(nonce_a: Seq<char>, nonce_b: Seq<char>) -> Seq<char> {
    "caybul-pair:"@ + nonce_a + ":"@ + nonce_b
}

/// The number of a digest: its first four bytes, least significant first,
/// reduced to six decimal digits.
pub open spec fn code_number(digest: Seq<u8>) -> int {
    (digest[0] + digest[1] * 256 + digest[2] * 65536 + digest[3] * 16777216) % 1000000
}

/// A number below a million in six decimal digits, with leading zeros.
pub open spec fn six_digits(n: int) -> Seq<char> {
    seq![
        digit(n / 100000 % 10),
        digit(n / 10000 % 10),
        digit(n / 1000 % 10),
        digit(n / 100 % 10),
        digit(n / 10 % 10),
        digit(n % 10),
    ]
}

/// The code that two nonces give.
pub open spec fn code_of(nonce_a: Seq<char>, nonce_b: Seq<char>) -> Seq<char> {
    six_digits(code_number(blake3_digest(encode_utf8(pair_text(nonce_a, nonce_b)))))
}

/// The code has six decimal digits, and tells all of a million numbers apart.
pub proof fn lemma_six_digits(n: int)
    requires
        0 <= n < 1000000,
    ensures
        six_digits(n).len() == 6,
        forall|i: int| 0 <= i < 6 ==> crate::text::is_digit(#[trigger] six_digits(n)[i]),
        digits_value(six_digits(n)) == n,
{
    let s = six_digits(n);
    let s1 = seq![s[0]];
    let s2 = s1.push(s[1]);
    let s3 = s2.push(s[2]);
    let s4 = s3.push(s[3]);
    let s5 = s4.push(s[4]);
    assert(s1.drop_last() =~= Seq::<char>::empty());
    assert(digits_value(s1.drop_last()) == 0);
    assert(digits_value(s1) == n / 100000);
    assert(s2.drop_last() =~= s1);
    assert(digits_value(s2) == n / 10000);
    assert(s3.drop_last() =~= s2);
    assert(digits_value(s3) == n / 1000);
    assert(s4.drop_last() =~= s3);
    assert(digits_value(s4) == n / 100);
    assert(s5.drop_last() =~= s4);
    assert(digits_value(s5) == n / 10);
    assert(s.drop_last() =~= s5);
}

/// The code of a digest.
pub fn code_from_digest(digest: &[u8; 32]) -> (r: String)
    ensures
        r@ == six_digits(code_number(digest@)),
{
    let raw: u32 = digest[0] as u32 + digest[1] as u32 * 256 + digest[2] as u32 * 65536
        + digest[3] as u32 * 16777216;
    let n: u32 = raw % 1000000;
    let mut s = String::new();
    s.push((48u8 + (n / 100000 % 10) as u8) as char);
    s.push((48u8 + (n / 10000 % 10) as u8) as char);
    s.push((48u8 + (n / 1000 % 10) as u8) as char);
    s.push((48u8 + (n / 100 % 10) as u8) as char);
    s.push((48u8 + (n / 10 % 10) as u8) as char);
    s.push((48u8 + (n % 10) as u8) as char);
    assert(s@ =~= six_digits(n as int));
    s
}

/// Derives the shared 6-digit confirmation code from both nonces.
pub fn pair_code(nonce_a: &str, nonce_b: &str) -> (r: String)
    ensures
        r@ == code_of(nonce_a@, nonce_b@),
{
    let mut s = "caybul-pair:".to_string();
    s.append(nonce_a);
    s.append(":");
    s.append(nonce_b);
    let digest = blake3_hash(s.as_str().as_bytes());
    code_from_digest(&digest)
}

// ---- the side that asks ----

/// How long the requester waits for the other user to press Accept, in seconds.
pub const PAIR_ACCEPT_TIMEOUT: u64 = 120;

/// What a completed pairing gives the side that asked.
#[derive(Debug, Clone)]
pub struct PairResult {
    pub peer_name: String,
    /// Token we present when sending to the peer.
    pub send_token: String,
    /// Token the peer will present when sending to us; to be registered with our
    /// own receiver.
    pub their_send_token: String,
}

/// Why a pairing came to nothing.
#[derive(Debug)]
pub enum PairError {
    /// The request was turned down before anyone was asked.
    Rejected(String),
    /// The other user declined.
    Declined(String),
    /// The reply is not one that belongs here.
    Unexpected(ControlMsg),
    /// The connection broke or nobody answered in time.
    NoAnswer,
}

impl PairError {
    /// The error in words; `shown` is how an unexpected message reads.
    pub fn message(&self, shown: &str) -> (r: String)
        ensures
            r@ == match self {
                PairError::Rejected(why) => "pairing rejected: "@ + why@,
                PairError::Declined(why) => "pairing declined: "@ + why@,
                PairError::Unexpected(_) => "unexpected pairing reply: "@ + shown@,
                PairError::NoAnswer => "no answer from the other device (pairing timed out)"@,
            },
    {
        match self {
            PairError::Rejected(why) => {
                let mut s = "pairing rejected: ".to_string();
                s.append(why.as_str());
                s
            },
            PairError::Declined(why) => {
                let mut s = "pairing declined: ".to_string();
                s.append(why.as_str());
                s
            },
            PairError::Unexpected(_) => {
                let mut s = "unexpected pairing reply: ".to_string();
                s.append(shown);
                s
            },
            PairError::NoAnswer => "no answer from the other device (pairing timed out)".to_string(),
        }
    }
}

/// The first message of a pairing.
pub fn pair_request(my_name: &str, nonce: &str, listen_port: u16) -> (r: ControlMsg)
    ensures
        r@ == (MsgView::PairRequest {
            version: PROTOCOL_VERSION,
            name: my_name@,
            nonce_hex: nonce@,
            listen_port,
        }),
{
    ControlMsg::PairRequest {
        version: PROTOCOL_VERSION,
        name: my_name.to_string(),
        nonce_hex: nonce.to_string(),
        listen_port,
    }
}

/// The reply that both sides derive the code from.
pub open spec fn challenge_msg(name: Seq<char>, nonce: Seq<char>) -> MsgView {
    MsgView::PairChallenge { name, nonce_hex: nonce }
}

/// The code that the side that asked shows, if the reply lets it show one.
pub open spec fn requester_code(nonce: Seq<char>, reply: MsgView) -> Option<Seq<char>> {
    match reply {
        MsgView::PairChallenge { nonce_hex, .. } => Some(code_of(nonce, nonce_hex)),
        _ => None,
    }
}

/// Both sides show the same code: what the requester derives from the reply is
/// what the accepter derived when sending it.
pub proof fn lemma_same_code(name: Seq<char>, requester_nonce: Seq<char>, accepter_nonce: Seq<char>)
    ensures
        requester_code(requester_nonce, challenge_msg(name, accepter_nonce)) == Some(
            code_of(requester_nonce, accepter_nonce),
        ),
{
}

/// Takes the reply to a pair request: the peer's name and the code to show.
pub fn on_challenge(nonce: &str, reply: ControlMsg) -> (r: Result<(String, String), PairError>)
    ensures
        match reply@ {
            MsgView::PairChallenge { name, nonce_hex } => r matches Ok(p) && p.0@ == name && Some(
                p.1@,
            ) == requester_code(nonce@, reply@),
            MsgView::PairReject { reason } => r matches Err(PairError::Rejected(why)) && why@
                == reason,
            _ => r matches Err(PairError::Unexpected(m)) && m == reply,
        },
{
    match reply {
        ControlMsg::PairChallenge { name, nonce_hex } => {
            let code = pair_code(nonce, nonce_hex.as_str());
            Ok((name, code))
        },
        ControlMsg::PairReject { reason } => Err(PairError::Rejected(reason)),
        other => Err(PairError::Unexpected(other)),
    }
}

/// Takes the answer of the other user; `None` when none came.
pub fn on_pair_answer(peer_name: String, answer: Option<ControlMsg>) -> (r: Result<
    PairResult,
    PairError,
>)
    ensures
        match answer {
            Some(m) => match m@ {
                MsgView::PairAccept { token_for_requester, token_for_accepter } => r matches Ok(p)
                    && p.peer_name@ == peer_name@ && p.send_token@ == token_for_requester
                    && p.their_send_token@ == token_for_accepter,
                MsgView::PairReject { reason } => r matches Err(PairError::Declined(why)) && why@
                    == reason,
                _ => r matches Err(PairError::Unexpected(o)) && o == m,
            },
            None => r matches Err(PairError::NoAnswer),
        },
{
    match answer {
        Some(ControlMsg::PairAccept { token_for_requester, token_for_accepter }) => Ok(
            PairResult {
                peer_name,
                send_token: token_for_requester,
                their_send_token: token_for_accepter,
            },
        ),
        Some(ControlMsg::PairReject { reason }) => Err(PairError::Declined(reason)),
        Some(other) => Err(PairError::Unexpected(other)),
        None => Err(PairError::NoAnswer),
    }
}

/// Tells the peer that we are disconnecting, so that it drops the pairing too.
pub fn unpair(send_token: &str) -> (r: ControlMsg)
    ensures
        r@ == (MsgView::Unpair { pair_token: send_token@ }),
{
    ControlMsg::Unpair { pair_token: send_token.to_string() }
}

} // verus!
