//! Throughput probe after pairing: a fixed burst of junk bytes goes to the paired
//! peer, which discards them, and the program times it.

use vstd::prelude::*;

use crate::protocol::{ControlMsg, MsgView};

verus! {

/// The bytes of a burst.
pub const PROBE_BYTES: u64 = 33554432;

/// The bytes that are written at once.
pub const PROBE_PIECE: u64 = 1048576;

/// The message that asks for a probe.
pub fn probe_request(pair_token: String) -> (r: ControlMsg)
    ensures
        r@ == (MsgView::SpeedProbe { pair_token: pair_token@, len: PROBE_BYTES }),
{
    ControlMsg::SpeedProbe { pair_token, len: PROBE_BYTES }
}

/// Why there is no probe.
#[derive(Debug)]
pub enum ProbeError {
    /// The peer does not want it.
    Rejected(String),
    /// The reply is not one that belongs here.
    Unexpected(ControlMsg),
}

impl ProbeError {
    /// The error in words; `shown` is how an unexpected message reads.
    pub fn message(&self, shown: &str) -> (r: String)
        ensures
            r@ == match self {
                ProbeError::Rejected(why) => "probe rejected: "@ + why@,
                ProbeError::Unexpected(_) => "unexpected probe reply: "@ + shown@,
            },
    {
        match self {
            ProbeError::Rejected(why) => {
                let mut s = "probe rejected: ".to_string();
                s.append(why.as_str());
                s
            },
            ProbeError::Unexpected(_) => {
                let mut s = "unexpected probe reply: ".to_string();
                s.append(shown);
                s
            },
        }
    }
}

/// Takes the reply to the request: the burst may start, or not.
pub fn on_probe_reply(reply: ControlMsg) -> (r: Result<(), ProbeError>)
    ensures
        match reply@ {
            MsgView::SpeedProbeOk => r is Ok,
            MsgView::Reject { reason } => r matches Err(ProbeError::Rejected(why)) && why@
                == reason,
            _ => r == Err::<(), _>(ProbeError::Unexpected(reply)),
        },
{
    match reply {
        ControlMsg::SpeedProbeOk => Ok(()),
        ControlMsg::Reject { reason } => Err(ProbeError::Rejected(reason)),
        other => Err(ProbeError::Unexpected(other)),
    }
}

/// The bytes to write next, after `sent` of them.
pub open spec fn next_piece(sent: int) -> int {
    if PROBE_BYTES - sent < PROBE_PIECE {
        PROBE_BYTES - sent
    } else {
        PROBE_PIECE as int
    }
}

/// The bytes to write next, or nothing when the burst is over.
pub fn probe_piece(sent: u64) -> (r: Option<u64>)
    ensures
        r is Some <==> sent < PROBE_BYTES,
        r matches Some(n) ==> n == next_piece(sent as int) && 0 < n && sent + n <= PROBE_BYTES,
{
    if sent >= PROBE_BYTES {
        return None;
    }
    let left: u64 = PROBE_BYTES - sent;
    if left < PROBE_PIECE {
        Some(left)
    } else {
        Some(PROBE_PIECE)
    }
}

/// Takes the reply to the burst.
pub fn on_probe_done(reply: ControlMsg) -> (r: Result<(), ProbeError>)
    ensures
        match reply@ {
            MsgView::SpeedProbeDone => r is Ok,
            _ => r == Err::<(), _>(ProbeError::Unexpected(reply)),
        },
{
    match reply {
        ControlMsg::SpeedProbeDone => Ok(()),
        other => Err(ProbeError::Unexpected(other)),
    }
}

} // verus!
