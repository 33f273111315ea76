//! Receiver: answers pair requests, accepts a manifest from a paired sender,
//! and takes its verified chunks over several data connections.
//!
//! The program around it owns the sockets and the files. It hands every first
//! message of a connection to [`Receiver::open`] and does what comes back.

use vstd::prelude::*;

use crate::net::{IpAddr, SocketAddr};
use crate::pair::{challenge_msg, code_of, pair_code};
use crate::protocol::{
    entries, ControlMsg, EntryView, FileEntry, MsgView, MAX_FRAME, PROTOCOL_VERSION,
};
use crate::text::{dec, dec_u64, same};
use crate::transfer::events::{Event, EventView};
use crate::transfer::session::{resume_of, ChunkStep, Session};
use crate::transfer::tokens::TokenSet;

verus! {

/// The longest throughput probe that is taken.
pub const MAX_PROBE: u64 = 536870912;

/// What a receiver knows between connections.
#[derive(Debug)]
pub struct Receiver {
    /// The name announced to senders.
    pub name: String,
    pub port: u16,
    /// Valid send tokens.
    pub accepted: TokenSet,
    /// The token of the transfer in progress, if there is one.
    pub active: Option<String>,
}

/// A receiver, as contracts see it.
pub struct ReceiverView {
    pub name: Seq<char>,
    pub port: u16,
    pub accepted: Set<Seq<char>>,
    pub active: Option<Seq<char>>,
}

impl View for Receiver {
    type V = ReceiverView;

    open spec fn view(&self) -> ReceiverView {
        ReceiverView {
            name: self.name@,
            port: self.port,
            accepted: self.accepted@,
            active: match self.active {
                Some(t) => Some(t@),
                None => None,
            },
        }
    }
}

/// What the first message of a connection leads to.
#[derive(Debug)]
pub enum Opening {
    /// Say this and close.
    Answer(ControlMsg),
    /// Go on with pairing: send a challenge, then ask for consent.
    Pair { name: String, nonce_hex: String, listen_port: u16 },
    /// The pairing is gone on this side too; close.
    Unpaired,
    /// Say that the probe may come, discard so many bytes, say that they came.
    Probe { len: u64 },
    /// The probe is too large: close.
    ProbeTooLarge,
    /// Prepare the destination for these files and start the session.
    Prepare { sender_name: String, chunk_size: u64, files: Vec<FileEntry> },
    /// The connection belongs to the transfer in progress: say so and take its
    /// chunks.
    Data,
    /// Close without a word.
    Close,
}

/// What the first message leads to, as contracts see it.
pub enum OpeningView {
    Answer(MsgView),
    Pair { name: Seq<char>, nonce_hex: Seq<char>, listen_port: u16 },
    Unpaired,
    Probe { len: u64 },
    ProbeTooLarge,
    Prepare { sender_name: Seq<char>, chunk_size: u64, files: Seq<EntryView> },
    Data,
    Close,
}

impl View for Opening {
    type V = OpeningView;

    open spec fn view(&self) -> OpeningView {
        match *self {
            Opening::Answer(m) => OpeningView::Answer(m@),
            Opening::Pair { name, nonce_hex, listen_port } => OpeningView::Pair {
                name: name@,
                nonce_hex: nonce_hex@,
                listen_port,
            },
            Opening::Unpaired => OpeningView::Unpaired,
            Opening::Probe { len } => OpeningView::Probe { len },
            Opening::ProbeTooLarge => OpeningView::ProbeTooLarge,
            Opening::Prepare { sender_name, chunk_size, files } => OpeningView::Prepare {
                sender_name: sender_name@,
                chunk_size,
                files: entries(files@),
            },
            Opening::Data => OpeningView::Data,
            Opening::Close => OpeningView::Close,
        }
    }
}

/// How two versions that do not match are told apart.
pub open spec fn version_text(theirs: u32) -> Seq<char> {
    "protocol version mismatch (ours "@ + dec(PROTOCOL_VERSION as nat) + ", theirs "@ + dec(
        theirs as nat,
    ) + ")"@
}

fn version_reason(theirs: u32) -> (r: String)
    ensures
        r@ == version_text(theirs),
{
    let mut s = "protocol version mismatch (ours ".to_string();
    s.append(dec_u64(PROTOCOL_VERSION as u64).as_str());
    s.append(", theirs ");
    s.append(dec_u64(theirs as u64).as_str());
    s.append(")");
    s
}

/// What the first message of a connection leads to. Only a holder of a send
/// token gets a probe or a transfer, and only one transfer runs at a time.
pub open spec fn opening(r: ReceiverView, msg: MsgView) -> OpeningView {
    match msg {
        MsgView::PairRequest { version, name, nonce_hex, listen_port } => if version
            != PROTOCOL_VERSION {
            OpeningView::Answer(MsgView::PairReject { reason: version_text(version) })
        } else {
            OpeningView::Pair { name, nonce_hex, listen_port }
        },
        MsgView::Unpair { pair_token } => if r.accepted.contains(pair_token) {
            OpeningView::Unpaired
        } else {
            OpeningView::Close
        },
        MsgView::SpeedProbe { pair_token, len } => if !r.accepted.contains(pair_token) {
            OpeningView::Answer(MsgView::Reject { reason: "not paired"@ })
        } else if len > MAX_PROBE {
            OpeningView::ProbeTooLarge
        } else {
            OpeningView::Probe { len }
        },
        MsgView::Hello { version, sender_name, pair_token, chunk_size, files } =>
            if !r.accepted.contains(pair_token) {
            OpeningView::Answer(
                MsgView::Reject { reason: "not paired — pair with this device first"@ },
            )
        } else if version != PROTOCOL_VERSION {
            OpeningView::Answer(MsgView::Reject { reason: version_text(version) })
        } else if chunk_size == 0 || chunk_size > MAX_FRAME {
            OpeningView::Answer(MsgView::Reject { reason: "unacceptable chunk size"@ })
        } else if r.active is Some {
            OpeningView::Answer(
                MsgView::Reject { reason: "another transfer is already in progress"@ },
            )
        } else {
            OpeningView::Prepare { sender_name, chunk_size, files }
        },
        MsgView::DataAuth { token } => if r.active == Some(token) {
            OpeningView::Data
        } else {
            OpeningView::Answer(MsgView::Reject { reason: "bad or expired token"@ })
        },
        _ => OpeningView::Close,
    }
}

/// What the first message does to the receiver: a paired device that disconnects
/// drops the whole pairing, and nothing else changes anything.
pub open spec fn after_opening(r: ReceiverView, msg: MsgView) -> ReceiverView {
    if opening(r, msg) is Unpaired {
        ReceiverView { accepted: Set::empty(), ..r }
    } else {
        r
    }
}

fn reject(reason: &str) -> (r: Opening)
    ensures
        r@ == OpeningView::Answer(MsgView::Reject { reason: reason@ }),
{
    Opening::Answer(ControlMsg::Reject { reason: reason.to_string() })
}

impl Receiver {
    /// A receiver that nothing is paired with.
    pub fn new(name: String, port: u16) -> (r: Receiver)
        ensures
            r.accepted.wf(),
            r@ == (ReceiverView {
                name: name@,
                port,
                accepted: Set::empty(),
                active: None,
            }),
    {
        Receiver { name, port, accepted: TokenSet::new(), active: None }
    }

    /// Decides what the first message of a connection leads to.
    pub fn open(&mut self, msg: ControlMsg) -> (r: Opening)
        requires
            old(self).accepted.wf(),
        ensures
            final(self).accepted.wf(),
            r@ == opening(old(self)@, msg@),
            final(self)@ == after_opening(old(self)@, msg@),
    {
        match msg {
            ControlMsg::PairRequest { version, name, nonce_hex, listen_port } => {
                if version != PROTOCOL_VERSION {
                    return Opening::Answer(
                        ControlMsg::PairReject { reason: version_reason(version) },
                    );
                }
                Opening::Pair { name, nonce_hex, listen_port }
            },
            ControlMsg::Unpair { pair_token } => {
                // Only a currently paired device may unpair us (the token
                // proves it). Single-pairing model: drop everything.
                let ghost before = self.accepted@;
                if self.accepted.remove(pair_token.as_str()) {
                    self.accepted.clear();
                    Opening::Unpaired
                } else {
                    assert(before.remove(pair_token@) =~= before);
                    Opening::Close
                }
            },
            ControlMsg::SpeedProbe { pair_token, len } => {
                if !self.accepted.contains(pair_token.as_str()) {
                    return reject("not paired");
                }
                if len > MAX_PROBE {
                    return Opening::ProbeTooLarge;
                }
                Opening::Probe { len }
            },
            ControlMsg::Hello { version, sender_name, pair_token, chunk_size, files } => {
                if !self.accepted.contains(pair_token.as_str()) {
                    return reject("not paired — pair with this device first");
                }
                if version != PROTOCOL_VERSION {
                    return Opening::Answer(ControlMsg::Reject { reason: version_reason(version) });
                }
                if chunk_size == 0 || chunk_size > MAX_FRAME as u64 {
                    return reject("unacceptable chunk size");
                }
                if self.active.is_some() {
                    return reject("another transfer is already in progress");
                }
                Opening::Prepare { sender_name, chunk_size, files }
            },
            ControlMsg::DataAuth { token } => {
                let known = match &self.active {
                    Some(t) => same(t.as_str(), token.as_str()),
                    None => false,
                };
                if known {
                    Opening::Data
                } else {
                    reject("bad or expired token")
                }
            },
            _ => Opening::Close,
        }
    }
}

// ---- pairing ----

/// Consent to a pair request: a direct cable is consent, everything else asks.
/// `ask` shows the peer's name and the code and waits for the user.
pub fn pair_consent<F: FnOnce(&str, &str) -> bool>(
    cable: bool,
    name: &str,
    code: &str,
    ask: F,
) -> (r: bool)
    requires
        !cable ==> call_requires(ask, (name, code)),
    ensures
        cable ==> r,
        !cable ==> call_ensures(ask, (name, code), r),
{
    if cable {
        true
    } else {
        ask(name, code)
    }
}

/// Where the peer's own listener is, if it has one.
pub open spec fn listener_of(peer_ip: Option<IpAddr>, listen_port: u16) -> Option<SocketAddr> {
    match peer_ip {
        Some(ip) => if listen_port > 0 {
            Some(SocketAddr::at(ip, listen_port))
        } else {
            None
        },
        None => None,
    }
}

impl Receiver {
    /// The reply to a pair request, and the code that both sides show.
    pub fn challenge(&self, their_nonce: &str, my_nonce: &str) -> (r: (ControlMsg, String))
        ensures
            r.0@ == challenge_msg(self@.name, my_nonce@),
            r.1@ == code_of(their_nonce@, my_nonce@),
    {
        let code = pair_code(their_nonce, my_nonce);
        (
            ControlMsg::PairChallenge { name: self.name.clone(), nonce_hex: my_nonce.to_string() },
            code,
        )
    }

    /// Ends a pairing. With two fresh tokens the request is accepted: the first is
    /// for the requester and is honoured from now on, the second is what we
    /// present when sending back. Without tokens it is declined.
    pub fn settle_pair(
        &mut self,
        peer_name: String,
        peer_ip: Option<IpAddr>,
        listen_port: u16,
        tokens: Option<(String, String)>,
    ) -> (r: (ControlMsg, Option<Event>))
        requires
            old(self).accepted.wf(),
        ensures
            final(self).accepted.wf(),
            match tokens {
                Some((for_requester, for_accepter)) => {
                    &&& final(self)@ == (ReceiverView {
                        accepted: old(self)@.accepted.insert(for_requester@),
                        ..old(self)@
                    })
                    &&& r.0@ == (MsgView::PairAccept {
                        token_for_requester: for_requester@,
                        token_for_accepter: for_accepter@,
                    })
                    &&& r.1 matches Some(e)
                    &&& e@ == (EventView::Paired {
                        peer_name: peer_name@,
                        peer_addr: listener_of(peer_ip, listen_port),
                        send_token: for_accepter@,
                    })
                },
                None => {
                    &&& final(self)@ == old(self)@
                    &&& r.0@ == (MsgView::PairReject { reason: "declined on the other device"@ })
                    &&& r.1 is None
                },
            },
    {
        match tokens {
            Some((for_requester, for_accepter)) => {
                self.accepted.insert(for_requester.clone());
                let peer_addr = match peer_ip {
                    Some(ip) => if listen_port > 0 {
                        Some(SocketAddr::new(ip, listen_port))
                    } else {
                        None
                    },
                    None => None,
                };
                (
                    ControlMsg::PairAccept {
                        token_for_requester: for_requester,
                        token_for_accepter: for_accepter.clone(),
                    },
                    Some(Event::Paired { peer_name, peer_addr, send_token: for_accepter }),
                )
            },
            None => (
                ControlMsg::PairReject { reason: "declined on the other device".to_string() },
                None,
            ),
        }
    }

    /// Honours a token that we asked a peer to send with: the other direction of a
    /// pairing that we started.
    pub fn register(&mut self, token: String)
        requires
            old(self).accepted.wf(),
        ensures
            final(self).accepted.wf(),
            final(self)@ == (ReceiverView {
                accepted: old(self)@.accepted.insert(token@),
                ..old(self)@
            }),
    {
        self.accepted.insert(token);
    }

    /// Honours no token any more.
    pub fn forget_all(&mut self)
        requires
            old(self).accepted.wf(),
        ensures
            final(self).accepted.wf(),
            final(self)@ == (ReceiverView { accepted: Set::empty(), ..old(self)@ }),
    {
        self.accepted.clear();
    }

    // ---- the transfer in progress ----

    /// Starts a session: from now on its token lets data connections in. Gives
    /// the reply to the sender and what to tell the program.
    pub fn start_session(&mut self, session: &Session, sender_name: String) -> (r: (
        ControlMsg,
        Event,
    ))
        requires
            old(self).accepted.wf(),
        ensures
            final(self).accepted.wf(),
            final(self)@ == (ReceiverView { active: Some(session.token@), ..old(self)@ }),
            r.0@ == (MsgView::Accept {
                receiver_name: old(self)@.name,
                token: session.token@,
                resume: resume_of(session.files@),
            }),
            r.1@ == (EventView::SessionStarted {
                sender: sender_name@,
                files: session.files@.len() as usize,
                total_bytes: session.total_bytes,
                resumed_bytes: session.received_bytes,
            }),
    {
        self.active = Some(session.token.clone());
        (
            ControlMsg::Accept {
                receiver_name: self.name.clone(),
                token: session.token.clone(),
                resume: session.resume_list(),
            },
            Event::SessionStarted {
                sender: sender_name,
                files: session.files.len(),
                total_bytes: session.total_bytes,
                resumed_bytes: session.received_bytes,
            },
        )
    }

    /// Ends the session, so that another may start. When the control connection
    /// broke off there is something to tell; a session that ran to its end has
    /// told it already.
    pub fn end_session(&mut self, broke_off: bool) -> (r: Option<Event>)
        requires
            old(self).accepted.wf(),
        ensures
            final(self).accepted.wf(),
            final(self)@ == (ReceiverView { active: None, ..old(self)@ }),
            r is Some <==> broke_off,
            r matches Some(e) ==> e@ == (EventView::SessionEnded {
                ok: false,
                message: "sender disconnected; partial files kept for resume"@,
            }),
    {
        self.active = None;
        if broke_off {
            Some(
                Event::SessionEnded {
                    ok: false,
                    message: "sender disconnected; partial files kept for resume".to_string(),
                },
            )
        } else {
            None
        }
    }
}

/// The reply when the destination cannot be prepared.
pub fn cannot_prepare(why: &str) -> (r: ControlMsg)
    ensures
        r@ == (MsgView::Reject { reason: "could not prepare destination: "@ + why@ }),
{
    let mut reason = "could not prepare destination: ".to_string();
    reason.append(why);
    ControlMsg::Reject { reason }
}

// ---- data connections ----

/// What a message on a data connection leads to.
#[derive(Debug)]
pub enum DataStep {
    /// Read `len` bytes of payload, then decide about the chunk.
    Payload { file_idx: u32, chunk_idx: u64, len: usize, hash_hex: String },
    /// The payload is larger than anything we read: close.
    TooLarge,
    /// The connection carries nothing else: close.
    Close,
}

/// Decides what a message on a data connection leads to.
pub fn data_step(msg: ControlMsg) -> (r: DataStep)
    ensures
        match msg@ {
            MsgView::ChunkHeader { file_idx, chunk_idx, len, hash_hex } => if len <= MAX_FRAME {
                r matches DataStep::Payload { file_idx: f, chunk_idx: c, len: n, hash_hex: h } && f
                    == file_idx && c == chunk_idx && n == len && h@ == hash_hex
            } else {
                r is TooLarge
            },
            _ => r is Close,
        },
{
    match msg {
        ControlMsg::ChunkHeader { file_idx, chunk_idx, len, hash_hex } => {
            if len as usize <= MAX_FRAME {
                DataStep::Payload { file_idx, chunk_idx, len: len as usize, hash_hex }
            } else {
                DataStep::TooLarge
            }
        },
        _ => DataStep::Close,
    }
}

/// The sender is told that a chunk is there: it was, or it was to be written and
/// everything that belongs to that went well.
pub open spec fn is_there(step: ChunkStep, stored: bool) -> bool {
    match step {
        ChunkStep::Ack(ok) => ok,
        ChunkStep::Write { .. } => stored,
    }
}

/// The reply to a chunk, from what was decided about it; `stored` tells whether a
/// chunk that was to be written is on disk.
pub fn chunk_ack(file_idx: u32, chunk_idx: u64, step: ChunkStep, stored: bool) -> (r: ControlMsg)
    ensures
        r@ == (MsgView::ChunkAck { file_idx, chunk_idx, ok: is_there(step, stored) }),
{
    let ok = match step {
        ChunkStep::Ack(ok) => ok,
        ChunkStep::Write { .. } => stored,
    };
    ControlMsg::ChunkAck { file_idx, chunk_idx, ok }
}

// ---- what holds of every receiver ----

/// Without a send token there is neither probe nor transfer, whatever the rest
/// of the message says, and the receiver stays as it was.
pub proof fn lemma_unpaired_is_refused(r: ReceiverView, msg: MsgView)
    requires
        match msg {
            MsgView::Hello { pair_token, .. } => !r.accepted.contains(pair_token),
            MsgView::SpeedProbe { pair_token, .. } => !r.accepted.contains(pair_token),
            MsgView::Unpair { pair_token } => !r.accepted.contains(pair_token),
            _ => false,
        },
    ensures
        after_opening(r, msg) == r,
        msg is Unpair ==> opening(r, msg) is Close,
        msg !is Unpair ==> (opening(r, msg) matches OpeningView::Answer(a) && a is Reject),
{
}

/// A data connection is let in only with the token of the transfer in progress.
pub proof fn lemma_data_needs_session_token(r: ReceiverView, token: Seq<char>)
    ensures
        opening(r, MsgView::DataAuth { token }) is Data <==> r.active == Some(token),
        opening(r, MsgView::DataAuth { token }) !is Data ==> opening(
            r,
            MsgView::DataAuth { token },
        ) == OpeningView::Answer(MsgView::Reject { reason: "bad or expired token"@ }),
{
}

/// A transfer is prepared only while none is in progress.
pub proof fn lemma_one_transfer_at_a_time(r: ReceiverView, msg: MsgView)
    ensures
        opening(r, msg) is Prepare ==> r.active is None,
{
}

/// Pairing gives the right to send: once a request is accepted with
/// `for_requester`, a manifest with that token is prepared, unless a transfer is
/// in progress.
pub proof fn lemma_paired_may_send(
    before: ReceiverView,
    after: ReceiverView,
    for_requester: Seq<char>,
    sender_name: Seq<char>,
    chunk_size: u64,
    files: Seq<EntryView>,
)
    requires
        after.accepted == before.accepted.insert(for_requester),
        after.active is None,
        0 < chunk_size <= MAX_FRAME,
    ensures
        opening(
            after,
            MsgView::Hello {
                version: PROTOCOL_VERSION,
                sender_name,
                pair_token: for_requester,
                chunk_size,
                files,
            },
        ) == (OpeningView::Prepare { sender_name, chunk_size, files }),
{
}

/// Pairing is symmetric: one accept lets either machine send. The accepter honours
/// the token that it gave the requester, the requester the one that it got for the
/// accepter, as long as they are idle.
pub proof fn lemma_pairing_is_symmetric(
    accepter: ReceiverView,
    requester: ReceiverView,
    for_requester: Seq<char>,
    for_accepter: Seq<char>,
    sender_name: Seq<char>,
    chunk_size: u64,
    files: Seq<EntryView>,
)
    requires
        accepter.active is None,
        requester.active is None,
        0 < chunk_size <= MAX_FRAME,
    ensures
        opening(
            ReceiverView { accepted: accepter.accepted.insert(for_requester), ..accepter },
            MsgView::Hello {
                version: PROTOCOL_VERSION,
                sender_name,
                pair_token: for_requester,
                chunk_size,
                files,
            },
        ) == (OpeningView::Prepare { sender_name, chunk_size, files }),
        opening(
            ReceiverView { accepted: requester.accepted.insert(for_accepter), ..requester },
            MsgView::Hello {
                version: PROTOCOL_VERSION,
                sender_name,
                pair_token: for_accepter,
                chunk_size,
                files,
            },
        ) == (OpeningView::Prepare { sender_name, chunk_size, files }),
{
}

/// Disconnecting is for good: after a paired device unpairs, no token is
/// honoured, its own neither.
pub proof fn lemma_unpair_drops_everything(r: ReceiverView, token: Seq<char>, other: Seq<char>)
    requires
        r.accepted.contains(token),
    ensures
        opening(r, MsgView::Unpair { pair_token: token }) is Unpaired,
        !after_opening(r, MsgView::Unpair { pair_token: token }).accepted.contains(other),
{
}

} // verus!
