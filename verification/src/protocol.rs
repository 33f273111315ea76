//! The messages of the wire and how one is framed.

use vstd::prelude::*;

verus! {

pub const PROTOCOL_VERSION: u32 = 1;

pub const DEFAULT_PORT: u16 = 45821;

pub const DISCOVERY_PORT: u16 = 45820;

/// The chunk size of a transfer. It is carried in the handshake so that it can
/// change later without breaking resume metadata.
pub const CHUNK_SIZE: u64 = 4194304;

/// The largest frame or payload that is read.
pub const MAX_FRAME: usize = 33554432;

/// One file of a manifest.
#[derive(Debug)]
pub struct FileEntry {
    /// Relative path with '/' separators, e.g. "photos/2026/img.jpg".
    pub rel_path: String,
    pub size: u64,
}

impl Clone for FileEntry {
    fn clone(&self) -> (r: Self)
        ensures
            r == *self,
    {
        FileEntry { rel_path: self.rel_path.clone(), size: self.size }
    }
}

/// Which chunks of a file the receiver has from an earlier run.
#[derive(Debug, Clone)]
pub struct ResumeInfo {
    pub file_idx: u32,
    /// Bitmap (hex) of the chunks that are there.
    pub have_bitmap_hex: String,
}

/// A file of a manifest, as its contracts see it.
pub struct EntryView {
    pub rel_path: Seq<char>,
    pub size: u64,
}

impl View for FileEntry {
    type V = EntryView;

    open spec fn view(&self) -> EntryView {
        EntryView { rel_path: self.rel_path@, size: self.size }
    }
}

/// What the receiver has of a file, as its contracts see it.
pub struct ResumeView {
    pub file_idx: u32,
    pub have_bitmap_hex: Seq<char>,
}

impl View for ResumeInfo {
    type V = ResumeView;

    open spec fn view(&self) -> ResumeView {
        ResumeView { file_idx: self.file_idx, have_bitmap_hex: self.have_bitmap_hex@ }
    }
}

/// The files of a manifest, as contracts see them.
pub open spec fn entries(files: Seq<FileEntry>) -> Seq<EntryView> {
    files.map_values(|f: FileEntry| f@)
}

/// The resume list, as contracts see it.
pub open spec fn resumes(list: Seq<ResumeInfo>) -> Seq<ResumeView> {
    list.map_values(|r: ResumeInfo| r@)
}

/// Everything one side can say to the other.
#[derive(Debug)]
#[allow(inconsistent_fields)]
pub enum ControlMsg {
    /// Ask the other device to pair. `listen_port` is the requester's own
    /// listener (0 if it has none), so the accepter can send back later.
    PairRequest { version: u32, name: String, nonce_hex: String, listen_port: u16 },
    /// Immediate reply so both sides can derive and display the same code.
    PairChallenge { name: String, nonce_hex: String },
    /// Sent after the accepter's user confirms. Two tokens: one for the
    /// requester to send with, one for the accepter to send back with.
    PairAccept { token_for_requester: String, token_for_accepter: String },
    PairReject { reason: String },
    /// Sent when a user disconnects: proves identity with the pair token so
    /// the other device drops the pairing too.
    Unpair { pair_token: String },
    /// Throughput probe: after Ok, `len` junk bytes follow on the same
    /// connection; the receiver discards them and replies Done.
    SpeedProbe { pair_token: String, len: u64 },
    SpeedProbeOk,
    SpeedProbeDone,
    Hello {
        version: u32,
        sender_name: String,
        pair_token: String,
        chunk_size: u64,
        files: Vec<FileEntry>,
    },
    Accept { receiver_name: String, token: String, resume: Vec<ResumeInfo> },
    Reject { reason: String },
    DataAuth { token: String },
    DataAuthOk,
    /// Followed on the wire by exactly `len` raw payload bytes.
    ChunkHeader { file_idx: u32, chunk_idx: u64, len: u32, hash_hex: String },
    ChunkAck { file_idx: u32, chunk_idx: u64, ok: bool },
    FileDone { file_idx: u32, ok: bool, message: String },
    AllDone,
}

/// A message, as its contracts see it: every text by its characters.
#[allow(inconsistent_fields)]
pub enum MsgView {
    PairRequest { version: u32, name: Seq<char>, nonce_hex: Seq<char>, listen_port: u16 },
    PairChallenge { name: Seq<char>, nonce_hex: Seq<char> },
    PairAccept { token_for_requester: Seq<char>, token_for_accepter: Seq<char> },
    PairReject { reason: Seq<char> },
    Unpair { pair_token: Seq<char> },
    SpeedProbe { pair_token: Seq<char>, len: u64 },
    SpeedProbeOk,
    SpeedProbeDone,
    Hello {
        version: u32,
        sender_name: Seq<char>,
        pair_token: Seq<char>,
        chunk_size: u64,
        files: Seq<EntryView>,
    },
    Accept { receiver_name: Seq<char>, token: Seq<char>, resume: Seq<ResumeView> },
    Reject { reason: Seq<char> },
    DataAuth { token: Seq<char> },
    DataAuthOk,
    ChunkHeader { file_idx: u32, chunk_idx: u64, len: u32, hash_hex: Seq<char> },
    ChunkAck { file_idx: u32, chunk_idx: u64, ok: bool },
    FileDone { file_idx: u32, ok: bool, message: Seq<char> },
    AllDone,
}

impl View for ControlMsg {
    type V = MsgView;

    open spec fn view(&self) -> MsgView {
        match *self {
            ControlMsg::PairRequest { version, name, nonce_hex, listen_port } =>
                MsgView::PairRequest { version, name: name@, nonce_hex: nonce_hex@, listen_port },
            ControlMsg::PairChallenge { name, nonce_hex } => MsgView::PairChallenge {
                name: name@,
                nonce_hex: nonce_hex@,
            },
            ControlMsg::PairAccept { token_for_requester, token_for_accepter } =>
                MsgView::PairAccept {
                token_for_requester: token_for_requester@,
                token_for_accepter: token_for_accepter@,
            },
            ControlMsg::PairReject { reason } => MsgView::PairReject { reason: reason@ },
            ControlMsg::Unpair { pair_token } => MsgView::Unpair { pair_token: pair_token@ },
            ControlMsg::SpeedProbe { pair_token, len } => MsgView::SpeedProbe {
                pair_token: pair_token@,
                len,
            },
            ControlMsg::SpeedProbeOk => MsgView::SpeedProbeOk,
            ControlMsg::SpeedProbeDone => MsgView::SpeedProbeDone,
            ControlMsg::Hello { version, sender_name, pair_token, chunk_size, files } =>
                MsgView::Hello {
                version,
                sender_name: sender_name@,
                pair_token: pair_token@,
                chunk_size,
                files: entries(files@),
            },
            ControlMsg::Accept { receiver_name, token, resume } => MsgView::Accept {
                receiver_name: receiver_name@,
                token: token@,
                resume: resumes(resume@),
            },
            ControlMsg::Reject { reason } => MsgView::Reject { reason: reason@ },
            ControlMsg::DataAuth { token } => MsgView::DataAuth { token: token@ },
            ControlMsg::DataAuthOk => MsgView::DataAuthOk,
            ControlMsg::ChunkHeader { file_idx, chunk_idx, len, hash_hex } =>
                MsgView::ChunkHeader { file_idx, chunk_idx, len, hash_hex: hash_hex@ },
            ControlMsg::ChunkAck { file_idx, chunk_idx, ok } => MsgView::ChunkAck {
                file_idx,
                chunk_idx,
                ok,
            },
            ControlMsg::FileDone { file_idx, ok, message } => MsgView::FileDone {
                file_idx,
                ok,
                message: message@,
            },
            ControlMsg::AllDone => MsgView::AllDone,
        }
    }
}

// ---- framing ----

/// Four bytes, the most significant first.
pub open spec fn be32(n: u32) -> Seq<u8> {
    seq![
        (n / 16777216) as u8,
        (n / 65536 % 256) as u8,
        (n / 256 % 256) as u8,
        (n % 256) as u8,
    ]
}

/// The number in four bytes, the most significant first.
pub open spec fn from_be32(b: Seq<u8>) -> int {
    b[0] * 16777216 + b[1] * 65536 + b[2] * 256 + b[3]
}

/// The bytes that carry a message body on the wire: its length in four bytes,
/// then the body.
pub open spec fn framed(body: Seq<u8>) -> Seq<u8> {
    be32(body.len() as u32) + body
}

/// The bytes that carry a message body on the wire.
pub fn write_msg(body: &Vec<u8>) -> (r: Vec<u8>)
    ensures
        r@ == framed(body@),
{
    let n: u32 = #[verifier::truncate] (body.len() as u32);
    let mut out: Vec<u8> = Vec::new();
    out.push((n / 16777216) as u8);
    out.push((n / 65536 % 256) as u8);
    out.push((n / 256 % 256) as u8);
    out.push((n % 256) as u8);
    assert(out@ =~= be32(n));
    let mut i: usize = 0;
    while i < body.len()
        invariant
            i <= body@.len(),
            out@ == be32(n) + body@.take(i as int),
        decreases body@.len() - i,
    {
        out.push(body[i]);
        assert(be32(n) + body@.take(i + 1) =~= (be32(n) + body@.take(i as int)).push(
            body@[i as int],
        ));
        i = i + 1;
    }
    assert(body@.take(body@.len() as int) =~= body@);
    out
}

/// A frame that claims more bytes than are ever read.
#[derive(Debug, Clone, Copy, PartialEq, Eq, Structural)]
pub struct FrameTooLarge {
    pub len: u32,
}

impl FrameTooLarge {
    /// The error in words.
    pub fn message(&self) -> (r: String)
        ensures
            r@ == "control frame too large ("@ + crate::text::dec(self.len as nat) + " bytes)"@,
    {
        let mut s = "control frame too large (".to_string();
        s.append(crate::text::dec_u64(self.len as u64).as_str());
        s.append(" bytes)");
        s
    }
}

/// The length of the body that a frame's first four bytes announce; a length
/// beyond `MAX_FRAME` is refused.
pub fn read_msg_len(header: [u8; 4]) -> (r: Result<usize, FrameTooLarge>)
    ensures
        from_be32(header@) <= MAX_FRAME ==> (r matches Ok(n) && n == from_be32(header@)),
        from_be32(header@) > MAX_FRAME ==> (r matches Err(e) && e.len == from_be32(
            header@,
        )),
{
    let n: u32 = header[0] as u32 * 16777216 + header[1] as u32 * 65536 + header[2] as u32 * 256
        + header[3] as u32;
    if n as usize <= MAX_FRAME {
        Ok(n as usize)
    } else {
        Err(FrameTooLarge { len: n })
    }
}

/// A body that may be sent comes back whole: the first four bytes of its frame
/// announce its length, and the body follows them.
pub proof fn lemma_frame_round_trip(body: Seq<u8>)
    requires
        body.len() <= MAX_FRAME,
    ensures
        framed(body).len() == 4 + body.len(),
        from_be32(framed(body).take(4)) == body.len(),
        framed(body).skip(4) == body,
{
    let n = body.len() as u32;
    assert(be32(n).len() == 4);
    assert(framed(body).take(4) =~= be32(n));
    assert(framed(body).skip(4) =~= body);
}

} // verus!
