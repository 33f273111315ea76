//! What a receiver tells the program around it.

use vstd::prelude::*;

use crate::net::SocketAddr;

verus! {

/// Something that happened on the receiving side.
#[derive(Debug)]
pub enum Event {
    Listening { port: u16, name: String },
    /// A pair request was accepted. `peer_addr` is where the peer's own
    /// listener lives (None if it has none); `send_token` is what WE would
    /// present when sending to them.
    Paired { peer_name: String, peer_addr: Option<SocketAddr>, send_token: String },
    /// The paired device disconnected from its side.
    Unpaired,
    SessionStarted { sender: String, files: usize, total_bytes: u64, resumed_bytes: u64 },
    FileCompleted { rel_path: String, bytes: u64 },
    /// Emitted as verified chunks land.
    Progress { done_bytes: u64, total_bytes: u64 },
    SessionEnded { ok: bool, message: String },
}

/// An event, as contracts see it.
pub enum EventView {
    Listening { port: u16, name: Seq<char> },
    Paired { peer_name: Seq<char>, peer_addr: Option<SocketAddr>, send_token: Seq<char> },
    Unpaired,
    SessionStarted { sender: Seq<char>, files: usize, total_bytes: u64, resumed_bytes: u64 },
    FileCompleted { rel_path: Seq<char>, bytes: u64 },
    Progress { done_bytes: u64, total_bytes: u64 },
    SessionEnded { ok: bool, message: Seq<char> },
}

impl View for Event {
    type V = EventView;

    open spec fn view(&self) -> EventView {
        match *self {
            Event::Listening { port, name } => EventView::Listening { port, name: name@ },
            Event::Paired { peer_name, peer_addr, send_token } => EventView::Paired {
                peer_name: peer_name@,
                peer_addr,
                send_token: send_token@,
            },
            Event::Unpaired => EventView::Unpaired,
            Event::SessionStarted { sender, files, total_bytes, resumed_bytes } =>
                EventView::SessionStarted { sender: sender@, files, total_bytes, resumed_bytes },
            Event::FileCompleted { rel_path, bytes } => EventView::FileCompleted {
                rel_path: rel_path@,
                bytes,
            },
            Event::Progress { done_bytes, total_bytes } => EventView::Progress {
                done_bytes,
                total_bytes,
            },
            Event::SessionEnded { ok, message } => EventView::SessionEnded {
                ok,
                message: message@,
            },
        }
    }
}

} // verus!
