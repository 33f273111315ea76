//! The state of the desktop program, and what events make of it.

use vstd::prelude::*;

use crate::discovery::{peer_views, Peer, PeerView};
use crate::link::{opt_text, recommended_streams, streams_for, LinkKind};
use crate::net::SocketAddr;
use crate::order::{first_such, lemma_first_such, lemma_is_first};
use crate::pair::PairResult;
use crate::text::{add_line, dec, dec_u64, no_lines, split, split_text, texts};
use crate::transfer::events::{Event, EventView};
use crate::transfer::sender::{results, FileResult, ResultView, SendReport};
use crate::util::{human_bytes, shown_bytes};

verus! {

// ---- names ----

/// A name up to its first dot: "rahuls-MacBook-Air.local" is shown as
/// "rahuls-MacBook-Air".
pub open spec fn pretty(name: Seq<char>) -> Seq<char> {
    split(name, '.')[0]
}

/// A name up to its first dot.
pub fn pretty_name(name: &str) -> (r: String)
    ensures
        r@ == pretty(name@),
{
    let parts = split_text(name, '.');
    proof {
        crate::text::lemma_split(name@, '.');
    }
    let ghost all = texts(parts@);
    assert(all[0] == parts@[0]@);
    parts[0].clone()
}

/// What comes behind a count.
pub open spec fn plural(n: int) -> Seq<char> {
    if n == 1 {
        ""@
    } else {
        "s"@
    }
}

fn ending(n: u64) -> (r: &'static str)
    ensures
        r@ == plural(n as int),
{
    if n == 1 {
        ""
    } else {
        "s"
    }
}

// ---- the state ----

/// The device we are connected to.
#[derive(Debug)]
pub struct PairedPeer {
    pub name: String,
    pub addr: SocketAddr,
    pub token: String,
}

/// The same, as contracts see it.
pub struct PairedView {
    pub name: Seq<char>,
    pub addr: SocketAddr,
    pub token: Seq<char>,
}

impl View for PairedPeer {
    type V = PairedView;

    open spec fn view(&self) -> PairedView {
        PairedView { name: self.name@, addr: self.addr, token: self.token@ }
    }
}

impl Clone for PairedPeer {
    fn clone(&self) -> (r: Self)
        ensures
            r == *self,
    {
        PairedPeer { name: self.name.clone(), addr: self.addr, token: self.token.clone() }
    }
}

/// Someone who wants to connect and waits for an answer.
#[derive(Debug)]
pub struct IncomingPair {
    pub name: String,
    pub code: String,
}

/// A connection that we asked for.
#[derive(Debug)]
pub struct OutgoingPair {
    pub peer_label: String,
    pub addr: SocketAddr,
    /// The code to compare, once it is known.
    pub code: Option<String>,
    pub was_cancelled: bool,
}

/// The same, as contracts see it.
pub struct OutgoingView {
    pub peer_label: Seq<char>,
    pub addr: SocketAddr,
    pub code: Option<Seq<char>>,
    pub was_cancelled: bool,
}

impl View for OutgoingPair {
    type V = OutgoingView;

    open spec fn view(&self) -> OutgoingView {
        OutgoingView {
            peer_label: self.peer_label@,
            addr: self.addr,
            code: opt_text(self.code),
            was_cancelled: self.was_cancelled,
        }
    }
}

/// Something to send. `id` is how the program finds the path again; equal paths
/// have equal numbers.
#[derive(Debug)]
pub struct PickedPath {
    pub id: u64,
    pub label: String,
    pub bytes: Option<u64>,
}

/// The same, as contracts see it.
pub struct PickedView {
    pub id: u64,
    pub label: Seq<char>,
    pub bytes: Option<u64>,
}

impl View for PickedPath {
    type V = PickedView;

    open spec fn view(&self) -> PickedView {
        PickedView { id: self.id, label: self.label@, bytes: self.bytes }
    }
}

/// The transfer that is shown.
#[derive(Debug)]
pub enum SendState {
    Idle,
    Running,
    Finished { ok: bool, lines: Vec<String> },
}

/// The same, as contracts see it.
pub enum SendView {
    Idle,
    Running,
    Finished { ok: bool, lines: Seq<Seq<char>> },
}

impl View for SendState {
    type V = SendView;

    open spec fn view(&self) -> SendView {
        match *self {
            SendState::Idle => SendView::Idle,
            SendState::Running => SendView::Running,
            SendState::Finished { ok, lines } => SendView::Finished { ok, lines: texts(lines@) },
        }
    }
}

/// The measurement after pairing.
#[derive(Debug)]
pub enum SpeedState {
    Unknown,
    Testing,
    /// The speed as it is shown.
    Done(String),
    Failed,
}

/// The same, as contracts see it.
pub enum SpeedView {
    Unknown,
    Testing,
    Done(Seq<char>),
    Failed,
}

impl View for SpeedState {
    type V = SpeedView;

    open spec fn view(&self) -> SpeedView {
        match *self {
            SpeedState::Unknown => SpeedView::Unknown,
            SpeedState::Testing => SpeedView::Testing,
            SpeedState::Done(s) => SpeedView::Done(s@),
            SpeedState::Failed => SpeedView::Failed,
        }
    }
}

/// Everything the desktop program holds.
#[derive(Debug)]
pub struct App {
    pub my_name: String,
    pub listen_port: u16,
    pub recv_log: Vec<String>,
    pub recv_progress: Option<(u64, u64)>,
    pub recv_started_at: Option<u128>,
    pub recv_session_files: u32,
    pub last_received: Option<String>,
    pub paired: Option<PairedPeer>,
    pub incoming: Option<IncomingPair>,
    pub outgoing: Option<OutgoingPair>,
    pub pair_error: Option<String>,
    pub peers: Vec<Peer>,
    /// A search for devices is under way.
    pub searching: bool,
    pub disco_error: Option<String>,
    /// When the last search ended, if one did.
    pub last_disco: Option<u128>,
    pub picked: Vec<PickedPath>,
    pub send_state: SendState,
    pub speed: SpeedState,
    /// Off after a deliberate disconnect.
    pub auto_connect: bool,
    pub last_auto: Option<u128>,
}

/// The same, as contracts see it.
pub struct AppView {
    pub my_name: Seq<char>,
    pub listen_port: u16,
    pub recv_log: Seq<Seq<char>>,
    pub recv_progress: Option<(u64, u64)>,
    pub recv_started_at: Option<u128>,
    pub recv_session_files: u32,
    pub last_received: Option<Seq<char>>,
    pub paired: Option<PairedView>,
    pub incoming: Option<(Seq<char>, Seq<char>)>,
    pub outgoing: Option<OutgoingView>,
    pub pair_error: Option<Seq<char>>,
    pub peers: Seq<PeerView>,
    pub searching: bool,
    pub disco_error: Option<Seq<char>>,
    pub last_disco: Option<u128>,
    pub picked: Seq<PickedView>,
    pub send_state: SendView,
    pub speed: SpeedView,
    pub auto_connect: bool,
    pub last_auto: Option<u128>,
}

/// Picked paths, as contracts see them.
pub open spec fn picks(list: Seq<PickedPath>) -> Seq<PickedView> {
    list.map_values(|p: PickedPath| p@)
}

impl View for App {
    type V = AppView;

    open spec fn view(&self) -> AppView {
        AppView {
            my_name: self.my_name@,
            listen_port: self.listen_port,
            recv_log: texts(self.recv_log@),
            recv_progress: self.recv_progress,
            recv_started_at: self.recv_started_at,
            recv_session_files: self.recv_session_files,
            last_received: opt_text(self.last_received),
            paired: match self.paired {
                Some(p) => Some(p@),
                None => None,
            },
            incoming: match self.incoming {
                Some(i) => Some((i.name@, i.code@)),
                None => None,
            },
            outgoing: match self.outgoing {
                Some(o) => Some(o@),
                None => None,
            },
            pair_error: opt_text(self.pair_error),
            peers: peer_views(self.peers@),
            searching: self.searching,
            disco_error: opt_text(self.disco_error),
            last_disco: self.last_disco,
            picked: picks(self.picked@),
            send_state: self.send_state@,
            speed: self.speed@,
            auto_connect: self.auto_connect,
            last_auto: self.last_auto,
        }
    }
}

/// The log keeps this many lines at the most.
pub const LOG_LINES: usize = 300;

/// So many of the oldest lines go when the log is full.
pub const LOG_CUT: usize = 100;

/// The log with one more line.
pub open spec fn log_with(log: Seq<Seq<char>>, line: Seq<char>) -> Seq<Seq<char>> {
    let all = log.push(line);
    if all.len() > LOG_LINES {
        all.skip(LOG_CUT as int)
    } else {
        all
    }
}

/// The state with one more line in the log.
pub open spec fn logged(s: AppView, line: Seq<char>) -> AppView {
    AppView { recv_log: log_with(s.recv_log, line), ..s }
}

/// The log never grows without bound, and the newest line is always in it.
pub proof fn lemma_log_bounded(log: Seq<Seq<char>>, line: Seq<char>)
    requires
        log.len() <= LOG_LINES,
    ensures
        log_with(log, line).len() <= LOG_LINES,
        log_with(log, line).last() == line,
{
}

/// The state of a disconnected program, from that of a connected one.
pub open spec fn disconnected(s: AppView) -> AppView {
    AppView {
        auto_connect: false,
        paired: None,
        send_state: SendView::Idle,
        speed: SpeedView::Unknown,
        ..s
    }
}

/// What an event of the receiver makes of the state.
pub open spec fn after_event(s: AppView, ev: EventView, now: u128) -> AppView {
    match ev {
        EventView::Listening { port, .. } => AppView { listen_port: port, ..s },
        EventView::Paired { peer_name, peer_addr, send_token } => logged(
            match (peer_addr, s.paired) {
                (Some(addr), None) => AppView {
                    paired: Some(PairedView { name: peer_name, addr, token: send_token }),
                    speed: SpeedView::Testing,
                    ..s
                },
                _ => s,
            },
            "Connected to "@ + pretty(peer_name),
        ),
        EventView::Unpaired => if s.paired is Some {
            logged(disconnected(s), "The other device disconnected."@)
        } else {
            s
        },
        EventView::SessionStarted { sender, files, total_bytes, resumed_bytes } => logged(
            AppView {
                recv_progress: Some((resumed_bytes, total_bytes)),
                recv_started_at: Some(now),
                recv_session_files: 0,
                ..s
            },
            "Receiving "@ + dec(files as nat) + " file"@ + plural(files as int) + " ("@
                + shown_bytes(total_bytes as int) + ") from "@ + pretty(sender) + "…"@,
        ),
        EventView::Progress { done_bytes, total_bytes } => AppView {
            recv_progress: Some((done_bytes, total_bytes)),
            ..s
        },
        EventView::FileCompleted { rel_path, bytes } => logged(
            AppView { recv_session_files: s.recv_session_files.wrapping_add(1), ..s },
            "Received "@ + rel_path + " ("@ + shown_bytes(bytes as int) + ")"@,
        ),
        EventView::SessionEnded { ok, .. } => {
            let told = logged(
                s,
                if ok {
                    "All files received."@
                } else {
                    "Transfer interrupted — it will pick up where it left off."@
                },
            );
            AppView {
                last_received: if ok && s.recv_session_files > 0 {
                    Some(
                        "Received "@ + dec(s.recv_session_files as nat) + " file"@ + plural(
                            s.recv_session_files as int,
                        ),
                    )
                } else {
                    s.last_received
                },
                recv_progress: None,
                recv_started_at: None,
                ..told
            }
        },
    }
}

/// An event after which the link is measured: the other device connected, and we
/// were not connected yet.
pub open spec fn starts_probe(s: AppView, ev: EventView) -> bool {
    ev matches EventView::Paired { peer_addr, .. } && peer_addr is Some && s.paired is None
}

/// How long the side that accepted waits before it measures, in seconds, so that
/// the two measurements do not overlap.
pub const PROBE_STAGGER: u64 = 3;

impl App {
    /// The program as it starts.
    pub fn new(my_name: String, listen_port: u16) -> (r: App)
        ensures
            r@ == (AppView {
                my_name: my_name@,
                listen_port,
                recv_log: Seq::empty(),
                recv_progress: None,
                recv_started_at: None,
                recv_session_files: 0,
                last_received: None,
                paired: None,
                incoming: None,
                outgoing: None,
                pair_error: None,
                peers: Seq::empty(),
                searching: false,
                disco_error: None,
                last_disco: None,
                picked: Seq::empty(),
                send_state: SendView::Idle,
                speed: SpeedView::Unknown,
                auto_connect: true,
                last_auto: None,
            }),
    {
        let r = App {
            my_name,
            listen_port,
            recv_log: no_lines(),
            recv_progress: None,
            recv_started_at: None,
            recv_session_files: 0,
            last_received: None,
            paired: None,
            incoming: None,
            outgoing: None,
            pair_error: None,
            peers: Vec::new(),
            searching: false,
            disco_error: None,
            last_disco: None,
            picked: Vec::new(),
            send_state: SendState::Idle,
            speed: SpeedState::Unknown,
            auto_connect: true,
            last_auto: None,
        };
        assert(r@.peers =~= Seq::<PeerView>::empty());
        assert(r@.picked =~= Seq::<PickedView>::empty());
        r
    }

    /// Adds a line to the log.
    pub fn push_log(&mut self, line: String)
        ensures
            final(self)@ == logged(old(self)@, line@),
    {
        let ghost before = texts(self.recv_log@);
        add_line(&mut self.recv_log, line);
        if self.recv_log.len() > LOG_LINES {
            let total: usize = self.recv_log.len();
            let mut kept: Vec<String> = no_lines();
            let ghost all = texts(self.recv_log@);
            let mut i: usize = LOG_CUT;
            assert(all.subrange(LOG_CUT as int, LOG_CUT as int) =~= Seq::<Seq<char>>::empty());
            while i < total
                invariant
                    LOG_CUT <= i <= total == self.recv_log@.len(),
                    all == texts(self.recv_log@),
                    texts(kept@) == all.subrange(LOG_CUT as int, i as int),
                decreases total - i,
            {
                add_line(&mut kept, self.recv_log[i].clone());
                assert(all.subrange(LOG_CUT as int, i + 1) =~= all.subrange(
                    LOG_CUT as int,
                    i as int,
                ).push(all[i as int]));
                i = i + 1;
            }
            assert(all.subrange(LOG_CUT as int, all.len() as int) =~= all.skip(LOG_CUT as int));
            self.recv_log = kept;
        }
    }
}

/// A message of the receiver's threads.
#[derive(Debug)]
pub enum RecvMsg {
    Event(Event),
    /// Someone wants to connect; the user is to be asked.
    PairPrompt { name: String, code: String },
    /// The receiver ended with an error.
    Fatal(String),
}

impl App {
    /// Takes an event of the receiver. True when the link is to be measured, after
    /// the time that keeps the two sides apart.
    pub fn on_event(&mut self, ev: Event, now: u128) -> (probe: bool)
        ensures
            final(self)@ == after_event(old(self)@, ev@, now),
            probe == starts_probe(old(self)@, ev@),
    {
        match ev {
            Event::Listening { port, .. } => {
                self.listen_port = port;
                false
            },
            Event::Paired { peer_name, peer_addr, send_token } => {
                let mut line = "Connected to ".to_string();
                line.append(pretty_name(peer_name.as_str()).as_str());
                // The other device initiated; we accepted. If they have a
                // listener we are now paired both ways.
                let mut probe = false;
                if let Some(addr) = peer_addr {
                    if self.paired.is_none() {
                        self.paired = Some(
                            PairedPeer { name: peer_name, addr, token: send_token },
                        );
                        self.speed = SpeedState::Testing;
                        probe = true;
                    }
                }
                self.push_log(line);
                probe
            },
            Event::Unpaired => {
                if self.paired.is_some() {
                    self.auto_connect = false;
                    self.paired = None;
                    self.send_state = SendState::Idle;
                    self.speed = SpeedState::Unknown;
                    self.push_log("The other device disconnected.".to_string());
                }
                false
            },
            Event::SessionStarted { sender, files, total_bytes, resumed_bytes } => {
                self.recv_progress = Some((resumed_bytes, total_bytes));
                self.recv_started_at = Some(now);
                self.recv_session_files = 0;
                let mut line = "Receiving ".to_string();
                line.append(dec_u64(files as u64).as_str());
                line.append(" file");
                line.append(ending(files as u64));
                line.append(" (");
                line.append(human_bytes(total_bytes).as_str());
                line.append(") from ");
                line.append(pretty_name(sender.as_str()).as_str());
                line.append("…");
                self.push_log(line);
                false
            },
            Event::Progress { done_bytes, total_bytes } => {
                self.recv_progress = Some((done_bytes, total_bytes));
                false
            },
            Event::FileCompleted { rel_path, bytes } => {
                self.recv_session_files = self.recv_session_files.wrapping_add(1);
                let mut line = "Received ".to_string();
                line.append(rel_path.as_str());
                line.append(" (");
                line.append(human_bytes(bytes).as_str());
                line.append(")");
                self.push_log(line);
                false
            },
            Event::SessionEnded { ok, .. } => {
                if ok {
                    self.push_log("All files received.".to_string());
                } else {
                    self.push_log(
                        "Transfer interrupted — it will pick up where it left off.".to_string(),
                    );
                }
                if ok && self.recv_session_files > 0 {
                    let mut line = "Received ".to_string();
                    line.append(dec_u64(self.recv_session_files as u64).as_str());
                    line.append(" file");
                    line.append(ending(self.recv_session_files as u64));
                    self.last_received = Some(line);
                }
                self.recv_progress = None;
                self.recv_started_at = None;
                false
            },
        }
    }

    /// Takes a message of the receiver's threads. True when the link is to be
    /// measured.
    pub fn handle_recv_msg(&mut self, msg: RecvMsg, now: u128) -> (probe: bool)
        ensures
            match msg {
                RecvMsg::Event(ev) => final(self)@ == after_event(old(self)@, ev@, now) && probe
                    == starts_probe(old(self)@, ev@),
                RecvMsg::PairPrompt { name, code } => final(self)@ == (AppView {
                    incoming: Some((name@, code@)),
                    ..old(self)@
                }) && !probe,
                RecvMsg::Fatal(_) => final(self)@ == logged(
                    old(self)@,
                    "Something went wrong — please restart Caybul."@,
                ) && !probe,
            },
    {
        match msg {
            RecvMsg::PairPrompt { name, code } => {
                self.incoming = Some(IncomingPair { name, code });
                false
            },
            RecvMsg::Event(ev) => self.on_event(ev, now),
            RecvMsg::Fatal(_) => {
                self.push_log("Something went wrong — please restart Caybul.".to_string());
                false
            },
        }
    }
}

// ---- what the other threads bring ----

/// What comes of a connection that we asked for.
#[derive(Debug)]
pub enum PairStep {
    /// Nothing more; the user had given up, so nothing else is taken in this
    /// frame either.
    Dropped,
    /// Register this token with our own receiver and measure the link at once.
    Register(String),
    /// Nothing more.
    Failed,
}

/// What a finished transfer shows for each file.
pub open spec fn sent_line(f: ResultView) -> Seq<char> {
    if f.ok {
        "Sent "@ + f.rel_path
    } else {
        "FAILED "@ + f.rel_path + " — "@ + f.message
    }
}

/// What a finished transfer shows. How long it took and how fast it was are texts.
pub open spec fn sent_lines(
    files: Seq<ResultView>,
    sent: u64,
    skipped: u64,
    elapsed: Seq<char>,
    rate: Seq<char>,
) -> Seq<Seq<char>> {
    let head = files.map_values(|f: ResultView| sent_line(f));
    let mid = if skipped > 0 {
        head.push(shown_bytes(skipped as int) + " skipped (already there from an earlier run)"@)
    } else {
        head
    };
    mid.push(shown_bytes(sent as int) + " in "@ + elapsed + " — "@ + rate + " Mbit/s"@)
}

fn say_sent(f: &FileResult) -> (r: String)
    ensures
        r@ == sent_line(f@),
{
    if f.ok {
        let mut s = "Sent ".to_string();
        s.append(f.rel_path.as_str());
        s
    } else {
        let mut s = "FAILED ".to_string();
        s.append(f.rel_path.as_str());
        s.append(" — ");
        s.append(f.message.as_str());
        s
    }
}

fn say_all_sent(report: &SendReport, elapsed: &str, rate: &str) -> (r: Vec<String>)
    ensures
        texts(r@) == sent_lines(
            results(report.files@),
            report.bytes_sent,
            report.bytes_skipped,
            elapsed@,
            rate@,
        ),
{
    let mut out = no_lines();
    let ghost files = results(report.files@).map_values(|f: ResultView| sent_line(f));
    let mut i: usize = 0;
    assert(files.take(0) =~= Seq::<Seq<char>>::empty());
    while i < report.files.len()
        invariant
            i <= report.files@.len(),
            files == results(report.files@).map_values(|f: ResultView| sent_line(f)),
            texts(out@) == files.take(i as int),
        decreases report.files@.len() - i,
    {
        let line = say_sent(&report.files[i]);
        add_line(&mut out, line);
        assert(texts(out@) =~= files.take(i + 1));
        i = i + 1;
    }
    assert(files.take(files.len() as int) =~= files);
    if report.bytes_skipped > 0 {
        let mut t = human_bytes(report.bytes_skipped);
        t.append(" skipped (already there from an earlier run)");
        add_line(&mut out, t);
    }
    let mut t = human_bytes(report.bytes_sent);
    t.append(" in ");
    t.append(elapsed);
    t.append(" — ");
    t.append(rate);
    t.append(" Mbit/s");
    add_line(&mut out, t);
    out
}

impl App {
    /// Takes the result of a search for devices.
    pub fn on_discovery(&mut self, found: Result<Vec<Peer>, String>, now: u128)
        ensures
            final(self)@ == match found {
                Ok(list) => AppView {
                    peers: peer_views(list@),
                    disco_error: None,
                    searching: false,
                    last_disco: Some(now),
                    ..old(self)@
                },
                Err(e) => AppView {
                    disco_error: Some(e@),
                    searching: false,
                    last_disco: Some(now),
                    ..old(self)@
                },
            },
    {
        match found {
            Ok(list) => {
                self.peers = list;
                self.disco_error = None;
            },
            Err(e) => {
                self.disco_error = Some(e);
            },
        }
        self.searching = false;
        self.last_disco = Some(now);
    }

    /// Takes the result of the connection that we asked for.
    pub fn on_pair_result(&mut self, result: Result<PairResult, String>) -> (r: PairStep)
        requires
            old(self).outgoing is Some,
        ensures
            ({
                let out = old(self).outgoing.unwrap();
                let s = AppView { outgoing: None, ..old(self)@ };
                if out.was_cancelled {
                    final(self)@ == s && r is Dropped
                } else {
                    match result {
                        Ok(p) => final(self)@ == logged(
                            AppView {
                                paired: Some(
                                    PairedView {
                                        name: p.peer_name@,
                                        addr: out.addr,
                                        token: p.send_token@,
                                    },
                                ),
                                pair_error: None,
                                speed: SpeedView::Testing,
                                ..s
                            },
                            "Paired with \""@ + p.peer_name@ + "\""@,
                        ) && r == PairStep::Register(p.their_send_token),
                        Err(e) => final(self)@ == (AppView { pair_error: Some(e@), ..s })
                            && r is Failed,
                    }
                }
            }),
    {
        let (addr, was_cancelled) = match &self.outgoing {
            Some(o) => (o.addr, o.was_cancelled),
            None => {
                return PairStep::Dropped;
            },
        };
        self.outgoing = None;
        if was_cancelled {
            return PairStep::Dropped;
        }
        match result {
            Ok(p) => {
                let mut line = "Paired with \"".to_string();
                line.append(p.peer_name.as_str());
                line.append("\"");
                self.paired = Some(PairedPeer { name: p.peer_name, addr, token: p.send_token });
                self.pair_error = None;
                self.speed = SpeedState::Testing;
                self.push_log(line);
                PairStep::Register(p.their_send_token)
            },
            Err(e) => {
                self.pair_error = Some(e);
                PairStep::Failed
            },
        }
    }

    /// Takes the measured speed, as it is shown; nothing where it failed.
    pub fn on_speed(&mut self, shown: Option<String>)
        ensures
            final(self)@ == (AppView {
                speed: match shown {
                    Some(s) => SpeedView::Done(s@),
                    None => SpeedView::Failed,
                },
                ..old(self)@
            }),
    {
        self.speed = match shown {
            Some(s) => SpeedState::Done(s),
            None => SpeedState::Failed,
        };
    }

    /// Takes the report of a transfer that came to its end; how long it took and
    /// how fast it was are texts.
    pub fn on_sent(&mut self, report: &SendReport, elapsed: &str, rate: &str)
        ensures
            final(self)@ == (AppView {
                send_state: SendView::Finished {
                    ok: forall|i: int|
                        0 <= i < report.files@.len() ==> (#[trigger] report.files@[i]).ok,
                    lines: sent_lines(
                        results(report.files@),
                        report.bytes_sent,
                        report.bytes_skipped,
                        elapsed@,
                        rate@,
                    ),
                },
                ..old(self)@
            }),
    {
        let lines = say_all_sent(report, elapsed, rate);
        self.send_state = SendState::Finished { ok: report.all_ok(), lines };
    }

    /// Takes the error of a transfer.
    pub fn on_send_error(&mut self, why: &str)
        ensures
            final(self)@ == (AppView {
                send_state: SendView::Finished { ok: false, lines: seq!["✗ "@ + why@] },
                ..old(self)@
            }),
    {
        let mut lines = no_lines();
        let mut s = "✗ ".to_string();
        s.append(why);
        add_line(&mut lines, s);
        assert(texts(lines@) =~= seq!["✗ "@ + why@]);
        self.send_state = SendState::Finished { ok: false, lines };
    }
}

// ---- sending ----

/// Paths with this number.
pub open spec fn picked_id(id: u64) -> spec_fn(PickedView) -> bool {
    |p: PickedView| p.id == id
}

impl App {
    /// Picks a path to send, unless it is picked already. A folder's name ends in
    /// a slash.
    pub fn add_path(&mut self, id: u64, name: String, is_dir: bool, bytes: Option<u64>)
        ensures
            final(self)@ == if first_such(old(self)@.picked, picked_id(id)) is Some {
                old(self)@
            } else {
                AppView {
                    picked: old(self)@.picked.push(
                        PickedView {
                            id,
                            label: if is_dir {
                                name@ + "/"@
                            } else {
                                name@
                            },
                            bytes,
                        },
                    ),
                    ..old(self)@
                }
            },
    {
        let ghost all = picks(self.picked@);
        let mut i: usize = 0;
        while i < self.picked.len()
            invariant
                i <= self.picked@.len(),
                *self == *old(self),
                all == picks(self.picked@),
                forall|j: int| 0 <= j < i ==> !picked_id(id)(#[trigger] all[j]),
            decreases self.picked@.len() - i,
        {
            if self.picked[i].id == id {
                proof {
                    lemma_is_first(all, picked_id(id), i as int);
                }
                return;
            }
            i = i + 1;
        }
        proof {
            lemma_first_such(all, picked_id(id));
        }
        let mut label = name;
        if is_dir {
            label.append("/");
        }
        let ghost before = self.picked@;
        self.picked.push(PickedPath { id, label, bytes });
        assert(picks(self.picked@) =~= picks(before).push(self.picked@.last()@));
    }

    /// Takes a path out again.
    pub fn remove_path(&mut self, i: usize)
        requires
            i < old(self).picked@.len(),
        ensures
            final(self)@ == (AppView { picked: old(self)@.picked.remove(i as int), ..old(self)@ }),
    {
        let ghost before = self.picked@;
        let _ = self.picked.remove(i);
        assert(picks(self.picked@) =~= picks(before).remove(i as int));
    }

    /// Takes every path out again.
    pub fn clear_paths(&mut self)
        ensures
            final(self)@ == (AppView { picked: Seq::empty(), ..old(self)@ }),
    {
        self.picked = Vec::new();
        assert(picks(self.picked@) =~= Seq::<PickedView>::empty());
    }

    /// True when the button to send works: something is picked and nothing is on
    /// its way.
    pub fn can_send(&self) -> (r: bool)
        ensures
            r == (self@.picked.len() > 0 && !(self@.send_state is Running)),
    {
        let running = match self.send_state {
            SendState::Running => true,
            _ => false,
        };
        self.picked.len() > 0 && !running
    }

    /// Starts a transfer to the device we are connected to, if we are. Gives the
    /// device and the number of streams; `best` is the kind of the best link.
    pub fn start_send(&mut self, best: Option<LinkKind>) -> (r: Option<(PairedPeer, u32)>)
        ensures
            match old(self).paired {
                Some(p) => {
                    &&& r == Some(
                        (
                            p,
                            match best {
                                Some(kind) => streams_for(kind),
                                None => 4u32,
                            },
                        ),
                    )
                    &&& final(self)@ == (AppView { send_state: SendView::Running, ..old(self)@ })
                },
                None => r is None && final(self)@ == old(self)@,
            },
    {
        let peer = match &self.paired {
            Some(p) => p.clone(),
            None => {
                return None;
            },
        };
        let streams: u32 = match best {
            Some(kind) => recommended_streams(kind),
            None => 4,
        };
        self.send_state = SendState::Running;
        Some((peer, streams))
    }
}

} // verus!
