//! What the desktop program shows.

use vstd::prelude::*;

use crate::link::{opt_text, Link, LinkKind};
use crate::screen::devices::{Tone, ViaInfo};
use crate::screen::state::{
    pretty, pretty_name, App, AppView, SendState, SendView, SpeedState, SpeedView,
};
use crate::text::{add_line, join_texts, joined, no_lines, same, texts, to_chars, trim, trimmed};
use crate::util::{human_bytes, shown_bytes};

verus! {

// ---- the line at the top ----

/// The line about cables at the top.
#[derive(Debug)]
pub struct Banner {
    pub tone: Tone,
    pub text: &'static str,
}

/// Some link is of this kind.
pub open spec fn any_kind(links: Seq<Link>, kind: LinkKind) -> bool {
    exists|i: int| 0 <= i < links.len() && (#[trigger] links[i]).kind == kind
}

/// The line about cables at the top: a fast cable, a cable, or none.
pub fn link_banner(links: &Vec<Link>) -> (r: Banner)
    ensures
        if any_kind(links@, LinkKind::ThunderboltOrUsb4) {
            r.tone == Tone::Fast && r.text@ == "Fast cable connected"@
        } else if any_kind(links@, LinkKind::UsbLink) || any_kind(links@, LinkKind::Ethernet) {
            r.tone == Tone::Cable && r.text@ == "Cable connected"@
        } else {
            r.tone == Tone::Wireless && r.text@ == "No cable — using Wi-Fi"@
        },
{
    let mut fast = false;
    let mut cable = false;
    let mut i: usize = 0;
    while i < links.len()
        invariant
            i <= links@.len(),
            fast == exists|j: int|
                0 <= j < i && (#[trigger] links@[j]).kind == LinkKind::ThunderboltOrUsb4,
            cable == exists|j: int|
                0 <= j < i && ((#[trigger] links@[j]).kind == LinkKind::UsbLink || links@[j].kind
                    == LinkKind::Ethernet),
        decreases links@.len() - i,
    {
        match links[i].kind {
            LinkKind::ThunderboltOrUsb4 => {
                fast = true;
            },
            LinkKind::UsbLink | LinkKind::Ethernet => {
                cable = true;
            },
            _ => {},
        }
        i = i + 1;
    }
    proof {
        if cable {
            let j = choose|j: int|
                0 <= j < i && ((#[trigger] links@[j]).kind == LinkKind::UsbLink || links@[j].kind
                    == LinkKind::Ethernet);
            assert(any_kind(links@, links@[j].kind));
        }
    }
    if fast {
        Banner { tone: Tone::Fast, text: "Fast cable connected" }
    } else if cable {
        Banner { tone: Tone::Cable, text: "Cable connected" }
    } else {
        Banner { tone: Tone::Wireless, text: "No cable — using Wi-Fi" }
    }
}

/// True when the user is told that a cable would be faster: the connection is
/// neither a cable nor to this very computer.
pub fn suggests_cable(how: &ViaInfo) -> (r: bool)
    ensures
        r == (!how.is_cable && how.kind != Some(LinkKind::Loopback)),
{
    let own = match how.kind {
        Some(LinkKind::Loopback) => true,
        _ => false,
    };
    !how.is_cable && !own
}

// ---- the bytes of a progress bar ----

/// The bytes of a progress bar in words.
pub open spec fn progress_words(done: u64, total: u64) -> Seq<char> {
    shown_bytes(done as int) + " / "@ + shown_bytes(total as int)
}

/// The bytes of a progress bar in words.
pub fn progress_text(done: u64, total: u64) -> (r: String)
    ensures
        r@ == progress_words(done, total),
{
    let mut s = human_bytes(done);
    s.append(" / ");
    s.append(human_bytes(total).as_str());
    s
}

// ---- the banner about incoming files ----

/// The banner about incoming files.
#[derive(Debug)]
pub enum Activity {
    Hidden,
    /// Files are coming in.
    Receiving { done: u64, total: u64, text: String },
    /// Files came in.
    Received(String),
}

/// The same, as contracts see it.
pub enum ActivityView {
    Hidden,
    Receiving { done: u64, total: u64, text: Seq<char> },
    Received(Seq<char>),
}

impl View for Activity {
    type V = ActivityView;

    open spec fn view(&self) -> ActivityView {
        match *self {
            Activity::Hidden => ActivityView::Hidden,
            Activity::Receiving { done, total, text } => ActivityView::Receiving {
                done,
                total,
                text: text@,
            },
            Activity::Received(s) => ActivityView::Received(s@),
        }
    }
}

/// The banner about incoming files. The transfer screen shows them itself.
pub open spec fn activity_of(s: AppView) -> ActivityView {
    if s.paired is Some {
        ActivityView::Hidden
    } else {
        match (s.recv_progress, s.last_received) {
            (Some((done, total)), _) => ActivityView::Receiving {
                done,
                total,
                text: progress_words(done, total),
            },
            (None, Some(text)) => ActivityView::Received(text),
            (None, None) => ActivityView::Hidden,
        }
    }
}

// ---- the pairing screen ----

/// What the pairing screen shows.
#[derive(Debug)]
pub struct PairingScreen {
    /// What stands below the title.
    pub hint: &'static str,
    /// The connection that we asked for; nothing else is offered meanwhile.
    pub connecting: Option<Connecting>,
    /// The last attempt failed, and the user is told so.
    pub trouble: bool,
}

/// A connection that we asked for, as it is shown.
#[derive(Debug)]
pub struct Connecting {
    pub line: String,
    /// The code to compare, once it is known.
    pub code: Option<String>,
}

/// The same, as contracts see it.
pub struct PairingView {
    pub hint: Seq<char>,
    pub connecting: Option<(Seq<char>, Option<Seq<char>>)>,
    pub trouble: bool,
}

impl View for PairingScreen {
    type V = PairingView;

    open spec fn view(&self) -> PairingView {
        PairingView {
            hint: self.hint@,
            connecting: match self.connecting {
                Some(c) => Some((c.line@, opt_text(c.code))),
                None => None,
            },
            trouble: self.trouble,
        }
    }
}

/// What the pairing screen shows.
pub open spec fn pairing_of(s: AppView) -> PairingView {
    PairingView {
        hint: if s.auto_connect {
            "Open Caybul on your other computer. Devices joined by a cable connect on their own."@
        } else {
            "Pick a device to connect."@
        },
        connecting: match s.outgoing {
            Some(o) => Some(("Connecting to "@ + o.peer_label + "…"@, o.code)),
            None => None,
        },
        trouble: s.outgoing is None && s.pair_error is Some,
    }
}

// ---- the transfer screen ----

/// What the transfer screen shows.
#[derive(Debug)]
pub struct TransferScreen {
    pub connected: String,
    pub over: String,
    pub tone: Tone,
    /// The speed is being measured.
    pub measuring: bool,
    /// The measured speed.
    pub speed: Option<String>,
    /// The user is told that a cable would be faster.
    pub suggests_cable: bool,
    /// What is told of the last transfer.
    pub lines: Vec<String>,
    /// The last transfer did not come through, and the user is told to try again.
    pub interrupted: bool,
    /// What stands on the button to send.
    pub button: &'static str,
    pub can_send: bool,
    /// What is coming in: how much of how much.
    pub incoming: Option<(u64, u64)>,
}

/// The same, as contracts see it.
pub struct TransferView {
    pub connected: Seq<char>,
    pub over: Seq<char>,
    pub tone: Tone,
    pub measuring: bool,
    pub speed: Option<Seq<char>>,
    pub suggests_cable: bool,
    pub lines: Seq<Seq<char>>,
    pub interrupted: bool,
    pub button: Seq<char>,
    pub can_send: bool,
    pub incoming: Option<(u64, u64)>,
}

impl View for TransferScreen {
    type V = TransferView;

    open spec fn view(&self) -> TransferView {
        TransferView {
            connected: self.connected@,
            over: self.over@,
            tone: self.tone,
            measuring: self.measuring,
            speed: opt_text(self.speed),
            suggests_cable: self.suggests_cable,
            lines: texts(self.lines@),
            interrupted: self.interrupted,
            button: self.button@,
            can_send: self.can_send,
            incoming: self.incoming,
        }
    }
}

/// What the transfer screen shows; there is none without a connected device.
pub open spec fn transfer_of(s: AppView, how: ViaInfo) -> Option<TransferView> {
    match s.paired {
        Some(p) => Some(
            TransferView {
                connected: "Connected to "@ + pretty(p.name),
                over: "over "@ + how.word(),
                tone: how.tone,
                measuring: s.speed is Testing,
                speed: match s.speed {
                    SpeedView::Done(text) => Some(text),
                    _ => None,
                },
                suggests_cable: !how.is_cable && how.kind != Some(LinkKind::Loopback),
                lines: match s.send_state {
                    SendView::Finished { lines, .. } => lines,
                    _ => Seq::empty(),
                },
                interrupted: s.send_state matches SendView::Finished { ok, .. } && !ok,
                button: if s.send_state is Running {
                    "Sending…"@
                } else {
                    "Send"@
                },
                can_send: s.picked.len() > 0 && !(s.send_state is Running),
                incoming: s.recv_progress,
            },
        ),
        None => None,
    }
}

/// A receive never happens invisibly: whatever is coming in is shown, by the banner
/// or by the transfer screen.
pub proof fn lemma_receive_is_visible(s: AppView, how: ViaInfo)
    requires
        s.recv_progress is Some,
    ensures
        activity_of(s) is Receiving || (transfer_of(s, how) matches Some(t) && t.incoming
            == s.recv_progress),
{
}

fn copied(list: &Vec<String>) -> (r: Vec<String>)
    ensures
        texts(r@) == texts(list@),
{
    let mut out = no_lines();
    let ghost all = texts(list@);
    let mut i: usize = 0;
    assert(all.take(0) =~= Seq::<Seq<char>>::empty());
    while i < list.len()
        invariant
            i <= list@.len(),
            all == texts(list@),
            texts(out@) == all.take(i as int),
        decreases list@.len() - i,
    {
        add_line(&mut out, list[i].clone());
        assert(texts(out@) =~= all.take(i + 1));
        i = i + 1;
    }
    assert(all.take(all.len() as int) =~= all);
    out
}

impl App {
    /// The banner about incoming files.
    pub fn activity(&self) -> (r: Activity)
        ensures
            r@ == activity_of(self@),
    {
        if self.paired.is_some() {
            return Activity::Hidden;
        }
        match self.recv_progress {
            Some((done, total)) => Activity::Receiving {
                done,
                total,
                text: progress_text(done, total),
            },
            None => match &self.last_received {
                Some(text) => Activity::Received(text.clone()),
                None => Activity::Hidden,
            },
        }
    }

    /// The user has seen what came in.
    pub fn dismiss_received(&mut self)
        ensures
            final(self)@ == (AppView { last_received: None, ..old(self)@ }),
    {
        self.last_received = None;
    }

    /// Someone who wants to connect, as they are shown, and the code to compare.
    pub fn incoming_pair_panel(&self) -> (r: Option<(String, String)>)
        ensures
            match self@.incoming {
                Some(i) => r matches Some(p) && p.0@ == pretty(i.0) + " wants to connect."@
                    && p.1@ == i.1,
                None => r is None,
            },
    {
        match &self.incoming {
            Some(i) => {
                let mut line = pretty_name(i.name.as_str());
                line.append(" wants to connect.");
                Some((line, i.code.clone()))
            },
            None => None,
        }
    }

    /// What the pairing screen shows.
    pub fn pairing_screen(&self) -> (r: PairingScreen)
        ensures
            r@ == pairing_of(self@),
    {
        let hint = if self.auto_connect {
            "Open Caybul on your other computer. Devices joined by a cable connect on their own."
        } else {
            "Pick a device to connect."
        };
        let connecting = match &self.outgoing {
            Some(o) => {
                let mut line = "Connecting to ".to_string();
                line.append(o.peer_label.as_str());
                line.append("…");
                let code = match &o.code {
                    Some(c) => Some(c.clone()),
                    None => None,
                };
                Some(Connecting { line, code })
            },
            None => None,
        };
        PairingScreen {
            hint,
            connecting,
            trouble: self.outgoing.is_none() && self.pair_error.is_some(),
        }
    }

    /// The address that the user typed leads nowhere.
    pub fn on_bad_address(&mut self, why: String)
        ensures
            final(self)@ == (AppView { pair_error: Some(why@), ..old(self)@ }),
    {
        self.pair_error = Some(why);
    }

    /// What the transfer screen shows; there is none without a connected device.
    /// `how` is how that device is reached.
    pub fn transfer_screen(&self, how: &ViaInfo) -> (r: Option<TransferScreen>)
        ensures
            match transfer_of(self@, *how) {
                Some(t) => r matches Some(screen) && screen@ == t,
                None => r is None,
            },
    {
        let mut connected = "Connected to ".to_string();
        match &self.paired {
            Some(p) => {
                connected.append(pretty_name(p.name.as_str()).as_str());
            },
            None => {
                return None;
            },
        }
        let mut over = "over ".to_string();
        over.append(how.label());
        let (measuring, speed): (bool, Option<String>) = match &self.speed {
            SpeedState::Testing => (true, None),
            SpeedState::Done(text) => (false, Some(text.clone())),
            _ => (false, None),
        };
        let (lines, interrupted, running): (Vec<String>, bool, bool) = match &self.send_state {
            SendState::Idle => (no_lines(), false, false),
            SendState::Running => (no_lines(), false, true),
            SendState::Finished { ok, lines } => (copied(lines), !*ok, false),
        };
        Some(
            TransferScreen {
                connected,
                over,
                tone: how.tone,
                measuring,
                speed,
                suggests_cable: suggests_cable(how),
                lines,
                interrupted,
                button: if running {
                    "Sending…"
                } else {
                    "Send"
                },
                can_send: self.can_send(),
                incoming: self.recv_progress,
            },
        )
    }
}

// ---- addresses and folders ----

/// The address that the user typed: trimmed, and not empty.
pub fn typed_address(text: &str) -> (r: Result<String, String>)
    ensures
        trimmed(text@).len() == 0 ==> (r matches Err(e) && e@ == "enter an address first"@),
        trimmed(text@).len() > 0 ==> (r matches Ok(s) && s@ == trimmed(text@)),
{
    let t = trim(text);
    if to_chars(t.as_str()).len() == 0 {
        Err("enter an address first".to_string())
    } else {
        Ok(t)
    }
}

/// What is said of an address that leads nowhere.
pub fn unresolved(text: &str) -> (r: String)
    ensures
        r@ == "cannot resolve \""@ + text@ + "\""@,
{
    let mut s = "cannot resolve \"".to_string();
    s.append(text);
    s.append("\"");
    s
}

/// The parts of a path that lie below a folder, where the path does: the parts of
/// the folder come first.
pub open spec fn below(parts: Seq<Seq<char>>, folder: Seq<Seq<char>>) -> Option<Seq<Seq<char>>> {
    if folder.len() <= parts.len() && parts.take(folder.len() as int) == folder {
        Some(parts.skip(folder.len() as int))
    } else {
        None
    }
}

/// The parts of a path that lie below a folder, where the path does.
pub fn parts_below(parts: &Vec<String>, folder: &Vec<String>) -> (r: Option<Vec<String>>)
    ensures
        match below(texts(parts@), texts(folder@)) {
            Some(rest) => r matches Some(v) && texts(v@) == rest,
            None => r is None,
        },
{
    let ghost all = texts(parts@);
    let ghost head = texts(folder@);
    if folder.len() > parts.len() {
        return None;
    }
    let mut i: usize = 0;
    while i < folder.len()
        invariant
            i <= folder@.len() <= parts@.len(),
            all == texts(parts@),
            head == texts(folder@),
            forall|j: int| 0 <= j < i ==> all[j] == head[j],
        decreases folder@.len() - i,
    {
        if !same(parts[i].as_str(), folder[i].as_str()) {
            assert(all.take(head.len() as int)[i as int] != head[i as int]);
            return None;
        }
        i = i + 1;
    }
    assert(all.take(head.len() as int) =~= head);
    let mut out = no_lines();
    assert(all.subrange(head.len() as int, i as int) =~= Seq::<Seq<char>>::empty());
    while i < parts.len()
        invariant
            head.len() <= i <= parts@.len(),
            all == texts(parts@),
            texts(out@) == all.subrange(head.len() as int, i as int),
        decreases parts@.len() - i,
    {
        add_line(&mut out, parts[i].clone());
        assert(all.subrange(head.len() as int, i + 1) =~= all.subrange(
            head.len() as int,
            i as int,
        ).push(all[i as int]));
        i = i + 1;
    }
    assert(all.subrange(head.len() as int, all.len() as int) =~= all.skip(head.len() as int));
    Some(out)
}

/// A path as it is shown: below the home folder it is a tilde and what lies below,
/// everywhere else it is the full path.
pub open spec fn tilde_text(
    full: Seq<char>,
    parts: Seq<Seq<char>>,
    home: Option<Seq<Seq<char>>>,
    separator: Seq<char>,
) -> Seq<char> {
    match home {
        Some(folder) => match below(parts, folder) {
            Some(rest) => "~/"@ + joined(rest, separator),
            None => full,
        },
        None => full,
    }
}

/// A path as it is shown. `parts` are the parts of `full`, and `home` those of the
/// home folder, where there is one.
pub fn tilde(
    full: String,
    parts: &Vec<String>,
    home: &Option<Vec<String>>,
    separator: &str,
) -> (r: String)
    ensures
        r@ == tilde_text(
            full@,
            texts(parts@),
            match home {
                Some(folder) => Some(texts(folder@)),
                None => None,
            },
            separator@,
        ),
{
    if let Some(folder) = home {
        if let Some(rest) = parts_below(parts, folder) {
            let mut s = "~/".to_string();
            s.append(join_texts(&rest, separator).as_str());
            return s;
        }
    }
    full
}

/// The size of a folder, as it is counted entry by entry.
#[derive(Debug, Clone, Copy, PartialEq, Eq, Structural)]
pub struct FolderSize {
    pub total: u64,
    pub visited: u32,
}

/// So many entries are looked at before a folder is too big to size.
pub const MAX_ENTRIES: u32 = 50000;

impl FolderSize {
    /// Counts an entry; `bytes` is its size where it is a file. False when the
    /// folder is too big to size. The sum wraps.
    pub fn visit(&mut self, bytes: Option<u64>) -> (r: bool)
        requires
            old(self).visited <= MAX_ENTRIES,
        ensures
            final(self).visited == old(self).visited + 1,
            r == (final(self).visited <= MAX_ENTRIES),
            final(self).total == match bytes {
                Some(n) => if r {
                    old(self).total.wrapping_add(n)
                } else {
                    old(self).total
                },
                None => old(self).total,
            },
    {
        self.visited = self.visited + 1;
        if self.visited > MAX_ENTRIES {
            return false;
        }
        if let Some(n) = bytes {
            self.total = self.total.wrapping_add(n);
        }
        true
    }
}

} // verus!
