//! Which devices are offered, how they are reached, and when the program connects
//! by itself.

use vstd::prelude::*;

use crate::discovery::{Peer, PeerView};
use crate::link::{has_ip, route, route_link, with_ip, Link, LinkKind};
use crate::net::{Interface, IpAddr, SocketAddr};
use crate::order::{
    codes, first_such, lemma_first_such, lemma_is_first, lex_le, stable_sort, stable_sorted,
    text_at_most, Keyed,
};
use crate::screen::state::{
    disconnected, pretty, pretty_name, App, AppView, OutgoingPair, OutgoingView, SendState,
    SpeedState,
};
use crate::text::{lowercase, same, to_lower};

verus! {

// ---- how a device is reached ----

/// How something is tinted.
#[derive(Debug, Clone, Copy, PartialEq, Eq, Structural)]
pub enum Tone {
    /// The blue of a fast cable.
    Fast,
    /// The green of a cable.
    Cable,
    /// The yellow of Wi-Fi.
    Wireless,
    Gray,
}

/// How we would physically reach a device, in words a non-technical user
/// understands: "cable", "Wi-Fi", or "network". Thunderbolt, the Mac-to-Mac USB
/// link and a direct Ethernet cable are all just "cable": systems name the same
/// wire differently on each machine, and users don't care.
#[derive(Debug, Clone, Copy, PartialEq, Eq, Structural)]
pub struct ViaInfo {
    pub tone: Tone,
    pub kind: Option<LinkKind>,
    pub rank: u8,
    pub is_cable: bool,
}

/// What a link of this kind means to the user.
pub open spec fn via_kind(kind: Option<LinkKind>) -> ViaInfo {
    match kind {
        Some(LinkKind::ThunderboltOrUsb4) => ViaInfo { tone: Tone::Fast, kind, rank: 0, is_cable: true },
        Some(LinkKind::UsbLink) | Some(LinkKind::Ethernet) => ViaInfo {
            tone: Tone::Cable,
            kind,
            rank: 1,
            is_cable: true,
        },
        Some(LinkKind::Loopback) => ViaInfo { tone: Tone::Gray, kind, rank: 3, is_cable: false },
        Some(LinkKind::Other) => ViaInfo { tone: Tone::Gray, kind, rank: 4, is_cable: false },
        Some(LinkKind::WiFi) => ViaInfo { tone: Tone::Wireless, kind, rank: 5, is_cable: false },
        Some(LinkKind::Vpn) => ViaInfo { tone: Tone::Gray, kind, rank: 6, is_cable: false },
        None => ViaInfo { tone: Tone::Gray, kind, rank: 9, is_cable: false },
    }
}

/// How we would reach an address.
pub open spec fn via(
    links: Seq<Link>,
    ifs: Seq<Interface>,
    ip: IpAddr,
    local: Option<IpAddr>,
) -> ViaInfo {
    via_kind(
        match route(links, ifs, ip, local) {
            Some(i) => Some(links[i].kind),
            None => None,
        },
    )
}

impl ViaInfo {
    /// The word for it.
    pub open spec fn word(self) -> Seq<char> {
        match self.kind {
            Some(LinkKind::ThunderboltOrUsb4) => "fast cable"@,
            Some(LinkKind::UsbLink) | Some(LinkKind::Ethernet) => "cable"@,
            Some(LinkKind::Loopback) => "this computer"@,
            Some(LinkKind::WiFi) => "Wi-Fi"@,
            _ => "network"@,
        }
    }

    /// The word for it.
    pub fn label(&self) -> (r: &'static str)
        ensures
            r@ == self.word(),
    {
        match self.kind {
            Some(LinkKind::ThunderboltOrUsb4) => "fast cable",
            Some(LinkKind::UsbLink) | Some(LinkKind::Ethernet) => "cable",
            Some(LinkKind::Loopback) => "this computer",
            Some(LinkKind::WiFi) => "Wi-Fi",
            _ => "network",
        }
    }
}

/// How we would reach an address; `local` is the local address that the system
/// would use for it.
pub fn via_info(
    links: &Vec<Link>,
    ifs: &Vec<Interface>,
    ip: IpAddr,
    local: Option<IpAddr>,
) -> (r: ViaInfo)
    ensures
        r == via(links@, ifs@, ip, local),
{
    match route_link(links, ifs, ip, local) {
        Some(l) => {
            let (tone, rank, is_cable): (Tone, u8, bool) = match l.kind {
                LinkKind::ThunderboltOrUsb4 => (Tone::Fast, 0, true),
                LinkKind::UsbLink | LinkKind::Ethernet => (Tone::Cable, 1, true),
                LinkKind::Loopback => (Tone::Gray, 3, false),
                LinkKind::Other => (Tone::Gray, 4, false),
                LinkKind::WiFi => (Tone::Wireless, 5, false),
                LinkKind::Vpn => (Tone::Gray, 6, false),
            };
            ViaInfo { tone, kind: Some(l.kind), rank, is_cable }
        },
        None => ViaInfo { tone: Tone::Gray, kind: None, rank: 9, is_cable: false },
    }
}

/// Only a wire counts as a cable, and every cable is preferred to everything that
/// is none.
pub proof fn lemma_cables_first(a: Option<LinkKind>, b: Option<LinkKind>)
    ensures
        via_kind(a).is_cable <==> (a matches Some(kind) && kind.wired()),
        via_kind(a).is_cable && !via_kind(b).is_cable ==> via_kind(a).rank < via_kind(b).rank,
{
}

/// A device that was heard, and the local address that the system would use to
/// reach it.
#[derive(Debug)]
pub struct Heard {
    pub peer: Peer,
    pub local: Option<IpAddr>,
}

/// Our own beacon: our port at one of our own addresses.
pub open spec fn is_self(links: Seq<Link>, addr: SocketAddr, me_port: u16) -> bool {
    addr.door() == me_port && (addr.host().loopback() || first_such(
        links,
        with_ip(addr.host()),
    ) is Some)
}

fn own_beacon(links: &Vec<Link>, addr: SocketAddr, me_port: u16) -> (r: bool)
    ensures
        r == is_self(links@, addr, me_port),
{
    if addr.port() != me_port {
        return false;
    }
    let ip = addr.ip();
    if ip.is_loopback() {
        return true;
    }
    let mut i: usize = 0;
    while i < links.len()
        invariant
            i <= links@.len(),
            forall|j: int| 0 <= j < i ==> !with_ip(ip)(#[trigger] links@[j]),
            ip == addr.host(),
            addr.door() == me_port,
        decreases links@.len() - i,
    {
        if has_ip(&links[i], ip) {
            proof {
                lemma_is_first(links@, with_ip(ip), i as int);
            }
            return true;
        }
        i = i + 1;
    }
    proof {
        lemma_first_such(links@, with_ip(ip));
    }
    false
}

// ---- the list of devices ----

/// A device that is offered.
#[derive(Debug)]
pub struct Row {
    pub name: String,
    pub peer: Peer,
    pub via: ViaInfo,
}

/// The same, as contracts see it.
pub struct RowView {
    pub name: Seq<char>,
    pub peer: PeerView,
    pub via: ViaInfo,
}

impl View for Row {
    type V = RowView;

    open spec fn view(&self) -> RowView {
        RowView { name: self.name@, peer: self.peer@, via: self.via }
    }
}

/// Rows, as contracts see them.
pub open spec fn rows(list: Seq<Row>) -> Seq<RowView> {
    list.map_values(|r: Row| r@)
}

impl Keyed for Row {
    open spec fn key(&self) -> Seq<int> {
        seq![self.via.rank as int] + codes(self.name@)
    }

    fn at_most(&self, other: &Self) -> (r: bool) {
        proof {
            let a = seq![self.via.rank as int];
            let b = seq![other.via.rank as int];
            assert((a + codes(self.name@)).skip(1) =~= codes(self.name@));
            assert((b + codes(other.name@)).skip(1) =~= codes(other.name@));
        }
        if self.via.rank != other.via.rank {
            self.via.rank < other.via.rank
        } else {
            text_at_most(self.name.as_str(), other.name.as_str())
        }
    }
}

/// Rows of this name.
pub open spec fn row_named(name: Seq<char>) -> spec_fn(RowView) -> bool {
    |r: RowView| r.name == name
}

/// One row for each device, in the order in which they are first heard: the same
/// device is heard once per network path, and only its best is kept. Our own
/// beacons are passed over.
pub open spec fn offered(
    heard: Seq<Heard>,
    links: Seq<Link>,
    ifs: Seq<Interface>,
    me_port: u16,
) -> Seq<RowView>
    decreases heard.len(),
{
    if heard.len() == 0 {
        Seq::empty()
    } else {
        let before = offered(heard.drop_last(), links, ifs, me_port);
        let h = heard.last();
        if is_self(links, h.peer.addr, me_port) {
            before
        } else {
            let name = pretty(h.peer.name@);
            let new = RowView {
                name,
                peer: h.peer@,
                via: via(links, ifs, h.peer.addr.host(), h.local),
            };
            match first_such(before, row_named(name)) {
                Some(i) => if new.via.rank < before[i].via.rank {
                    before.update(i, new)
                } else {
                    before
                },
                None => before.push(new),
            }
        }
    }
}

/// The rows in the order in which they are shown: best path first, then by name.
pub open spec fn in_order(found: Seq<RowView>, shown: Seq<Row>) -> bool {
    exists|list: Seq<Row>| rows(list) == found && shown == #[trigger] stable_sorted(list)
}

fn find_row(list: &Vec<Row>, name: &str) -> (r: Option<usize>)
    ensures
        match first_such(rows(list@), row_named(name@)) {
            Some(i) => r matches Some(k) && k == i && 0 <= i < list@.len(),
            None => r is None,
        },
{
    let ghost all = rows(list@);
    let mut i: usize = 0;
    while i < list.len()
        invariant
            i <= list@.len(),
            all == rows(list@),
            forall|j: int| 0 <= j < i ==> !row_named(name@)(#[trigger] all[j]),
        decreases list@.len() - i,
    {
        if same(list[i].name.as_str(), name) {
            proof {
                lemma_is_first(all, row_named(name@), i as int);
            }
            return Some(i);
        }
        i = i + 1;
    }
    proof {
        lemma_first_such(all, row_named(name@));
    }
    None
}

/// The devices that are offered: one row each, best path first, then by name.
pub fn device_rows(
    heard: &Vec<Heard>,
    links: &Vec<Link>,
    ifs: &Vec<Interface>,
    me_port: u16,
) -> (r: Vec<Row>)
    ensures
        in_order(offered(heard@, links@, ifs@, me_port), r@),
{
    let mut best: Vec<Row> = Vec::new();
    let mut i: usize = 0;
    assert(heard@.take(0) =~= Seq::<Heard>::empty());
    assert(rows(best@) =~= offered(heard@.take(0), links@, ifs@, me_port));
    while i < heard.len()
        invariant
            i <= heard@.len(),
            rows(best@) == offered(heard@.take(i as int), links@, ifs@, me_port),
        decreases heard@.len() - i,
    {
        assert(heard@.take(i + 1).drop_last() =~= heard@.take(i as int));
        assert(heard@.take(i + 1).last() == heard@[i as int]);
        let peer = &heard[i].peer;
        if !own_beacon(links, peer.addr, me_port) {
            let via = via_info(links, ifs, peer.addr.ip(), heard[i].local);
            let name = pretty_name(peer.name.as_str());
            let ghost before = best@;
            match find_row(&best, name.as_str()) {
                Some(k) => {
                    if via.rank < best[k].via.rank {
                        best.set(k, Row { name, peer: peer.clone(), via });
                        assert(rows(best@) =~= rows(before).update(k as int, best@[k as int]@));
                    }
                },
                None => {
                    best.push(Row { name, peer: peer.clone(), via });
                    assert(rows(best@) =~= rows(before).push(best@.last()@));
                },
            }
        }
        i = i + 1;
    }
    assert(heard@.take(heard@.len() as int) =~= heard@);
    let ghost list = best@;
    let sorted = stable_sort(best);
    assert(rows(list) == offered(heard@, links@, ifs@, me_port) && sorted@ == stable_sorted(list));
    sorted
}

/// Each device is offered once.
pub proof fn lemma_offered_once(
    heard: Seq<Heard>,
    links: Seq<Link>,
    ifs: Seq<Interface>,
    me_port: u16,
)
    ensures
        forall|i: int, j: int|
            0 <= i < j < offered(heard, links, ifs, me_port).len() ==> (
            #[trigger] offered(heard, links, ifs, me_port)[i]).name != (#[trigger] offered(
                heard,
                links,
                ifs,
                me_port,
            )[j]).name,
    decreases heard.len(),
{
    if heard.len() > 0 {
        let rest = heard.drop_last();
        lemma_offered_once(rest, links, ifs, me_port);
        let before = offered(rest, links, ifs, me_port);
        let p = row_named(pretty(heard.last().peer.name@));
        lemma_first_such(before, p);
        let all = offered(heard, links, ifs, me_port);
        assert forall|i: int, j: int| 0 <= i < j < all.len() implies (#[trigger] all[i]).name != (
        #[trigger] all[j]).name by {
            if j < before.len() {
                assert(before[i].name != before[j].name);
            } else {
                assert(!p(before[i]));
            }
        }
    }
}

// ---- connecting by itself ----

/// The device to connect to by itself, and its rank: among those on a cable the
/// first of the best.
pub open spec fn cable_peer(
    heard: Seq<Heard>,
    links: Seq<Link>,
    ifs: Seq<Interface>,
    me_port: u16,
) -> Option<(int, int)>
    decreases heard.len(),
{
    if heard.len() == 0 {
        None
    } else {
        let before = cable_peer(heard.drop_last(), links, ifs, me_port);
        let h = heard.last();
        let how = via(links, ifs, h.peer.addr.host(), h.local);
        if is_self(links, h.peer.addr, me_port) || !how.is_cable {
            before
        } else {
            match before {
                Some(b) => if how.rank < b.1 {
                    Some((heard.len() - 1, how.rank as int))
                } else {
                    before
                },
                None => Some((heard.len() - 1, how.rank as int)),
            }
        }
    }
}

/// The name by which it is decided who calls.
pub open spec fn caller_key(name: Seq<char>) -> Seq<int> {
    codes(lowercase(pretty(name)))
}

/// We call the other device: our name comes before its name.
pub open spec fn initiates(my_name: Seq<char>, peer_name: Seq<char>) -> bool {
    !lex_le(caller_key(peer_name), caller_key(my_name))
}

/// The lower device name initiates, so that both sides don't race: never do both
/// call, and unless the names are the same one of them does.
pub proof fn lemma_one_side_initiates(a: Seq<char>, b: Seq<char>)
    ensures
        !(initiates(a, b) && initiates(b, a)),
        initiates(a, b) || initiates(b, a) || caller_key(a) == caller_key(b),
{
    crate::order::lemma_lex_total(caller_key(a), caller_key(b));
}

/// How long to wait between two attempts, in nanoseconds.
pub const AUTO_PAUSE: u128 = 10000000000;

/// How long to wait between two searches, in nanoseconds.
pub const SEARCH_PAUSE: u128 = 4000000000;

/// The time that has passed.
pub open spec fn since(now: u128, then_time: u128) -> int {
    if now >= then_time {
        now - then_time
    } else {
        0
    }
}

fn passed(now: u128, then_time: u128) -> (r: u128)
    ensures
        r == since(now, then_time),
{
    if now >= then_time {
        now - then_time
    } else {
        0
    }
}

/// The state may call by itself: it is not connected or connecting, nobody has
/// disconnected on purpose, and the last attempt is long enough ago.
pub open spec fn may_call(s: AppView, now: u128) -> bool {
    &&& s.auto_connect
    &&& s.paired is None
    &&& s.outgoing is None
    &&& s.incoming is None
    &&& s.last_auto matches Some(t) ==> since(now, t) >= AUTO_PAUSE
}

/// The state with a connection asked for.
pub open spec fn asking(s: AppView, addr: SocketAddr, label: Seq<char>) -> AppView {
    AppView {
        pair_error: None,
        outgoing: Some(
            OutgoingView { peer_label: label, addr, code: None, was_cancelled: false },
        ),
        ..s
    }
}

fn find_cable_peer(
    heard: &Vec<Heard>,
    links: &Vec<Link>,
    ifs: &Vec<Interface>,
    me_port: u16,
) -> (r: Option<usize>)
    ensures
        match cable_peer(heard@, links@, ifs@, me_port) {
            Some(c) => r matches Some(i) && i == c.0 && i < heard@.len(),
            None => r is None,
        },
{
    let mut best: Option<(usize, u8)> = None;
    let mut i: usize = 0;
    assert(heard@.take(0) =~= Seq::<Heard>::empty());
    while i < heard.len()
        invariant
            i <= heard@.len(),
            match cable_peer(heard@.take(i as int), links@, ifs@, me_port) {
                Some(c) => best matches Some(b) && b.0 == c.0 && b.1 == c.1 && b.0 < heard@.len(),
                None => best is None,
            },
        decreases heard@.len() - i,
    {
        assert(heard@.take(i + 1).drop_last() =~= heard@.take(i as int));
        assert(heard@.take(i + 1).last() == heard@[i as int]);
        let addr = heard[i].peer.addr;
        if !own_beacon(links, addr, me_port) {
            let how = via_info(links, ifs, addr.ip(), heard[i].local);
            if how.is_cable {
                let better = match best {
                    Some(b) => how.rank < b.1,
                    None => true,
                };
                if better {
                    best = Some((i, how.rank));
                }
            }
        }
        i = i + 1;
    }
    assert(heard@.take(heard@.len() as int) =~= heard@);
    match best {
        Some(b) => Some(b.0),
        None => None,
    }
}

impl App {
    /// Cable peers connect by themselves: the plugged-in cable is the consent. The
    /// lower device name initiates. Gives the address to call.
    pub fn maybe_auto_connect(
        &mut self,
        heard: &Vec<Heard>,
        links: &Vec<Link>,
        ifs: &Vec<Interface>,
        now: u128,
    ) -> (r: Option<SocketAddr>)
        ensures
            ({
                let s = old(self)@;
                let call = may_call(s, now) && (cable_peer(heard@, links@, ifs@, s.listen_port)
                    matches Some(c) && initiates(s.my_name, heard@[c.0].peer.name@));
                if call {
                    let c = cable_peer(heard@, links@, ifs@, s.listen_port).unwrap();
                    let peer = heard@[c.0].peer;
                    &&& r == Some(peer.addr)
                    &&& final(self)@ == asking(
                        AppView { last_auto: Some(now), ..s },
                        peer.addr,
                        pretty(peer.name@),
                    )
                } else {
                    r is None && final(self)@ == s
                }
            }),
    {
        if !self.auto_connect || self.paired.is_some() || self.outgoing.is_some()
            || self.incoming.is_some() {
            return None;
        }
        if let Some(t) = self.last_auto {
            if passed(now, t) < AUTO_PAUSE {
                return None;
            }
        }
        let at: usize = match find_cable_peer(heard, links, ifs, self.listen_port) {
            Some(i) => i,
            None => {
                return None;
            },
        };
        let mine = to_lower(pretty_name(self.my_name.as_str()).as_str());
        let theirs = to_lower(pretty_name(heard[at].peer.name.as_str()).as_str());
        if text_at_most(theirs.as_str(), mine.as_str()) {
            // The other side initiates.
            return None;
        }
        self.last_auto = Some(now);
        let addr = heard[at].peer.addr;
        let label = pretty_name(heard[at].peer.name.as_str());
        self.start_pair(addr, label);
        Some(addr)
    }

    /// Asks a device to connect.
    pub fn start_pair(&mut self, addr: SocketAddr, label: String)
        ensures
            final(self)@ == asking(old(self)@, addr, label@),
    {
        self.pair_error = None;
        self.outgoing = Some(
            OutgoingPair { peer_label: label, addr, code: None, was_cancelled: false },
        );
    }

    /// The user picked a device.
    pub fn connect_to(&mut self, addr: SocketAddr, label: String)
        ensures
            final(self)@ == asking(AppView { auto_connect: true, ..old(self)@ }, addr, label@),
    {
        self.auto_connect = true;
        self.start_pair(addr, label);
    }

    /// The code of the connection that we asked for is known.
    pub fn on_code(&mut self, code: String)
        ensures
            final(self)@ == match old(self)@.outgoing {
                Some(o) => AppView {
                    outgoing: Some(OutgoingView { code: Some(code@), ..o }),
                    ..old(self)@
                },
                None => old(self)@,
            },
    {
        if let Some(o) = self.outgoing.take() {
            self.outgoing = Some(
                OutgoingPair {
                    peer_label: o.peer_label,
                    addr: o.addr,
                    code: Some(code),
                    was_cancelled: o.was_cancelled,
                },
            );
        }
    }

    /// The user gave up on the connection.
    pub fn cancel_pair(&mut self, now: u128)
        ensures
            final(self)@ == (AppView { outgoing: None, last_auto: Some(now), ..old(self)@ }),
    {
        self.outgoing = None;
        self.last_auto = Some(now);
    }

    /// The user answered the one who wants to connect.
    pub fn answer_incoming(&mut self)
        ensures
            final(self)@ == (AppView { incoming: None, ..old(self)@ }),
    {
        self.incoming = None;
    }

    /// True when a search for devices is to start; it is then under way.
    pub fn maybe_discover(&mut self, now: u128) -> (r: bool)
        ensures
            r == {
                &&& old(self)@.paired is None
                &&& old(self)@.outgoing is None
                &&& !old(self)@.searching
                &&& old(self)@.last_disco matches Some(t) ==> since(now, t) > SEARCH_PAUSE
            },
            final(self)@ == (AppView { searching: old(self)@.searching || r, ..old(self)@ }),
    {
        if self.paired.is_some() || self.outgoing.is_some() || self.searching {
            return false;
        }
        if let Some(t) = self.last_disco {
            if passed(now, t) <= SEARCH_PAUSE {
                return false;
            }
        }
        self.searching = true;
        true
    }

    /// The user disconnects. Gives the peer to tell and the token to tell it with;
    /// every token that was given out is to be forgotten as well.
    pub fn disconnect(&mut self) -> (r: Option<(SocketAddr, String)>)
        ensures
            final(self)@ == disconnected(old(self)@),
            match old(self)@.paired {
                Some(p) => r matches Some(t) && t.0 == p.addr && t.1@ == p.token,
                None => r is None,
            },
    {
        let peer = match &self.paired {
            Some(p) => Some((p.addr, p.token.clone())),
            None => None,
        };
        self.auto_connect = false;
        self.paired = None;
        self.send_state = SendState::Idle;
        self.speed = SpeedState::Unknown;
        peer
    }
}

/// A deliberate disconnect stays: until the user connects again, the program does
/// not call by itself.
pub proof fn lemma_disconnect_stays(s: AppView, now: u128)
    ensures
        !may_call(disconnected(s), now),
{
}

} // verus!
