//! Physical link detection and classification.
//!
//! Only links that the system already exposes as an IP interface count:
//! Thunderbolt/USB4 host-to-host bridges, direct Ethernet cables, ordinary LAN
//! and Wi-Fi. For Thunderbolt/USB4 links there is also what the cable actually
//! negotiated.

pub mod json;
pub mod linux;
pub mod macos;
pub mod windows;

use vstd::prelude::*;

use crate::address::{ip_text, show_ip};
use crate::net::{
    count_ones, if_ip, ip_of, is_link_local, link_local_v4, loops_back, ones, same_subnet, IfAddr,
    Interface, IpAddr,
};
use crate::order::{
    first_such, lemma_first_such, lemma_is_first, lex_le, stable_sort, stable_sorted, Keyed,
};
use crate::text::{join_texts, joined, pad_right, padded, same, texts};

verus! {

// ---- kinds ----

/// What a link is made of.
#[derive(Debug, Clone, Copy, PartialEq, Eq, Structural)]
pub enum LinkKind {
    /// Thunderbolt 3/4 or USB4 host-to-host network bridge.
    ThunderboltOrUsb4,
    /// Direct USB data link between two computers (e.g. the Mac-to-Mac
    /// USB-C link macOS creates over a plain, non-Thunderbolt cable).
    UsbLink,
    /// Wired Ethernet (direct cable or LAN).
    Ethernet,
    WiFi,
    /// VPN / tunnel interfaces (utun, wg, tun/tap): never a cable.
    Vpn,
    Loopback,
    Other,
}

impl LinkKind {
    /// What users call this kind.
    pub open spec fn named(self) -> Seq<char> {
        match self {
            LinkKind::ThunderboltOrUsb4 => "Thunderbolt/USB4"@,
            LinkKind::UsbLink => "USB cable link"@,
            LinkKind::Ethernet => "Ethernet"@,
            LinkKind::WiFi => "Wi-Fi"@,
            LinkKind::Vpn => "VPN/Tunnel"@,
            LinkKind::Loopback => "Loopback"@,
            LinkKind::Other => "Other"@,
        }
    }

    /// Preference order when choosing the best path (lower is better).
    pub open spec fn ranked(self) -> int {
        match self {
            LinkKind::ThunderboltOrUsb4 => 0,
            LinkKind::UsbLink => 1,
            LinkKind::Ethernet => 2,
            LinkKind::Other => 3,
            LinkKind::WiFi => 4,
            LinkKind::Vpn => 5,
            LinkKind::Loopback => 6,
        }
    }

    /// A kind that is a wire between machines.
    pub open spec fn wired(self) -> bool {
        self is ThunderboltOrUsb4 || self is UsbLink || self is Ethernet
    }

    /// What users call this kind.
    pub fn label(&self) -> (r: &'static str)
        ensures
            r@ == self.named(),
    {
        match self {
            LinkKind::ThunderboltOrUsb4 => "Thunderbolt/USB4",
            LinkKind::UsbLink => "USB cable link",
            LinkKind::Ethernet => "Ethernet",
            LinkKind::WiFi => "Wi-Fi",
            LinkKind::Vpn => "VPN/Tunnel",
            LinkKind::Loopback => "Loopback",
            LinkKind::Other => "Other",
        }
    }

    /// Preference order when choosing the best path (lower is better).
    pub fn rank(&self) -> (r: u8)
        ensures
            r == self.ranked(),
    {
        match self {
            LinkKind::ThunderboltOrUsb4 => 0,
            LinkKind::UsbLink => 1,
            LinkKind::Ethernet => 2,
            LinkKind::Other => 3,
            LinkKind::WiFi => 4,
            LinkKind::Vpn => 5,
            LinkKind::Loopback => 6,
        }
    }
}

/// Recommended number of parallel TCP streams for a link kind.
pub open spec fn streams_for(kind: LinkKind) -> u32 {
    match kind {
        LinkKind::ThunderboltOrUsb4 => 8,
        LinkKind::WiFi | LinkKind::Vpn => 2,
        _ => 4,
    }
}

/// Recommended number of parallel TCP streams for a link kind.
pub fn recommended_streams(kind: LinkKind) -> (r: u32)
    ensures
        r == streams_for(kind),
{
    match kind {
        LinkKind::ThunderboltOrUsb4 => 8,
        LinkKind::UsbLink => 4,
        LinkKind::Ethernet => 4,
        LinkKind::Other => 4,
        LinkKind::WiFi => 2,
        LinkKind::Vpn => 2,
        LinkKind::Loopback => 4,
    }
}

// ---- links ----

/// A speed in Gbit/s: how it reads, and a number by which speeds compare. A speed
/// that is not a number has none and compares with nothing.
#[derive(Debug)]
pub struct Speed {
    pub shown: String,
    pub order: Option<i64>,
}

impl Clone for Speed {
    fn clone(&self) -> (r: Self)
        ensures
            r == *self,
    {
        Speed { shown: self.shown.clone(), order: self.order }
    }
}

/// What the cable/link actually negotiated, read from the OS.
#[derive(Debug)]
pub struct CableInfo {
    /// True when the host-to-host connection is running as USB4.
    pub is_usb4: bool,
    /// e.g. "USB4", "Thunderbolt 3", "Thunderbolt 4".
    pub generation: Option<String>,
    /// Negotiated max link speed in Gbit/s (the cable's usable ceiling).
    pub max_speed_gbps: Option<Speed>,
    /// Free-form extra detail (connected device name, raw speed string).
    pub detail: Option<String>,
}

/// A copy of an optional text.
pub fn copy_text(s: &Option<String>) -> (r: Option<String>)
    ensures
        r == *s,
{
    match s {
        Some(t) => Some(t.clone()),
        None => None,
    }
}

impl Clone for CableInfo {
    fn clone(&self) -> (r: Self)
        ensures
            r == *self,
    {
        let max_speed_gbps = match &self.max_speed_gbps {
            Some(s) => Some(s.clone()),
            None => None,
        };
        CableInfo {
            is_usb4: self.is_usb4,
            generation: copy_text(&self.generation),
            max_speed_gbps,
            detail: copy_text(&self.detail),
        }
    }
}

impl Default for CableInfo {
    fn default() -> (r: Self)
        ensures
            r@ == (CableView {
                is_usb4: false,
                generation: None,
                max_speed_gbps: None,
                detail: None,
            }),
    {
        CableInfo { is_usb4: false, generation: None, max_speed_gbps: None, detail: None }
    }
}

/// An optional text, as contracts see it.
pub open spec fn opt_text(s: Option<String>) -> Option<Seq<char>> {
    match s {
        Some(t) => Some(t@),
        None => None,
    }
}

/// A cable, as contracts see it.
pub struct CableView {
    pub is_usb4: bool,
    pub generation: Option<Seq<char>>,
    pub max_speed_gbps: Option<Speed>,
    pub detail: Option<Seq<char>>,
}

impl View for CableInfo {
    type V = CableView;

    open spec fn view(&self) -> CableView {
        CableView {
            is_usb4: self.is_usb4,
            generation: opt_text(self.generation),
            max_speed_gbps: self.max_speed_gbps,
            detail: opt_text(self.detail),
        }
    }
}

/// An optional cable, as contracts see it.
pub open spec fn opt_cable(c: Option<CableInfo>) -> Option<CableView> {
    match c {
        Some(i) => Some(i@),
        None => None,
    }
}

/// A link of this machine.
#[derive(Debug, Clone)]
pub struct Link {
    /// OS interface name, e.g. "bridge0", "en5", "tb0", "Ethernet 2".
    pub interface: String,
    /// Human-readable name, e.g. "Thunderbolt Bridge".
    pub display: String,
    pub kind: LinkKind,
    pub ips: Vec<IpAddr>,
    pub cable: Option<CableInfo>,
}

/// A link, as contracts see it.
pub struct LinkView {
    pub interface: Seq<char>,
    pub display: Seq<char>,
    pub kind: LinkKind,
    pub ips: Seq<IpAddr>,
    pub cable: Option<CableView>,
}

impl View for Link {
    type V = LinkView;

    open spec fn view(&self) -> LinkView {
        LinkView {
            interface: self.interface@,
            display: self.display@,
            kind: self.kind,
            ips: self.ips@,
            cable: opt_cable(self.cable),
        }
    }
}

impl Keyed for Link {
    open spec fn key(&self) -> Seq<int> {
        seq![self.kind.ranked()]
    }

    fn at_most(&self, other: &Self) -> (r: bool) {
        proof {
            crate::order::lemma_lex_single(self.kind.ranked(), other.kind.ranked());
        }
        self.kind.rank() <= other.kind.rank()
    }
}

/// The texts of addresses, all of them or only those of IPv4.
pub open spec fn ip_texts(ips: Seq<IpAddr>, only_v4: bool) -> Seq<Seq<char>>
    decreases ips.len(),
{
    if ips.len() == 0 {
        Seq::empty()
    } else if only_v4 && ips.last() is V6 {
        ip_texts(ips.drop_last(), only_v4)
    } else {
        ip_texts(ips.drop_last(), only_v4).push(ip_text(ips.last()))
    }
}

/// The texts of addresses, all of them or only those of IPv4.
pub fn show_ips(ips: &Vec<IpAddr>, only_v4: bool) -> (r: Vec<String>)
    ensures
        texts(r@) == ip_texts(ips@, only_v4),
{
    let mut out: Vec<String> = Vec::new();
    let mut i: usize = 0;
    assert(ips@.take(0) =~= Seq::<IpAddr>::empty());
    assert(texts(out@) =~= ip_texts(ips@.take(0), only_v4));
    while i < ips.len()
        invariant
            i <= ips@.len(),
            texts(out@) == ip_texts(ips@.take(i as int), only_v4),
        decreases ips@.len() - i,
    {
        assert(ips@.take(i + 1).drop_last() =~= ips@.take(i as int));
        let is_v6 = match ips[i] {
            IpAddr::V4(_) => false,
            IpAddr::V6(_) => true,
        };
        if !(only_v4 && is_v6) {
            let ghost before = out@;
            out.push(show_ip(ips[i]));
            assert(texts(out@) =~= texts(before).push(ip_text(ips@[i as int])));
        }
        i = i + 1;
    }
    assert(ips@.take(ips@.len() as int) =~= ips@);
    out
}

/// The addresses of a link as they are listed: those of IPv4, or else all.
pub open spec fn listed_ips(ips: Seq<IpAddr>) -> Seq<char> {
    if ip_texts(ips, true).len() == 0 {
        joined(ip_texts(ips, false), ", "@)
    } else {
        joined(ip_texts(ips, true), ", "@)
    }
}

/// What is known of a cable, in words.
pub open spec fn cable_parts(c: CableView) -> Seq<Seq<char>> {
    let first = if c.is_usb4 {
        seq!["USB4 connection: yes"@]
    } else {
        match c.generation {
            Some(g) => seq!["connection: "@ + g],
            None => Seq::empty(),
        }
    };
    let second = match c.max_speed_gbps {
        Some(s) => first.push("cable max speed: "@ + s.shown@ + " Gb/s"@),
        None => first,
    };
    match c.detail {
        Some(d) => second.push(d),
        None => second,
    }
}

/// What is known of the cable of a link, in one line, if anything is.
pub open spec fn cable_line(cable: Option<CableView>) -> Option<Seq<char>> {
    match cable {
        Some(c) => if cable_parts(c).len() == 0 {
            None
        } else {
            Some(joined(cable_parts(c), ", "@))
        },
        None => None,
    }
}

/// A link in one line.
pub open spec fn link_line(l: LinkView) -> Seq<char> {
    padded(l.interface, 10) + " "@ + padded(l.display, 24) + " ["@ + l.kind.named() + "]  "@
        + listed_ips(l.ips)
}

impl Link {
    /// The link in one line.
    pub fn summary(&self) -> (r: String)
        ensures
            r@ == link_line(self@),
    {
        let v4 = show_ips(&self.ips, true);
        let ips = if v4.len() == 0 {
            join_texts(&show_ips(&self.ips, false), ", ")
        } else {
            join_texts(&v4, ", ")
        };
        let mut s = pad_right(self.interface.as_str(), 10);
        s.append(" ");
        s.append(pad_right(self.display.as_str(), 24).as_str());
        s.append(" [");
        s.append(self.kind.label());
        s.append("]  ");
        s.append(ips.as_str());
        s
    }

    /// What is known of the cable, in one line, if anything is.
    pub fn cable_summary(&self) -> (r: Option<String>)
        ensures
            opt_text(r) == cable_line(self@.cable),
    {
        let c = match &self.cable {
            Some(c) => c,
            None => {
                return None;
            },
        };
        let mut parts: Vec<String> = Vec::new();
        assert(texts(parts@) =~= Seq::<Seq<char>>::empty());
        if c.is_usb4 {
            parts.push("USB4 connection: yes".to_string());
            assert(texts(parts@) =~= seq!["USB4 connection: yes"@]);
        } else if let Some(g) = &c.generation {
            let mut s = "connection: ".to_string();
            s.append(g.as_str());
            parts.push(s);
            assert(texts(parts@) =~= seq!["connection: "@ + g@]);
        }
        if let Some(speed) = &c.max_speed_gbps {
            let ghost before = parts@;
            let mut s = "cable max speed: ".to_string();
            s.append(speed.shown.as_str());
            s.append(" Gb/s");
            parts.push(s);
            assert(texts(parts@) =~= texts(before).push(
                "cable max speed: "@ + speed.shown@ + " Gb/s"@,
            ));
        }
        if let Some(d) = &c.detail {
            let ghost before = parts@;
            parts.push(d.clone());
            assert(texts(parts@) =~= texts(before).push(d@));
        }
        assert(texts(parts@) == cable_parts(c@));
        if parts.len() == 0 {
            None
        } else {
            Some(join_texts(&parts, ", "))
        }
    }
}

// ---- choosing ----

/// Links of this kind.
pub open spec fn of_kind(kind: LinkKind) -> spec_fn(Link) -> bool {
    |l: Link| l.kind == kind
}

/// Links that leave the machine.
pub open spec fn leaves() -> spec_fn(Link) -> bool {
    |l: Link| l.kind != LinkKind::Loopback
}

/// The usable links, best first; among equals the order stays.
pub fn detect_links(found: Vec<Link>) -> (r: Vec<Link>)
    ensures
        r@ == stable_sorted(found@),
{
    stable_sort(found)
}

/// The best of these links that leaves the machine, if there is one.
pub open spec fn best_of(found: Seq<Link>) -> Option<int> {
    first_such(stable_sorted(found), leaves())
}

/// The best link that leaves the machine, if there is one.
pub fn best_link(found: Vec<Link>) -> (r: Option<Link>)
    ensures
        match best_of(found@) {
            Some(i) => r == Some(stable_sorted(found@)[i]),
            None => r is None,
        },
{
    let mut sorted = detect_links(found);
    let ghost all = sorted@;
    let mut i: usize = 0;
    while i < sorted.len()
        invariant
            i <= sorted@.len(),
            sorted@ == all,
            all == stable_sorted(found@),
            forall|j: int| 0 <= j < i ==> !leaves()(#[trigger] all[j]),
        decreases sorted@.len() - i,
    {
        if sorted[i].kind != LinkKind::Loopback {
            proof {
                lemma_is_first(all, leaves(), i as int);
            }
            return Some(sorted.swap_remove(i));
        }
        i = i + 1;
    }
    proof {
        lemma_first_such(all, leaves());
    }
    None
}

/// No link that leaves the machine is better than the best link.
pub proof fn lemma_best_link(found: Seq<Link>, i: int)
    requires
        0 <= i < found.len(),
        leaves()(found[i]),
    ensures
        best_of(found) matches Some(b) && 0 <= b < stable_sorted(found).len()
            && stable_sorted(found)[b].kind.ranked() <= found[i].kind.ranked(),
{
    broadcast use vstd::seq_lib::group_to_multiset_ensures;

    let sorted = stable_sorted(found);
    crate::order::lemma_stable_sorted(found);
    crate::order::lemma_sorted_same_values(found);
    lemma_first_such(sorted, leaves());
    assert(found.to_multiset().contains(found[i])) by {
        assert(found.contains(found[i]));
    }
    assert(sorted.contains(found[i]));
    let k = choose|k: int| 0 <= k < sorted.len() && sorted[k] == found[i];
    assert(leaves()(sorted[k]));
    let b = best_of(found).unwrap();
    if b < k {
        assert(lex_le(sorted[b].key(), sorted[k].key()));
        crate::order::lemma_lex_single(sorted[b].kind.ranked(), sorted[k].kind.ranked());
    }
}

// ---- the link to a peer ----

/// Links of this interface.
pub open spec fn on_interface(name: Seq<char>) -> spec_fn(Link) -> bool {
    |l: Link| l.interface@ == name
}

/// Links with this address.
pub open spec fn with_ip(ip: IpAddr) -> spec_fn(Link) -> bool {
    |l: Link| l.ips@.contains(ip)
}

/// Links with an address that machines on a bare cable give themselves.
pub open spec fn with_link_local() -> spec_fn(Link) -> bool {
    |l: Link|
        exists|i: int|
            0 <= i < l.ips@.len() && (#[trigger] l.ips@[i] matches IpAddr::V4(n)
                && link_local_v4(n))
}

/// The link of an interface that has `peer` in its IPv4 subnet, and the length of
/// the subnet's prefix; tunnels and the loopback never count.
pub open spec fn attached(links: Seq<Link>, iface: Interface, peer: u32) -> Option<(int, nat)> {
    match iface.addr {
        IfAddr::V4 { ip, netmask, .. } => if same_subnet(ip, netmask, peer) {
            match first_such(links, on_interface(iface.name@)) {
                Some(i) => if links[i].kind is Vpn || links[i].kind is Loopback {
                    None
                } else {
                    Some((i, ones(netmask as nat)))
                },
                None => None,
            }
        } else {
            None
        },
        IfAddr::V6 { .. } => None,
    }
}

/// Longest-prefix match: the link that `peer` is directly attached to, the first
/// of them where prefixes are equally long.
pub open spec fn subnet_match(
    links: Seq<Link>,
    ifs: Seq<Interface>,
    peer: u32,
) -> Option<(int, nat)>
    decreases ifs.len(),
{
    if ifs.len() == 0 {
        None
    } else {
        let before = subnet_match(links, ifs.drop_last(), peer);
        match attached(links, ifs.last(), peer) {
            Some(new) => match before {
                Some(old_best) => if new.1 > old_best.1 {
                    Some(new)
                } else {
                    before
                },
                None => Some(new),
            },
            None => before,
        }
    }
}

/// Which link a connection to `peer` travels over. `local` is the local address
/// that the routing table gives for `peer`, if it gives one.
pub open spec fn route(
    links: Seq<Link>,
    ifs: Seq<Interface>,
    peer: IpAddr,
    local: Option<IpAddr>,
) -> Option<int> {
    let by_table = match local {
        Some(ip) => first_such(links, with_ip(ip)),
        None => None,
    };
    if peer.canonical().loopback() {
        first_such(links, of_kind(LinkKind::Loopback))
    } else {
        match peer.canonical() {
            IpAddr::V4(v4) => match subnet_match(links, ifs, v4) {
                Some(m) => Some(m.0),
                None => if link_local_v4(v4) && first_such(links, with_link_local()) is Some {
                    first_such(links, with_link_local())
                } else {
                    by_table
                },
            },
            IpAddr::V6(_) => by_table,
        }
    }
}

/// The match has the longest prefix of all interfaces that the peer is attached
/// to, and there is a match as soon as the peer is attached to one.
pub proof fn lemma_longest_prefix(links: Seq<Link>, ifs: Seq<Interface>, peer: u32)
    ensures
        subnet_match(links, ifs, peer) matches Some(m) ==> 0 <= m.0 < links.len()
            && !(links[m.0].kind is Vpn) && !(links[m.0].kind is Loopback),
        forall|k: int|
            0 <= k < ifs.len() ==> (attached(links, #[trigger] ifs[k], peer) matches Some(a)
                ==> subnet_match(links, ifs, peer) matches Some(m) && a.1 <= m.1),
    decreases ifs.len(),
{
    if ifs.len() > 0 {
        let d = ifs.drop_last();
        lemma_longest_prefix(links, d, peer);
        if let IfAddr::V4 { .. } = ifs.last().addr {
            lemma_first_such(links, on_interface(ifs.last().name@));
        }
        assert forall|k: int| 0 <= k < ifs.len() implies (attached(links, #[trigger] ifs[k], peer)
            matches Some(a) ==> subnet_match(links, ifs, peer) matches Some(m) && a.1 <= m.1) by {
            if k < d.len() {
                assert(d[k] == ifs[k]);
            }
        }
    }
}

/// The route is one of the links.
pub proof fn lemma_route_in_range(
    links: Seq<Link>,
    ifs: Seq<Interface>,
    peer: IpAddr,
    local: Option<IpAddr>,
)
    ensures
        route(links, ifs, peer, local) matches Some(i) ==> 0 <= i < links.len(),
{
    lemma_first_such(links, of_kind(LinkKind::Loopback));
    lemma_first_such(links, with_link_local());
    if let Some(ip) = local {
        lemma_first_such(links, with_ip(ip));
    }
    if let IpAddr::V4(v4) = peer.canonical() {
        lemma_longest_prefix(links, ifs, v4);
    }
}

/// A peer inside the subnet of one of our own physical interfaces is reached over
/// that interface, whatever the routing table says.
pub proof fn lemma_wire_before_table(
    links: Seq<Link>,
    ifs: Seq<Interface>,
    peer: u32,
    a: Option<IpAddr>,
    b: Option<IpAddr>,
    k: int,
)
    requires
        0 <= k < ifs.len(),
        attached(links, ifs[k], peer) is Some,
        !IpAddr::V4(peer).loopback(),
    ensures
        route(links, ifs, IpAddr::V4(peer), a) == route(links, ifs, IpAddr::V4(peer), b),
        route(links, ifs, IpAddr::V4(peer), a) is Some,
{
    lemma_longest_prefix(links, ifs, peer);
}

fn find_kind(links: &Vec<Link>, kind: LinkKind) -> (r: Option<usize>)
    ensures
        match first_such(links@, of_kind(kind)) {
            Some(i) => r matches Some(k) && k == i && 0 <= i < links@.len(),
            None => r is None,
        },
{
    let mut i: usize = 0;
    while i < links.len()
        invariant
            i <= links@.len(),
            forall|j: int| 0 <= j < i ==> !of_kind(kind)(#[trigger] links@[j]),
        decreases links@.len() - i,
    {
        if links[i].kind == kind {
            proof {
                lemma_is_first(links@, of_kind(kind), i as int);
            }
            return Some(i);
        }
        i = i + 1;
    }
    proof {
        lemma_first_such(links@, of_kind(kind));
    }
    None
}

fn find_interface(links: &Vec<Link>, name: &str) -> (r: Option<usize>)
    ensures
        match first_such(links@, on_interface(name@)) {
            Some(i) => r matches Some(k) && k == i && 0 <= i < links@.len(),
            None => r is None,
        },
{
    let mut i: usize = 0;
    while i < links.len()
        invariant
            i <= links@.len(),
            forall|j: int| 0 <= j < i ==> !on_interface(name@)(#[trigger] links@[j]),
        decreases links@.len() - i,
    {
        if same(links[i].interface.as_str(), name) {
            proof {
                lemma_is_first(links@, on_interface(name@), i as int);
            }
            return Some(i);
        }
        i = i + 1;
    }
    proof {
        lemma_first_such(links@, on_interface(name@));
    }
    None
}

/// True when the link has this address.
pub fn has_ip(link: &Link, ip: IpAddr) -> (r: bool)
    ensures
        r == link.ips@.contains(ip),
{
    let mut i: usize = 0;
    while i < link.ips.len()
        invariant
            i <= link.ips@.len(),
            forall|j: int| 0 <= j < i ==> link.ips@[j] != ip,
        decreases link.ips@.len() - i,
    {
        if link.ips[i] == ip {
            return true;
        }
        i = i + 1;
    }
    false
}

fn has_link_local(link: &Link) -> (r: bool)
    ensures
        r == with_link_local()(*link),
{
    let mut i: usize = 0;
    while i < link.ips.len()
        invariant
            i <= link.ips@.len(),
            forall|j: int|
                0 <= j < i ==> !(#[trigger] link.ips@[j] matches IpAddr::V4(n) && link_local_v4(
                    n,
                )),
        decreases link.ips@.len() - i,
    {
        if let IpAddr::V4(n) = link.ips[i] {
            if is_link_local(n) {
                return true;
            }
        }
        i = i + 1;
    }
    false
}

fn find_ip(links: &Vec<Link>, ip: IpAddr) -> (r: Option<usize>)
    ensures
        match first_such(links@, with_ip(ip)) {
            Some(i) => r matches Some(k) && k == i && 0 <= i < links@.len(),
            None => r is None,
        },
{
    let mut i: usize = 0;
    while i < links.len()
        invariant
            i <= links@.len(),
            forall|j: int| 0 <= j < i ==> !with_ip(ip)(#[trigger] links@[j]),
        decreases links@.len() - i,
    {
        if has_ip(&links[i], ip) {
            proof {
                lemma_is_first(links@, with_ip(ip), i as int);
            }
            return Some(i);
        }
        i = i + 1;
    }
    proof {
        lemma_first_such(links@, with_ip(ip));
    }
    None
}

fn find_link_local(links: &Vec<Link>) -> (r: Option<usize>)
    ensures
        match first_such(links@, with_link_local()) {
            Some(i) => r matches Some(k) && k == i && 0 <= i < links@.len(),
            None => r is None,
        },
{
    let mut i: usize = 0;
    while i < links.len()
        invariant
            i <= links@.len(),
            forall|j: int| 0 <= j < i ==> !with_link_local()(#[trigger] links@[j]),
        decreases links@.len() - i,
    {
        if has_link_local(&links[i]) {
            proof {
                lemma_is_first(links@, with_link_local(), i as int);
            }
            return Some(i);
        }
        i = i + 1;
    }
    proof {
        lemma_first_such(links@, with_link_local());
    }
    None
}

/// Longest-prefix match: the link of the local non-VPN interface whose IPv4
/// subnet contains `peer`, that is, the peer is directly attached to that wire.
pub fn subnet_link(links: &Vec<Link>, ifs: &Vec<Interface>, peer: u32) -> (r: Option<usize>)
    ensures
        match subnet_match(links@, ifs@, peer) {
            Some(m) => r matches Some(k) && k == m.0 && k < links@.len(),
            None => r is None,
        },
{
    let mut best: Option<(usize, u32)> = None;
    let mut i: usize = 0;
    assert(ifs@.take(0) =~= Seq::<Interface>::empty());
    while i < ifs.len()
        invariant
            i <= ifs@.len(),
            match subnet_match(links@, ifs@.take(i as int), peer) {
                Some(m) => best matches Some(b) && b.0 == m.0 && b.1 == m.1 && b.0 < links@.len(),
                None => best is None,
            },
        decreases ifs@.len() - i,
    {
        assert(ifs@.take(i + 1).drop_last() =~= ifs@.take(i as int));
        assert(ifs@.take(i + 1).last() == ifs@[i as int]);
        if let IfAddr::V4 { ip, netmask, .. } = ifs[i].addr {
            if netmask != 0 && peer & netmask == ip & netmask {
                if let Some(k) = find_interface(links, ifs[i].name.as_str()) {
                    let kind = links[k].kind;
                    if kind != LinkKind::Vpn && kind != LinkKind::Loopback {
                        let prefix: u32 = count_ones(netmask);
                        let better = match best {
                            Some(b) => prefix > b.1,
                            None => true,
                        };
                        if better {
                            best = Some((k, prefix));
                        }
                    }
                }
            }
        }
        i = i + 1;
    }
    assert(ifs@.take(ifs@.len() as int) =~= ifs@);
    match best {
        Some(b) => Some(b.0),
        None => None,
    }
}

/// Which detected link a connection to `peer` would actually travel over. This
/// is how "paired through the cable" and "paired over Wi-Fi" are told apart.
/// `local` is the local address that the system would use to reach `peer`.
pub fn route_link<'a>(
    links: &'a Vec<Link>,
    ifs: &Vec<Interface>,
    peer: IpAddr,
    local: Option<IpAddr>,
) -> (r: Option<&'a Link>)
    ensures
        match route(links@, ifs@, peer, local) {
            Some(i) => r matches Some(l) && *l == links@[i] && 0 <= i < links@.len(),
            None => r is None,
        },
{
    // Dual-stack listeners hand out v4-mapped v6 addresses; normalize first.
    let peer = peer.to_canonical();
    if peer.is_loopback() {
        return match find_kind(links, LinkKind::Loopback) {
            Some(i) => Some(&links[i]),
            None => None,
        };
    }
    // A peer inside a subnet that one of our own non-VPN interfaces directly owns
    // is on that wire, regardless of what the routing table says: VPNs sometimes
    // capture these routes.
    if let IpAddr::V4(v4) = peer {
        if let Some(i) = subnet_link(links, ifs, v4) {
            return Some(&links[i]);
        }
        // A link-local peer but no matching subnet yet (the address is still
        // settling): any interface with such an address is the best guess.
        if is_link_local(v4) {
            if let Some(i) = find_link_local(links) {
                return Some(&links[i]);
            }
        }
    }
    match local {
        Some(ip) => match find_ip(links, ip) {
            Some(i) => Some(&links[i]),
            None => None,
        },
        None => None,
    }
}

/// True when the route is a wire.
pub open spec fn by_wire(
    links: Seq<Link>,
    ifs: Seq<Interface>,
    peer: IpAddr,
    local: Option<IpAddr>,
) -> bool {
    route(links, ifs, peer, local) matches Some(i) && links[i].kind.wired()
}

/// True when `peer` is reached over a wire (Thunderbolt/USB4, the Mac-to-Mac USB
/// link, or Ethernet). A physical cable is treated as consent, so pairing skips
/// the confirmation for these peers; Wi-Fi and VPN peers always verify.
pub fn is_direct_cable_peer(
    links: &Vec<Link>,
    ifs: &Vec<Interface>,
    peer: IpAddr,
    local: Option<IpAddr>,
) -> (r: bool)
    ensures
        r == by_wire(links@, ifs@, peer, local),
{
    match route_link(links, ifs, peer, local) {
        Some(l) => match l.kind {
            LinkKind::ThunderboltOrUsb4 | LinkKind::UsbLink | LinkKind::Ethernet => true,
            _ => false,
        },
        None => false,
    }
}

/// Only a wire is consent: a peer that is reached over Wi-Fi, a tunnel, the
/// loopback or something unknown, or over no link at all, is none.
pub proof fn lemma_only_wires(
    links: Seq<Link>,
    ifs: Seq<Interface>,
    peer: IpAddr,
    local: Option<IpAddr>,
)
    ensures
        by_wire(links, ifs, peer, local) <==> (route(links, ifs, peer, local) matches Some(i) && 0
            <= i < links.len() && links[i].kind != LinkKind::WiFi && links[i].kind != LinkKind::Vpn
            && links[i].kind != LinkKind::Loopback && links[i].kind != LinkKind::Other),
{
    lemma_route_in_range(links, ifs, peer, local);
}

// ---- interfaces ----

/// An interface with all its addresses.
#[derive(Debug)]
pub struct Grouped {
    pub name: String,
    pub ips: Vec<IpAddr>,
    pub loopback: bool,
}

/// The same, as contracts see it.
pub struct GroupedView {
    pub name: Seq<char>,
    pub ips: Seq<IpAddr>,
    pub loopback: bool,
}

impl View for Grouped {
    type V = GroupedView;

    open spec fn view(&self) -> GroupedView {
        GroupedView { name: self.name@, ips: self.ips@, loopback: self.loopback }
    }
}

/// Interfaces, as contracts see them.
pub open spec fn groups(list: Seq<Grouped>) -> Seq<GroupedView> {
    list.map_values(|g: Grouped| g@)
}

/// Interfaces of this name.
pub open spec fn group_named(name: Seq<char>) -> spec_fn(GroupedView) -> bool {
    |g: GroupedView| g.name == name
}

/// The interfaces in the order in which they are first named, each with its
/// addresses in order. An interface loops back when its first address does.
pub open spec fn grouped(ifs: Seq<Interface>) -> Seq<GroupedView>
    decreases ifs.len(),
{
    if ifs.len() == 0 {
        Seq::empty()
    } else {
        let before = grouped(ifs.drop_last());
        let ip = if_ip(ifs.last().addr);
        let name = ifs.last().name@;
        match first_such(before, group_named(name)) {
            Some(i) => before.update(
                i,
                GroupedView { ips: before[i].ips.push(ip), ..before[i] },
            ),
            None => before.push(GroupedView { name, ips: seq![ip], loopback: ip.loopback() }),
        }
    }
}

fn find_group(list: &Vec<Grouped>, name: &str) -> (r: Option<usize>)
    ensures
        match first_such(groups(list@), group_named(name@)) {
            Some(i) => r matches Some(k) && k == i && 0 <= i < list@.len(),
            None => r is None,
        },
{
    let ghost all = groups(list@);
    let mut i: usize = 0;
    while i < list.len()
        invariant
            i <= list@.len(),
            all == groups(list@),
            forall|j: int| 0 <= j < i ==> !group_named(name@)(#[trigger] all[j]),
        decreases list@.len() - i,
    {
        if same(list[i].name.as_str(), name) {
            proof {
                lemma_is_first(all, group_named(name@), i as int);
            }
            return Some(i);
        }
        i = i + 1;
    }
    proof {
        lemma_first_such(all, group_named(name@));
    }
    None
}

/// The interfaces with all their addresses, in the order of the list.
pub fn interfaces_with_ips(ifs: &Vec<Interface>) -> (r: Vec<Grouped>)
    ensures
        groups(r@) == grouped(ifs@),
{
    let mut out: Vec<Grouped> = Vec::new();
    let mut i: usize = 0;
    assert(ifs@.take(0) =~= Seq::<Interface>::empty());
    assert(groups(out@) =~= grouped(ifs@.take(0)));
    while i < ifs.len()
        invariant
            i <= ifs@.len(),
            groups(out@) == grouped(ifs@.take(i as int)),
        decreases ifs@.len() - i,
    {
        assert(ifs@.take(i + 1).drop_last() =~= ifs@.take(i as int));
        assert(ifs@.take(i + 1).last() == ifs@[i as int]);
        let ip = ip_of(&ifs[i].addr);
        let ghost before = out@;
        match find_group(&out, ifs[i].name.as_str()) {
            Some(k) => {
                out[k].ips.push(ip);
                assert(groups(out@) =~= groups(before).update(k as int, out@[k as int]@));
            },
            None => {
                let mut ips: Vec<IpAddr> = Vec::new();
                ips.push(ip);
                assert(ips@ =~= seq![ip]);
                let loopback = loops_back(&ifs[i]);
                out.push(Grouped { name: ifs[i].name.clone(), ips, loopback });
                assert(groups(out@) =~= groups(before).push(out@.last()@));
            },
        }
        i = i + 1;
    }
    assert(ifs@.take(ifs@.len() as int) =~= ifs@);
    out
}

/// Each interface is listed once.
pub proof fn lemma_grouped_once(ifs: Seq<Interface>)
    ensures
        forall|i: int, j: int|
            0 <= i < j < grouped(ifs).len() ==> (#[trigger] grouped(ifs)[i]).name != (
            #[trigger] grouped(ifs)[j]).name,
    decreases ifs.len(),
{
    if ifs.len() > 0 {
        lemma_grouped_once(ifs.drop_last());
        let before = grouped(ifs.drop_last());
        let p = group_named(ifs.last().name@);
        lemma_first_such(before, p);
        assert forall|i: int, j: int| 0 <= i < j < grouped(ifs).len() implies (
        #[trigger] grouped(ifs)[i]).name != (#[trigger] grouped(ifs)[j]).name by {
            if first_such(before, p) is None {
                assert(before[i].name != ifs.last().name@) by {
                    assert(!p(before[i]));
                }
                if j < before.len() {
                    assert(before[i].name != before[j].name);
                }
            } else {
                assert(before[i].name != before[j].name);
            }
        }
    }
}

/// The link of an interface on a system whose links cannot be told apart.
pub open spec fn plain_link(g: GroupedView) -> LinkView {
    LinkView {
        interface: g.name,
        display: g.name,
        kind: if g.loopback {
            LinkKind::Loopback
        } else {
            LinkKind::Other
        },
        ips: g.ips,
        cable: None,
    }
}

/// Links, as contracts see them.
pub open spec fn link_views(list: Seq<Link>) -> Seq<LinkView> {
    list.map_values(|l: Link| l@)
}

/// Fallback where links cannot be told apart: the interfaces only, unclassified.
pub fn generic_detect(ifs: &Vec<Interface>) -> (r: Vec<Link>)
    ensures
        link_views(r@) == grouped(ifs@).map_values(|g: GroupedView| plain_link(g)),
{
    let found = interfaces_with_ips(ifs);
    let ghost target = grouped(ifs@).map_values(|g: GroupedView| plain_link(g));
    let mut out: Vec<Link> = Vec::new();
    for g in it: found
        invariant
            it.seq() == found@,
            groups(found@) == grouped(ifs@),
            target == grouped(ifs@).map_values(|g: GroupedView| plain_link(g)),
            link_views(out@) =~= target.take(it.index() as int),
    {
        let ghost before = out@;
        let ghost k = it.index() as int;
        assert(groups(found@)[k] == g@);
        let kind = if g.loopback {
            LinkKind::Loopback
        } else {
            LinkKind::Other
        };
        let display = g.name.clone();
        out.push(Link { interface: g.name, display, kind, ips: g.ips, cable: None });
        assert(link_views(out@) =~= link_views(before).push(target[k]));
    }
    assert(target.take(target.len() as int) =~= target);
    out
}

} // verus!
