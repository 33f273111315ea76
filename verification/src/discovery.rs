//! Zero-config peer discovery: what a beacon says, where it goes and who is
//! heard.
//!
//! Beacons go out two ways: IPv4 broadcast, which works on LANs, Ethernet cables
//! and Thunderbolt bridges, and IPv6 link-local multicast, which works on links
//! where one side has no IPv4 at all.

use vstd::prelude::*;

use crate::net::{IfAddr, Interface, IpAddr, SocketAddr};
use crate::order::{first_such, lemma_first_such, lemma_is_first};
use crate::text::{same, texts};

verus! {

/// What every beacon carries.
pub const BEACON_MAGIC: &'static str = "caybul/1";

/// What a receiver says of itself.
#[derive(Debug, Clone)]
pub struct Beacon {
    pub magic: String,
    pub name: String,
    pub port: u16,
    pub os: String,
}

/// A device that was heard.
#[derive(Debug)]
pub struct Peer {
    pub name: String,
    pub os: String,
    pub addr: SocketAddr,
}

impl Clone for Peer {
    fn clone(&self) -> (r: Self)
        ensures
            r == *self,
    {
        Peer { name: self.name.clone(), os: self.os.clone(), addr: self.addr }
    }
}

/// The same, as contracts see it.
pub struct PeerView {
    pub name: Seq<char>,
    pub os: Seq<char>,
    pub addr: SocketAddr,
}

impl View for Peer {
    type V = PeerView;

    open spec fn view(&self) -> PeerView {
        PeerView { name: self.name@, os: self.os@, addr: self.addr }
    }
}

/// Peers, as contracts see them.
pub open spec fn peer_views(list: Seq<Peer>) -> Seq<PeerView> {
    list.map_values(|p: Peer| p@)
}

/// A peer at this address was heard.
pub open spec fn heard_at(list: Seq<Peer>, addr: SocketAddr) -> bool {
    exists|i: int| 0 <= i < list.len() && (#[trigger] list[i]).addr == addr
}

/// No two peers have the same address.
pub open spec fn addrs_differ(list: Seq<Peer>) -> bool {
    forall|i: int, j: int|
        0 <= i < j < list.len() ==> (#[trigger] list[i]).addr != (#[trigger] list[j]).addr
}

/// A beacon of this program. Every beacon that a device makes of itself is one, and
/// the side that listens takes in no other.
pub open spec fn is_ours(beacon: Beacon) -> bool {
    beacon.magic@ == BEACON_MAGIC@
}

// ---- the side that is found ----

/// The beacon of this device.
pub fn make_beacon(name: &str, port: u16, os: &str) -> (r: Beacon)
    ensures
        is_ours(r),
        r.name@ == name@,
        r.port == port,
        r.os@ == os@,
{
    Beacon { magic: BEACON_MAGIC.to_string(), name: name.to_string(), port, os: os.to_string() }
}

/// Where a broadcast leaves this machine and where it goes.
#[derive(Debug, Clone, Copy, PartialEq, Eq, Structural)]
pub struct Broadcast {
    pub from: u32,
    pub to: u32,
}

/// The broadcasts of the interfaces, in their order: each goes out from the
/// interface's own address, for else link-local broadcasts would leave by an
/// arbitrary interface and never cross the cable.
pub open spec fn broadcasts(ifs: Seq<Interface>) -> Seq<Broadcast>
    decreases ifs.len(),
{
    if ifs.len() == 0 {
        Seq::empty()
    } else {
        let before = broadcasts(ifs.drop_last());
        match ifs.last().addr {
            IfAddr::V4 { ip, broadcast: Some(b), .. } => before.push(Broadcast { from: ip, to: b }),
            _ => before,
        }
    }
}

/// The broadcasts of the interfaces.
pub fn broadcast_targets(ifs: &Vec<Interface>) -> (r: Vec<Broadcast>)
    ensures
        r@ == broadcasts(ifs@),
{
    let mut out: Vec<Broadcast> = Vec::new();
    let mut i: usize = 0;
    assert(ifs@.take(0) =~= Seq::<Interface>::empty());
    while i < ifs.len()
        invariant
            i <= ifs@.len(),
            out@ == broadcasts(ifs@.take(i as int)),
        decreases ifs@.len() - i,
    {
        assert(ifs@.take(i + 1).drop_last() =~= ifs@.take(i as int));
        match ifs[i].addr {
            IfAddr::V4 { ip, broadcast: Some(b), .. } => {
                out.push(Broadcast { from: ip, to: b });
            },
            _ => {},
        }
        i = i + 1;
    }
    assert(ifs@.take(ifs@.len() as int) =~= ifs@);
    out
}

/// An address of `fe80::/16`, as every interface with a link of its own has one.
pub open spec fn link_local_v6(ip: u128) -> bool {
    ip / 0x1_0000_0000_0000_0000_0000_0000_0000 == 0xfe80
}

/// The names of the interfaces that a multicast leaves by, in order, one for each
/// link-local address.
pub open spec fn multicasts(ifs: Seq<Interface>) -> Seq<Seq<char>>
    decreases ifs.len(),
{
    if ifs.len() == 0 {
        Seq::empty()
    } else {
        let before = multicasts(ifs.drop_last());
        match ifs.last().addr {
            IfAddr::V6 { ip } => if link_local_v6(ip) {
                before.push(ifs.last().name@)
            } else {
                before
            },
            IfAddr::V4 { .. } => before,
        }
    }
}

/// The names of the interfaces that a multicast leaves by.
pub fn multicast_interfaces(ifs: &Vec<Interface>) -> (r: Vec<String>)
    ensures
        texts(r@) == multicasts(ifs@),
{
    let mut out: Vec<String> = Vec::new();
    let mut i: usize = 0;
    assert(ifs@.take(0) =~= Seq::<Interface>::empty());
    assert(texts(out@) =~= multicasts(ifs@.take(0)));
    while i < ifs.len()
        invariant
            i <= ifs@.len(),
            texts(out@) == multicasts(ifs@.take(i as int)),
        decreases ifs@.len() - i,
    {
        assert(ifs@.take(i + 1).drop_last() =~= ifs@.take(i as int));
        match ifs[i].addr {
            IfAddr::V6 { ip } => {
                if ip / 0x1_0000_0000_0000_0000_0000_0000_0000 == 0xfe80 {
                    let ghost before = out@;
                    out.push(ifs[i].name.clone());
                    assert(texts(out@) =~= texts(before).push(ifs@[i as int].name@));
                }
            },
            IfAddr::V4 { .. } => {},
        }
        i = i + 1;
    }
    assert(ifs@.take(ifs@.len() as int) =~= ifs@);
    out
}

/// Notes the number of an interface. True when the beacon has to go out there:
/// the number is one that an interface can have, and none went out there before.
pub fn first_time(done: &mut Vec<u32>, index: u32) -> (r: bool)
    ensures
        r == (index != 0 && !old(done)@.contains(index)),
        final(done)@ == if r {
            old(done)@.push(index)
        } else {
            old(done)@
        },
{
    if index == 0 {
        return false;
    }
    let mut i: usize = 0;
    while i < done.len()
        invariant
            i <= done@.len(),
            *done == *old(done),
            forall|j: int| 0 <= j < i ==> done@[j] != index,
        decreases done@.len() - i,
    {
        if done[i] == index {
            return false;
        }
        i = i + 1;
    }
    done.push(index);
    true
}

// ---- the side that listens ----

/// A beacon that came in, and where it came from.
pub struct Arrived {
    pub beacon: Beacon,
    pub from: IpAddr,
}

impl Arrived {
    /// The device that the beacon tells of.
    pub open spec fn device(self) -> Peer {
        Peer {
            name: self.beacon.name,
            os: self.beacon.os,
            addr: SocketAddr::at(self.from, self.beacon.port),
        }
    }
}

/// The devices after one more beacon: one of another program is passed over, and so
/// is a device that was heard at the same address before.
pub open spec fn noted(peers: Seq<Peer>, a: Arrived) -> Seq<Peer> {
    if is_ours(a.beacon) && !heard_at(peers, a.device().addr) {
        peers.push(a.device())
    } else {
        peers
    }
}

/// The devices that these beacons tell of, in the order in which they came.
pub open spec fn all_noted(list: Seq<Arrived>) -> Seq<Peer>
    decreases list.len(),
{
    if list.len() == 0 {
        Seq::empty()
    } else {
        noted(all_noted(list.drop_last()), list.last())
    }
}

/// Beacons of this program that tell of a device at this address.
pub open spec fn tells_of(addr: SocketAddr) -> spec_fn(Arrived) -> bool {
    |a: Arrived| is_ours(a.beacon) && a.device().addr == addr
}

/// Who is heard, over everything that came in: an address is listed exactly when a
/// beacon of this program told of it, never twice, and with what the first such
/// beacon said.
pub proof fn lemma_heard(list: Seq<Arrived>)
    ensures
        addrs_differ(all_noted(list)),
        forall|addr: SocketAddr| #[trigger]
            heard_at(all_noted(list), addr) <==> first_such(list, tells_of(addr)) is Some,
        forall|i: int|
            0 <= i < all_noted(list).len() ==> (first_such(
                list,
                tells_of((#[trigger] all_noted(list)[i]).addr),
            ) matches Some(k) && 0 <= k < list.len() && all_noted(list)[i] == list[k].device()),
    decreases list.len(),
{
    if list.len() == 0 {
        assert forall|addr: SocketAddr| #[trigger]
            heard_at(all_noted(list), addr) <==> first_such(list, tells_of(addr)) is Some by {
            lemma_first_such(list, tells_of(addr));
        }
    } else {
        let rest = list.drop_last();
        let before = all_noted(rest);
        let after = all_noted(list);
        let a = list.last();
        lemma_heard(rest);
        assert forall|addr: SocketAddr| #[trigger]
            heard_at(after, addr) <==> first_such(list, tells_of(addr)) is Some by {
            lemma_one_more(list, addr);
            assert(heard_at(before, addr) <==> first_such(rest, tells_of(addr)) is Some);
            if heard_at(before, addr) {
                let j = choose|j: int| 0 <= j < before.len() && (#[trigger] before[j]).addr == addr;
                assert(after[j] == before[j]);
            }
            if after.len() > before.len() {
                assert(after[before.len() as int].addr == a.device().addr);
                if heard_at(after, addr) && !heard_at(before, addr) {
                    let j = choose|j: int|
                        0 <= j < after.len() && (#[trigger] after[j]).addr == addr;
                    if j < before.len() {
                        assert(before[j].addr == addr);
                    }
                }
            }
        }
        assert forall|i: int| 0 <= i < after.len() implies (first_such(
            list,
            tells_of((#[trigger] after[i]).addr),
        ) matches Some(k) && 0 <= k < list.len() && after[i] == list[k].device()) by {
            let addr = after[i].addr;
            lemma_one_more(list, addr);
            if i < before.len() {
                assert(after[i] == before[i]);
                assert(first_such(rest, tells_of(before[i].addr)) is Some);
            } else {
                assert(!heard_at(before, addr));
            }
        }
        assert forall|i: int, j: int| 0 <= i < j < after.len() implies (#[trigger] after[i]).addr
            != (#[trigger] after[j]).addr by {
            assert(after[i] == before[i]);
            if j < before.len() {
                assert(after[j] == before[j]);
            }
        }
    }
}

/// The first beacon that tells of an address, with one more beacon.
proof fn lemma_one_more(list: Seq<Arrived>, addr: SocketAddr)
    requires
        list.len() > 0,
    ensures
        first_such(list, tells_of(addr)) == match first_such(list.drop_last(), tells_of(addr)) {
            Some(k) => Some(k),
            None => if tells_of(addr)(list.last()) {
                Some(list.len() - 1)
            } else {
                None
            },
        },
        first_such(list.drop_last(), tells_of(addr)) matches Some(k) ==> 0 <= k < list.len() - 1
            && list.drop_last()[k] == list[k],
{
    let rest = list.drop_last();
    let p = tells_of(addr);
    lemma_first_such(rest, p);
    lemma_first_such(list, p);
    match first_such(rest, p) {
        Some(k) => {
            assert forall|j: int| 0 <= j < k implies !p(#[trigger] list[j]) by {
                assert(rest[j] == list[j]);
            }
            lemma_is_first(list, p, k);
        },
        None => {
            assert forall|j: int| 0 <= j < list.len() - 1 implies !p(#[trigger] list[j]) by {
                assert(rest[j] == list[j]);
            }
            if p(list.last()) {
                lemma_is_first(list, p, list.len() - 1);
            }
        },
    }
}

/// Takes a beacon that came from `from`. A beacon of another program is passed
/// over, and so is a device that was heard at the same address before.
pub fn note_beacon(peers: &mut Vec<Peer>, beacon: Beacon, from: IpAddr)
    ensures
        final(peers)@ == noted(old(peers)@, Arrived { beacon, from }),
        addrs_differ(old(peers)@) ==> addrs_differ(final(peers)@),
{
    if !same(beacon.magic.as_str(), BEACON_MAGIC) {
        return;
    }
    let addr = SocketAddr::new(from, beacon.port);
    let mut i: usize = 0;
    while i < peers.len()
        invariant
            i <= peers@.len(),
            *peers == *old(peers),
            addr == SocketAddr::at(from, beacon.port),
            forall|j: int| 0 <= j < i ==> (#[trigger] peers@[j]).addr != addr,
        decreases peers@.len() - i,
    {
        if peers[i].addr == addr {
            return;
        }
        i = i + 1;
    }
    peers.push(Peer { name: beacon.name, os: beacon.os, addr });
}

} // verus!
