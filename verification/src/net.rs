//! Addresses and interfaces as plain values: an IPv4 address is its 32-bit
//! number, an IPv6 address its 128-bit number.

use vstd::prelude::*;

use crate::order::{lex_le, stable_sort, stable_sorted, Keyed};
use crate::text::{has_prefix, starts_with};

verus! {

/// An address of either family.
#[derive(Debug, Clone, Copy, PartialEq, Eq, Structural)]
pub enum IpAddr {
    V4(u32),
    V6(u128),
}

/// Where a peer listens. An IPv6 address also carries its flow and its scope.
#[derive(Debug, Clone, Copy, PartialEq, Eq, Structural)]
#[allow(inconsistent_fields)]
pub enum SocketAddr {
    V4 { ip: u32, port: u16 },
    V6 { ip: u128, port: u16, flowinfo: u32, scope_id: u32 },
}

/// The address and netmask that an interface has.
#[derive(Debug, Clone, Copy, PartialEq, Eq, Structural)]
#[allow(inconsistent_fields)]
pub enum IfAddr {
    V4 { ip: u32, netmask: u32, broadcast: Option<u32> },
    V6 { ip: u128 },
}

/// One address of one interface of this machine.
#[derive(Debug)]
pub struct Interface {
    pub name: String,
    pub addr: IfAddr,
}

/// The IPv4 address inside `::ffff:a.b.c.d`, which dual-stack listeners report
/// for IPv4 clients.
pub open spec fn mapped_v4(ip: u128) -> Option<u32> {
    if ip / 0x1_0000_0000 == 0xffff {
        Some((ip % 0x1_0000_0000) as u32)
    } else {
        None
    }
}

/// The IPv4 address inside `::ffff:a.b.c.d`.
pub fn to_ipv4_mapped(ip: u128) -> (r: Option<u32>)
    ensures
        r == mapped_v4(ip),
{
    if ip / 0x1_0000_0000 == 0xffff {
        Some((ip % 0x1_0000_0000) as u32)
    } else {
        None
    }
}

impl IpAddr {
    /// 127.0.0.0/8, or ::1.
    pub open spec fn loopback(self) -> bool {
        match self {
            IpAddr::V4(n) => n / 16777216 == 127,
            IpAddr::V6(n) => n == 1,
        }
    }

    /// The plain IPv4 address for a mapped one; every other address as it is.
    pub open spec fn canonical(self) -> IpAddr {
        match self {
            IpAddr::V6(n) => match mapped_v4(n) {
                Some(v4) => IpAddr::V4(v4),
                None => self,
            },
            IpAddr::V4(_) => self,
        }
    }

    /// True for an address of this machine to itself.
    pub fn is_loopback(&self) -> (r: bool)
        ensures
            r == self.loopback(),
    {
        match *self {
            IpAddr::V4(n) => n / 16777216 == 127,
            IpAddr::V6(n) => n == 1,
        }
    }

    /// The plain IPv4 address for a mapped one; every other address as it is.
    pub fn to_canonical(&self) -> (r: IpAddr)
        ensures
            r == self.canonical(),
    {
        match *self {
            IpAddr::V6(n) => match to_ipv4_mapped(n) {
                Some(v4) => IpAddr::V4(v4),
                None => IpAddr::V6(n),
            },
            IpAddr::V4(n) => IpAddr::V4(n),
        }
    }
}

impl SocketAddr {
    /// Port `port` at `ip`, with no flow and no scope.
    pub open spec fn at(ip: IpAddr, port: u16) -> SocketAddr {
        match ip {
            IpAddr::V4(n) => SocketAddr::V4 { ip: n, port },
            IpAddr::V6(n) => SocketAddr::V6 { ip: n, port, flowinfo: 0, scope_id: 0 },
        }
    }

    /// The address without the port.
    pub open spec fn host(self) -> IpAddr {
        match self {
            SocketAddr::V4 { ip, .. } => IpAddr::V4(ip),
            SocketAddr::V6 { ip, .. } => IpAddr::V6(ip),
        }
    }

    /// The port.
    pub open spec fn door(self) -> u16 {
        match self {
            SocketAddr::V4 { port, .. } => port,
            SocketAddr::V6 { port, .. } => port,
        }
    }

    /// Port `port` at `ip`.
    pub fn new(ip: IpAddr, port: u16) -> (r: SocketAddr)
        ensures
            r == SocketAddr::at(ip, port),
    {
        match ip {
            IpAddr::V4(n) => SocketAddr::V4 { ip: n, port },
            IpAddr::V6(n) => SocketAddr::V6 { ip: n, port, flowinfo: 0, scope_id: 0 },
        }
    }

    /// The address without the port.
    pub fn ip(&self) -> (r: IpAddr)
        ensures
            r == self.host(),
    {
        match *self {
            SocketAddr::V4 { ip, .. } => IpAddr::V4(ip),
            SocketAddr::V6 { ip, .. } => IpAddr::V6(ip),
        }
    }

    /// The port.
    pub fn port(&self) -> (r: u16)
        ensures
            r == self.door(),
    {
        match *self {
            SocketAddr::V4 { port, .. } => port,
            SocketAddr::V6 { port, .. } => port,
        }
    }
}

/// A mapped address becomes the plain IPv4 address at the same port; every
/// other address stays whole.
pub open spec fn canonical(addr: SocketAddr) -> SocketAddr {
    match addr {
        SocketAddr::V6 { ip, port, .. } => match mapped_v4(ip) {
            Some(v4) => SocketAddr::V4 { ip: v4, port },
            None => addr,
        },
        SocketAddr::V4 { .. } => addr,
    }
}

/// Normalizes IPv4-mapped IPv6 addresses (::ffff:a.b.c.d, produced by
/// dual-stack listeners) back to plain IPv4, so that link-local handling and
/// route classification see them correctly.
pub fn canonical_addr(addr: SocketAddr) -> (r: SocketAddr)
    ensures
        r == canonical(addr),
{
    match addr {
        SocketAddr::V6 { ip, port, .. } => match to_ipv4_mapped(ip) {
            Some(v4) => SocketAddr::V4 { ip: v4, port },
            None => addr,
        },
        SocketAddr::V4 { .. } => addr,
    }
}

/// Normalizing twice is normalizing once, the port stays, and no mapped
/// address is left.
pub proof fn lemma_canonical(addr: SocketAddr)
    ensures
        canonical(canonical(addr)) == canonical(addr),
        canonical(addr).door() == addr.door(),
        canonical(addr).host() == addr.host().canonical(),
        canonical(addr) matches SocketAddr::V6 { ip, .. } ==> mapped_v4(ip) is None,
{
}

/// 169.254.0.0/16, the addresses that two machines on a bare cable give
/// themselves.
pub open spec fn link_local_v4(ip: u32) -> bool {
    ip / 65536 == 0xa9fe
}

/// True for 169.254.0.0/16.
pub fn is_link_local(ip: u32) -> (r: bool)
    ensures
        r == link_local_v4(ip),
{
    ip / 65536 == 0xa9fe
}

/// The link-local addresses of the interfaces, in order, each once.
pub open spec fn link_locals(ifs: Seq<Interface>) -> Seq<u32>
    decreases ifs.len(),
{
    if ifs.len() == 0 {
        Seq::empty()
    } else {
        let before = link_locals(ifs.drop_last());
        match ifs.last().addr {
            IfAddr::V4 { ip, .. } => if link_local_v4(ip) && !before.contains(ip) {
                before.push(ip)
            } else {
                before
            },
            IfAddr::V6 { .. } => before,
        }
    }
}

fn is_among(list: &Vec<u32>, ip: u32) -> (r: bool)
    ensures
        r == list@.contains(ip),
{
    let mut i: usize = 0;
    while i < list.len()
        invariant
            i <= list@.len(),
            forall|j: int| 0 <= j < i ==> list@[j] != ip,
        decreases list@.len() - i,
    {
        if list[i] == ip {
            return true;
        }
        i = i + 1;
    }
    false
}

/// The link-local addresses of the interfaces.
pub fn all_v4_link_local(ifs: &Vec<Interface>) -> (r: Vec<u32>)
    ensures
        r@ == link_locals(ifs@),
{
    let mut out: Vec<u32> = Vec::new();
    let mut i: usize = 0;
    assert(ifs@.take(0) =~= Seq::<Interface>::empty());
    while i < ifs.len()
        invariant
            i <= ifs@.len(),
            out@ == link_locals(ifs@.take(i as int)),
        decreases ifs@.len() - i,
    {
        assert(ifs@.take(i + 1).drop_last() =~= ifs@.take(i as int));
        if let IfAddr::V4 { ip, .. } = ifs[i].addr {
            if is_link_local(ip) && !is_among(&out, ip) {
                out.push(ip);
            }
        }
        i = i + 1;
    }
    assert(ifs@.take(ifs@.len() as int) =~= ifs@);
    out
}

/// How many bits of `n` are one.
pub open spec fn ones(n: nat) -> nat
    decreases n,
{
    if n == 0 {
        0
    } else {
        ones(n / 2) + n % 2
    }
}

proof fn lemma_ones_bound(n: nat)
    ensures
        ones(n) <= n,
    decreases n,
{
    if n > 0 {
        lemma_ones_bound(n / 2);
    }
}

/// How many bits of `n` are one.
pub fn count_ones(n: u32) -> (r: u32)
    ensures
        r == ones(n as nat),
{
    let mut left: u32 = n;
    let mut found: u32 = 0;
    proof {
        lemma_ones_bound(n as nat);
    }
    while left > 0
        invariant
            found + ones(left as nat) == ones(n as nat),
            ones(n as nat) <= n,
        decreases left,
    {
        found = found + left % 2;
        left = left / 2;
    }
    found
}

/// True for an interface whose address loops back to this machine.
pub fn loops_back(iface: &Interface) -> (r: bool)
    ensures
        r == if_ip(iface.addr).loopback(),
{
    match iface.addr {
        IfAddr::V4 { ip, .. } => IpAddr::V4(ip).is_loopback(),
        IfAddr::V6 { ip } => IpAddr::V6(ip).is_loopback(),
    }
}

/// The address of an interface.
pub open spec fn if_ip(addr: IfAddr) -> IpAddr {
    match addr {
        IfAddr::V4 { ip, .. } => IpAddr::V4(ip),
        IfAddr::V6 { ip } => IpAddr::V6(ip),
    }
}

/// The address of an interface.
pub fn ip_of(addr: &IfAddr) -> (r: IpAddr)
    ensures
        r == if_ip(*addr),
{
    match *addr {
        IfAddr::V4 { ip, .. } => IpAddr::V4(ip),
        IfAddr::V6 { ip } => IpAddr::V6(ip),
    }
}

/// `ip` and `peer` share the subnet of a netmask that is not empty.
pub open spec fn same_subnet(ip: u32, netmask: u32, peer: u32) -> bool {
    netmask != 0 && peer & netmask == ip & netmask
}

/// The name of a tunnel: such an interface is never a wire.
pub open spec fn tunnel_name(name: Seq<char>) -> bool {
    ||| has_prefix(name, "utun"@)
    ||| has_prefix(name, "tun"@)
    ||| has_prefix(name, "tap"@)
    ||| has_prefix(name, "ppp"@)
    ||| has_prefix(name, "wg"@)
    ||| has_prefix(name, "ipsec"@)
}

/// True for the name of a tunnel.
pub fn is_tunnel(name: &str) -> (r: bool)
    ensures
        r == tunnel_name(name@),
{
    starts_with(name, "utun") || starts_with(name, "tun") || starts_with(name, "tap")
        || starts_with(name, "ppp") || starts_with(name, "wg") || starts_with(name, "ipsec")
}

// ---- source addresses for a connection ----

/// A local address, and how long the prefix of its subnet is.
#[derive(Debug, Clone, Copy, PartialEq, Eq, Structural)]
pub struct Source {
    pub ip: u32,
    pub prefix: u32,
}

impl Keyed for Source {
    open spec fn key(&self) -> Seq<int> {
        seq![-(self.prefix as int)]
    }

    fn at_most(&self, other: &Self) -> (r: bool) {
        proof {
            crate::order::lemma_lex_single(-(self.prefix as int), -(other.prefix as int));
        }
        self.prefix >= other.prefix
    }
}

/// An interface that reaches `peer` on its own wire: IPv4, neither loopback nor
/// tunnel, and `peer` inside its subnet.
pub open spec fn owns_peer(iface: Interface, peer: u32) -> bool {
    match iface.addr {
        IfAddr::V4 { ip, netmask, .. } => !IpAddr::V4(ip).loopback() && !tunnel_name(iface.name@)
            && same_subnet(ip, netmask, peer),
        IfAddr::V6 { .. } => false,
    }
}

/// The local address of an IPv4 interface and the length of its prefix.
pub open spec fn source_of(iface: Interface) -> Source {
    match iface.addr {
        IfAddr::V4 { ip, netmask, .. } => Source { ip, prefix: ones(netmask as nat) as u32 },
        IfAddr::V6 { .. } => Source { ip: 0, prefix: 0 },
    }
}

/// `ip` is the address of one of `found`.
pub open spec fn has_source(found: Seq<Source>, ip: u32) -> bool {
    exists|i: int| 0 <= i < found.len() && (#[trigger] found[i]).ip == ip
}

/// The sources that reach `peer`, in the order of the interfaces, each address
/// once.
pub open spec fn sources_found(ifs: Seq<Interface>, peer: u32) -> Seq<Source>
    decreases ifs.len(),
{
    if ifs.len() == 0 {
        Seq::empty()
    } else {
        let before = sources_found(ifs.drop_last(), peer);
        let iface = ifs.last();
        if owns_peer(iface, peer) && !has_source(before, source_of(iface).ip) {
            before.push(source_of(iface))
        } else {
            before
        }
    }
}

/// The local addresses from which `peer` is reached on a wire, longest prefix
/// first.
pub open spec fn wire_sources(ifs: Seq<Interface>, peer: u32) -> Seq<u32> {
    stable_sorted(sources_found(ifs, peer)).map_values(|s: Source| s.ip)
}

fn source_listed(found: &Vec<Source>, ip: u32) -> (r: bool)
    ensures
        r == has_source(found@, ip),
{
    let mut i: usize = 0;
    while i < found.len()
        invariant
            i <= found@.len(),
            forall|j: int| 0 <= j < i ==> (#[trigger] found@[j]).ip != ip,
        decreases found@.len() - i,
    {
        if found[i].ip == ip {
            return true;
        }
        i = i + 1;
    }
    false
}

/// Local addresses on directly attached (non-tunnel) interfaces whose subnet
/// contains `peer`, longest prefix first.
pub fn candidate_sources(ifs: &Vec<Interface>, peer: u32) -> (r: Vec<u32>)
    ensures
        r@ == wire_sources(ifs@, peer),
{
    let mut found: Vec<Source> = Vec::new();
    let mut i: usize = 0;
    assert(ifs@.take(0) =~= Seq::<Interface>::empty());
    while i < ifs.len()
        invariant
            i <= ifs@.len(),
            found@ == sources_found(ifs@.take(i as int), peer),
        decreases ifs@.len() - i,
    {
        assert(ifs@.take(i + 1).drop_last() =~= ifs@.take(i as int));
        let iface = &ifs[i];
        if !loops_back(iface) && !is_tunnel(iface.name.as_str()) {
            if let IfAddr::V4 { ip, netmask, .. } = iface.addr {
                if netmask != 0 && peer & netmask == ip & netmask && !source_listed(&found, ip) {
                    found.push(Source { ip, prefix: count_ones(netmask) });
                }
            }
        }
        i = i + 1;
    }
    assert(ifs@.take(ifs@.len() as int) =~= ifs@);
    let sorted = stable_sort(found);
    let mut out: Vec<u32> = Vec::new();
    let mut k: usize = 0;
    while k < sorted.len()
        invariant
            k <= sorted@.len(),
            out@ == sorted@.take(k as int).map_values(|s: Source| s.ip),
        decreases sorted@.len() - k,
    {
        out.push(sorted[k].ip);
        assert(sorted@.take(k + 1).map_values(|s: Source| s.ip) =~= sorted@.take(
            k as int,
        ).map_values(|s: Source| s.ip).push(sorted@[k as int].ip));
        k = k + 1;
    }
    assert(sorted@.take(sorted@.len() as int) =~= sorted@);
    out
}

proof fn lemma_sources_found(ifs: Seq<Interface>, peer: u32)
    ensures
        forall|i: int, j: int|
            0 <= i < j < sources_found(ifs, peer).len() ==> (#[trigger] sources_found(ifs, peer)[i]).ip
                != (#[trigger] sources_found(ifs, peer)[j]).ip,
        forall|i: int|
            0 <= i < sources_found(ifs, peer).len() ==> exists|k: int|
                0 <= k < ifs.len() && owns_peer(#[trigger] ifs[k], peer)
                    && #[trigger] sources_found(ifs, peer)[i] == source_of(ifs[k]),
    decreases ifs.len(),
{
    if ifs.len() > 0 {
        let d = ifs.drop_last();
        lemma_sources_found(d, peer);
        let all = sources_found(ifs, peer);
        let before = sources_found(d, peer);
        assert forall|i: int| 0 <= i < all.len() implies exists|k: int|
            0 <= k < ifs.len() && owns_peer(#[trigger] ifs[k], peer) && #[trigger] all[i]
                == source_of(ifs[k]) by {
            if i < before.len() {
                assert(all[i] == before[i]);
                let k = choose|k: int|
                    0 <= k < d.len() && owns_peer(#[trigger] d[k], peer) && before[i] == source_of(
                        d[k],
                    );
                assert(ifs[k] == d[k]);
            } else {
                assert(ifs[ifs.len() - 1] == ifs.last());
            }
        }
    }
}

/// Every address offered belongs to an interface that owns the peer's subnet,
/// no address is offered twice, and none has a shorter prefix than a later one.
pub proof fn lemma_wire_sources(ifs: Seq<Interface>, peer: u32)
    ensures
        wire_sources(ifs, peer).no_duplicates(),
        forall|i: int|
            0 <= i < wire_sources(ifs, peer).len() ==> exists|k: int|
                0 <= k < ifs.len() && owns_peer(#[trigger] ifs[k], peer)
                    && #[trigger] wire_sources(ifs, peer)[i] == source_of(ifs[k]).ip,
        forall|i: int, j: int|
            0 <= i < j < stable_sorted(sources_found(ifs, peer)).len() ==> (
            #[trigger] stable_sorted(sources_found(ifs, peer))[i]).prefix >= (
            #[trigger] stable_sorted(sources_found(ifs, peer))[j]).prefix,
{
    broadcast use vstd::seq_lib::group_to_multiset_ensures;

    let found = sources_found(ifs, peer);
    let sorted = stable_sorted(found);
    lemma_sources_found(ifs, peer);
    crate::order::lemma_stable_sorted(found);
    crate::order::lemma_sorted_same_values(found);
    assert(found.no_duplicates()) by {
        assert forall|i: int, j: int|
            0 <= i < found.len() && 0 <= j < found.len() && i != j implies found[i] != found[j] by {
            if i < j {
                assert(found[i].ip != found[j].ip);
            } else {
                assert(found[j].ip != found[i].ip);
            }
        }
    }
    found.lemma_multiset_has_no_duplicates();
    sorted.lemma_multiset_has_no_duplicates_conv();
    assert forall|i: int| 0 <= i < sorted.len() implies found.contains(#[trigger] sorted[i]) by {
        assert(sorted.to_multiset().contains(sorted[i])) by {
            assert(sorted.contains(sorted[i]));
        }
        assert(found.to_multiset().contains(sorted[i]));
    }
    let out = wire_sources(ifs, peer);
    assert forall|i: int, j: int|
        0 <= i < out.len() && 0 <= j < out.len() && i != j implies out[i] != out[j] by {
        let a = choose|a: int| 0 <= a < found.len() && found[a] == sorted[i];
        let b = choose|b: int| 0 <= b < found.len() && found[b] == sorted[j];
        assert(found.contains(sorted[i]) && found.contains(sorted[j]));
        assert(sorted[i] != sorted[j]);
        if a < b {
            assert(found[a].ip != found[b].ip);
        } else {
            assert(found[b].ip != found[a].ip);
        }
    }
    assert forall|i: int| 0 <= i < out.len() implies exists|k: int|
        0 <= k < ifs.len() && owns_peer(#[trigger] ifs[k], peer) && #[trigger] out[i] == source_of(
            ifs[k],
        ).ip by {
        let a = choose|a: int| 0 <= a < found.len() && found[a] == sorted[i];
        assert(found.contains(sorted[i]));
        assert(found[a] == sorted[i]);
    }
    assert forall|i: int, j: int| 0 <= i < j < sorted.len() implies (#[trigger] sorted[i]).prefix
        >= (#[trigger] sorted[j]).prefix by {
        assert(lex_le(sorted[i].key(), sorted[j].key()));
        crate::order::lemma_lex_single(-(sorted[i].prefix as int), -(sorted[j].prefix as int));
    }
}

/// How to open a connection.
#[derive(Debug)]
pub enum ConnectPlan {
    /// Leave the source address to the system.
    Anywhere { addr: SocketAddr },
    /// Bind to this local address first.
    From { source: u32, addr: SocketAddr },
    /// Try from all of these at once; the first completed handshake wins.
    Race { sources: Vec<u32>, addr: SocketAddr },
}

/// How to reach `addr`: when its IPv4 address lies inside a subnet that one of
/// our own physical interfaces directly owns, the source is bound to that
/// interface so that the traffic goes over the wire.
pub fn connect_cable_aware(addr: SocketAddr, ifs: &Vec<Interface>) -> (r: ConnectPlan)
    ensures
        match canonical(addr).host() {
            IpAddr::V4(v4) => {
                let sources = wire_sources(ifs@, v4);
                if sources.len() == 0 {
                    r == (ConnectPlan::Anywhere { addr: canonical(addr) })
                } else if sources.len() == 1 {
                    r == (ConnectPlan::From { source: sources[0], addr: canonical(addr) })
                } else {
                    r matches ConnectPlan::Race { sources: s, addr: a } && s@ == sources && a
                        == canonical(addr)
                }
            },
            IpAddr::V6(_) => r == (ConnectPlan::Anywhere { addr: canonical(addr) }),
        },
{
    let addr = canonical_addr(addr);
    if let IpAddr::V4(v4) = addr.ip() {
        let sources = candidate_sources(ifs, v4);
        if sources.len() == 1 {
            return ConnectPlan::From { source: sources[0], addr };
        }
        if sources.len() > 1 {
            return ConnectPlan::Race { sources, addr };
        }
    }
    ConnectPlan::Anywhere { addr }
}

} // verus!
