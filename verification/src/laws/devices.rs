//! Addresses, interfaces and the devices that are heard.

use vstd::arithmetic::power2::{lemma_pow2_unfold, pow2};
use vstd::prelude::*;

use crate::discovery::{
    all_noted, broadcasts, is_ours, link_local_v6, multicasts, Arrived, Broadcast,
};
use crate::net::{
    has_source, if_ip, link_local_v4, link_locals, mapped_v4, ones, owns_peer, same_subnet,
    source_of, sources_found, tunnel_name, wire_sources, IfAddr, Interface, IpAddr, SocketAddr,
    Source,
};
use crate::order::{
    lemma_sorted_same_values, lemma_stable_sorted, lemma_with_key_is_filter, lex_le, stable_sorted,
    with_key, Keyed,
};
use crate::text::has_prefix;

verus! {

// ---- what is sent out ----

/// The interface has an IPv4 address and a broadcast address.
pub open spec fn can_broadcast() -> spec_fn(Interface) -> bool {
    |i: Interface| i.addr matches IfAddr::V4 { broadcast: Some(_), .. }
}

/// From the address of the interface to its broadcast address.
pub open spec fn own_broadcast() -> spec_fn(Interface) -> Broadcast {
    |i: Interface|
        match i.addr {
            IfAddr::V4 { ip, broadcast: Some(to), .. } => Broadcast { from: ip, to },
            _ => Broadcast { from: 0, to: 0 },
        }
}

/// There is one broadcast for each entry that has a broadcast address, in the order of
/// the entries, and no other. Which address it is plays no part.
pub proof fn lemma_one_broadcast_each(ifs: Seq<Interface>)
    ensures
        broadcasts(ifs) == ifs.filter(can_broadcast()).map_values(own_broadcast()),
    decreases ifs.len(),
{
    reveal(Seq::filter);
    if ifs.len() == 0 {
        assert(broadcasts(ifs) =~= ifs.filter(can_broadcast()).map_values(own_broadcast()));
    } else {
        lemma_one_broadcast_each(ifs.drop_last());
        let before = ifs.drop_last().filter(can_broadcast());
        assert(before.push(ifs.last()).map_values(own_broadcast()) =~= before.map_values(
            own_broadcast(),
        ).push(own_broadcast()(ifs.last())));
    }
}

/// A broadcast goes out from `from` to `to` exactly when an entry of the list has that
/// address and that broadcast address, link-local addresses like all others.
pub proof fn lemma_broadcast_from_every_address(ifs: Seq<Interface>, from: u32, to: u32)
    ensures
        broadcasts(ifs).contains(Broadcast { from, to }) <==> exists|k: int|
            0 <= k < ifs.len() && ((#[trigger] ifs[k]).addr matches IfAddr::V4 {
                ip,
                broadcast,
                ..
            } && ip == from && broadcast == Some(to)),
    decreases ifs.len(),
{
    let b = Broadcast { from, to };
    if ifs.len() > 0 {
        let d = ifs.drop_last();
        lemma_broadcast_from_every_address(d, from, to);
        let before = broadcasts(d);
        let after = broadcasts(ifs);
        if before.contains(b) {
            let i = choose|i: int| 0 <= i < before.len() && before[i] == b;
            assert(after[i] == b);
            let k = choose|k: int|
                0 <= k < d.len() && ((#[trigger] d[k]).addr matches IfAddr::V4 { ip, broadcast, .. }
                    && ip == from && broadcast == Some(to));
            assert(ifs[k] == d[k]);
        }
        if exists|k: int|
            0 <= k < ifs.len() && ((#[trigger] ifs[k]).addr matches IfAddr::V4 {
                ip,
                broadcast,
                ..
            } && ip == from && broadcast == Some(to)) {
            let k = choose|k: int|
                0 <= k < ifs.len() && ((#[trigger] ifs[k]).addr matches IfAddr::V4 {
                    ip,
                    broadcast,
                    ..
                } && ip == from && broadcast == Some(to));
            if k < d.len() {
                assert(d[k] == ifs[k]);
            } else {
                assert(after.last() == b);
            }
        }
        if after.contains(b) && !before.contains(b) {
            let i = choose|i: int| 0 <= i < after.len() && after[i] == b;
            if i < before.len() {
                assert(before[i] == b);
            }
            assert(ifs[ifs.len() - 1] == ifs.last());
        }
    }
}

/// The interface has an IPv6 address in fe80::/16.
pub open spec fn can_multicast() -> spec_fn(Interface) -> bool {
    |i: Interface|
        i.addr matches IfAddr::V6 { ip } && 0xfe80_0000_0000_0000_0000_0000_0000_0000 <= ip
            < 0xfe81_0000_0000_0000_0000_0000_0000_0000
}

/// A multicast goes out by each entry with a link-local IPv6 address, under the name
/// of its interface, in the order of the entries, and by no other.
pub proof fn lemma_one_multicast_each(ifs: Seq<Interface>)
    ensures
        multicasts(ifs) == ifs.filter(can_multicast()).map_values(|i: Interface| i.name@),
    decreases ifs.len(),
{
    reveal(Seq::filter);
    let name = |i: Interface| i.name@;
    if ifs.len() == 0 {
        assert(multicasts(ifs) =~= ifs.filter(can_multicast()).map_values(name));
    } else {
        lemma_one_multicast_each(ifs.drop_last());
        let before = ifs.drop_last().filter(can_multicast());
        assert(before.push(ifs.last()).map_values(name) =~= before.map_values(name).push(
            ifs.last().name@,
        ));
        if ifs.last().addr is V6 {
            lemma_link_local_range(0, ifs.last().addr->V6_ip);
        }
    }
}

// ---- addresses ----

/// The link-local addresses are 169.254.0.0 to 169.254.255.255, and fe80::/16.
pub proof fn lemma_link_local_range(v4: u32, v6: u128)
    ensures
        link_local_v4(v4) <==> 0xa9fe_0000 <= v4 <= 0xa9fe_ffff,
        link_local_v6(v6) <==> 0xfe80_0000_0000_0000_0000_0000_0000_0000 <= v6
            < 0xfe81_0000_0000_0000_0000_0000_0000_0000,
{
}

/// The loopback addresses are 127.0.0.0 to 127.255.255.255, and ::1.
pub proof fn lemma_loopback_range(v4: u32, v6: u128)
    ensures
        IpAddr::V4(v4).loopback() <==> 0x7f00_0000 <= v4 <= 0x7fff_ffff,
        IpAddr::V6(v6).loopback() <==> v6 == 1,
{
}

/// An IPv6 address carries an IPv4 address exactly when it is `::ffff:` and that
/// address; it then stands for it, and every other address stands for itself.
pub proof fn lemma_mapped(v6: u128, v4: u32)
    ensures
        mapped_v4(v6) == Some(v4) <==> v6 == 0xffff_0000_0000 + v4,
        IpAddr::V6(v6).canonical() == IpAddr::V4(v4) <==> v6 == 0xffff_0000_0000 + v4,
        IpAddr::V6(v6).canonical() == IpAddr::V6(v6) <==> !(0xffff_0000_0000 <= v6
            <= 0xffff_ffff_ffff),
        IpAddr::V4(v4).canonical() == IpAddr::V4(v4),
{
}

/// A port at an address has that address and that port.
pub proof fn lemma_address_parts(ip: IpAddr, port: u16, addr: SocketAddr)
    ensures
        SocketAddr::at(ip, port).host() == ip,
        SocketAddr::at(ip, port).door() == port,
        addr is V4 ==> SocketAddr::at(addr.host(), addr.door()) == addr,
        addr is V6 <==> addr.host() is V6,
        crate::net::canonical(addr).host() == addr.host().canonical(),
        crate::net::canonical(addr).door() == addr.door(),
        addr.host().canonical() is V6 ==> crate::net::canonical(addr) == addr,
{
}

/// An interface has the address of its entry.
pub proof fn lemma_interface_address(v4: u32, netmask: u32, broadcast: Option<u32>, v6: u128)
    ensures
        if_ip(IfAddr::V4 { ip: v4, netmask, broadcast }) == IpAddr::V4(v4),
        if_ip(IfAddr::V6 { ip: v6 }) == IpAddr::V6(v6),
{
}

/// Two addresses are in one subnet when they differ in no bit of the netmask; the
/// netmask of nothing is none. So a subnet looks the same from all its addresses.
pub proof fn lemma_same_subnet(a: u32, b: u32, c: u32, netmask: u32)
    ensures
        same_subnet(a, netmask, b) <==> netmask != 0 && (a ^ b) & netmask == 0,
        same_subnet(a, netmask, b) == same_subnet(b, netmask, a),
        netmask != 0 ==> same_subnet(a, netmask, a),
        same_subnet(a, netmask, b) && same_subnet(b, netmask, c) ==> same_subnet(a, netmask, c),
        same_subnet(a, 0xffff_ffff, b) <==> a == b,
{
    assert((b & netmask == a & netmask) <==> (a ^ b) & netmask == 0) by (bit_vector);
    assert((b & 0xffff_ffffu32 == a & 0xffff_ffffu32) <==> a == b) by (bit_vector);
}

proof fn lemma_ones_shifted(n: nat, k: nat)
    ensures
        ones(n * pow2(k)) == ones(n),
    decreases k,
{
    if k == 0 {
        vstd::arithmetic::power2::lemma2_to64();
    } else {
        lemma_pow2_unfold(k);
        let half = n * pow2((k - 1) as nat);
        lemma_ones_shifted(n, (k - 1) as nat);
        assert(n * pow2(k) == 2 * half) by (nonlinear_arith)
            requires
                pow2(k) == 2 * pow2((k - 1) as nat),
                half == n * pow2((k - 1) as nat),
        ;
        if half > 0 {
            assert((2 * half) / 2 == half && (2 * half) % 2 == 0);
        }
    }
}

proof fn lemma_ones_full(p: nat)
    ensures
        pow2(p) >= 1,
        ones((pow2(p) - 1) as nat) == p,
    decreases p,
{
    if p == 0 {
        vstd::arithmetic::power2::lemma2_to64();
    } else {
        lemma_pow2_unfold(p);
        lemma_ones_full((p - 1) as nat);
    }
}

/// The prefix of a netmask is the count of its bits: a netmask of `prefix` ones and
/// then zeros has the prefix `prefix`.
pub proof fn lemma_prefix_of_netmask(prefix: nat, zeros: nat)
    ensures
        ones(((pow2(prefix) - 1) * pow2(zeros)) as nat) == prefix,
{
    lemma_ones_full(prefix);
    lemma_ones_shifted((pow2(prefix) - 1) as nat, zeros);
}

// ---- where a call can leave ----

/// The names of tunnels.
pub proof fn lemma_tunnel_names(name: Seq<char>, rest: Seq<char>)
    ensures
        name == "utun"@ + rest || name == "tun"@ + rest || name == "tap"@ + rest || name == "ppp"@
            + rest || name == "wg"@ + rest || name == "ipsec"@ + rest ==> tunnel_name(name),
        tunnel_name(name) <==> has_prefix(name, "utun"@) || has_prefix(name, "tun"@) || has_prefix(
            name,
            "tap"@,
        ) || has_prefix(name, "ppp"@) || has_prefix(name, "wg"@) || has_prefix(name, "ipsec"@),
{
    assert(("utun"@ + rest).take("utun"@.len() as int) =~= "utun"@);
    assert(("tun"@ + rest).take("tun"@.len() as int) =~= "tun"@);
    assert(("tap"@ + rest).take("tap"@.len() as int) =~= "tap"@);
    assert(("ppp"@ + rest).take("ppp"@.len() as int) =~= "ppp"@);
    assert(("wg"@ + rest).take("wg"@.len() as int) =~= "wg"@);
    assert(("ipsec"@ + rest).take("ipsec"@.len() as int) =~= "ipsec"@);
}

/// An interface owns a peer exactly when it is neither a tunnel nor the loopback and
/// has an IPv4 address in the peer's subnet, whichever address that is.
pub proof fn lemma_owns_peer(iface: Interface, peer: u32)
    ensures
        owns_peer(iface, peer) <==> (iface.addr matches IfAddr::V4 { ip, netmask, .. } && !(
        0x7f00_0000 <= ip <= 0x7fff_ffff) && netmask != 0 && (ip ^ peer) & netmask == 0
            && !tunnel_name(iface.name@)),
        iface.addr matches IfAddr::V4 { ip, netmask, .. } ==> (source_of(iface).ip == ip
            && source_of(iface).prefix == ones(netmask as nat) as u32),
{
    if iface.addr is V4 {
        lemma_same_subnet(iface.addr->V4_ip, peer, peer, iface.addr->netmask);
    }
}

/// The link-local IPv4 addresses of the interfaces: each of them once, none left out,
/// and none that is not one of theirs.
pub proof fn lemma_link_locals(ifs: Seq<Interface>)
    ensures
        forall|ip: u32| #[trigger]
            link_locals(ifs).contains(ip) <==> 0xa9fe_0000 <= ip <= 0xa9fe_ffff && exists|k: int|
                0 <= k < ifs.len() && if_ip((#[trigger] ifs[k]).addr) == IpAddr::V4(ip),
        link_locals(ifs).no_duplicates(),
    decreases ifs.len(),
{
    if ifs.len() > 0 {
        let d = ifs.drop_last();
        lemma_link_locals(d);
        let before = link_locals(d);
        let after = link_locals(ifs);
        assert forall|ip: u32| #[trigger] after.contains(ip) <==> 0xa9fe_0000 <= ip <= 0xa9fe_ffff
            && exists|k: int|
            0 <= k < ifs.len() && if_ip((#[trigger] ifs[k]).addr) == IpAddr::V4(ip) by {
            if before.contains(ip) {
                let i = choose|i: int| 0 <= i < before.len() && before[i] == ip;
                assert(after[i] == ip);
                let k = choose|k: int|
                    0 <= k < d.len() && if_ip((#[trigger] d[k]).addr) == IpAddr::V4(ip);
                assert(ifs[k] == d[k]);
            }
            if after.contains(ip) && !before.contains(ip) {
                let i = choose|i: int| 0 <= i < after.len() && after[i] == ip;
                if i < before.len() {
                    assert(before[i] == ip);
                }
                assert(if_ip(ifs[ifs.len() - 1].addr) == IpAddr::V4(ip));
            }
            if 0xa9fe_0000 <= ip <= 0xa9fe_ffff && exists|k: int|
                0 <= k < ifs.len() && if_ip((#[trigger] ifs[k]).addr) == IpAddr::V4(ip) {
                let k = choose|k: int|
                    0 <= k < ifs.len() && if_ip((#[trigger] ifs[k]).addr) == IpAddr::V4(ip);
                if k < d.len() {
                    assert(d[k] == ifs[k]);
                } else if !before.contains(ip) {
                    assert(after.last() == ip);
                }
            }
        }
        assert forall|i: int, j: int|
            0 <= i < after.len() && 0 <= j < after.len() && i != j implies after[i] != after[j] by {
            if i < before.len() {
                assert(before.contains(before[i]));
            }
            if j < before.len() {
                assert(before.contains(before[j]));
            }
        }
    }
}

/// More interfaces add addresses behind those that are there, and change none.
pub proof fn lemma_link_locals_grow(ifs: Seq<Interface>, n: int)
    requires
        0 <= n <= ifs.len(),
    ensures
        link_locals(ifs.take(n)).len() <= link_locals(ifs).len(),
        link_locals(ifs).take(link_locals(ifs.take(n)).len() as int) == link_locals(ifs.take(n)),
    decreases ifs.len(),
{
    let part = link_locals(ifs.take(n));
    if n < ifs.len() {
        let d = ifs.drop_last();
        lemma_link_locals_grow(d, n);
        assert(d.take(n) =~= ifs.take(n));
        assert(link_locals(ifs).take(part.len() as int) =~= link_locals(d).take(part.len() as int));
    } else {
        assert(ifs.take(n) =~= ifs);
        assert(part.take(part.len() as int) =~= part);
    }
}

proof fn lemma_sources_complete(ifs: Seq<Interface>, peer: u32, k: int)
    requires
        0 <= k < ifs.len(),
        owns_peer(ifs[k], peer),
    ensures
        has_source(sources_found(ifs, peer), source_of(ifs[k]).ip),
    decreases ifs.len(),
{
    let d = ifs.drop_last();
    let before = sources_found(d, peer);
    let after = sources_found(ifs, peer);
    let ip = source_of(ifs[k]).ip;
    if k < d.len() {
        lemma_sources_complete(d, peer, k);
        assert(d[k] == ifs[k]);
    }
    if has_source(before, ip) {
        let i = choose|i: int| 0 <= i < before.len() && (#[trigger] before[i]).ip == ip;
        assert(after[i] == before[i]);
    } else {
        assert(after.last() == source_of(ifs.last()));
        assert(after[after.len() - 1].ip == ip);
    }
}

/// A call may leave by every wire that the peer is on: the address of each interface
/// that owns the peer is tried.
pub proof fn lemma_every_wire_is_tried(ifs: Seq<Interface>, peer: u32, k: int)
    requires
        0 <= k < ifs.len(),
        owns_peer(ifs[k], peer),
    ensures
        exists|i: int|
            0 <= i < wire_sources(ifs, peer).len() && IpAddr::V4(
                #[trigger] wire_sources(ifs, peer)[i],
            ) == if_ip(ifs[k].addr),
{
    broadcast use vstd::seq_lib::group_to_multiset_ensures;

    lemma_sources_complete(ifs, peer, k);
    let found = sources_found(ifs, peer);
    let sorted = stable_sorted(found);
    lemma_sorted_same_values(found);
    let i = choose|i: int|
        0 <= i < found.len() && (#[trigger] found[i]).ip == source_of(ifs[k]).ip;
    assert(found.contains(found[i]));
    assert(found.to_multiset().count(found[i]) > 0);
    assert(sorted.contains(found[i]));
    let j = choose|j: int| 0 <= j < sorted.len() && sorted[j] == found[i];
    assert(wire_sources(ifs, peer)[j] == found[i].ip);
}

/// Of interfaces with one address the first counts, and later ones add theirs behind.
pub proof fn lemma_source_added_once(ifs: Seq<Interface>, x: Interface, peer: u32)
    ensures
        sources_found(Seq::empty(), peer).len() == 0,
        owns_peer(x, peer) && (forall|i: int|
            0 <= i < sources_found(ifs, peer).len() ==> IpAddr::V4(
                (#[trigger] sources_found(ifs, peer)[i]).ip,
            ) != if_ip(x.addr)) ==> sources_found(ifs.push(x), peer) == sources_found(
            ifs,
            peer,
        ).push(source_of(x)),
        !owns_peer(x, peer) || (exists|i: int|
            0 <= i < sources_found(ifs, peer).len() && IpAddr::V4(
                (#[trigger] sources_found(ifs, peer)[i]).ip,
            ) == if_ip(x.addr)) ==> sources_found(ifs.push(x), peer) == sources_found(ifs, peer),
{
    assert(ifs.push(x).drop_last() =~= ifs);
}

/// The wires are tried from the longest prefix down, and wires with one prefix in the
/// order in which they were found.
pub proof fn lemma_narrowest_wire_first(ifs: Seq<Interface>, peer: u32)
    ensures
        exists|sorted: Seq<Source>|
            #![trigger sorted.to_multiset()]
            sorted.to_multiset() == sources_found(ifs, peer).to_multiset() && wire_sources(
                ifs,
                peer,
            ) == Seq::new(sorted.len(), |i: int| sorted[i].ip) && (forall|i: int, j: int|
                0 <= i < j < sorted.len() ==> (#[trigger] sorted[i]).prefix >= (
                #[trigger] sorted[j]).prefix) && forall|p: u32|
                #![trigger sorted.filter(has_prefix_len(p))]
                sorted.filter(has_prefix_len(p)) == sources_found(ifs, peer).filter(
                    has_prefix_len(p),
                ),
{
    let found = sources_found(ifs, peer);
    let sorted = stable_sorted(found);
    lemma_stable_sorted(found);
    lemma_sorted_same_values(found);
    assert(sorted.to_multiset() == found.to_multiset());
    assert(wire_sources(ifs, peer) =~= Seq::new(sorted.len(), |i: int| sorted[i].ip));
    assert forall|i: int, j: int| 0 <= i < j < sorted.len() implies (#[trigger] sorted[i]).prefix
        >= (#[trigger] sorted[j]).prefix by {
        assert(lex_le(sorted[i].key(), sorted[j].key()));
        crate::order::lemma_lex_single(-(sorted[i].prefix as int), -(sorted[j].prefix as int));
    }
    assert forall|p: u32|
        #![trigger sorted.filter(has_prefix_len(p))]
        sorted.filter(has_prefix_len(p)) == found.filter(has_prefix_len(p)) by {
        let k = seq![-(p as int)];
        assert(with_key(sorted, k) == with_key(found, k));
        assert forall|x: Source| (#[trigger] has_prefix_len(p)(x)) == (x.key() == k) by {
            assert(x.key()[0] == -(x.prefix as int));
            if x.prefix == p {
                assert(x.key() =~= k);
            } else {
                assert(k[0] == -(p as int));
            }
        }
        lemma_with_key_is_filter(sorted, k, has_prefix_len(p));
        lemma_with_key_is_filter(found, k, has_prefix_len(p));
    }
}

/// A source with this prefix.
pub open spec fn has_prefix_len(p: u32) -> spec_fn(Source) -> bool {
    |s: Source| s.prefix == p
}

// ---- who is heard ----

/// A beacon is one of ours exactly when it says so, and tells of a device under its
/// name and its system, at the address that it came from and the port that it names.
pub proof fn lemma_beacon(a: Arrived)
    ensures
        is_ours(a.beacon) <==> a.beacon.magic@ == "caybul/1"@,
        a.device().name@ == a.beacon.name@,
        a.device().os@ == a.beacon.os@,
        a.device().addr.host() == a.from,
        a.device().addr.door() == a.beacon.port,
{
}

/// Devices are listed in the order in which they were first heard: beacons that
/// arrive later change nothing in front, and each adds one device at most.
pub proof fn lemma_heard_in_order(list: Seq<Arrived>, a: Arrived)
    ensures
        all_noted(Seq::empty()).len() == 0,
        all_noted(list).len() <= all_noted(list.push(a)).len() <= all_noted(list).len() + 1,
        forall|i: int|
            0 <= i < all_noted(list).len() ==> all_noted(list.push(a))[i] == #[trigger] all_noted(
                list,
            )[i],
        all_noted(list.push(a)).len() > all_noted(list).len() ==> all_noted(list.push(a)).last()
            == a.device(),
{
    assert(list.push(a).drop_last() =~= list);
}

} // verus!
