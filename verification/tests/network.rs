use caybul::address::{show_addr, show_ip, show_v4, show_v6};
use caybul::discovery::{
    broadcast_targets, first_time, make_beacon, multicast_interfaces, note_beacon, Beacon,
    Broadcast, Peer, BEACON_MAGIC,
};
use caybul::net::{
    all_v4_link_local, candidate_sources, canonical_addr, connect_cable_aware, count_ones,
    is_link_local, is_tunnel, to_ipv4_mapped, ConnectPlan, IfAddr, Interface, IpAddr, SocketAddr,
};

fn ip(a: u8, b: u8, c: u8, d: u8) -> u32 {
    u32::from_be_bytes([a, b, c, d])
}

fn v4(name: &str, addr: u32, prefix: u32) -> Interface {
    let netmask = if prefix == 0 { 0 } else { u32::MAX << (32 - prefix) };
    Interface {
        name: name.to_string(),
        addr: IfAddr::V4 { ip: addr, netmask, broadcast: Some(addr | !netmask) },
    }
}

fn v6(name: &str, addr: u128) -> Interface {
    Interface { name: name.to_string(), addr: IfAddr::V6 { ip: addr } }
}

#[test]
fn mapped_addresses_become_plain() {
    let mapped = 0xffff_0a00_0001u128;
    assert_eq!(to_ipv4_mapped(mapped), Some(ip(10, 0, 0, 1)));
    assert_eq!(to_ipv4_mapped(1), None);
    let addr = SocketAddr::V6 { ip: mapped, port: 9, flowinfo: 1, scope_id: 2 };
    assert_eq!(canonical_addr(addr), SocketAddr::V4 { ip: ip(10, 0, 0, 1), port: 9 });
    let other = SocketAddr::V6 { ip: 7, port: 9, flowinfo: 1, scope_id: 2 };
    assert_eq!(canonical_addr(other), other);
    assert_eq!(canonical_addr(canonical_addr(addr)), canonical_addr(addr));
}

#[test]
fn loopback_and_link_local() {
    assert!(IpAddr::V4(ip(127, 3, 2, 1)).is_loopback());
    assert!(IpAddr::V6(1).is_loopback());
    assert!(!IpAddr::V6(0xffff_7f00_0001).is_loopback());
    assert!(is_link_local(ip(169, 254, 0, 1)));
    assert!(!is_link_local(ip(169, 255, 0, 1)));
    assert_eq!(count_ones(0xffff_ff00), 24);
}

#[test]
fn tunnels_are_known_by_name() {
    for name in ["utun0", "tun1", "tap2", "ppp0", "wg0", "ipsec3"] {
        assert!(is_tunnel(name), "{name}");
    }
    assert!(!is_tunnel("en0"));
}

#[test]
fn sources_on_the_wire_come_longest_prefix_first() {
    let ifs = vec![
        v4("en0", ip(10, 0, 0, 5), 8),
        v4("utun0", ip(10, 0, 0, 6), 30),
        v4("lo", ip(127, 0, 0, 1), 8),
        v4("en1", ip(10, 0, 0, 9), 24),
        v4("en2", ip(10, 0, 0, 9), 16),
        v4("en3", ip(192, 168, 0, 1), 24),
        v4("en4", ip(10, 0, 0, 7), 0),
        v6("en5", 1 << 120),
    ];
    assert_eq!(candidate_sources(&ifs, ip(10, 0, 0, 1)), vec![ip(10, 0, 0, 9), ip(10, 0, 0, 5)]);
    assert!(candidate_sources(&ifs, ip(8, 8, 8, 8)).is_empty());
}

#[test]
fn connections_are_bound_to_the_wire() {
    let ifs = vec![v4("en0", ip(10, 0, 0, 5), 24), v4("en1", ip(10, 0, 0, 6), 24)];
    let peer = SocketAddr::V4 { ip: ip(10, 0, 0, 1), port: 7 };
    match connect_cable_aware(peer, &ifs) {
        ConnectPlan::Race { sources, addr } => {
            assert_eq!(sources, vec![ip(10, 0, 0, 5), ip(10, 0, 0, 6)]);
            assert_eq!(addr, peer);
        }
        other => panic!("{other:?}"),
    }
    let one = vec![v4("en0", ip(10, 0, 0, 5), 24)];
    let mapped =
        SocketAddr::V6 { ip: 0xffff_0a00_0001, port: 7, flowinfo: 0, scope_id: 0 };
    match connect_cable_aware(mapped, &one) {
        ConnectPlan::From { source, addr } => assert_eq!((source, addr), (ip(10, 0, 0, 5), peer)),
        other => panic!("{other:?}"),
    }
    assert!(matches!(connect_cable_aware(peer, &vec![]), ConnectPlan::Anywhere { addr } if addr == peer));
}

#[test]
fn link_local_addresses_are_listed_once() {
    let a = ip(169, 254, 1, 2);
    let ifs = vec![v4("en0", a, 16), v4("en1", ip(10, 0, 0, 1), 8), v4("en2", a, 16)];
    assert_eq!(all_v4_link_local(&ifs), vec![a]);
}

#[test]
fn addresses_read_as_usual() {
    assert_eq!(show_v4(0), "0.0.0.0");
    assert_eq!(show_v4(0x7f000001), "127.0.0.1");
    assert_eq!(show_v4(0xffffffff), "255.255.255.255");
    assert_eq!(show_v4(0xc0a80164), "192.168.1.100");
    let samples: Vec<(u128, &str)> = vec![
        (0x0, "::"),
        (0x1, "::1"),
        (0x10000, "::1:0"),
        (0xfe800000000000000000000000000001, "fe80::1"),
        (0x20010db8000000000001000000000001, "2001:db8::1:0:0:1"),
        (0x20010db8000000010001000100010001, "2001:db8:0:1:1:1:1:1"),
        (0x10000000000010000000000000001, "1:0:0:1::1"),
        (0x100010001000100000000, "::1:1:1:1:0:0"),
        (0xffffffffffffffffffffffffffffffff, "ffff:ffff:ffff:ffff:ffff:ffff:ffff:ffff"),
        (0xffffc0a80001, "::ffff:192.168.0.1"),
        (0x1ffffc0a80001, "::1:ffff:c0a8:1"),
        (0x10002000300040005000600070000, "1:2:3:4:5:6:7:0"),
        (0xa000000000000000000000000000000, "a00::"),
        (0x10000000000020003000000000000, "1:0:0:2:3::"),
        (0x1000000010000000100000001, "0:1:0:1:0:1:0:1"),
        (0xbd6af2b7218cf03f00000000f0c6, "0:bd6a:f2b7:218c:f03f::f0c6"),
        (0xf3e4000076bec7a520c8000015e80000, "f3e4:0:76be:c7a5:20c8:0:15e8:0"),
        (0xf20cc674da970000e3a544af31e5, "0:f20c:c674:da97:0:e3a5:44af:31e5"),
        (0x9a200000b3aad0adac6c, "::9a20:0:b3aa:d0ad:ac6c"),
        (0xeac5381a71c35496c1888bf00000000, "eac:5381:a71c:3549:6c18:88bf::"),
        (0xf78e0000d2280a4d00003ce200001702, "f78e:0:d228:a4d:0:3ce2:0:1702"),
        (0x8ee21270000000001010d0dd0000, "0:8ee2:1270::1010:d0dd:0"),
        (0xadfc0000c16d0000c5bb34848ae7, "0:adfc:0:c16d:0:c5bb:3484:8ae7"),
        (0x79abdff89b2105dda1370000443b, "0:79ab:dff8:9b21:5dd:a137:0:443b"),
        (0xeeb800008ecf0b5b0ae1809398e6, "0:eeb8:0:8ecf:b5b:ae1:8093:98e6"),
        (0xa3da00000000873c000000000dc84349, "a3da::873c:0:0:dc8:4349"),
        (0x7a36000031ac000000000000, "0:0:7a36:0:31ac::"),
    ];
    for (n, expected) in samples {
        assert_eq!(show_v6(n), expected);
        assert_eq!(show_ip(IpAddr::V6(n)), expected);
    }
}

#[test]
fn socket_addresses_read_as_usual() {
    let a = SocketAddr::V4 { ip: ip(1, 2, 3, 4), port: 80 };
    assert_eq!(show_addr(a), "1.2.3.4:80");
    let b = SocketAddr::V6 { ip: 1, port: 80, flowinfo: 0, scope_id: 0 };
    assert_eq!(show_addr(b), "[::1]:80");
    let c = SocketAddr::V6 { ip: 0xfe80 << 112, port: 5, flowinfo: 0, scope_id: 7 };
    assert_eq!(show_addr(c), "[fe80::%7]:5");
}

// ---- discovery ----

#[test]
fn beacons_go_out_on_every_interface() {
    let ifs = vec![
        v4("en0", ip(10, 0, 0, 5), 24),
        v6("en0", 0xfe80 << 112 | 1),
        v6("en1", 0x2001 << 112),
        Interface {
            name: "p2p".to_string(),
            addr: IfAddr::V4 { ip: 5, netmask: 0, broadcast: None },
        },
        v6("en2", 0xfe80 << 112 | 2),
    ];
    assert_eq!(
        broadcast_targets(&ifs),
        vec![Broadcast { from: ip(10, 0, 0, 5), to: ip(10, 0, 0, 255) }]
    );
    assert_eq!(multicast_interfaces(&ifs), vec!["en0", "en2"]);
}

#[test]
fn an_interface_gets_one_multicast() {
    let mut done: Vec<u32> = Vec::new();
    assert!(!first_time(&mut done, 0));
    assert!(first_time(&mut done, 4));
    assert!(!first_time(&mut done, 4));
    assert!(first_time(&mut done, 5));
    assert_eq!(done, vec![4, 5]);
}

fn beacon(magic: &str, name: &str, port: u16) -> Beacon {
    Beacon { magic: magic.to_string(), name: name.to_string(), port, os: "linux".to_string() }
}

#[test]
fn peers_are_heard_once() {
    let mut peers: Vec<Peer> = Vec::new();
    let from = IpAddr::V4(ip(10, 0, 0, 1));
    note_beacon(&mut peers, beacon("caybul/1", "a", 5), from);
    note_beacon(&mut peers, beacon("caybul/1", "a again", 5), from);
    note_beacon(&mut peers, beacon("caybul/1", "b", 6), from);
    note_beacon(&mut peers, beacon("other", "c", 7), from);
    let names: Vec<&str> = peers.iter().map(|p| p.name.as_str()).collect();
    assert_eq!(names, vec!["a", "b"]);
    assert_eq!(peers[1].addr, SocketAddr::V4 { ip: ip(10, 0, 0, 1), port: 6 });
    let mine = make_beacon("me", 9, "macos");
    assert_eq!(mine.magic, BEACON_MAGIC);
    assert_eq!((mine.name.as_str(), mine.port, mine.os.as_str()), ("me", 9, "macos"));
}
