//! Links: which kind each is, which cable it has, and which of them leads to a peer.

use vstd::prelude::*;

use crate::address::ip_text;
use crate::laws::devices::lemma_same_subnet;
use crate::link::linux::{
    above, attribute, best_cable, card_speed, device_cable, device_speed, greater, is_router,
    linux_kind, linux_link, linux_tunnel, positive_number, probed_link, shown_name, unsigned,
    Device, Probed, Sysfs,
};
use crate::link::{
    attached, best_of, cable_line, cable_parts, group_named, grouped, ip_texts, leaves, link_line,
    listed_ips, of_kind, on_interface, plain_link, route, streams_for, subnet_match, with_ip,
    with_link_local, CableView, GroupedView, Link, LinkKind, LinkView, Speed,
};
use crate::net::{if_ip, ones, IfAddr, Interface, IpAddr};
use crate::order::{
    first_such, lemma_first_such, lemma_is_first, lemma_stable_sorted, stable_sorted,
};
use crate::text::{
    dec, digits_value, has_part, has_prefix, is_digit, joined, lowercase, padded, trimmed,
};

verus! {

// ---- kinds ----

/// The kind of an interface on Linux, and exactly when it is that. Where it is neither
/// the loopback nor a tunnel nor Thunderbolt, it is Wi-Fi exactly when the system has
/// its `wireless` directory, whatever its name; and Ethernet exactly when it has a
/// device and no such directory.
pub proof fn lemma_linux_kinds(
    name: Seq<char>,
    loopback: bool,
    driver: Seq<char>,
    wireless: bool,
    device: bool,
)
    ensures
        ({
            let kind = linux_kind(name, loopback, driver, wireless, device);
            let tunnel = has_prefix(name, "tun"@) || has_prefix(name, "tap"@) || has_prefix(
                name,
                "wg"@,
            ) || has_prefix(name, "ppp"@) || has_prefix(name, "utun"@);
            let cable = has_part(driver, "thunderbolt"@) || has_prefix(name, "tb"@);
            &&& kind == LinkKind::Loopback <==> loopback
            &&& kind == LinkKind::Vpn <==> !loopback && tunnel
            &&& kind == LinkKind::ThunderboltOrUsb4 <==> !loopback && !tunnel && cable
            &&& kind == LinkKind::WiFi <==> !loopback && !tunnel && !cable && wireless
            &&& kind == LinkKind::Ethernet <==> !loopback && !tunnel && !cable && !wireless
                && device
            &&& kind == LinkKind::Other <==> !loopback && !tunnel && !cable && !wireless && !device
            &&& kind != LinkKind::UsbLink
        }),
{
}

/// No interface with a `wireless` directory is ever taken for Ethernet, and every
/// interface that is taken for Wi-Fi has one.
pub proof fn lemma_wireless_is_no_wire(
    name: Seq<char>,
    loopback: bool,
    driver: Seq<char>,
    wireless: bool,
    device: bool,
)
    ensures
        wireless ==> linux_kind(name, loopback, driver, wireless, device) != LinkKind::Ethernet
            && linux_kind(name, loopback, driver, wireless, device) != LinkKind::Other,
        linux_kind(name, loopback, driver, wireless, device) == LinkKind::WiFi ==> wireless,
{
}

/// The name of an interface matters only as that of a tunnel or of Thunderbolt: two
/// interfaces that are named for neither and are otherwise alike are of one kind.
pub proof fn lemma_names_do_not_matter(
    a: Seq<char>,
    b: Seq<char>,
    loopback: bool,
    driver: Seq<char>,
    wireless: bool,
    device: bool,
)
    requires
        !linux_tunnel(a),
        !linux_tunnel(b),
        !has_prefix(a, "tb"@),
        !has_prefix(b, "tb"@),
    ensures
        linux_kind(a, loopback, driver, wireless, device) == linux_kind(
            b,
            loopback,
            driver,
            wireless,
            device,
        ),
{
}

/// The kinds are ranked: cables first, then Ethernet, then what is not known, then
/// what is in the air, tunnels, and the loopback last. No two have one rank.
pub proof fn lemma_ranks(a: LinkKind, b: LinkKind)
    ensures
        LinkKind::ThunderboltOrUsb4.ranked() < LinkKind::UsbLink.ranked(),
        LinkKind::UsbLink.ranked() < LinkKind::Ethernet.ranked(),
        LinkKind::Ethernet.ranked() < LinkKind::Other.ranked(),
        LinkKind::Other.ranked() < LinkKind::WiFi.ranked(),
        LinkKind::WiFi.ranked() < LinkKind::Vpn.ranked(),
        LinkKind::Vpn.ranked() < LinkKind::Loopback.ranked(),
        a.ranked() == b.ranked() <==> a == b,
        0 <= a.ranked() <= 6,
        a.wired() <==> a.ranked() <= LinkKind::Ethernet.ranked(),
{
}

/// Each kind has a name of its own.
pub proof fn lemma_kind_names(kind: LinkKind)
    ensures
        kind == LinkKind::ThunderboltOrUsb4 ==> kind.named() == "Thunderbolt/USB4"@,
        kind == LinkKind::UsbLink ==> kind.named() == "USB cable link"@,
        kind == LinkKind::Ethernet ==> kind.named() == "Ethernet"@,
        kind == LinkKind::WiFi ==> kind.named() == "Wi-Fi"@,
        kind == LinkKind::Vpn ==> kind.named() == "VPN/Tunnel"@,
        kind == LinkKind::Loopback ==> kind.named() == "Loopback"@,
        kind == LinkKind::Other ==> kind.named() == "Other"@,
{
}

/// Thunderbolt gets eight streams, what is in the air or in a tunnel two, and every
/// other link four.
pub proof fn lemma_streams(kind: LinkKind)
    ensures
        streams_for(kind) == 8 <==> kind == LinkKind::ThunderboltOrUsb4,
        streams_for(kind) == 2 <==> kind == LinkKind::WiFi || kind == LinkKind::Vpn,
        streams_for(kind) == 8 || streams_for(kind) == 4 || streams_for(kind) == 2,
{
}

// ---- links on Linux ----

/// A link keeps the name and the addresses of its interface; only Thunderbolt has the
/// Thunderbolt cable, only Ethernet the speed of its card, and nothing else a cable.
pub proof fn lemma_linux_link(
    g: GroupedView,
    sysfs: Sysfs,
    card: Option<CableView>,
    thunderbolt: Option<CableView>,
)
    ensures
        ({
            let l = linux_link(g, sysfs, card, thunderbolt);
            &&& l.interface == g.name
            &&& l.ips == g.ips
            &&& l.kind == linux_kind(
                g.name,
                g.loopback,
                sysfs.driver@,
                sysfs.wireless,
                sysfs.device,
            )
            &&& l.display == shown_name(g.name, l.kind)
            &&& l.kind == LinkKind::ThunderboltOrUsb4 ==> l.cable == thunderbolt
            &&& l.kind == LinkKind::Ethernet ==> l.cable == card
            &&& l.kind != LinkKind::ThunderboltOrUsb4 && l.kind != LinkKind::Ethernet ==> l.cable
                is None
        }),
{
}

/// A link that was probed is the link of its interface, with the speed of its own
/// card.
pub proof fn lemma_probed_link(p: Probed, thunderbolt: Option<CableView>)
    ensures
        p.card is None ==> probed_link(p, thunderbolt) == linux_link(
            p.iface@,
            p.sysfs,
            None,
            thunderbolt,
        ),
        p.card matches Some(c) ==> probed_link(p, thunderbolt) == linux_link(
            p.iface@,
            p.sysfs,
            Some(c@),
            thunderbolt,
        ),
{
}

/// How an interface reads: its kind and its name in brackets. The loopback is only
/// called that, and one of no known kind only by its name.
pub proof fn lemma_shown_name(iface: Seq<char>, kind: LinkKind)
    ensures
        shown_name(iface, LinkKind::ThunderboltOrUsb4) == LinkKind::ThunderboltOrUsb4.named() + " ("@
            + iface + ")"@,
        shown_name(iface, LinkKind::UsbLink) == "USB link ("@ + iface + ")"@,
        shown_name(iface, LinkKind::Ethernet) == LinkKind::Ethernet.named() + " ("@ + iface + ")"@,
        shown_name(iface, LinkKind::WiFi) == LinkKind::WiFi.named() + " ("@ + iface + ")"@,
        shown_name(iface, LinkKind::Vpn) == LinkKind::Vpn.named() + " ("@ + iface + ")"@,
        shown_name(iface, LinkKind::Loopback) == LinkKind::Loopback.named(),
        shown_name(iface, LinkKind::Other) == iface,
{
    reveal_strlit("Thunderbolt/USB4 (");
    reveal_strlit("Thunderbolt/USB4");
    reveal_strlit("Ethernet (");
    reveal_strlit("Ethernet");
    reveal_strlit("Wi-Fi (");
    reveal_strlit("Wi-Fi");
    reveal_strlit("VPN/Tunnel (");
    reveal_strlit("VPN/Tunnel");
    reveal_strlit(" (");
    assert("Thunderbolt/USB4 ("@ =~= "Thunderbolt/USB4"@ + " ("@);
    assert("Ethernet ("@ =~= "Ethernet"@ + " ("@);
    assert("Wi-Fi ("@ =~= "Wi-Fi"@ + " ("@);
    assert("VPN/Tunnel ("@ =~= "VPN/Tunnel"@ + " ("@);
}

/// A number is read exactly from digits, with or without a plus before them, and only
/// from 1 to the largest that a signed number of 64 bits can be.
pub proof fn lemma_positive_number(s: Seq<char>, digits: Seq<char>, v: u64)
    requires
        digits.len() > 0,
        digits[0] != '+',
        s == digits || s == seq!['+'] + digits,
    ensures
        positive_number(s) == Some(v) <==> (forall|i: int|
            0 <= i < digits.len() ==> '0' <= #[trigger] digits[i] <= '9') && digits_value(digits)
            == v && 1 <= v <= 9223372036854775807,
{
    if s != digits {
        assert(s.skip(1) =~= digits);
        assert(s[0] == '+');
    }
    assert(unsigned(s) == digits);
    if forall|i: int| 0 <= i < digits.len() ==> '0' <= #[trigger] digits[i] <= '9' {
        assert(forall|i: int| 0 <= i < digits.len() ==> is_digit(#[trigger] digits[i]));
    }
    if positive_number(s) is Some {
        assert forall|i: int| 0 <= i < digits.len() implies '0' <= #[trigger] digits[i] <= '9' by {
            assert(is_digit(digits[i]));
        }
    }
}

/// A card of `n` Mbit/s is read back, with blanks around it or without.
pub proof fn lemma_card_speed_read_back(text: Seq<char>, n: u64)
    requires
        1 <= n <= 9223372036854775807,
        trimmed(text) == dec(n as nat),
    ensures
        card_speed(Some(text)) == Some(n),
        card_speed(None) is None,
{
    crate::text::lemma_dec_value(n as nat);
    assert(is_digit(dec(n as nat)[0]));
    assert forall|i: int| 0 <= i < dec(n as nat).len() implies '0' <= #[trigger] dec(n as nat)[i]
        <= '9' by {
        assert(is_digit(dec(n as nat)[i]));
    }
    lemma_positive_number(dec(n as nat), dec(n as nat), n);
}

/// What a file of the system says is what stands in it without the blanks around it,
/// and nothing where that is empty.
pub proof fn lemma_attribute(raw: Seq<char>)
    ensures
        attribute(Some(raw)) is None <==> trimmed(raw).len() == 0,
        attribute(Some(raw)) matches Some(s) ==> s == trimmed(raw),
        attribute(None) is None,
{
}

/// Of two speeds the greater counts, and one that is no number only where both are
/// none.
pub proof fn lemma_greater(a: Speed, b: Speed)
    ensures
        greater(a, b) == a || greater(a, b) == b,
        a.order matches Some(x) ==> (greater(a, b).order matches Some(m) && m >= x),
        b.order matches Some(y) ==> (greater(a, b).order matches Some(m) && m >= y),
        a.order is Some && a.order == b.order ==> greater(a, b) == a,
{
}

/// The speed of a device is the greater of the two directions, or the one that is
/// known; it has none exactly when neither is known.
pub proof fn lemma_device_speed(d: Device)
    ensures
        device_speed(d) is None <==> d.rx_speed is None && d.tx_speed is None,
        d.rx_speed is None ==> device_speed(d) == d.tx_speed,
        d.tx_speed is None ==> device_speed(d) == d.rx_speed,
        d.rx_speed is Some && d.tx_speed is Some ==> device_speed(d) == Some(
            greater(d.rx_speed->0, d.tx_speed->0),
        ),
        is_router(d) <==> d.generation is Some || d.has_rx,
{
}

/// What is said of a device's cable is what the device says of itself.
pub proof fn lemma_device_cable(d: Device)
    ensures
        device_cable(d).is_usb4 <==> d.generation is Some && has_part(
            lowercase(d.generation->0@),
            "usb4"@,
        ),
        device_cable(d).generation is Some <==> d.generation is Some,
        d.generation is Some ==> device_cable(d).generation == Some(d.generation->0@),
        device_cable(d).max_speed_gbps == device_speed(d),
        d.device_name is None ==> device_cable(d).detail is None,
        d.device_name is Some ==> device_cable(d).detail == Some(
            "connected: "@ + d.device_name->0@,
        ),
{
}

/// A speed is above another exactly when it is the greater number, or when there is
/// no other.
pub proof fn lemma_above(a: Option<Speed>, b: Option<Speed>)
    ensures
        a is None ==> !above(a, b),
        a is Some && b is None ==> above(a, b),
        a is Some && b is Some && a->0.order is Some && b->0.order is Some ==> (above(a, b)
            <==> a->0.order->0 > b->0.order->0),
        a is Some && b is Some && (a->0.order is None || b->0.order is None) ==> !above(a, b),
{
}

/// The cable that is shown is that of the fastest router, the first of several; there
/// is none exactly when there is no router.
pub proof fn lemma_best_cable(devices: Seq<Device>)
    requires
        forall|i: int|
            0 <= i < devices.len() ==> (device_speed(#[trigger] devices[i]) matches Some(s)
                ==> s.order is Some),
    ensures
        best_cable(devices) is None <==> forall|i: int|
            0 <= i < devices.len() ==> !is_router(#[trigger] devices[i]),
        best_cable(devices) matches Some(c) ==> exists|k: int|
            0 <= k < devices.len() && is_router(#[trigger] devices[k]) && c == device_cable(
                devices[k],
            ) && (forall|j: int|
                0 <= j < devices.len() && is_router(#[trigger] devices[j]) ==> !above(
                    device_speed(devices[j]),
                    device_speed(devices[k]),
                )) && forall|j: int|
                0 <= j < k && is_router(#[trigger] devices[j]) ==> above(
                    device_speed(devices[k]),
                    device_speed(devices[j]),
                ),
    decreases devices.len(),
{
    if devices.len() > 0 {
        let d = devices.drop_last();
        let n = devices.len() - 1;
        assert forall|i: int| 0 <= i < d.len() implies (device_speed(#[trigger] d[i]) matches Some(s)
            ==> s.order is Some) by {
            assert(d[i] == devices[i]);
        }
        lemma_best_cable(d);
        assert(devices[n] == devices.last());
        assert(device_speed(devices[n]) matches Some(s) ==> s.order is Some);
        match best_cable(d) {
            Some(best) => {
                let k = choose|k: int|
                    0 <= k < d.len() && is_router(#[trigger] d[k]) && best == device_cable(d[k])
                        && (forall|j: int|
                        0 <= j < d.len() && is_router(#[trigger] d[j]) ==> !above(
                            device_speed(d[j]),
                            device_speed(d[k]),
                        )) && forall|j: int|
                        0 <= j < k && is_router(#[trigger] d[j]) ==> above(
                            device_speed(d[k]),
                            device_speed(d[j]),
                        );
                assert(d[k] == devices[k]);
                let best_k = if is_router(devices[n]) && above(
                    device_speed(devices[n]),
                    best.max_speed_gbps,
                ) {
                    n
                } else {
                    k
                };
                assert(is_router(devices[best_k]));
                assert(best_cable(devices) == Some(device_cable(devices[best_k])));
                assert forall|j: int|
                    0 <= j < devices.len() && is_router(#[trigger] devices[j]) implies !above(
                    device_speed(devices[j]),
                    device_speed(devices[best_k]),
                ) by {
                    if j < n {
                        assert(d[j] == devices[j]);
                    }
                }
                assert forall|j: int| 0 <= j < best_k && is_router(#[trigger] devices[j]) implies above(
                    device_speed(devices[best_k]),
                    device_speed(devices[j]),
                ) by {
                    if j < n {
                        assert(d[j] == devices[j]);
                    }
                }
            },
            None => {
                assert forall|j: int| 0 <= j < n implies !is_router(#[trigger] devices[j]) by {
                    assert(d[j] == devices[j]);
                }
                if is_router(devices[n]) {
                    assert(best_cable(devices) == Some(device_cable(devices[n])));
                }
            },
        }
    }
}

// ---- how links read ----

/// The addresses of a link read in order, all of them or those of IPv4 alone.
pub proof fn lemma_ip_texts(ips: Seq<IpAddr>)
    ensures
        ip_texts(ips, false) == ips.map_values(|ip: IpAddr| ip_text(ip)),
        ip_texts(ips, true) == ips.filter(|ip: IpAddr| ip is V4).map_values(
            |ip: IpAddr| ip_text(ip),
        ),
    decreases ips.len(),
{
    reveal(Seq::filter);
    let shown = |ip: IpAddr| ip_text(ip);
    let v4 = |ip: IpAddr| ip is V4;
    if ips.len() == 0 {
        assert(ip_texts(ips, false) =~= ips.map_values(shown));
        assert(ip_texts(ips, true) =~= ips.filter(v4).map_values(shown));
    } else {
        lemma_ip_texts(ips.drop_last());
        let d = ips.drop_last();
        assert(ips.map_values(shown) =~= d.map_values(shown).push(ip_text(ips.last())));
        assert(d.filter(v4).push(ips.last()).map_values(shown) =~= d.filter(v4).map_values(
            shown,
        ).push(ip_text(ips.last())));
    }
}

/// A link shows its IPv4 addresses, and those of IPv6 only where it has no others.
pub proof fn lemma_listed_ips(ips: Seq<IpAddr>)
    ensures
        (exists|i: int| 0 <= i < ips.len() && #[trigger] ips[i] is V4) ==> listed_ips(ips)
            == joined(
            ips.filter(|ip: IpAddr| ip is V4).map_values(|ip: IpAddr| ip_text(ip)),
            ", "@,
        ),
        (forall|i: int| 0 <= i < ips.len() ==> #[trigger] ips[i] is V6) ==> listed_ips(ips)
            == joined(ips.map_values(|ip: IpAddr| ip_text(ip)), ", "@),
{
    lemma_ip_texts(ips);
    let v4 = |ip: IpAddr| ip is V4;
    if exists|i: int| 0 <= i < ips.len() && #[trigger] ips[i] is V4 {
        let i = choose|i: int| 0 <= i < ips.len() && #[trigger] ips[i] is V4;
        ips.lemma_filter_contains(v4, i);
        assert(ips.filter(v4).len() > 0);
    }
    if forall|i: int| 0 <= i < ips.len() ==> #[trigger] ips[i] is V6 {
        if ips.filter(v4).len() > 0 {
            ips.lemma_filter_pred(v4, 0);
            ips.lemma_filter_contains_rev(v4, ips.filter(v4)[0]);
        }
    }
}

/// A link reads as its interface, what it is called, its kind and its addresses, the
/// first two filled up to 10 and 24 characters.
pub proof fn lemma_link_line(l: LinkView)
    ensures
        link_line(l) == padded(l.interface, 10) + " "@ + padded(l.display, 24) + " ["@
            + l.kind.named() + "]  "@ + listed_ips(l.ips),
{
}

/// What is said of a cable: that it is USB4, or else its generation; its speed; and
/// its details. What is not known is left out, and nothing at all is said exactly
/// when nothing is known.
pub proof fn lemma_cable_parts(c: CableView)
    ensures
        ({
            let parts = cable_parts(c);
            let first: int = if c.is_usb4 || c.generation is Some {
                1
            } else {
                0
            };
            let second: int = if c.max_speed_gbps is Some {
                1
            } else {
                0
            };
            let third: int = if c.detail is Some {
                1
            } else {
                0
            };
            &&& parts.len() == first + second + third
            &&& c.is_usb4 ==> parts[0] == "USB4 connection: yes"@
            &&& !c.is_usb4 && c.generation is Some ==> parts[0] == "connection: "@
                + c.generation->0
            &&& c.max_speed_gbps is Some ==> parts[first] == "cable max speed: "@
                + c.max_speed_gbps->0.shown@ + " Gb/s"@
            &&& c.detail is Some ==> parts[first + second] == c.detail->0
            &&& cable_line(Some(c)) is None <==> !c.is_usb4 && c.generation is None
                && c.max_speed_gbps is None && c.detail is None
            &&& cable_line(Some(c)) is Some ==> cable_line(Some(c))->0 == joined(parts, ", "@)
            &&& cable_line(None) is None
        }),
{
}

// ---- which link leads to a peer ----

/// The best link is the first of the best rank that is not the loopback; there is
/// none exactly when nothing but the loopback is found.
pub proof fn lemma_best_of(found: Seq<Link>)
    ensures
        best_of(found) matches Some(b) ==> (0 <= b < stable_sorted(found).len()
            && stable_sorted(found)[b].kind != LinkKind::Loopback && forall|j: int|
            0 <= j < b ==> (#[trigger] stable_sorted(found)[j]).kind == LinkKind::Loopback),
        best_of(found) is None ==> forall|j: int|
            0 <= j < stable_sorted(found).len() ==> (#[trigger] stable_sorted(found)[j]).kind
                == LinkKind::Loopback,
        stable_sorted(found).len() == found.len(),
{
    lemma_first_such(stable_sorted(found), leaves());
    lemma_stable_sorted(found);
    assert forall|j: int|
        0 <= j < stable_sorted(found).len() && !leaves()(stable_sorted(found)[j]) implies (
    #[trigger] stable_sorted(found)[j]).kind == LinkKind::Loopback by {
    }
}

/// A peer is attached to an interface exactly when that has an IPv4 address in the
/// peer's subnet and the first link of its name is neither a tunnel nor the loopback.
/// It is then that link, with the length of the prefix.
pub proof fn lemma_attached(links: Seq<Link>, iface: Interface, peer: u32, i: int, prefix: nat)
    ensures
        attached(links, iface, peer) == Some((i, prefix)) <==> (iface.addr matches IfAddr::V4 {
            ip,
            netmask,
            ..
        } && netmask != 0 && (ip ^ peer) & netmask == 0 && prefix == ones(netmask as nat)) && 0 <= i
            < links.len() && links[i].interface@ == iface.name@ && (forall|j: int|
            0 <= j < i ==> (#[trigger] links[j]).interface@ != iface.name@) && links[i].kind
            != LinkKind::Vpn && links[i].kind != LinkKind::Loopback,
{
    let on = on_interface(iface.name@);
    lemma_first_such(links, on);
    if iface.addr is V4 {
        lemma_same_subnet(iface.addr->V4_ip, peer, peer, iface.addr->netmask);
    }
    if 0 <= i < links.len() && links[i].interface@ == iface.name@ && (forall|j: int|
        0 <= j < i ==> (#[trigger] links[j]).interface@ != iface.name@) {
        lemma_is_first(links, on, i);
    }
    if first_such(links, on) == Some(i) {
        assert forall|j: int| 0 <= j < i implies (#[trigger] links[j]).interface@
            != iface.name@ by {
            assert(!on(links[j]));
        }
    }
}

/// The peer is attached by entry `k`, by no entry with a longer prefix, and by none
/// in front of it with one as long.
pub open spec fn longest_at(links: Seq<Link>, ifs: Seq<Interface>, peer: u32, k: int) -> bool {
    &&& 0 <= k < ifs.len()
    &&& attached(links, ifs[k], peer) matches Some(m) && (forall|j: int|
        0 <= j < ifs.len() ==> (attached(links, #[trigger] ifs[j], peer) matches Some(a) ==> a.1
            <= m.1)) && forall|j: int|
        0 <= j < k ==> (attached(links, #[trigger] ifs[j], peer) matches Some(a) ==> a.1 < m.1)
}

/// Of the links that a peer is attached to, the one with the longest prefix counts,
/// the first of several; there is none exactly when it is attached to none.
pub proof fn lemma_first_longest(links: Seq<Link>, ifs: Seq<Interface>, peer: u32)
    ensures
        subnet_match(links, ifs, peer) is None <==> forall|k: int|
            0 <= k < ifs.len() ==> attached(links, #[trigger] ifs[k], peer) is None,
        subnet_match(links, ifs, peer) is Some ==> exists|k: int| #[trigger]
            longest_at(links, ifs, peer, k) && attached(links, ifs[k], peer) == subnet_match(
                links,
                ifs,
                peer,
            ),
    decreases ifs.len(),
{
    if ifs.len() > 0 {
        let d = ifs.drop_last();
        let n = ifs.len() - 1;
        lemma_first_longest(links, d, peer);
        assert(ifs[n] == ifs.last());
        assert(forall|j: int| 0 <= j < n ==> d[j] == #[trigger] ifs[j]);
        if subnet_match(links, d, peer) is Some {
            let k = choose|k: int| #[trigger]
                longest_at(links, d, peer, k) && attached(links, d[k], peer) == subnet_match(
                    links,
                    d,
                    peer,
                );
            assert(attached(links, ifs[k], peer) is Some);
            if subnet_match(links, ifs, peer) == subnet_match(links, d, peer) {
                lemma_longest_stays(links, ifs, peer, k);
            } else {
                lemma_longest_grows(links, ifs, peer, k);
            }
        } else {
            assert forall|j: int| 0 <= j < n implies attached(links, #[trigger] ifs[j], peer)
                is None by {
                assert(attached(links, d[j], peer) is None);
            }
            if attached(links, ifs[n], peer) is Some {
                assert(longest_at(links, ifs, peer, n));
            }
        }
    }
}

proof fn lemma_longest_stays(links: Seq<Link>, ifs: Seq<Interface>, peer: u32, k: int)
    requires
        ifs.len() > 0,
        longest_at(links, ifs.drop_last(), peer, k),
        attached(links, ifs[k], peer) matches Some(m) && (attached(links, ifs.last(), peer) matches Some(
            a,
        ) ==> a.1 <= m.1),
    ensures
        longest_at(links, ifs, peer, k),
{
    let d = ifs.drop_last();
    assert forall|j: int| 0 <= j < ifs.len() implies (attached(links, #[trigger] ifs[j], peer) matches Some(
        a,
    ) ==> a.1 <= (attached(links, ifs[k], peer)->0).1) by {
        if j < d.len() {
            assert(d[j] == ifs[j]);
        }
    }
    assert forall|j: int| 0 <= j < k implies (attached(links, #[trigger] ifs[j], peer) matches Some(
        a,
    ) ==> a.1 < (attached(links, ifs[k], peer)->0).1) by {
        assert(d[j] == ifs[j]);
    }
}

proof fn lemma_longest_grows(links: Seq<Link>, ifs: Seq<Interface>, peer: u32, k: int)
    requires
        ifs.len() > 0,
        longest_at(links, ifs.drop_last(), peer, k),
        attached(links, ifs[k], peer) matches Some(m) && (attached(links, ifs.last(), peer) matches Some(
            a,
        ) && a.1 > m.1),
    ensures
        longest_at(links, ifs, peer, ifs.len() - 1),
{
    let d = ifs.drop_last();
    let n = ifs.len() - 1;
    assert forall|j: int| 0 <= j < n implies (attached(links, #[trigger] ifs[j], peer) matches Some(
        a,
    ) ==> a.1 < (attached(links, ifs[n], peer)->0).1) by {
        assert(d[j] == ifs[j]);
    }
}

/// The link at `i` is the first that passes the test.
pub open spec fn is_first_link(links: Seq<Link>, test: spec_fn(Link) -> bool, i: int) -> bool {
    0 <= i < links.len() && test(links[i]) && forall|j: int|
        0 <= j < i ==> !test(#[trigger] links[j])
}

/// How a peer is reached. This machine is reached by its first loopback link. A peer
/// on a wire is reached by that wire. A link-local peer is reached by the first link
/// with a link-local address. Every other peer is reached by the first link with the
/// address that the system would call from, and by none where that is not known.
pub proof fn lemma_route(
    links: Seq<Link>,
    ifs: Seq<Interface>,
    peer: IpAddr,
    local: Option<IpAddr>,
    v4: u32,
    i: int,
)
    ensures
        ({
            let r = route(links, ifs, peer, local);
            let here = |l: Link| l.kind == LinkKind::Loopback;
            let near = |l: Link|
                exists|k: int|
                    0 <= k < l.ips@.len() && (#[trigger] l.ips@[k] matches IpAddr::V4(n)
                        && 0xa9fe_0000 <= n <= 0xa9fe_ffff);
            let away = !peer.canonical().loopback();
            let lone = peer.canonical() is V6 || (peer.canonical() == IpAddr::V4(v4)
                && subnet_match(links, ifs, v4) is None);
            let is_near = peer.canonical() == IpAddr::V4(v4) && 0xa9fe_0000 <= v4 <= 0xa9fe_ffff;
            let no_near = forall|j: int| 0 <= j < links.len() ==> !near(#[trigger] links[j]);
            &&& !away ==> (r == Some(i) <==> is_first_link(links, here, i))
            &&& away && peer.canonical() == IpAddr::V4(v4) && subnet_match(links, ifs, v4) is Some
                ==> (subnet_match(links, ifs, v4) matches Some(m) && r == Some(m.0))
            &&& away && lone && is_near && !no_near ==> (r == Some(i) <==> is_first_link(
                links,
                near,
                i,
            ))
            &&& away && lone && (!is_near || no_near) && local is Some ==> (r == Some(i)
                <==> is_first_link(links, |l: Link| l.ips@.contains(local->0), i))
            &&& away && lone && (!is_near || no_near) && local is None ==> r is None
        }),
{
    let here = |l: Link| l.kind == LinkKind::Loopback;
    let near = |l: Link|
        exists|k: int|
            0 <= k < l.ips@.len() && (#[trigger] l.ips@[k] matches IpAddr::V4(n) && 0xa9fe_0000 <= n
                <= 0xa9fe_ffff);
    lemma_same_first(links, here, of_kind(LinkKind::Loopback), i);
    assert forall|l: Link| #[trigger] near(l) == with_link_local()(l) by {
        if near(l) {
            let k = choose|k: int|
                0 <= k < l.ips@.len() && (#[trigger] l.ips@[k] matches IpAddr::V4(n) && 0xa9fe_0000
                    <= n <= 0xa9fe_ffff);
            assert(l.ips@[k] matches IpAddr::V4(n) && crate::net::link_local_v4(n));
        }
        if with_link_local()(l) {
            let k = choose|k: int|
                0 <= k < l.ips@.len() && (#[trigger] l.ips@[k] matches IpAddr::V4(n)
                    && crate::net::link_local_v4(n));
            assert(l.ips@[k] matches IpAddr::V4(n) && 0xa9fe_0000 <= n <= 0xa9fe_ffff);
        }
    }
    lemma_same_first(links, near, with_link_local(), i);
    lemma_first_such(links, with_link_local());
    if forall|j: int| 0 <= j < links.len() ==> !near(#[trigger] links[j]) {
        assert(first_such(links, with_link_local()) is None) by {
            if first_such(links, with_link_local()) is Some {
                let k = first_such(links, with_link_local())->0;
                assert(near(links[k]) == with_link_local()(links[k]));
            }
        }
    } else {
        let j = choose|j: int| 0 <= j < links.len() && near(#[trigger] links[j]);
        assert(with_link_local()(links[j]));
        assert(first_such(links, with_link_local()) is Some);
    }
    if local is Some {
        let ours = |l: Link| l.ips@.contains(local->0);
        lemma_same_first(links, ours, with_ip(local->0), i);
    }
}

proof fn lemma_same_first(
    links: Seq<Link>,
    p: spec_fn(Link) -> bool,
    q: spec_fn(Link) -> bool,
    i: int,
)
    requires
        forall|l: Link| #[trigger] p(l) == q(l),
    ensures
        first_such(links, q) == Some(i) <==> is_first_link(links, p, i),
{
    lemma_first_such(links, q);
    if is_first_link(links, p, i) {
        assert(p(links[i]) == q(links[i]));
        assert forall|j: int| 0 <= j < i implies !q(#[trigger] links[j]) by {
            assert(p(links[j]) == q(links[j]));
        }
        lemma_is_first(links, q, i);
    }
    if first_such(links, q) == Some(i) {
        assert(p(links[i]) == q(links[i]));
        assert forall|j: int| 0 <= j < i implies !p(#[trigger] links[j]) by {
            assert(p(links[j]) == q(links[j]));
        }
    }
}

// ---- interfaces ----

/// The entry belongs to this interface.
pub open spec fn entry_of(name: Seq<char>) -> spec_fn(Interface) -> bool {
    |i: Interface| i.name@ == name
}

/// An interface has the addresses of all its entries, in their order, and is the
/// loopback exactly when the first of them is a loopback address. Each interface that
/// has an entry is there.
pub proof fn lemma_grouped(ifs: Seq<Interface>)
    ensures
        forall|g: int|
            0 <= g < grouped(ifs).len() ==> (#[trigger] grouped(ifs)[g]).ips == ifs.filter(
                entry_of(grouped(ifs)[g].name),
            ).map_values(|i: Interface| if_ip(i.addr)) && grouped(ifs)[g].ips.len() > 0 && grouped(
                ifs,
            )[g].loopback == grouped(ifs)[g].ips[0].loopback(),
        forall|k: int|
            0 <= k < ifs.len() ==> exists|g: int|
                0 <= g < grouped(ifs).len() && (#[trigger] grouped(ifs)[g]).name == (
                #[trigger] ifs[k]).name@,
    decreases ifs.len(),
{
    reveal(Seq::filter);
    if ifs.len() > 0 {
        let d = ifs.drop_last();
        let x = ifs.last();
        let before = grouped(d);
        let after = grouped(ifs);
        let addr = |i: Interface| if_ip(i.addr);
        lemma_grouped(d);
        lemma_first_such(before, group_named(x.name@));
        crate::link::lemma_grouped_once(d);
        assert forall|g: int| 0 <= g < after.len() implies (#[trigger] after[g]).ips == ifs.filter(
            entry_of(after[g].name),
        ).map_values(addr) && after[g].ips.len() > 0 && after[g].loopback
            == after[g].ips[0].loopback() by {
            let e = entry_of(after[g].name);
            assert(d.filter(e).push(x).map_values(addr) =~= d.filter(e).map_values(addr).push(
                if_ip(x.addr),
            ));
            if g < before.len() {
                assert(after[g].name == before[g].name);
                assert(before[g].ips == d.filter(e).map_values(addr));
                assert(before[g].ips.len() > 0);
                if before[g].name == x.name@ {
                    assert(group_named(x.name@)(before[g]));
                    let i = first_such(before, group_named(x.name@))->0;
                    assert(group_named(x.name@)(before[i]));
                    assert(i == g);
                    assert(after[g].ips[0] == before[g].ips[0]);
                }
            } else {
                assert(after[g].name == x.name@);
                if d.filter(e).len() > 0 {
                    let y = d.filter(e)[0];
                    d.lemma_filter_pred(e, 0);
                    d.lemma_filter_contains_rev(e, y);
                    let k = choose|k: int| 0 <= k < d.len() && d[k] == y;
                    let h = choose|h: int|
                        0 <= h < before.len() && (#[trigger] before[h]).name == d[k].name@;
                    assert(group_named(x.name@)(before[h]));
                }
                assert(d.filter(e).map_values(addr) =~= Seq::empty());
                assert(after[g].ips =~= seq![if_ip(x.addr)]);
                assert(ifs.filter(e) == d.filter(e).push(x));
            }
        }
        assert forall|k: int| 0 <= k < ifs.len() implies exists|g: int|
            0 <= g < after.len() && (#[trigger] after[g]).name == (#[trigger] ifs[k]).name@ by {
            if k < d.len() {
                assert(d[k] == ifs[k]);
                let g = choose|g: int|
                    0 <= g < before.len() && (#[trigger] before[g]).name == d[k].name@;
                assert(after[g].name == before[g].name);
            } else {
                match first_such(before, group_named(x.name@)) {
                    Some(i) => {
                        assert(group_named(x.name@)(before[i]));
                        assert(after[i].name == x.name@);
                    },
                    None => {
                        assert(after[before.len() as int].name == x.name@);
                    },
                }
            }
        }
    }
}

/// Interfaces stand in the order in which they first occur: entries that follow move
/// none of them and add one at most, behind all others.
pub proof fn lemma_grouped_in_order(ifs: Seq<Interface>, x: Interface)
    ensures
        grouped(ifs).len() <= grouped(ifs.push(x)).len() <= grouped(ifs).len() + 1,
        forall|g: int|
            0 <= g < grouped(ifs).len() ==> (#[trigger] grouped(ifs.push(x))[g]).name == grouped(
                ifs,
            )[g].name,
        grouped(ifs.push(x)).len() > grouped(ifs).len() ==> grouped(ifs.push(x)).last().name
            == x.name@,
{
    assert(ifs.push(x).drop_last() =~= ifs);
    lemma_first_such(grouped(ifs), group_named(x.name@));
}

/// Where nothing more is known of an interface, its link has its name and its
/// addresses, and is the loopback or of no known kind.
pub proof fn lemma_plain_link(g: GroupedView)
    ensures
        plain_link(g).interface == g.name,
        plain_link(g).display == g.name,
        plain_link(g).ips == g.ips,
        plain_link(g).cable is None,
        plain_link(g).kind == LinkKind::Loopback <==> g.loopback,
        plain_link(g).kind == LinkKind::Other <==> !g.loopback,
{
}

} // verus!
