use caybul::link::json::{find_value, get, get_items, get_member_text, get_text, Member};
use caybul::link::{
    best_link, detect_links, generic_detect, interfaces_with_ips, is_direct_cable_peer, linux,
    macos, recommended_streams, route_link, windows, CableInfo, Grouped, Link, LinkKind, Speed,
};
use caybul::net::{IfAddr, Interface, IpAddr};

fn ip(a: u8, b: u8, c: u8, d: u8) -> u32 {
    u32::from_be_bytes([a, b, c, d])
}

fn speed(text: &str, order: i64) -> Speed {
    Speed { shown: text.to_string(), order: Some(order) }
}

fn link(name: &str, kind: LinkKind, ips: Vec<IpAddr>) -> Link {
    Link { interface: name.to_string(), display: format!("<{name}>"), kind, ips, cable: None }
}

fn v4(name: &str, addr: u32, prefix: u32) -> Interface {
    let netmask = if prefix == 0 { 0 } else { u32::MAX << (32 - prefix) };
    Interface { name: name.to_string(), addr: IfAddr::V4 { ip: addr, netmask, broadcast: None } }
}

fn bytes(text: &str) -> Option<Vec<u8>> {
    Some(text.as_bytes().to_vec())
}

// ---- kinds ----

#[test]
fn kinds_have_names_and_streams() {
    assert_eq!(LinkKind::ThunderboltOrUsb4.label(), "Thunderbolt/USB4");
    assert_eq!(LinkKind::UsbLink.label(), "USB cable link");
    assert_eq!(LinkKind::Ethernet.label(), "Ethernet");
    assert_eq!(LinkKind::WiFi.label(), "Wi-Fi");
    assert_eq!(LinkKind::Vpn.label(), "VPN/Tunnel");
    assert_eq!(LinkKind::Loopback.label(), "Loopback");
    assert_eq!(LinkKind::Other.label(), "Other");
    assert_eq!(recommended_streams(LinkKind::ThunderboltOrUsb4), 8);
    assert_eq!(recommended_streams(LinkKind::Ethernet), 4);
    assert_eq!(recommended_streams(LinkKind::WiFi), 2);
    assert_eq!(recommended_streams(LinkKind::Vpn), 2);
    assert_eq!(recommended_streams(LinkKind::Loopback), 4);
}

#[test]
fn links_come_best_first() {
    let found = || {
        vec![
            link("lo", LinkKind::Loopback, vec![]),
            link("wl", LinkKind::WiFi, vec![]),
            link("e1", LinkKind::Ethernet, vec![]),
            link("tun", LinkKind::Vpn, vec![]),
            link("e2", LinkKind::Ethernet, vec![]),
            link("x", LinkKind::Other, vec![]),
            link("usb", LinkKind::UsbLink, vec![]),
            link("tb", LinkKind::ThunderboltOrUsb4, vec![]),
        ]
    };
    let names: Vec<String> = detect_links(found()).into_iter().map(|l| l.interface).collect();
    assert_eq!(names, vec!["tb", "usb", "e1", "e2", "x", "wl", "tun", "lo"]);
    assert_eq!(best_link(found()).unwrap().interface, "tb");
    assert!(best_link(vec![link("lo", LinkKind::Loopback, vec![])]).is_none());
}

#[test]
fn links_read_in_one_line() {
    let mut l = link("en0", LinkKind::WiFi, vec![IpAddr::V6(1), IpAddr::V4(ip(10, 0, 0, 1))]);
    assert_eq!(l.summary(), "en0        <en0>                    [Wi-Fi]  10.0.0.1");
    l.ips = vec![IpAddr::V6(1), IpAddr::V6(2)];
    assert_eq!(l.summary(), "en0        <en0>                    [Wi-Fi]  ::1, ::2");
}

#[test]
fn cables_read_in_one_line() {
    let mut l = link("tb0", LinkKind::ThunderboltOrUsb4, vec![]);
    assert_eq!(l.cable_summary(), None);
    let mut c = CableInfo::default();
    l.cable = Some(c.clone());
    assert_eq!(l.cable_summary(), None);
    c.generation = Some("Thunderbolt 3".to_string());
    c.max_speed_gbps = Some(speed("40", 40));
    c.detail = Some("connected: Mac".to_string());
    l.cable = Some(c.clone());
    assert_eq!(
        l.cable_summary().unwrap(),
        "connection: Thunderbolt 3, cable max speed: 40 Gb/s, connected: Mac"
    );
    c.is_usb4 = true;
    l.cable = Some(c);
    assert_eq!(
        l.cable_summary().unwrap(),
        "USB4 connection: yes, cable max speed: 40 Gb/s, connected: Mac"
    );
}

// ---- routes ----

#[test]
fn the_longest_prefix_wins() {
    let links = vec![
        link("en0", LinkKind::WiFi, vec![]),
        link("en1", LinkKind::Ethernet, vec![]),
        link("utun0", LinkKind::Vpn, vec![]),
        link("lo", LinkKind::Loopback, vec![]),
    ];
    let ifs = vec![
        v4("en0", ip(10, 0, 0, 5), 8),
        v4("utun0", ip(10, 0, 0, 6), 32),
        v4("en1", ip(10, 0, 0, 7), 24),
        v4("ghost", ip(10, 0, 0, 8), 30),
    ];
    let route = |peer| route_link(&links, &ifs, peer, None).map(|l| l.interface.as_str());
    assert_eq!(route(IpAddr::V4(ip(10, 0, 0, 9))), Some("en1"));
    assert_eq!(route(IpAddr::V4(ip(10, 9, 0, 9))), Some("en0"));
    assert_eq!(route(IpAddr::V6(0xffff_0a00_0009)), Some("en1"));
    assert_eq!(route(IpAddr::V4(ip(127, 0, 0, 1))), Some("lo"));
    assert_eq!(route(IpAddr::V4(ip(8, 8, 8, 8))), None);
    assert!(is_direct_cable_peer(&links, &ifs, IpAddr::V4(ip(10, 0, 0, 9)), None));
    assert!(!is_direct_cable_peer(&links, &ifs, IpAddr::V4(ip(10, 9, 0, 9)), None));
}

#[test]
fn the_wire_goes_before_the_routing_table() {
    let links = vec![
        link("en1", LinkKind::Ethernet, vec![IpAddr::V4(ip(10, 0, 0, 7))]),
        link("utun0", LinkKind::Vpn, vec![IpAddr::V4(ip(100, 64, 0, 1))]),
    ];
    let ifs = vec![v4("en1", ip(10, 0, 0, 7), 24)];
    let vpn = Some(IpAddr::V4(ip(100, 64, 0, 1)));
    let peer = IpAddr::V4(ip(10, 0, 0, 9));
    assert_eq!(route_link(&links, &ifs, peer, vpn).unwrap().interface, "en1");
    let far = IpAddr::V4(ip(8, 8, 8, 8));
    assert_eq!(route_link(&links, &ifs, far, vpn).unwrap().interface, "utun0");
    assert!(!is_direct_cable_peer(&links, &ifs, far, vpn));
    let v6 = IpAddr::V6(0x2001 << 112);
    assert_eq!(route_link(&links, &ifs, v6, Some(IpAddr::V4(ip(10, 0, 0, 7)))).unwrap().interface, "en1");
}

#[test]
fn a_link_local_peer_is_on_a_link_local_interface() {
    let links = vec![
        link("en0", LinkKind::WiFi, vec![IpAddr::V4(ip(10, 0, 0, 1))]),
        link("en5", LinkKind::Ethernet, vec![IpAddr::V4(ip(169, 254, 3, 4))]),
    ];
    let peer = IpAddr::V4(ip(169, 254, 9, 9));
    assert_eq!(route_link(&links, &vec![], peer, None).unwrap().interface, "en5");
    let usb = vec![link("usb0", LinkKind::UsbLink, vec![IpAddr::V4(ip(169, 254, 3, 4))])];
    assert!(is_direct_cable_peer(&usb, &vec![], peer, None));
    assert!(route_link(&vec![], &vec![], peer, None).is_none());
}

#[test]
fn interfaces_are_grouped() {
    let ifs = vec![
        v4("en0", ip(10, 0, 0, 1), 24),
        v4("lo", ip(127, 0, 0, 1), 8),
        Interface { name: "en0".to_string(), addr: IfAddr::V6 { ip: 5 } },
    ];
    let g = interfaces_with_ips(&ifs);
    assert_eq!(g.len(), 2);
    assert_eq!((g[0].name.as_str(), g[0].loopback), ("en0", false));
    assert_eq!(g[0].ips, vec![IpAddr::V4(ip(10, 0, 0, 1)), IpAddr::V6(5)]);
    assert!(g[1].loopback);
    let links = generic_detect(&ifs);
    assert_eq!(links[0].kind, LinkKind::Other);
    assert_eq!(links[1].kind, LinkKind::Loopback);
    assert_eq!(links[1].display, "lo");
}

fn group(name: &str, loopback: bool) -> Grouped {
    Grouped { name: name.to_string(), ips: vec![IpAddr::V4(1)], loopback }
}

// ---- Linux ----

#[test]
fn linux_tells_interfaces_apart() {
    let c = linux::classify;
    assert_eq!(c("lo", true, "", false, false), LinkKind::Loopback);
    assert_eq!(c("wg0", false, "", false, true), LinkKind::Vpn);
    assert_eq!(c("x", false, "thunderbolt-net", false, true), LinkKind::ThunderboltOrUsb4);
    assert_eq!(c("tb0", false, "", false, true), LinkKind::ThunderboltOrUsb4);
    assert_eq!(c("wlan0", false, "iwlwifi", true, true), LinkKind::WiFi);
    assert_eq!(c("eth0", false, "e1000", false, true), LinkKind::Ethernet);
    assert_eq!(c("docker0", false, "", false, false), LinkKind::Other);
    assert_eq!(linux::display_name("eth0", LinkKind::Ethernet), "Ethernet (eth0)");
    assert_eq!(linux::display_name("lo", LinkKind::Loopback), "Loopback");
    assert_eq!(linux::display_name("br0", LinkKind::Other), "br0");
    assert_eq!(linux::display_name("usb0", LinkKind::UsbLink), "USB link (usb0)");
}

#[test]
fn linux_reads_card_speeds() {
    let read = |s: &str| linux::nic_speed(&Some(s.to_string()));
    assert_eq!(read("1000\n"), Some(1000));
    assert_eq!(read(" +10 "), Some(10));
    assert_eq!(read("007"), Some(7));
    assert_eq!(read("-1\n"), None);
    assert_eq!(read("0"), None);
    assert_eq!(read(""), None);
    assert_eq!(read("+"), None);
    assert_eq!(read("12x"), None);
    assert_eq!(read("9223372036854775807"), Some(9223372036854775807));
    assert_eq!(read("9223372036854775808"), None);
    assert_eq!(read("99999999999999999999999999"), None);
    assert_eq!(linux::nic_speed(&None), None);
    let c = linux::card_cable(1000, speed("1", 1));
    assert_eq!(c.detail.unwrap(), "NIC negotiated 1000 Mb/s");
}

#[test]
fn linux_links_carry_their_cable() {
    let tb = Some(CableInfo {
        is_usb4: true,
        generation: None,
        max_speed_gbps: None,
        detail: None,
    });
    let sysfs = |driver: &str, device| linux::Sysfs {
        driver: driver.to_string(),
        wireless: false,
        device,
    };
    let found = vec![
        linux::Probed { iface: group("tb0", false), sysfs: sysfs("", true), card: None },
        linux::Probed {
            iface: group("eth0", false),
            sysfs: sysfs("e1000", true),
            card: Some(linux::card_cable(100, speed("0.1", 1))),
        },
        linux::Probed {
            iface: group("br0", false),
            sysfs: sysfs("", false),
            card: Some(linux::card_cable(100, speed("0.1", 1))),
        },
    ];
    let links = linux::detect(found, &tb);
    assert!(links[0].cable.as_ref().unwrap().is_usb4);
    assert_eq!(links[0].display, "Thunderbolt/USB4 (tb0)");
    assert_eq!(links[1].cable_summary().unwrap(), "cable max speed: 0.1 Gb/s, NIC negotiated 100 Mb/s");
    assert!(links[2].cable.is_none());
}

fn device(generation: Option<&str>, rx: Option<Speed>, tx: Option<Speed>) -> linux::Device {
    linux::Device {
        generation: generation.map(|s| s.to_string()),
        has_rx: rx.is_some(),
        rx_speed: rx,
        tx_speed: tx,
        device_name: Some("dock".to_string()),
    }
}

#[test]
fn linux_takes_the_fastest_device() {
    let devices = vec![
        device(None, None, Some(speed("99", 99))),
        device(Some("Thunderbolt 3"), Some(speed("20", 20)), None),
        device(Some("Gen USB4"), Some(speed("20", 20)), Some(speed("40", 40))),
        device(Some("late"), Some(speed("40", 40)), None),
    ];
    let c = linux::thunderbolt_cable_info(&devices).unwrap();
    assert!(c.is_usb4);
    assert_eq!(c.generation.unwrap(), "Gen USB4");
    assert_eq!(c.max_speed_gbps.unwrap().shown, "40");
    assert_eq!(c.detail.unwrap(), "connected: dock");
    assert!(linux::thunderbolt_cable_info(&vec![]).is_none());
}

#[test]
fn linux_speeds_that_are_no_numbers_give_way() {
    let nan = Speed { shown: "NaN".to_string(), order: None };
    let d = device(Some("x"), Some(nan.clone()), Some(speed("5", 5)));
    let c = linux::thunderbolt_cable_info(&vec![d]).unwrap();
    assert_eq!(c.max_speed_gbps.unwrap().shown, "5");
    let devices = vec![
        device(Some("first"), Some(nan), None),
        device(Some("second"), Some(speed("5", 5)), None),
    ];
    assert_eq!(linux::thunderbolt_cable_info(&devices).unwrap().generation.unwrap(), "first");
}

#[test]
fn linux_attributes_are_trimmed() {
    assert_eq!(linux::read_attribute(Some(" USB4\n".to_string())).unwrap(), "USB4");
    assert_eq!(linux::read_attribute(Some("\n".to_string())), None);
    assert_eq!(linux::read_attribute(None), None);
    assert_eq!(linux::parse_gbps("40.0 Gb/s").unwrap(), "40.0");
    assert_eq!(linux::parse_gbps(""), None);
}

// ---- macOS ----

const PORTS: &str = "\nHardware Port: Wi-Fi\nDevice: en0\nEthernet Address: aa\n\n\
Hardware Port: Thunderbolt Bridge \r\nDevice: bridge0\r\n\nDevice: en9\n\
Hardware Port: USB 10/100 LAN\nDevice: en0\n";

#[test]
fn macos_reads_hardware_ports() {
    let ports = macos::hardware_ports(Some(PORTS.as_bytes().to_vec()));
    assert_eq!(ports.len(), 3);
    assert_eq!(macos::find_port(&ports, "bridge0").unwrap(), "Thunderbolt Bridge");
    assert_eq!(macos::find_port(&ports, "en0").unwrap(), "USB 10/100 LAN");
    assert_eq!(macos::find_port(&ports, "en9"), None);
    assert!(macos::hardware_ports(None).is_empty());
}

#[test]
fn macos_tells_interfaces_apart() {
    let c = |name: &str, port: Option<&str>, usb| {
        macos::classify(name, &port.map(|s| s.to_string()), false, usb)
    };
    assert_eq!(c("utun1", Some("Ethernet"), false), LinkKind::Vpn);
    assert_eq!(c("bridge0", Some("Thunderbolt Bridge"), false), LinkKind::ThunderboltOrUsb4);
    assert_eq!(c("en0", Some("Wi-Fi"), false), LinkKind::WiFi);
    assert_eq!(c("en0", Some("AirPort"), false), LinkKind::WiFi);
    assert_eq!(c("en4", Some("USB 10/100 LAN"), false), LinkKind::Ethernet);
    assert_eq!(c("en7", None, true), LinkKind::UsbLink);
    assert_eq!(c("en7", None, false), LinkKind::Other);
    assert_eq!(c("en7", Some("Bluetooth PAN"), true), LinkKind::Other);
    assert_eq!(macos::classify("lo0", &None, true, true), LinkKind::Loopback);
}

#[test]
fn macos_knows_the_other_mac() {
    let out = b"  \"USB Product Name\" = \"Mac\"\n".to_vec();
    assert!(macos::mac_usb_device_present(Some(out)));
    assert!(!macos::mac_usb_device_present(Some(b"\"USB Product Name\" = \"Mouse\"".to_vec())));
    assert!(!macos::mac_usb_device_present(None));
    let mut broken = vec![0xff];
    broken.extend_from_slice(b"\"USB Product Name\" = \"Mac\"");
    assert!(macos::mac_usb_device_present(Some(broken)));
}

#[test]
fn macos_describes_links() {
    let ports = macos::hardware_ports(Some(PORTS.as_bytes().to_vec()));
    let tb = Some(CableInfo {
        is_usb4: false,
        generation: Some("Thunderbolt".to_string()),
        max_speed_gbps: None,
        detail: None,
    });
    let found = vec![group("bridge0", false), group("en7", false), group("en8x", true)];
    let links = macos::detect(found, &ports, true, &tb);
    assert_eq!(links[0].display, "Thunderbolt Bridge");
    assert_eq!(links[0].cable_summary().unwrap(), "connection: Thunderbolt");
    assert_eq!(links[1].display, "USB-C link (Mac)");
    assert_eq!(
        links[1].cable_summary().unwrap(),
        "connection: USB-C data cable (not Thunderbolt), Mac-to-Mac USB link"
    );
    assert_eq!(links[2].kind, LinkKind::Loopback);
    assert_eq!(links[2].display, "en8x");
}

#[test]
fn macos_finds_the_number_before_the_unit() {
    let n = |s: &str| macos::parse_gbps(s);
    assert_eq!(n("Up to 40 Gb/s x1").unwrap(), "40");
    assert_eq!(n("20GBPS").unwrap(), "20");
    assert_eq!(n("1.5 gb/s and 9 gb/s").unwrap(), "1.5");
    assert_eq!(n("5 gbps or 7 gb/s").unwrap(), "7");
    assert_eq!(n("fast gb/s").unwrap(), "");
    assert_eq!(n("40 Mb/s"), None);
    // The lower case of a text can be longer or shorter than the text.
    assert_eq!(n("İ40 Gb/s").unwrap(), "");
    assert_eq!(n("\u{212a}40 Gb/s").unwrap(), "4");
    assert_eq!(n("\u{212a}Gb/s"), None);
    assert_eq!(macos::numeral_in("Up to 40 Gb/s x1", "up to 40 gb/s x1").unwrap(), "40");
    assert_eq!(macos::numeral_in("12345", "xx gb/s").unwrap(), "123");
    assert_eq!(macos::numeral_in("1", "xx gb/s"), None);
    assert_eq!(macos::numeral_in("40 Gb/s", "none"), None);
}

fn thunderbolt_report() -> Option<Vec<u8>> {
    bytes(
        r#"{ "SPThunderboltDataType" : [
            { "_name" : "thunderbolt_bus_0",
              "receptacle" : { "current_speed_key" : "Up to 20 Gb/s" } },
            { "_items" : [
                { "_name" : "Studio", "Link_Speed" : "Up to 10 Gb/s" },
                { "other" : 1 },
                { "_name" : "Dock" } ],
              "_name" : "bus 1",
              "mode" : "USB4 router",
              "speed" : "Up to 40 Gb/s x1",
              "not" : "80 Gb/s" } ] }"#,
    )
}

#[test]
fn reports_are_looked_up_by_key() {
    let report = r#" { "b" : [ 1, "two" , { "c" : null } ], "a" : "x\u0079" } "#;
    assert_eq!(get(report, "a").unwrap(), "\"xy\"");
    assert_eq!(get(report, "b").unwrap(), r#"[1,"two",{"c":null}]"#);
    assert_eq!(get(report, "c"), None);
    assert_eq!(get_member_text(report, "a").unwrap(), "xy");
    assert_eq!(get_member_text(report, "b"), None);
    assert_eq!(get_items("[1, \"two\"]").unwrap(), vec!["1", "\"two\""]);
    assert_eq!(get_items("{}"), None);
    assert_eq!(get_text("7"), None);
    assert_eq!(get_text("not json"), None);
    let members = vec![
        Member { key: "k".to_string(), value: "1".to_string() },
        Member { key: "k".to_string(), value: "2".to_string() },
    ];
    assert_eq!(find_value(&members, "k").unwrap(), "1");
    assert_eq!(find_value(&members, "j"), None);
}

#[test]
fn macos_keeps_the_numeral_of_a_speed() {
    let mut out = vec!["1".to_string()];
    macos::note_speed("Link SPEED", Some("Up to 40 Gb/s".to_string()), &mut out);
    macos::note_speed("link", Some("20 Gb/s".to_string()), &mut out);
    macos::note_speed("speed", None, &mut out);
    macos::note_speed("speed", Some("fast".to_string()), &mut out);
    assert_eq!(out, vec!["1", "40"]);
    let mut out = Vec::new();
    let text = r#"[{"speed":{"speed":"5 gb/s"}}]"#;
    macos::scan_speeds(text, 3, &mut out);
    assert_eq!(out, vec!["5"]);
    macos::scan_speeds(text, 2, &mut out);
    assert_eq!(out, vec!["5"]);
}

#[test]
fn macos_names_a_bus() {
    let bus = |name: &str, text: &str| macos::describe_bus(name, text, vec![], vec![]);
    let b = bus("Bus USB4", "{}");
    assert!(b.is_usb4);
    assert_eq!(b.generation.as_deref(), Some("USB4"));
    let b = bus("ThunderBolt", "{}");
    assert!(!b.is_usb4);
    assert_eq!(b.generation.as_deref(), Some("Thunderbolt"));
    assert_eq!(bus("other", "{}").generation, None);
    assert!(bus("other", r#"{"Usb4":1}"#).is_usb4);
}

#[test]
fn macos_reads_the_bus_report() {
    let buses = macos::read_report(thunderbolt_report()).unwrap();
    assert_eq!(buses.len(), 2);
    assert!(!buses[0].is_usb4);
    assert_eq!(buses[0].generation.as_deref(), Some("Thunderbolt"));
    assert_eq!(buses[0].numerals, vec!["20"]);
    assert!(buses[0].devices.is_empty());
    assert!(buses[1].is_usb4);
    assert_eq!(buses[1].generation.as_deref(), Some("USB4"));
    assert_eq!(buses[1].numerals, vec!["10", "40"]);
    assert_eq!(buses[1].devices, vec!["Studio", "Dock"]);
    assert!(macos::read_report(None).is_none());
    assert!(macos::read_report(bytes("null")).is_none());
    assert!(macos::read_report(bytes("{")).is_none());
    assert!(macos::read_report(Some(vec![0x22, 0xff, 0x22])).is_none());
    assert!(macos::read_report(bytes(r#"{"SPThunderboltDataType":"x"}"#)).is_none());
}

#[test]
fn macos_prefers_a_bus_with_something_plugged_in() {
    let buses = macos::read_report(thunderbolt_report()).unwrap();
    let a = macos::bus_cable(&buses[0], &vec![speed("20", 20)]);
    assert_eq!(a.detail, None);
    let b = macos::bus_cable(&buses[1], &vec![speed("10", 10), speed("40", 40), speed("40.0", 40)]);
    assert_eq!(b.max_speed_gbps.as_ref().unwrap().shown, "40.0");
    assert_eq!(b.detail.as_deref(), Some("connected: Studio, Dock"));
    let c = macos::choose_cable(vec![a.clone(), b.clone(), a.clone()]).unwrap();
    assert_eq!(c.detail.as_deref(), Some("connected: Studio, Dock"));
    let d = macos::choose_cable(vec![a.clone(), a]).unwrap();
    assert_eq!(d.max_speed_gbps.unwrap().shown, "20");
    assert!(macos::choose_cable(vec![]).is_none());
}

// ---- Windows ----

#[test]
fn windows_reads_adapters() {
    let one = r#"{"Name":"Ethernet 2","InterfaceDescription":"Realtek GbE","LinkSpeed":"1 Gbps"}"#;
    let list = windows::net_adapters(bytes(one));
    assert_eq!(list.len(), 1);
    assert_eq!(windows::find_adapter(&list, "Ethernet 2").unwrap().link_speed, "1 Gbps");
    let many = r#"[ {"Name":"a","LinkSpeed":1}, {"Name":""}, {"Name":"a","InterfaceDescription":"second"} ]"#;
    let list = windows::net_adapters(bytes(many));
    assert_eq!(list.len(), 2);
    assert_eq!(windows::find_adapter(&list, "a").unwrap().description, "second");
    assert!(windows::net_adapters(bytes("oops")).is_empty());
    let mut more = Vec::new();
    windows::note_adapter(
        windows::Adapter { name: String::new(), description: String::new(), link_speed: String::new() },
        &mut more,
    );
    assert!(more.is_empty());
    assert!(windows::net_adapters(None).is_empty());
    assert!(windows::find_adapter(&list, "b").is_none());
}

#[test]
fn windows_reads_speeds() {
    let p = |s: &str| windows::parse_gbps(s);
    assert_eq!(p("40 Gbps"), Some(("40".to_string(), windows::Unit::Gigabit)));
    assert_eq!(p("2,5 Gb/s"), Some(("2.5".to_string(), windows::Unit::Gigabit)));
    assert_eq!(p("100 MBPS"), Some(("100".to_string(), windows::Unit::Megabit)));
    assert_eq!(p("9 bps"), None);
    assert_eq!(p("  "), None);
}

#[test]
fn windows_describes_links() {
    let adapter = |name: &str, description: &str| windows::Adapter {
        name: name.to_string(),
        description: description.to_string(),
        link_speed: String::new(),
    };
    let list = vec![
        adapter("a", "Thunderbolt(TM) Networking"),
        adapter("b", "USB4 Host Router"),
        adapter("c", "Intel Wi-Fi 6"),
        adapter("d", "WireGuard Tunnel"),
        adapter("e", "Realtek PCIe GbE"),
        adapter("f", ""),
    ];
    let names = ["a", "b", "c", "d", "e", "f", "g"];
    let found = names
        .iter()
        .map(|n| windows::Measured { iface: group(n, false), speed: Some(speed("1", 1)) })
        .collect();
    let links = windows::detect(found, &list);
    let kinds: Vec<LinkKind> = links.iter().map(|l| l.kind).collect();
    assert_eq!(
        kinds,
        vec![
            LinkKind::ThunderboltOrUsb4,
            LinkKind::ThunderboltOrUsb4,
            LinkKind::WiFi,
            LinkKind::Vpn,
            LinkKind::Ethernet,
            LinkKind::Other,
            LinkKind::Other,
        ]
    );
    assert_eq!(
        links[0].cable_summary().unwrap(),
        "connection: Thunderbolt, cable max speed: 1 Gb/s, Thunderbolt(TM) Networking"
    );
    assert!(links[1].cable.as_ref().unwrap().is_usb4);
    assert!(links[2].cable.is_none());
    assert_eq!(links[4].display, "Realtek PCIe GbE");
    assert_eq!(links[6].display, "g");
    let lo = windows::describe(group("a", true), &list, None);
    assert_eq!(lo.kind, LinkKind::Loopback);
    assert!(lo.cable.is_none());
}
