use caybul::cli::{
    accepts, choose_receiver, choose_streams, event_lines, first_receiver, links_report,
    listen_time, names_port, print_link_banner, report_lines, route_lines, verdict_on,
    with_default_port, Choice, Found,
};
use caybul::config::{load, Config};
use caybul::discovery::Peer;
use caybul::link::{CableInfo, Link, LinkKind, Speed};
use caybul::net::{IpAddr, SocketAddr};
use caybul::transfer::events::Event;
use caybul::transfer::sender::{FileResult, SendReport};

fn link(name: &str, kind: LinkKind) -> Link {
    Link {
        interface: name.to_string(),
        display: format!("Nice {name}"),
        kind,
        ips: vec![IpAddr::V4(0x0a000001), IpAddr::V6(1), IpAddr::V4(0x0a000002)],
        cable: None,
    }
}

fn cable() -> Option<CableInfo> {
    Some(CableInfo {
        is_usb4: true,
        generation: None,
        max_speed_gbps: Some(Speed { shown: "40".to_string(), order: Some(40) }),
        detail: None,
    })
}

#[test]
fn the_link_report() {
    assert_eq!(links_report(&vec![]), vec!["No network-capable links detected."]);
    let mut tb = link("tb0", LinkKind::ThunderboltOrUsb4);
    tb.cable = cable();
    let lines = links_report(&vec![tb, link("lo", LinkKind::Loopback)]);
    assert_eq!(
        lines,
        vec![
            "Detected links (best first):\n",
            "  tb0        Nice tb0                 [Thunderbolt/USB4]  10.0.0.1, 10.0.0.2",
            "             USB4 connection: yes, cable max speed: 40 Gb/s",
            "  lo         Nice lo                  [Loopback]  10.0.0.1, 10.0.0.2",
            "",
            "Best path: Thunderbolt/USB4 — USB4 connection: yes, cable max speed: 40 Gb/s",
            "Recommended streams: 8",
        ]
    );
}

#[test]
fn the_link_report_names_the_best_path() {
    let last = |links: Vec<Link>| links_report(&links).split_off(links.len() + 2);
    assert_eq!(
        last(vec![link("tb0", LinkKind::ThunderboltOrUsb4)])[0],
        "Best path: Thunderbolt/USB4 — cable details unavailable"
    );
    let usb = last(vec![link("u", LinkKind::UsbLink)]);
    assert_eq!(usb[0], "Best path: USB cable link (Nice u)");
    assert!(usb[1].starts_with("A direct USB-C data link to the other machine is up — transfers\n"));
    let eth = last(vec![link("lo", LinkKind::Loopback), link("e", LinkKind::Ethernet)]);
    assert_eq!(eth[0], "Best path: Ethernet (Nice e)");
    assert!(eth[1].ends_with("or use\na direct Ethernet cable."));
    assert_eq!(
        last(vec![link("lo", LinkKind::Loopback)]),
        vec!["No usable link found. Connect a cable and re-run."]
    );
}

#[test]
fn the_banner() {
    let mut e = link("e", LinkKind::Ethernet);
    e.cable = cable();
    let links = vec![link("lo", LinkKind::Loopback), link("v", LinkKind::Vpn), e];
    assert_eq!(
        print_link_banner(&links),
        vec![
            "Link: Ethernet (Nice e)",
            "      USB4 connection: yes, cable max speed: 40 Gb/s",
            "      this machine: 10.0.0.1, 10.0.0.2",
        ]
    );
    let mut w = link("w", LinkKind::WiFi);
    w.ips = vec![IpAddr::V6(1)];
    assert_eq!(print_link_banner(&vec![w]), vec!["Link: Wi-Fi (Nice w)"]);
    assert_eq!(
        print_link_banner(&vec![link("v", LinkKind::Vpn)]),
        vec!["Link: none detected yet — plug in a cable."]
    );
}

#[test]
fn answers_to_a_pair_request() {
    for yes in ["y\n", " Y ", "yes\r\n"] {
        assert!(accepts(yes));
    }
    for no in ["", "n\n", "YES", "yeah"] {
        assert!(!accepts(no));
    }
}

#[test]
fn events_in_words() {
    assert_eq!(
        event_lines(&Event::Listening { port: 7, name: "desk".to_string() }),
        vec![
            "Ready. Announcing as \"desk\" on port 7.",
            "On the other machine, run:  caybul send <files>\n",
        ]
    );
    let paired = Event::Paired {
        peer_name: "p".to_string(),
        peer_addr: None,
        send_token: "t".to_string(),
    };
    assert_eq!(event_lines(&paired), vec!["Paired with \"p\". They can now send to this device.\n"]);
    assert_eq!(event_lines(&Event::Unpaired), vec!["The paired device disconnected.\n"]);
    let start = |resumed_bytes| Event::SessionStarted {
        sender: "s".to_string(),
        files: 2,
        total_bytes: 2048,
        resumed_bytes,
    };
    assert_eq!(event_lines(&start(0)), vec!["Incoming from s: 2 file(s), 2.0 KB"]);
    assert_eq!(
        event_lines(&start(1)),
        vec!["Incoming from s: 2 file(s), 2.0 KB (resuming, 1 B already here)"]
    );
    let done = Event::FileCompleted { rel_path: "a/b".to_string(), bytes: 3 };
    assert_eq!(event_lines(&done), vec!["  received a/b (3 B)"]);
    assert!(event_lines(&Event::Progress { done_bytes: 1, total_bytes: 2 }).is_empty());
    let end = |ok| Event::SessionEnded { ok, message: "m".to_string() };
    assert_eq!(event_lines(&end(true)), vec!["Done: m\n"]);
    assert_eq!(event_lines(&end(false)), vec!["Note: m\n"]);
}

fn found(name: &str, via: Option<LinkKind>) -> Found {
    Found { peer: peer(name), via }
}

fn peer(name: &str) -> Peer {
    Peer {
        name: name.to_string(),
        os: "linux".to_string(),
        addr: SocketAddr::V4 { ip: 0x0a000001, port: 45821 },
    }
}

#[test]
fn the_only_receiver_is_taken() {
    match choose_receiver(&vec![found("desk", Some(LinkKind::Ethernet))]) {
        Choice::One { addr, line } => {
            assert_eq!(addr, SocketAddr::V4 { ip: 0x0a000001, port: 45821 });
            assert_eq!(line, "Found \"desk\" (linux) at 10.0.0.1:45821 via Ethernet");
        }
        other => panic!("{other:?}"),
    }
}

#[test]
fn several_receivers_are_listed() {
    match choose_receiver(&vec![found("a", None), found("b", Some(LinkKind::WiFi))]) {
        Choice::Unclear { lines, error } => {
            assert_eq!(
                lines,
                vec![
                    "Multiple receivers found (a device shows once per path — prefer the cable one):",
                    "  a (linux) at 10.0.0.1:45821",
                    "  b (linux) at 10.0.0.1:45821 via Wi-Fi",
                ]
            );
            assert_eq!(error, "pass --to <address> to choose one");
        }
        other => panic!("{other:?}"),
    }
    match choose_receiver(&vec![]) {
        Choice::Unclear { lines, error } => {
            assert!(lines.is_empty());
            assert!(error.starts_with("no receiver found. Start `caybul receive`"));
        }
        other => panic!("{other:?}"),
    }
}

#[test]
fn a_speed_test_takes_the_first_receiver() {
    let (_, line) = first_receiver(&vec![peer("a"), peer("b")]).unwrap();
    assert_eq!(line, "Found \"a\" at 10.0.0.1:45821");
    assert_eq!(first_receiver(&vec![]).unwrap_err(), "no receiver found; pass --to <address>");
    assert_eq!((listen_time(0), listen_time(3)), (1, 3));
}

#[test]
fn routes_in_words() {
    assert_eq!(route_lines(Some(&link("e", LinkKind::Ethernet))), vec!["Route: Ethernet (Nice e)"]);
    assert_eq!(
        route_lines(Some(&link("w", LinkKind::WiFi))),
        vec![
            "Route: Wi-Fi (Nice w)",
            "⚠ This is Wi-Fi, not a cable — connect the machines directly for full speed.",
        ]
    );
    assert!(route_lines(None).is_empty());
    assert_eq!(choose_streams(Some(3), Some(LinkKind::WiFi)), 3);
    assert_eq!(choose_streams(None, Some(LinkKind::WiFi)), 2);
    assert_eq!(choose_streams(None, None), 4);
    assert_eq!(with_default_port("host"), "host:45821");
    assert_eq!(with_default_port("localhost:9000"), "localhost:9000");
    assert_eq!(with_default_port("10.0.0.7"), "10.0.0.7:45821");
    assert_eq!(with_default_port("10.0.0.7:65535"), "10.0.0.7:65535");
    assert_eq!(with_default_port("host:65536"), "host:65536:45821");
    assert_eq!(with_default_port("host:"), "host::45821");
    assert_eq!(with_default_port("host:http"), "host:http:45821");
    assert_eq!(with_default_port(":9000"), ":9000:45821");
    assert_eq!(with_default_port("fe80::1"), "fe80::1:45821");
    assert_eq!(with_default_port("[fe80::1]"), "[fe80::1]:45821");
    assert_eq!(with_default_port("[fe80::1]:9000"), "[fe80::1]:9000");
    assert!(names_port("box.local:0080"));
    assert!(!names_port(""));
}

#[test]
fn the_report_on_a_transfer() {
    let file = |ok, message: &str| FileResult {
        rel_path: "f".to_string(),
        ok,
        message: message.to_string(),
    };
    let mut report = SendReport {
        receiver_name: "desk".to_string(),
        files: vec![file(true, "complete"), file(false, "incomplete (1/2 chunks)")],
        bytes_sent: 1024,
        bytes_skipped: 3,
        elapsed: 0,
    };
    assert_eq!(
        report_lines(&report, "1.2s", "77"),
        vec![
            "\nTransfer to \"desk\" finished:",
            "  ✓ f — complete",
            "  ✗ f — incomplete (1/2 chunks)",
            "  (3 B skipped — already on the receiver from an earlier run)",
            "  1.0 KB in 1.2s — 77 Mbit/s",
        ]
    );
    assert_eq!(verdict_on(&report).unwrap_err(), "some files did not complete");
    report.files.pop();
    report.bytes_skipped = 0;
    assert_eq!(report_lines(&report, "1s", "1").len(), 3);
    assert!(verdict_on(&report).is_ok());
}

#[test]
fn settings_have_defaults() {
    let inbox = || std::path::PathBuf::from("inbox");
    assert_eq!(load(None).destination(inbox()), inbox());
    assert!(Config::default().dest_dir.is_none());
    let chosen = Config { dest_dir: Some(std::path::PathBuf::from("mine")) };
    assert_eq!(load(Some(chosen)).destination(inbox()), std::path::PathBuf::from("mine"));
}
