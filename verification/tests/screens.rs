use caybul::discovery::Peer;
use caybul::link::{Link, LinkKind};
use caybul::net::{IfAddr, Interface, IpAddr, SocketAddr};
use caybul::pair::PairResult;
use caybul::screen::devices::{device_rows, via_info, Heard, Row, Tone};
use caybul::screen::show::{
    link_banner, parts_below, progress_text, suggests_cable, tilde, typed_address, unresolved,
    Activity, FolderSize, MAX_ENTRIES,
};
use caybul::screen::state::{pretty_name, App, PairStep, PairedPeer, RecvMsg, SendState, SpeedState};
use caybul::transfer::events::Event;
use caybul::transfer::sender::{FileResult, SendReport};

const SECOND: u128 = 1_000_000_000;

fn ip(a: u8, b: u8, c: u8, d: u8) -> u32 {
    u32::from_be_bytes([a, b, c, d])
}

fn at(addr: u32, port: u16) -> SocketAddr {
    SocketAddr::V4 { ip: addr, port }
}

fn app(name: &str) -> App {
    App::new(name.to_string(), 45821)
}

fn paired(a: &mut App) {
    a.paired = Some(PairedPeer { name: "p".to_string(), addr: at(1, 2), token: "t".to_string() });
}

fn pair_event(peer_addr: Option<SocketAddr>) -> Event {
    Event::Paired {
        peer_name: "desk.local".to_string(),
        peer_addr,
        send_token: "tok".to_string(),
    }
}

#[test]
fn names_end_at_the_first_dot() {
    assert_eq!(pretty_name("rahuls-MacBook-Air.local"), "rahuls-MacBook-Air");
    assert_eq!(pretty_name("desk"), "desk");
    assert_eq!(pretty_name(".x"), "");
}

// ---- events ----

#[test]
fn the_other_device_connects() {
    let mut a = app("me");
    assert!(a.on_event(pair_event(Some(at(9, 9))), 0));
    let p = a.paired.as_ref().unwrap();
    assert_eq!((p.name.as_str(), p.addr, p.token.as_str()), ("desk.local", at(9, 9), "tok"));
    assert!(matches!(a.speed, SpeedState::Testing));
    assert_eq!(a.recv_log, vec!["Connected to desk"]);
    assert!(!a.on_event(pair_event(Some(at(8, 8))), 0));
    assert_eq!(a.paired.as_ref().unwrap().addr, at(9, 9));
}

#[test]
fn a_device_without_a_listener_is_only_logged() {
    let mut a = app("me");
    assert!(!a.on_event(pair_event(None), 0));
    assert!(a.paired.is_none());
    assert_eq!(a.recv_log.len(), 1);
}

#[test]
fn the_other_device_disconnects() {
    let mut a = app("me");
    a.on_event(Event::Unpaired, 0);
    assert!(a.auto_connect && a.recv_log.is_empty());
    paired(&mut a);
    a.on_event(Event::Unpaired, 0);
    assert!(a.paired.is_none() && !a.auto_connect);
    assert_eq!(a.recv_log, vec!["The other device disconnected."]);
}

#[test]
fn a_transfer_comes_in() {
    let mut a = app("me");
    a.on_event(
        Event::SessionStarted {
            sender: "desk.local".to_string(),
            files: 1,
            total_bytes: 2048,
            resumed_bytes: 10,
        },
        77,
    );
    assert_eq!(a.recv_progress, Some((10, 2048)));
    assert_eq!(a.recv_started_at, Some(77));
    a.on_event(Event::Progress { done_bytes: 500, total_bytes: 2048 }, 78);
    assert_eq!(a.recv_progress, Some((500, 2048)));
    a.on_event(Event::FileCompleted { rel_path: "x.bin".to_string(), bytes: 2048 }, 79);
    a.on_event(Event::SessionEnded { ok: true, message: String::new() }, 80);
    assert_eq!(a.recv_progress, None);
    assert_eq!(a.recv_started_at, None);
    assert_eq!(a.last_received.as_deref(), Some("Received 1 file"));
    assert_eq!(
        a.recv_log,
        vec![
            "Receiving 1 file (2.0 KB) from desk…",
            "Received x.bin (2.0 KB)",
            "All files received.",
        ]
    );
}

#[test]
fn an_interrupted_transfer_is_told() {
    let mut a = app("me");
    a.on_event(
        Event::SessionStarted {
            sender: "d".to_string(),
            files: 3,
            total_bytes: 5,
            resumed_bytes: 0,
        },
        0,
    );
    assert_eq!(a.recv_log[0], "Receiving 3 files (5 B) from d…");
    a.on_event(Event::SessionEnded { ok: false, message: String::new() }, 0);
    assert_eq!(a.recv_log[1], "Transfer interrupted — it will pick up where it left off.");
    assert_eq!(a.last_received, None);
}

#[test]
fn messages_of_the_receiver() {
    let mut a = app("me");
    assert!(!a.handle_recv_msg(
        RecvMsg::PairPrompt { name: "n".to_string(), code: "123456".to_string() },
        0
    ));
    assert_eq!(a.incoming.as_ref().unwrap().code, "123456");
    a.answer_incoming();
    assert!(a.incoming.is_none());
    a.handle_recv_msg(RecvMsg::Fatal("x".to_string()), 0);
    assert_eq!(a.recv_log, vec!["Something went wrong — please restart Caybul."]);
    a.handle_recv_msg(
        RecvMsg::Event(Event::Listening { port: 7, name: "me".to_string() }),
        0,
    );
    assert_eq!(a.listen_port, 7);
}

#[test]
fn the_log_is_cut() {
    let mut a = app("me");
    for i in 0..300 {
        a.push_log(format!("{i}"));
    }
    assert_eq!(a.recv_log.len(), 300);
    a.push_log("300".to_string());
    assert_eq!(a.recv_log.len(), 201);
    assert_eq!(a.recv_log[0], "100");
    assert_eq!(a.recv_log[200], "300");
}

// ---- results ----

fn result() -> Result<PairResult, String> {
    Ok(PairResult {
        peer_name: "desk".to_string(),
        send_token: "mine".to_string(),
        their_send_token: "theirs".to_string(),
    })
}

#[test]
fn a_connection_we_asked_for() {
    let mut a = app("me");
    a.pair_error = Some("old".to_string());
    a.start_pair(at(5, 6), "desk".to_string());
    assert!(a.pair_error.is_none());
    a.on_code("042042".to_string());
    assert_eq!(a.outgoing.as_ref().unwrap().code.as_deref(), Some("042042"));
    match a.on_pair_result(result()) {
        PairStep::Register(t) => assert_eq!(t, "theirs"),
        other => panic!("{other:?}"),
    }
    let p = a.paired.as_ref().unwrap();
    assert_eq!((p.addr, p.token.as_str()), (at(5, 6), "mine"));
    assert!(a.outgoing.is_none());
    assert_eq!(a.recv_log, vec!["Paired with \"desk\""]);
    assert!(matches!(a.speed, SpeedState::Testing));
}

#[test]
fn a_connection_that_fails() {
    let mut a = app("me");
    a.start_pair(at(5, 6), "desk".to_string());
    assert!(matches!(a.on_pair_result(Err("no".to_string())), PairStep::Failed));
    assert_eq!(a.pair_error.as_deref(), Some("no"));
    a.start_pair(at(5, 6), "desk".to_string());
    a.outgoing.as_mut().unwrap().was_cancelled = true;
    assert!(matches!(a.on_pair_result(result()), PairStep::Dropped));
    assert!(a.paired.is_none() && a.outgoing.is_none());
}

#[test]
fn a_connection_that_is_given_up() {
    let mut a = app("me");
    a.start_pair(at(5, 6), "desk".to_string());
    a.cancel_pair(99);
    assert!(a.outgoing.is_none());
    assert_eq!(a.last_auto, Some(99));
    a.on_code("1".to_string());
    assert!(a.outgoing.is_none());
}

#[test]
fn searches_have_a_pause() {
    let mut a = app("me");
    assert!(a.maybe_discover(0));
    assert!(a.searching && !a.maybe_discover(0));
    let peer = Peer { name: "p".to_string(), os: "linux".to_string(), addr: at(1, 1) };
    a.on_discovery(Ok(vec![peer]), 10 * SECOND);
    assert!(!a.searching);
    assert_eq!(a.peers.len(), 1);
    assert!(!a.maybe_discover(14 * SECOND));
    assert!(a.maybe_discover(14 * SECOND + 1));
    a.on_discovery(Err("no socket".to_string()), 20 * SECOND);
    assert_eq!(a.disco_error.as_deref(), Some("no socket"));
    assert_eq!(a.peers.len(), 1);
    paired(&mut a);
    assert!(!a.maybe_discover(100 * SECOND));
}

#[test]
fn speeds_are_shown() {
    let mut a = app("me");
    a.on_speed(Some("· 9.4 Gbit/s".to_string()));
    assert!(matches!(&a.speed, SpeedState::Done(s) if s == "· 9.4 Gbit/s"));
    a.on_speed(None);
    assert!(matches!(a.speed, SpeedState::Failed));
}

fn report(ok: bool, skipped: u64) -> SendReport {
    SendReport {
        receiver_name: "desk".to_string(),
        files: vec![FileResult {
            rel_path: "a".to_string(),
            ok,
            message: "bad".to_string(),
        }],
        bytes_sent: 1024,
        bytes_skipped: skipped,
        elapsed: 0,
    }
}

#[test]
fn a_transfer_that_ended() {
    let mut a = app("me");
    a.on_sent(&report(true, 2048), "1.5s", "800");
    match &a.send_state {
        SendState::Finished { ok, lines } => {
            assert!(*ok);
            assert_eq!(
                *lines,
                vec![
                    "Sent a",
                    "2.0 KB skipped (already there from an earlier run)",
                    "1.0 KB in 1.5s — 800 Mbit/s",
                ]
            );
        }
        other => panic!("{other:?}"),
    }
    a.on_sent(&report(false, 0), "1s", "1");
    match &a.send_state {
        SendState::Finished { ok, lines } => {
            assert!(!*ok);
            assert_eq!(lines[0], "FAILED a — bad");
            assert_eq!(lines.len(), 2);
        }
        other => panic!("{other:?}"),
    }
    a.on_send_error("boom");
    match &a.send_state {
        SendState::Finished { ok, lines } => assert_eq!((*ok, lines[0].as_str()), (false, "✗ boom")),
        other => panic!("{other:?}"),
    }
}

// ---- sending ----

#[test]
fn paths_are_picked_once() {
    let mut a = app("me");
    a.add_path(1, "dir".to_string(), true, None);
    a.add_path(2, "f.txt".to_string(), false, Some(9));
    a.add_path(1, "dir".to_string(), true, None);
    assert_eq!(a.picked.len(), 2);
    assert_eq!(a.picked[0].label, "dir/");
    assert_eq!(a.picked[1].label, "f.txt");
    assert!(a.can_send());
    a.remove_path(0);
    assert_eq!(a.picked[0].id, 2);
    a.clear_paths();
    assert!(!a.can_send());
}

#[test]
fn sending_needs_a_connection() {
    let mut a = app("me");
    assert!(a.start_send(Some(LinkKind::WiFi)).is_none());
    paired(&mut a);
    let (peer, streams) = a.start_send(Some(LinkKind::ThunderboltOrUsb4)).unwrap();
    assert_eq!((peer.token.as_str(), streams), ("t", 8));
    assert!(matches!(a.send_state, SendState::Running));
    a.add_path(1, "x".to_string(), false, None);
    assert!(!a.can_send());
    assert_eq!(a.start_send(None).unwrap().1, 4);
}

// ---- devices ----

fn link(name: &str, kind: LinkKind, ips: Vec<IpAddr>) -> Link {
    Link { interface: name.to_string(), display: name.to_string(), kind, ips, cable: None }
}

fn net() -> (Vec<Link>, Vec<Interface>) {
    let links = vec![
        link("tb0", LinkKind::ThunderboltOrUsb4, vec![IpAddr::V4(ip(169, 254, 1, 1))]),
        link("en1", LinkKind::Ethernet, vec![IpAddr::V4(ip(10, 1, 0, 1))]),
        link("wl0", LinkKind::WiFi, vec![IpAddr::V4(ip(10, 2, 0, 1))]),
        link("lo", LinkKind::Loopback, vec![IpAddr::V4(ip(127, 0, 0, 1))]),
    ];
    let iface = |name: &str, ip: u32| Interface {
        name: name.to_string(),
        addr: IfAddr::V4 { ip, netmask: 0xffff_0000, broadcast: None },
    };
    let ifs = vec![
        iface("tb0", ip(169, 254, 1, 1)),
        iface("en1", ip(10, 1, 0, 1)),
        iface("wl0", ip(10, 2, 0, 1)),
    ];
    (links, ifs)
}

fn heard(name: &str, addr: SocketAddr) -> Heard {
    Heard {
        peer: Peer { name: name.to_string(), os: "linux".to_string(), addr },
        local: None,
    }
}

#[test]
fn devices_are_reached_by_cable_or_not() {
    let (links, ifs) = net();
    let via = |addr| via_info(&links, &ifs, IpAddr::V4(addr), None);
    let fast = via(ip(169, 254, 7, 7));
    assert_eq!((fast.label(), fast.rank, fast.is_cable), ("fast cable", 0, true));
    assert_eq!(fast.tone, Tone::Fast);
    let cable = via(ip(10, 1, 9, 9));
    assert_eq!((cable.label(), cable.rank, cable.is_cable), ("cable", 1, true));
    let wifi = via(ip(10, 2, 9, 9));
    assert_eq!((wifi.label(), wifi.rank, wifi.is_cable), ("Wi-Fi", 5, false));
    let own = via(ip(127, 0, 0, 1));
    assert_eq!((own.label(), own.rank), ("this computer", 3));
    let none = via(ip(8, 8, 8, 8));
    assert_eq!((none.label(), none.rank, none.kind), ("network", 9, None));
    assert!(suggests_cable(&wifi) && suggests_cable(&none));
    assert!(!suggests_cable(&cable) && !suggests_cable(&own));
}

fn names(rows: &Vec<Row>) -> Vec<(String, u8)> {
    rows.iter().map(|r| (r.name.clone(), r.via.rank)).collect()
}

#[test]
fn each_device_is_offered_once_by_its_best_path() {
    let (links, ifs) = net();
    let all = vec![
        heard("zeta.local", at(ip(10, 2, 0, 9), 1)),
        heard("alpha", at(ip(10, 2, 0, 8), 1)),
        heard("zeta.lan", at(ip(10, 1, 0, 9), 1)),
        heard("me", at(ip(10, 2, 0, 1), 45821)),
        heard("me", at(ip(127, 0, 0, 1), 45821)),
        heard("zeta", at(ip(10, 2, 0, 7), 1)),
        heard("beta", at(ip(10, 1, 0, 7), 1)),
    ];
    let rows = device_rows(&all, &links, &ifs, 45821);
    assert_eq!(
        names(&rows),
        vec![("beta".to_string(), 1), ("zeta".to_string(), 1), ("alpha".to_string(), 5)]
    );
    assert_eq!(rows[1].peer.addr, at(ip(10, 1, 0, 9), 1));
    let other_port = vec![heard("twin", at(ip(127, 0, 0, 1), 5))];
    assert_eq!(device_rows(&other_port, &links, &ifs, 45821).len(), 1);
}

#[test]
fn the_lower_name_calls() {
    let (links, ifs) = net();
    let list = vec![
        heard("Beta.local", at(ip(10, 1, 0, 9), 1)),
        heard("Beta.local", at(ip(169, 254, 2, 2), 1)),
        heard("aaa", at(ip(10, 2, 0, 9), 1)),
    ];
    let mut alpha = app("alpha.home");
    assert_eq!(
        alpha.maybe_auto_connect(&list, &links, &ifs, 5),
        Some(at(ip(169, 254, 2, 2), 1))
    );
    assert_eq!(alpha.outgoing.as_ref().unwrap().peer_label, "Beta");
    assert_eq!(alpha.last_auto, Some(5));
    let back = vec![heard("alpha.home", at(ip(10, 1, 0, 9), 1))];
    let mut beta = app("Beta.local");
    assert_eq!(beta.maybe_auto_connect(&back, &links, &ifs, 5), None);
    assert!(beta.outgoing.is_none() && beta.last_auto.is_none());
    let mut same_name = app("ALPHA");
    assert_eq!(same_name.maybe_auto_connect(&back, &links, &ifs, 5), None);
}

#[test]
fn the_program_does_not_call_in_vain() {
    let (links, ifs) = net();
    let list = vec![heard("beta", at(ip(10, 1, 0, 9), 1))];
    let wifi = vec![heard("beta", at(ip(10, 2, 0, 9), 1))];
    assert_eq!(app("alpha").maybe_auto_connect(&wifi, &links, &ifs, 0), None);
    let mut a = app("alpha");
    a.last_auto = Some(0);
    assert_eq!(a.maybe_auto_connect(&list, &links, &ifs, 10 * SECOND - 1), None);
    assert!(a.maybe_auto_connect(&list, &links, &ifs, 10 * SECOND).is_some());
    assert_eq!(a.maybe_auto_connect(&list, &links, &ifs, 99 * SECOND), None);
    let mut b = app("alpha");
    paired(&mut b);
    assert_eq!(b.maybe_auto_connect(&list, &links, &ifs, 0), None);
}

#[test]
fn a_disconnect_stays() {
    let (links, ifs) = net();
    let list = vec![heard("beta", at(ip(10, 1, 0, 9), 1))];
    let mut a = app("alpha");
    paired(&mut a);
    assert_eq!(a.disconnect(), Some((at(1, 2), "t".to_string())));
    assert!(a.paired.is_none() && !a.auto_connect);
    assert_eq!(a.pairing_screen().hint, "Pick a device to connect.");
    assert_eq!(a.maybe_auto_connect(&list, &links, &ifs, 1000 * SECOND), None);
    a.connect_to(at(3, 4), "beta".to_string());
    assert!(a.auto_connect);
    assert_eq!(a.outgoing.as_ref().unwrap().addr, at(3, 4));
    assert!(app("x").disconnect().is_none());
}

// ---- what is shown ----

#[test]
fn the_banner_tells_of_cables() {
    let (links, _) = net();
    assert_eq!(link_banner(&links).text, "Fast cable connected");
    let usb = vec![link("u", LinkKind::UsbLink, vec![])];
    assert_eq!(link_banner(&usb).text, "Cable connected");
    let wifi = vec![link("w", LinkKind::WiFi, vec![])];
    let b = link_banner(&wifi);
    assert_eq!((b.text, b.tone), ("No cable — using Wi-Fi", Tone::Wireless));
}

#[test]
fn a_receive_is_never_invisible() {
    let how = via_info(&vec![], &vec![], IpAddr::V4(1), None);
    let mut a = app("me");
    assert!(matches!(a.activity(), Activity::Hidden));
    a.last_received = Some("x".to_string());
    assert!(matches!(a.activity(), Activity::Received(t) if t == "x"));
    a.recv_progress = Some((512, 2048));
    match a.activity() {
        Activity::Receiving { done, total, text } => {
            assert_eq!((done, total, text.as_str()), (512, 2048, "512 B / 2.0 KB"));
        }
        _ => panic!(),
    }
    assert!(a.transfer_screen(&how).is_none());
    paired(&mut a);
    assert!(matches!(a.activity(), Activity::Hidden));
    assert_eq!(a.transfer_screen(&how).unwrap().incoming, Some((512, 2048)));
    a.dismiss_received();
    assert_eq!(a.last_received, None);
}

#[test]
fn the_pairing_screen_shows_what_goes_on() {
    let mut a = app("me");
    let s = a.pairing_screen();
    assert!(s.hint.starts_with("Open Caybul on your other computer."));
    assert!(s.connecting.is_none() && !s.trouble);
    a.on_bad_address("cannot resolve".to_string());
    assert_eq!(a.pair_error.as_deref(), Some("cannot resolve"));
    assert!(a.pairing_screen().trouble);
    a.start_pair(at(1, 2), "desk".to_string());
    a.on_code("123456".to_string());
    a.pair_error = Some("old".to_string());
    let s = a.pairing_screen();
    assert!(!s.trouble);
    let c = s.connecting.unwrap();
    assert_eq!(c.line, "Connecting to desk…");
    assert_eq!(c.code.as_deref(), Some("123456"));
    assert_eq!(a.incoming_pair_panel(), None);
    a.handle_recv_msg(
        RecvMsg::PairPrompt { name: "lap.local".to_string(), code: "654321".to_string() },
        0,
    );
    let shown = ("lap wants to connect.".to_string(), "654321".to_string());
    assert_eq!(a.incoming_pair_panel(), Some(shown));
}

#[test]
fn the_transfer_screen_shows_what_goes_on() {
    let wifi = vec![link("w", LinkKind::WiFi, vec![IpAddr::V4(9)])];
    let how = via_info(&wifi, &vec![], IpAddr::V4(1), Some(IpAddr::V4(9)));
    let mut a = app("me");
    paired(&mut a);
    a.speed = SpeedState::Testing;
    let s = a.transfer_screen(&how).unwrap();
    assert_eq!((s.connected.as_str(), s.over.as_str()), ("Connected to p", "over Wi-Fi"));
    assert!(s.measuring && s.speed.is_none() && s.suggests_cable && !s.interrupted);
    assert_eq!((s.button, s.can_send, s.tone), ("Send", false, Tone::Wireless));
    assert!(s.lines.is_empty() && s.incoming.is_none());
    a.on_speed(Some("· 900 Mbit/s".to_string()));
    a.add_path(0, "f".to_string(), false, None);
    assert!(a.transfer_screen(&how).unwrap().can_send);
    assert!(a.start_send(None).is_some());
    let s = a.transfer_screen(&how).unwrap();
    assert!(!s.measuring && !s.can_send);
    assert_eq!((s.speed.as_deref(), s.button), (Some("· 900 Mbit/s"), "Sending…"));
    a.on_send_error("gone");
    let s = a.transfer_screen(&how).unwrap();
    assert!(s.interrupted && s.can_send);
    assert_eq!(s.lines, vec!["✗ gone"]);
}

#[test]
fn small_texts() {
    assert_eq!(progress_text(512, 2048), "512 B / 2.0 KB");
    assert_eq!(typed_address("  "), Err("enter an address first".to_string()));
    assert_eq!(typed_address(" host "), Ok("host".to_string()));
    assert_eq!(unresolved("host"), "cannot resolve \"host\"");
    let parts = |list: &[&str]| list.iter().map(|s| s.to_string()).collect::<Vec<String>>();
    let home = Some(parts(&["/", "home", "a"]));
    let deep = parts(&["/", "home", "a", "x", "y"]);
    assert_eq!(tilde("/home/a/x/y".to_string(), &deep, &home, "/"), "~/x/y");
    let near = parts(&["/", "home", "ab"]);
    assert_eq!(tilde("/home/ab".to_string(), &near, &home, "/"), "/home/ab");
    assert_eq!(tilde("/home".to_string(), &parts(&["/", "home"]), &home, "/"), "/home");
    assert_eq!(tilde("/home/a".to_string(), &parts(&["/", "home", "a"]), &home, "/"), "~/");
    assert_eq!(tilde("/home/a/x/y".to_string(), &deep, &None, "/"), "/home/a/x/y");
    assert_eq!(parts_below(&deep, &parts(&["/", "home", "a"])), Some(parts(&["x", "y"])));
    assert_eq!(parts_below(&near, &deep), None);
}

#[test]
fn folders_can_be_too_big_to_size() {
    let mut f = FolderSize { total: 0, visited: 0 };
    assert!(f.visit(Some(10)));
    assert!(f.visit(None));
    assert!(f.visit(Some(5)));
    assert_eq!(f.total, 15);
    f.visited = MAX_ENTRIES - 1;
    assert!(f.visit(Some(1)));
    assert!(!f.visit(Some(1)));
    assert_eq!(f.total, 16);
}
