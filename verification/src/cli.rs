//! What the command-line program says and chooses.

use vstd::prelude::*;

use crate::address::{addr_text, show_addr};
use crate::discovery::Peer;
use crate::link::{
    cable_line, ip_texts, leaves, link_line, recommended_streams, show_ips, streams_for,
    Link, LinkKind,
};
use crate::net::SocketAddr;
use crate::order::{first_such, lemma_first_such, lemma_is_first};
use crate::protocol::DEFAULT_PORT;
use crate::text::{
    add_line, dec, dec_u64, digits_value, is_digit, join_texts, joined, no_lines, same, split,
    split_text, texts, to_chars, trim, trimmed,
};
use crate::transfer::events::{Event, EventView};
use crate::transfer::sender::{results, FileResult, ResultView, SendReport};
use crate::util::{human_bytes, shown_bytes};

verus! {

// ---- caybul links ----

/// The lines of the links, each with its cable below it.
pub open spec fn listing(links: Seq<Link>) -> Seq<Seq<char>>
    decreases links.len(),
{
    if links.len() == 0 {
        Seq::empty()
    } else {
        let with_link = listing(links.drop_last()).push("  "@ + link_line(links.last()@));
        match cable_line(links.last()@.cable) {
            Some(c) => with_link.push("             "@ + c),
            None => with_link,
        }
    }
}

/// What is said of the best link that leaves the machine.
pub open spec fn best_lines(best: Option<Link>) -> Seq<Seq<char>> {
    match best {
        Some(l) => match l.kind {
            LinkKind::ThunderboltOrUsb4 => seq![
                "Best path: "@ + l.kind.named() + " — "@ + (match cable_line(l@.cable) {
                    Some(c) => c,
                    None => "cable details unavailable"@,
                }),
                "Recommended streams: "@ + dec(streams_for(l.kind) as nat),
            ],
            LinkKind::UsbLink => seq![
                "Best path: "@ + l.kind.named() + " ("@ + l.display@ + ")"@,
                "A direct USB-C data link to the other machine is up — transfers\nwill work over it. A Thunderbolt/USB4 cable would be faster."@,
            ],
            _ => seq![
                "Best path: "@ + l.kind.named() + " ("@ + l.display@ + ")"@,
                "No Thunderbolt/USB4 host-to-host link detected. For the fastest\ntransfer, connect the two machines with a Thunderbolt/USB4 cable\n(both OSes will bring up a network bridge automatically), or use\na direct Ethernet cable."@,
            ],
        },
        None => seq!["No usable link found. Connect a cable and re-run."@],
    }
}

/// The first link that `p` holds of.
pub open spec fn pick(links: Seq<Link>, p: spec_fn(Link) -> bool) -> Option<Link> {
    match first_such(links, p) {
        Some(i) => Some(links[i]),
        None => None,
    }
}

fn list_links(links: &Vec<Link>, out: &mut Vec<String>)
    ensures
        texts(final(out)@) == texts(old(out)@) + listing(links@),
{
    let ghost start = texts(out@);
    let mut i: usize = 0;
    assert(links@.take(0) =~= Seq::<Link>::empty());
    assert(start + Seq::<Seq<char>>::empty() =~= start);
    while i < links.len()
        invariant
            i <= links@.len(),
            texts(out@) == start + listing(links@.take(i as int)),
        decreases links@.len() - i,
    {
        assert(links@.take(i + 1).drop_last() =~= links@.take(i as int));
        assert(links@.take(i + 1).last() == links@[i as int]);
        let mut s = "  ".to_string();
        s.append(links[i].summary().as_str());
        add_line(out, s);
        match links[i].cable_summary() {
            Some(c) => {
                let mut t = "             ".to_string();
                t.append(c.as_str());
                add_line(out, t);
            },
            None => {},
        }
        assert(texts(out@) =~= start + listing(links@.take(i + 1)));
        i = i + 1;
    }
    assert(links@.take(links@.len() as int) =~= links@);
}

fn best_path(l: &Link) -> (r: String)
    ensures
        r@ == "Best path: "@ + l.kind.named() + " ("@ + l.display@ + ")"@,
{
    let mut s = "Best path: ".to_string();
    s.append(l.kind.label());
    s.append(" (");
    s.append(l.display.as_str());
    s.append(")");
    s
}

fn say_best(best: Option<&Link>, out: &mut Vec<String>)
    ensures
        texts(final(out)@) == texts(old(out)@) + best_lines(
            match best {
                Some(l) => Some(*l),
                None => None,
            },
        ),
{
    let ghost start = texts(out@);
    match best {
        Some(l) => match l.kind {
            LinkKind::ThunderboltOrUsb4 => {
                let mut s = "Best path: ".to_string();
                s.append(l.kind.label());
                s.append(" — ");
                match l.cable_summary() {
                    Some(c) => {
                        s.append(c.as_str());
                    },
                    None => {
                        s.append("cable details unavailable");
                    },
                }
                add_line(out, s);
                let mut t = "Recommended streams: ".to_string();
                t.append(dec_u64(recommended_streams(l.kind) as u64).as_str());
                add_line(out, t);
            },
            LinkKind::UsbLink => {
                add_line(out, best_path(l));
                add_line(
                    out,
                    "A direct USB-C data link to the other machine is up — transfers\nwill work over it. A Thunderbolt/USB4 cable would be faster.".to_string(),
                );
            },
            _ => {
                add_line(out, best_path(l));
                add_line(
                    out,
                    "No Thunderbolt/USB4 host-to-host link detected. For the fastest\ntransfer, connect the two machines with a Thunderbolt/USB4 cable\n(both OSes will bring up a network bridge automatically), or use\na direct Ethernet cable.".to_string(),
                );
            },
        },
        None => {
            add_line(out, "No usable link found. Connect a cable and re-run.".to_string());
        },
    }
    assert(texts(out@) =~= start + best_lines(
        match best {
            Some(l) => Some(*l),
            None => None,
        },
    ));
}

/// The report on the links of the machine, which come best first.
pub open spec fn links_text(links: Seq<Link>) -> Seq<Seq<char>> {
    if links.len() == 0 {
        seq!["No network-capable links detected."@]
    } else {
        seq!["Detected links (best first):\n"@] + listing(links) + seq![""@] + best_lines(
            pick(links, leaves()),
        )
    }
}

/// The report on the links of the machine, which come best first.
pub fn links_report(links: &Vec<Link>) -> (r: Vec<String>)
    ensures
        texts(r@) == links_text(links@),
{
    let mut out = no_lines();
    if links.len() == 0 {
        add_line(&mut out, "No network-capable links detected.".to_string());
        assert(texts(out@) =~= links_text(links@));
        return out;
    }
    add_line(&mut out, "Detected links (best first):\n".to_string());
    assert(texts(out@) =~= seq!["Detected links (best first):\n"@]);
    list_links(links, &mut out);
    add_line(&mut out, "".to_string());
    assert(texts(out@) =~= seq!["Detected links (best first):\n"@] + listing(links@) + seq![""@]);
    let mut best: Option<&Link> = None;
    let mut i: usize = 0;
    while i < links.len()
        invariant
            i <= links@.len(),
            best is None ==> forall|j: int| 0 <= j < i ==> !leaves()(#[trigger] links@[j]),
            best matches Some(l) ==> pick(links@, leaves()) == Some(*l),
        decreases links@.len() - i,
    {
        if best.is_none() && links[i].kind != LinkKind::Loopback {
            proof {
                lemma_is_first(links@, leaves(), i as int);
            }
            best = Some(&links[i]);
        }
        i = i + 1;
    }
    proof {
        lemma_first_such(links@, leaves());
    }
    say_best(best, &mut out);
    out
}

// ---- the banner ----

/// Links that lead to other machines.
pub open spec fn leads_out() -> spec_fn(Link) -> bool {
    |l: Link| l.kind != LinkKind::Loopback && l.kind != LinkKind::Vpn
}

/// The banner for a link.
pub open spec fn banner_of(l: Link) -> Seq<Seq<char>> {
    let first = seq!["Link: "@ + l.kind.named() + " ("@ + l.display@ + ")"@];
    let second = match cable_line(l@.cable) {
        Some(c) => first.push("      "@ + c),
        None => first,
    };
    if ip_texts(l.ips@, true).len() > 0 {
        second.push("      this machine: "@ + joined(ip_texts(l.ips@, true), ", "@))
    } else {
        second
    }
}

/// The banner at the start: the first link that leads to other machines.
pub open spec fn banner(links: Seq<Link>) -> Seq<Seq<char>> {
    match first_such(links, leads_out()) {
        Some(i) => banner_of(links[i]),
        None => seq!["Link: none detected yet — plug in a cable."@],
    }
}

fn say_banner(l: &Link) -> (r: Vec<String>)
    ensures
        texts(r@) == banner_of(*l),
{
    let mut out = no_lines();
    let mut s = "Link: ".to_string();
    s.append(l.kind.label());
    s.append(" (");
    s.append(l.display.as_str());
    s.append(")");
    add_line(&mut out, s);
    assert(texts(out@) =~= seq!["Link: "@ + l.kind.named() + " ("@ + l.display@ + ")"@]);
    match l.cable_summary() {
        Some(c) => {
            let mut t = "      ".to_string();
            t.append(c.as_str());
            add_line(&mut out, t);
        },
        None => {},
    }
    let v4 = show_ips(&l.ips, true);
    if v4.len() > 0 {
        let mut t = "      this machine: ".to_string();
        t.append(join_texts(&v4, ", ").as_str());
        add_line(&mut out, t);
    }
    out
}

/// The banner at the start.
pub fn print_link_banner(links: &Vec<Link>) -> (r: Vec<String>)
    ensures
        texts(r@) == banner(links@),
{
    let mut i: usize = 0;
    while i < links.len()
        invariant
            i <= links@.len(),
            forall|j: int| 0 <= j < i ==> !leads_out()(#[trigger] links@[j]),
        decreases links@.len() - i,
    {
        if links[i].kind != LinkKind::Loopback && links[i].kind != LinkKind::Vpn {
            proof {
                lemma_is_first(links@, leads_out(), i as int);
            }
            return say_banner(&links[i]);
        }
        i = i + 1;
    }
    proof {
        lemma_first_such(links@, leads_out());
    }
    let mut out = no_lines();
    add_line(&mut out, "Link: none detected yet — plug in a cable.".to_string());
    assert(texts(out@) =~= banner(links@));
    out
}

// ---- caybul receive ----

/// Answers that accept a pairing.
pub open spec fn is_yes(answer: Seq<char>) -> bool {
    answer == "y"@ || answer == "Y"@ || answer == "yes"@
}

/// True when the user's line accepts the pairing.
pub fn accepts(line: &str) -> (r: bool)
    ensures
        r == is_yes(trimmed(line@)),
{
    let answer = trim(line);
    same(answer.as_str(), "y") || same(answer.as_str(), "Y") || same(answer.as_str(), "yes")
}

/// What is said of an event.
pub open spec fn event_text(ev: EventView) -> Seq<Seq<char>> {
    match ev {
        EventView::Listening { port, name } => seq![
            "Ready. Announcing as \""@ + name + "\" on port "@ + dec(port as nat) + "."@,
            "On the other machine, run:  caybul send <files>\n"@,
        ],
        EventView::Paired { peer_name, .. } => seq![
            "Paired with \""@ + peer_name + "\". They can now send to this device.\n"@,
        ],
        EventView::Unpaired => seq!["The paired device disconnected.\n"@],
        EventView::SessionStarted { sender, files, total_bytes, resumed_bytes } => {
            let start = "Incoming from "@ + sender + ": "@ + dec(files as nat) + " file(s), "@
                + shown_bytes(total_bytes as int);
            if resumed_bytes > 0 {
                seq![start + " (resuming, "@ + shown_bytes(resumed_bytes as int)
                    + " already here)"@]
            } else {
                seq![start]
            }
        },
        EventView::FileCompleted { rel_path, bytes } => seq![
            "  received "@ + rel_path + " ("@ + shown_bytes(bytes as int) + ")"@,
        ],
        EventView::Progress { .. } => Seq::empty(),
        EventView::SessionEnded { ok, message } => seq![
            (if ok {
                "Done: "@
            } else {
                "Note: "@
            }) + message + "\n"@,
        ],
    }
}

/// What is said of an event.
pub fn event_lines(ev: &Event) -> (r: Vec<String>)
    ensures
        texts(r@) == event_text(ev@),
{
    let mut out = no_lines();
    match ev {
        Event::Listening { port, name } => {
            let mut s = "Ready. Announcing as \"".to_string();
            s.append(name.as_str());
            s.append("\" on port ");
            s.append(dec_u64(*port as u64).as_str());
            s.append(".");
            add_line(&mut out, s);
            add_line(&mut out, "On the other machine, run:  caybul send <files>\n".to_string());
        },
        Event::Paired { peer_name, .. } => {
            let mut s = "Paired with \"".to_string();
            s.append(peer_name.as_str());
            s.append("\". They can now send to this device.\n");
            add_line(&mut out, s);
        },
        Event::Unpaired => {
            add_line(&mut out, "The paired device disconnected.\n".to_string());
        },
        Event::SessionStarted { sender, files, total_bytes, resumed_bytes } => {
            let mut s = "Incoming from ".to_string();
            s.append(sender.as_str());
            s.append(": ");
            s.append(dec_u64(*files as u64).as_str());
            s.append(" file(s), ");
            s.append(human_bytes(*total_bytes).as_str());
            if *resumed_bytes > 0 {
                s.append(" (resuming, ");
                s.append(human_bytes(*resumed_bytes).as_str());
                s.append(" already here)");
            }
            add_line(&mut out, s);
        },
        Event::FileCompleted { rel_path, bytes } => {
            let mut s = "  received ".to_string();
            s.append(rel_path.as_str());
            s.append(" (");
            s.append(human_bytes(*bytes).as_str());
            s.append(")");
            add_line(&mut out, s);
        },
        Event::Progress { .. } => {},
        Event::SessionEnded { ok, message } => {
            let mut s = if *ok {
                "Done: ".to_string()
            } else {
                "Note: ".to_string()
            };
            s.append(message.as_str());
            s.append("\n");
            add_line(&mut out, s);
        },
    }
    assert(texts(out@) =~= event_text(ev@));
    out
}

// ---- caybul send ----

/// A receiver that was heard, and the kind of link to it where one is known.
#[derive(Debug)]
pub struct Found {
    pub peer: Peer,
    pub via: Option<LinkKind>,
}

/// How a receiver reads in a list.
pub open spec fn found_text(f: Found) -> Seq<char> {
    f.peer.name@ + " ("@ + f.peer.os@ + ") at "@ + addr_text(f.peer.addr) + match f.via {
        Some(kind) => " via "@ + kind.named(),
        None => Seq::empty(),
    }
}

/// Which receiver to send to.
#[derive(Debug)]
pub enum Choice {
    /// The only one there is, and what to say of it.
    One { addr: SocketAddr, line: String },
    /// The user has to choose; what to say, and why it ends here.
    Unclear { lines: Vec<String>, error: String },
}

/// The lines of receivers.
pub open spec fn found_lines(found: Seq<Found>) -> Seq<Seq<char>>
    decreases found.len(),
{
    if found.len() == 0 {
        Seq::empty()
    } else {
        found_lines(found.drop_last()).push("  "@ + found_text(found.last()))
    }
}

fn say_found(prefix: &str, name_end: &str, f: &Found) -> (r: String)
    ensures
        r@ == prefix@ + f.peer.name@ + name_end@ + " ("@ + f.peer.os@ + ") at "@ + addr_text(
            f.peer.addr,
        ) + match f.via {
            Some(kind) => " via "@ + kind.named(),
            None => Seq::empty(),
        },
{
    let mut s = prefix.to_string();
    s.append(f.peer.name.as_str());
    s.append(name_end);
    s.append(" (");
    s.append(f.peer.os.as_str());
    s.append(") at ");
    s.append(show_addr(f.peer.addr).as_str());
    let ghost before = s@;
    match f.via {
        Some(kind) => {
            let mut via = " via ".to_string();
            via.append(kind.label());
            s.append(via.as_str());
        },
        None => {
            assert(before + Seq::<char>::empty() =~= before);
        },
    }
    s
}

/// Chooses the receiver: the only one that was heard.
pub fn choose_receiver(found: &Vec<Found>) -> (r: Choice)
    ensures
        found@.len() == 0 ==> (r matches Choice::Unclear { lines, error } && lines@.len() == 0
            && error@
            == "no receiver found. Start `caybul receive` on the other machine, or pass --to <address> (shown in its startup banner)"@),
        found@.len() == 1 ==> (r matches Choice::One { addr, line } && addr == found@[0].peer.addr
            && line@ == "Found \""@ + found@[0].peer.name@ + "\""@ + " ("@ + found@[0].peer.os@
            + ") at "@ + addr_text(found@[0].peer.addr) + match found@[0].via {
            Some(kind) => " via "@ + kind.named(),
            None => Seq::empty(),
        }),
        found@.len() > 1 ==> (r matches Choice::Unclear { lines, error } && texts(lines@) == seq![
            "Multiple receivers found (a device shows once per path — prefer the cable one):"@,
        ] + found_lines(found@) && error@ == "pass --to <address> to choose one"@),
{
    if found.len() == 0 {
        return Choice::Unclear {
            lines: no_lines(),
            error: "no receiver found. Start `caybul receive` on the other machine, or pass --to <address> (shown in its startup banner)".to_string(),
        };
    }
    if found.len() == 1 {
        let line = say_found("Found \"", "\"", &found[0]);
        return Choice::One { addr: found[0].peer.addr, line };
    }
    let mut lines = no_lines();
    let ghost head = seq![
        "Multiple receivers found (a device shows once per path — prefer the cable one):"@,
    ];
    add_line(
        &mut lines,
        "Multiple receivers found (a device shows once per path — prefer the cable one):".to_string(),
    );
    let mut i: usize = 0;
    assert(found@.take(0) =~= Seq::<Found>::empty());
    assert(texts(lines@) =~= head + found_lines(found@.take(0)));
    while i < found.len()
        invariant
            i <= found@.len(),
            texts(lines@) == head + found_lines(found@.take(i as int)),
        decreases found@.len() - i,
    {
        assert(found@.take(i + 1).drop_last() =~= found@.take(i as int));
        assert(found@.take(i + 1).last() == found@[i as int]);
        let line = say_found("  ", "", &found[i]);
        assert(line@ =~= "  "@ + found_text(found@[i as int])) by {
            assert(""@ =~= Seq::<char>::empty()) by {
                reveal_strlit("");
            }
        }
        add_line(&mut lines, line);
        assert(texts(lines@) =~= head + found_lines(found@.take(i + 1)));
        i = i + 1;
    }
    assert(found@.take(found@.len() as int) =~= found@);
    Choice::Unclear { lines, error: "pass --to <address> to choose one".to_string() }
}

/// Chooses the receiver of a speed test: the first that was heard.
pub fn first_receiver(peers: &Vec<Peer>) -> (r: Result<(SocketAddr, String), String>)
    ensures
        peers@.len() == 0 ==> (r matches Err(e) && e@
            == "no receiver found; pass --to <address>"@),
        peers@.len() > 0 ==> (r matches Ok(p) && p.0 == peers@[0].addr && p.1@ == "Found \""@
            + peers@[0].name@ + "\" at "@ + addr_text(peers@[0].addr)),
{
    if peers.len() == 0 {
        return Err("no receiver found; pass --to <address>".to_string());
    }
    let mut s = "Found \"".to_string();
    s.append(peers[0].name.as_str());
    s.append("\" at ");
    s.append(show_addr(peers[0].addr).as_str());
    Ok((peers[0].addr, s))
}

/// How long to listen for receivers, in seconds: one at the least.
pub fn listen_time(wait: u64) -> (r: u64)
    ensures
        r == if wait < 1 {
            1
        } else {
            wait
        },
{
    if wait < 1 {
        1
    } else {
        wait
    }
}

/// What is said of the route.
pub open spec fn route_text(route: Option<Link>) -> Seq<Seq<char>> {
    match route {
        Some(l) => {
            let line = "Route: "@ + l.kind.named() + " ("@ + l.display@ + ")"@;
            if l.kind is WiFi {
                seq![
                    line,
                    "⚠ This is Wi-Fi, not a cable — connect the machines directly for full speed."@,
                ]
            } else {
                seq![line]
            }
        },
        None => Seq::empty(),
    }
}

/// Tells which physical path the transfer will take.
pub fn route_lines(route: Option<&Link>) -> (r: Vec<String>)
    ensures
        texts(r@) == route_text(
            match route {
                Some(l) => Some(*l),
                None => None,
            },
        ),
{
    let mut out = no_lines();
    if let Some(l) = route {
        let mut s = "Route: ".to_string();
        s.append(l.kind.label());
        s.append(" (");
        s.append(l.display.as_str());
        s.append(")");
        add_line(&mut out, s);
        if l.kind == LinkKind::WiFi {
            add_line(
                &mut out,
                "⚠ This is Wi-Fi, not a cable — connect the machines directly for full speed.".to_string(),
            );
        }
    }
    assert(texts(out@) =~= route_text(
        match route {
            Some(l) => Some(*l),
            None => None,
        },
    ));
    out
}

/// How many streams to use: what was asked for, or what suits the link, or four
/// where no link is known.
pub fn choose_streams(asked: Option<u32>, via: Option<LinkKind>) -> (r: u32)
    ensures
        r == match asked {
            Some(n) => n,
            None => match via {
                Some(kind) => streams_for(kind),
                None => 4,
            },
        },
{
    match asked {
        Some(n) => n,
        None => match via {
            Some(kind) => recommended_streams(kind),
            None => 4,
        },
    }
}

/// A number that a port can have.
pub open spec fn is_port(s: Seq<char>) -> bool {
    &&& s.len() > 0
    &&& forall|i: int| 0 <= i < s.len() ==> is_digit(#[trigger] s[i])
    &&& digits_value(s) <= u16::MAX
}

/// A target that names its port: a host, a colon and the number of the port. A host
/// with colons of its own, an IPv6 address, stands in brackets then.
pub open spec fn has_port(target: Seq<char>) -> bool {
    let parts = split(target, ':');
    let n = parts.len() as int;
    &&& n >= 2
    &&& is_port(parts[n - 1])
    &&& parts[0].len() > 0
    &&& n > 2 ==> parts[0][0] == '[' && parts[n - 2].len() > 0 && parts[n - 2].last() == ']'
}

fn port_number(s: &str) -> (r: bool)
    ensures
        r == is_port(s@),
{
    let chars = to_chars(s);
    if chars.len() == 0 {
        return false;
    }
    let mut value: u32 = 0;
    let mut i: usize = 0;
    assert(s@.take(0) =~= Seq::<char>::empty());
    while i < chars.len()
        invariant
            i <= chars@.len(),
            chars@ == s@,
            value == digits_value(s@.take(i as int)),
            value <= u16::MAX,
            forall|j: int| 0 <= j < i ==> is_digit(#[trigger] s@[j]),
        decreases chars@.len() - i,
    {
        let c = chars[i];
        if !('0' <= c && c <= '9') {
            assert(!is_digit(s@[i as int]));
            return false;
        }
        proof {
            assert(s@.take(i + 1).drop_last() =~= s@.take(i as int));
            assert(s@.take(i + 1).last() == c);
            crate::text::lemma_value_grows(s@, i + 1);
        }
        value = value * 10 + (c as u8 - 48u8) as u32;
        if value > u16::MAX as u32 {
            return false;
        }
        i = i + 1;
    }
    assert(s@.take(s@.len() as int) =~= s@);
    true
}

/// True when the target names its port.
pub fn names_port(target: &str) -> (r: bool)
    ensures
        r == has_port(target@),
{
    let parts = split_text(target, ':');
    let ghost all = split(target@, ':');
    let n: usize = parts.len();
    if n < 2 {
        return false;
    }
    assert(all[n - 1] == parts@[n - 1]@);
    assert(all[n - 2] == parts@[n - 2]@);
    assert(all[0] == parts@[0]@);
    if !port_number(parts[n - 1].as_str()) {
        return false;
    }
    let first = to_chars(parts[0].as_str());
    if first.len() == 0 {
        return false;
    }
    if n > 2 {
        let last = to_chars(parts[n - 2].as_str());
        return first[0] == '[' && last.len() > 0 && last[last.len() - 1] == ']';
    }
    true
}

/// The text of a target with its port: the one that it names, or else the one that
/// receivers use.
pub fn with_default_port(target: &str) -> (r: String)
    ensures
        r@ == if has_port(target@) {
            target@
        } else {
            target@ + ":"@ + dec(DEFAULT_PORT as nat)
        },
{
    let mut s = target.to_string();
    if names_port(target) {
        return s;
    }
    s.append(":");
    s.append(dec_u64(DEFAULT_PORT as u64).as_str());
    s
}

/// The line of a file in the report.
pub open spec fn result_line(f: ResultView) -> Seq<char> {
    "  "@ + (if f.ok {
        "✓"@
    } else {
        "✗"@
    }) + " "@ + f.rel_path + " — "@ + f.message
}

/// The report on a transfer. How long it took and how fast it was are texts.
pub open spec fn report_text(
    receiver: Seq<char>,
    files: Seq<ResultView>,
    sent: u64,
    skipped: u64,
    elapsed: Seq<char>,
    rate: Seq<char>,
) -> Seq<Seq<char>> {
    let head = seq!["\nTransfer to \""@ + receiver + "\" finished:"@] + files.map_values(
        |f: ResultView| result_line(f),
    );
    let mid = if skipped > 0 {
        head.push(
            "  ("@ + shown_bytes(skipped as int)
                + " skipped — already on the receiver from an earlier run)"@,
        )
    } else {
        head
    };
    mid.push("  "@ + shown_bytes(sent as int) + " in "@ + elapsed + " — "@ + rate + " Mbit/s"@)
}

fn say_result(f: &FileResult) -> (r: String)
    ensures
        r@ == result_line(f@),
{
    let mut s = "  ".to_string();
    if f.ok {
        s.append("✓");
    } else {
        s.append("✗");
    }
    s.append(" ");
    s.append(f.rel_path.as_str());
    s.append(" — ");
    s.append(f.message.as_str());
    s
}

/// The report on a transfer.
pub fn report_lines(report: &SendReport, elapsed: &str, rate: &str) -> (r: Vec<String>)
    ensures
        texts(r@) == report_text(
            report.receiver_name@,
            results(report.files@),
            report.bytes_sent,
            report.bytes_skipped,
            elapsed@,
            rate@,
        ),
{
    let mut out = no_lines();
    let mut s = "\nTransfer to \"".to_string();
    s.append(report.receiver_name.as_str());
    s.append("\" finished:");
    let ghost head = seq![s@];
    add_line(&mut out, s);
    let ghost files = results(report.files@).map_values(|f: ResultView| result_line(f));
    let mut i: usize = 0;
    assert(texts(out@) =~= head + files.take(0));
    while i < report.files.len()
        invariant
            i <= report.files@.len(),
            files == results(report.files@).map_values(|f: ResultView| result_line(f)),
            texts(out@) == head + files.take(i as int),
        decreases report.files@.len() - i,
    {
        let line = say_result(&report.files[i]);
        add_line(&mut out, line);
        assert(texts(out@) =~= head + files.take(i + 1));
        i = i + 1;
    }
    assert(files.take(files.len() as int) =~= files);
    if report.bytes_skipped > 0 {
        let mut t = "  (".to_string();
        t.append(human_bytes(report.bytes_skipped).as_str());
        t.append(" skipped — already on the receiver from an earlier run)");
        add_line(&mut out, t);
    }
    let mut t = "  ".to_string();
    t.append(human_bytes(report.bytes_sent).as_str());
    t.append(" in ");
    t.append(elapsed);
    t.append(" — ");
    t.append(rate);
    t.append(" Mbit/s");
    add_line(&mut out, t);
    out
}

/// How the program ends after a transfer.
pub fn verdict_on(report: &SendReport) -> (r: Result<(), String>)
    ensures
        r is Ok <==> forall|i: int| 0 <= i < report.files@.len() ==> (#[trigger] report.files@[i]).ok,
        r matches Err(e) ==> e@ == "some files did not complete"@,
{
    if report.all_ok() {
        Ok(())
    } else {
        Err("some files did not complete".to_string())
    }
}

} // verus!
