//! What the commands print, and what they take for an address.

use vstd::prelude::*;

use crate::address::addr_text;
use crate::cli::{
    banner, banner_of, best_lines, event_text, found_lines, found_text, has_port, is_port, is_yes,
    leads_out, links_text, listing, pick, report_text, result_line, route_text, Found,
};
use crate::laws::screens::{lemma_split_head, lemma_split_without};
use crate::link::{cable_line, ip_texts, leaves, link_line, Link, LinkKind};
use crate::order::{first_such, lemma_first_such, lemma_is_first};
use crate::text::{dec, digits_value, is_digit, joined, lemma_dec_value, split};
use crate::transfer::events::EventView;
use crate::transfer::sender::ResultView;
use crate::util::shown_bytes;

verus! {

// ---- links ----

/// The lines of one link: how it reads, and below it what is known of its cable.
pub open spec fn lines_of(l: Link) -> Seq<Seq<char>> {
    match cable_line(l@.cable) {
        Some(c) => seq!["  "@ + link_line(l@), "             "@ + c],
        None => seq!["  "@ + link_line(l@)],
    }
}

/// Links are listed one behind the other, none left out.
pub proof fn lemma_listing(links: Seq<Link>, l: Link)
    ensures
        listing(Seq::empty()).len() == 0,
        listing(links.push(l)) == listing(links) + lines_of(l),
        listing(links).len() >= links.len(),
    decreases links.len(),
{
    assert(links.push(l).drop_last() =~= links);
    assert(listing(links.push(l)) =~= listing(links) + lines_of(l));
    if links.len() > 0 {
        lemma_listing(links.drop_last(), links.last());
        assert(links.drop_last().push(links.last()) =~= links);
    }
}

/// The first link that passes is picked, and none exactly when none passes.
pub proof fn lemma_pick(links: Seq<Link>, test: spec_fn(Link) -> bool, k: int)
    ensures
        0 <= k < links.len() && test(links[k]) && (forall|j: int|
            0 <= j < k ==> !test(#[trigger] links[j])) ==> pick(links, test) == Some(links[k]),
        pick(links, test) is None <==> forall|j: int|
            0 <= j < links.len() ==> !test(#[trigger] links[j]),
{
    lemma_first_such(links, test);
    if 0 <= k < links.len() && test(links[k]) && (forall|j: int|
        0 <= j < k ==> !test(#[trigger] links[j])) {
        lemma_is_first(links, test, k);
    }
}

/// The report on links lists them and names the best path: the first that is not the
/// loopback. It says so where there is none.
pub proof fn lemma_links_text(links: Seq<Link>, k: int)
    ensures
        links.len() == 0 ==> links_text(links) == seq!["No network-capable links detected."@],
        0 <= k < links.len() && links[k].kind != LinkKind::Loopback && (forall|j: int|
            0 <= j < k ==> (#[trigger] links[j]).kind == LinkKind::Loopback) ==> links_text(links)
            == seq!["Detected links (best first):\n"@] + listing(links) + seq![""@] + best_lines(
            Some(links[k]),
        ),
        links.len() > 0 && (forall|j: int|
            0 <= j < links.len() ==> (#[trigger] links[j]).kind == LinkKind::Loopback)
            ==> links_text(links) == seq!["Detected links (best first):\n"@] + listing(links)
            + seq![""@] + seq!["No usable link found. Connect a cable and re-run."@],
{
    lemma_first_such(links, leaves());
    if 0 <= k < links.len() && links[k].kind != LinkKind::Loopback && (forall|j: int|
        0 <= j < k ==> (#[trigger] links[j]).kind == LinkKind::Loopback) {
        lemma_is_first(links, leaves(), k);
    }
    if first_such(links, leaves()) is Some {
        assert(leaves()(links[first_such(links, leaves())->0]));
    }
}

/// What is said of the best path. Only Thunderbolt is told with its cable and its
/// streams; of every other link it is said that a Thunderbolt cable would be faster.
pub proof fn lemma_best_lines(l: Link)
    ensures
        best_lines(Some(l)).len() == 2,
        l.kind == LinkKind::ThunderboltOrUsb4 ==> {
            &&& cable_line(l@.cable) is Some ==> best_lines(Some(l))[0] == "Best path: "@
                + l.kind.named() + " — "@ + cable_line(l@.cable)->0
            &&& cable_line(l@.cable) is None ==> best_lines(Some(l))[0] == "Best path: "@
                + l.kind.named() + " — "@ + "cable details unavailable"@
            &&& best_lines(Some(l))[1] == "Recommended streams: "@ + dec(8)
        },
        l.kind != LinkKind::ThunderboltOrUsb4 ==> best_lines(Some(l))[0] == "Best path: "@
            + l.kind.named() + " ("@ + l.display@ + ")"@,
        l.kind == LinkKind::UsbLink ==> best_lines(Some(l))[1]
            == "A direct USB-C data link to the other machine is up — transfers\nwill work over it. A Thunderbolt/USB4 cable would be faster."@,
        l.kind != LinkKind::ThunderboltOrUsb4 && l.kind != LinkKind::UsbLink ==> best_lines(
            Some(l),
        )[1]
            == "No Thunderbolt/USB4 host-to-host link detected. For the fastest\ntransfer, connect the two machines with a Thunderbolt/USB4 cable\n(both OSes will bring up a network bridge automatically), or use\na direct Ethernet cable."@,
{
}

/// The banner is that of the first link that is neither the loopback nor a tunnel.
pub proof fn lemma_banner(links: Seq<Link>, k: int)
    ensures
        0 <= k < links.len() && links[k].kind != LinkKind::Loopback && links[k].kind
            != LinkKind::Vpn && (forall|j: int|
            0 <= j < k ==> (#[trigger] links[j]).kind == LinkKind::Loopback || links[j].kind
                == LinkKind::Vpn) ==> banner(links) == banner_of(links[k]),
        (forall|j: int|
            0 <= j < links.len() ==> (#[trigger] links[j]).kind == LinkKind::Loopback
                || links[j].kind == LinkKind::Vpn) ==> banner(links) == seq![
            "Link: none detected yet — plug in a cable."@,
        ],
{
    lemma_first_such(links, leads_out());
    if 0 <= k < links.len() && links[k].kind != LinkKind::Loopback && links[k].kind != LinkKind::Vpn
        && (forall|j: int|
        0 <= j < k ==> (#[trigger] links[j]).kind == LinkKind::Loopback || links[j].kind
            == LinkKind::Vpn) {
        lemma_is_first(links, leads_out(), k);
    }
    if first_such(links, leads_out()) is Some {
        assert(leads_out()(links[first_such(links, leads_out())->0]));
    }
}

/// A banner names the link, then its cable, where something is known of it, then the
/// addresses of this machine on it, where it has some.
pub proof fn lemma_banner_of(l: Link)
    ensures
        ({
            let b = banner_of(l);
            let cable: int = if cable_line(l@.cable) is Some {
                1
            } else {
                0
            };
            let ips: int = if ip_texts(l.ips@, true).len() > 0 {
                1
            } else {
                0
            };
            &&& b.len() == 1 + cable + ips
            &&& b[0] == "Link: "@ + l.kind.named() + " ("@ + l.display@ + ")"@
            &&& cable == 1 ==> b[1] == "      "@ + cable_line(l@.cable)->0
            &&& ips == 1 ==> b.last() == "      this machine: "@ + joined(
                ip_texts(l.ips@, true),
                ", "@,
            )
        }),
{
}

/// The route is told where there is one, with a warning exactly where it is Wi-Fi.
pub proof fn lemma_route_text(l: Link)
    ensures
        route_text(None).len() == 0,
        route_text(Some(l))[0] == "Route: "@ + l.kind.named() + " ("@ + l.display@ + ")"@,
        route_text(Some(l)).len() == 2 <==> l.kind == LinkKind::WiFi,
        route_text(Some(l)).len() == 1 <==> l.kind != LinkKind::WiFi,
        l.kind == LinkKind::WiFi ==> route_text(Some(l))[1]
            == "⚠ This is Wi-Fi, not a cable — connect the machines directly for full speed."@,
{
}

// ---- answers and events ----

/// Only these three answers are a yes; an empty one is not.
pub proof fn lemma_yes(answer: Seq<char>)
    ensures
        is_yes(answer) <==> answer == seq!['y'] || answer == seq!['Y'] || answer == seq![
            'y',
            'e',
            's',
        ],
{
    reveal_strlit("y");
    reveal_strlit("Y");
    reveal_strlit("yes");
    assert("y"@ =~= seq!['y']);
    assert("Y"@ =~= seq!['Y']);
    assert("yes"@ =~= seq!['y', 'e', 's']);
}

/// What is printed of each event. Progress prints nothing; a transfer that goes on
/// from an earlier one says how much is there already, and only such a one does.
pub proof fn lemma_event_text(ev: EventView)
    ensures
        ev is Progress <==> event_text(ev).len() == 0,
        ev matches EventView::Listening { port, name } ==> event_text(ev) == seq![
            "Ready. Announcing as \""@ + name + "\" on port "@ + dec(port as nat) + "."@,
            "On the other machine, run:  caybul send <files>\n"@,
        ],
        ev matches EventView::Paired { peer_name, .. } ==> event_text(ev) == seq![
            "Paired with \""@ + peer_name + "\". They can now send to this device.\n"@,
        ],
        ev is Unpaired ==> event_text(ev) == seq!["The paired device disconnected.\n"@],
        ev matches EventView::SessionStarted { sender, files, total_bytes, resumed_bytes } ==> {
            let start = "Incoming from "@ + sender + ": "@ + dec(files as nat) + " file(s), "@
                + shown_bytes(total_bytes as int);
            &&& resumed_bytes == 0 ==> event_text(ev) == seq![start]
            &&& resumed_bytes > 0 ==> event_text(ev) == seq![
                start + " (resuming, "@ + shown_bytes(resumed_bytes as int) + " already here)"@,
            ]
        },
        ev matches EventView::FileCompleted { rel_path, bytes } ==> event_text(ev) == seq![
            "  received "@ + rel_path + " ("@ + shown_bytes(bytes as int) + ")"@,
        ],
        ev matches EventView::SessionEnded { ok, message } ==> {
            &&& ok ==> event_text(ev) == seq!["Done: "@ + message + "\n"@]
            &&& !ok ==> event_text(ev) == seq!["Note: "@ + message + "\n"@]
        },
{
}

/// The report on a transfer: a line for each file, with a tick exactly where it went
/// well; what was skipped, where there is any; how much was sent and how fast.
pub proof fn lemma_report_text(
    receiver: Seq<char>,
    files: Seq<ResultView>,
    sent: u64,
    skipped: u64,
    elapsed: Seq<char>,
    rate: Seq<char>,
    i: int,
)
    ensures
        ({
            let lines = report_text(receiver, files, sent, skipped, elapsed, rate);
            &&& lines[0] == "\nTransfer to \""@ + receiver + "\" finished:"@
            &&& skipped == 0 ==> lines.len() == files.len() + 2
            &&& skipped > 0 ==> lines.len() == files.len() + 3 && lines[files.len() as int + 1] == "  ("@
                + shown_bytes(skipped as int)
                + " skipped — already on the receiver from an earlier run)"@
            &&& lines.last() == "  "@ + shown_bytes(sent as int) + " in "@ + elapsed + " — "@ + rate
                + " Mbit/s"@
            &&& 0 <= i < files.len() && files[i].ok ==> lines[i + 1] == "  "@ + "✓"@ + " "@
                + files[i].rel_path + " — "@ + files[i].message
            &&& 0 <= i < files.len() && !files[i].ok ==> lines[i + 1] == "  "@ + "✗"@ + " "@
                + files[i].rel_path + " — "@ + files[i].message
        }),
{
    if 0 <= i < files.len() {
        let lines = report_text(receiver, files, sent, skipped, elapsed, rate);
        assert(lines[i + 1] == result_line(files[i]));
    }
}

// ---- receivers ----

/// A receiver reads as its name, its system and its address, and the link that leads
/// to it where that is known; each that was found has a line of its own, in order.
pub proof fn lemma_found(found: Seq<Found>, f: Found)
    ensures
        f.via is None ==> found_text(f) == f.peer.name@ + " ("@ + f.peer.os@ + ") at "@ + addr_text(
            f.peer.addr,
        ),
        f.via matches Some(kind) ==> found_text(f) == f.peer.name@ + " ("@ + f.peer.os@ + ") at "@
            + addr_text(f.peer.addr) + (" via "@ + kind.named()),
        found_lines(found) == found.map_values(|g: Found| "  "@ + found_text(g)),
    decreases found.len(),
{
    let shown = |g: Found| "  "@ + found_text(g);
    if f.via is None {
        assert(found_text(f) =~= f.peer.name@ + " ("@ + f.peer.os@ + ") at "@ + addr_text(
            f.peer.addr,
        ));
    }
    if found.len() == 0 {
        assert(found_lines(found) =~= found.map_values(shown));
    } else {
        lemma_found(found.drop_last(), f);
        assert(found.map_values(shown) =~= found.drop_last().map_values(shown).push(
            shown(found.last()),
        ));
    }
}

/// A port is written in digits alone and is at most 65535; every such number is one.
pub proof fn lemma_port(s: Seq<char>, n: nat)
    ensures
        is_port(dec(n)) <==> n <= 65535,
        is_port(s) <==> s.len() > 0 && digits_value(s) <= 65535 && forall|i: int|
            0 <= i < s.len() ==> '0' <= #[trigger] s[i] <= '9',
{
    lemma_dec_value(n);
    if s.len() > 0 && digits_value(s) <= 65535 && forall|i: int|
        0 <= i < s.len() ==> '0' <= #[trigger] s[i] <= '9' {
        assert(forall|i: int| 0 <= i < s.len() ==> is_digit(#[trigger] s[i]));
    }
    if is_port(s) {
        assert forall|i: int| 0 <= i < s.len() implies '0' <= #[trigger] s[i] <= '9' by {
            assert(is_digit(s[i]));
        }
    }
}

proof fn lemma_split_tail(head: Seq<char>, sep: char, tail: Seq<char>)
    requires
        !tail.contains(sep),
    ensures
        split(head + seq![sep] + tail, sep) == split(head, sep).push(tail),
    decreases tail.len(),
{
    let all = head + seq![sep] + tail;
    if tail.len() == 0 {
        assert(all.drop_last() =~= head);
        assert(all.last() == sep);
        assert(tail =~= Seq::empty());
    } else {
        let t = tail.drop_last();
        assert(all.drop_last() =~= head + seq![sep] + t);
        assert(!t.contains(sep)) by {
            if t.contains(sep) {
                let i = choose|i: int| 0 <= i < t.len() && t[i] == sep;
                assert(tail[i] == sep);
            }
        }
        assert(tail.last() != sep) by {
            assert(tail.contains(tail.last()));
        }
        lemma_split_tail(head, sep, t);
        assert(all.last() == tail.last());
        assert(t.push(tail.last()) =~= tail);
        assert(split(all, sep) =~= split(head, sep).push(tail));
    }
}

/// Which targets name a port: a host, a colon and a port do, exactly when the host is
/// not empty; a host alone does not. What has more colons does so exactly when all
/// that stands before the port is in brackets.
pub proof fn lemma_target(host: Seq<char>, port: Seq<char>)
    requires
        !port.contains(':'),
    ensures
        !host.contains(':') ==> !has_port(host),
        !host.contains(':') ==> (has_port(host + ":"@ + port) <==> host.len() > 0 && is_port(port)),
        host.contains(':') && has_port(host + ":"@ + port) ==> is_port(port) && host[0] == '['
            && host.last() == ']',
        host.contains(':') && is_port(port) && host[0] == '[' && host.last() == ']' ==> has_port(
            host + ":"@ + port,
        ),
{
    reveal_strlit(":");
    let all = host + ":"@ + port;
    assert(all =~= host + seq![':'] + port);
    lemma_split_tail(host, ':', port);
    if !host.contains(':') {
        lemma_split_without(host, ':');
    } else {
        lemma_ends_of_split(host, ':');
    }
}

proof fn lemma_ends_of_split(s: Seq<char>, sep: char)
    requires
        s.contains(sep),
    ensures
        split(s, sep).len() >= 2,
        s[0] == sep <==> split(s, sep)[0].len() == 0,
        split(s, sep)[0].len() > 0 ==> split(s, sep)[0][0] == s[0],
        s.last() == sep <==> split(s, sep).last().len() == 0,
        split(s, sep).last().len() > 0 ==> split(s, sep).last().last() == s.last(),
{
    let k = choose|k: int| 0 <= k < s.len() && s[k] == sep;
    let f = lemma_first_sep(s, sep, k);
    let head = s.take(f);
    let rest = s.skip(f + 1);
    assert(s =~= head + seq![sep] + rest);
    assert(!head.contains(sep)) by {
        if head.contains(sep) {
            let i = choose|i: int| 0 <= i < head.len() && head[i] == sep;
            assert(s[i] == sep);
        }
    }
    lemma_split_head(head, sep, rest);
    crate::text::lemma_split(s.drop_last(), sep);
    if f > 0 {
        assert(head[0] == s[0]);
    }
}

proof fn lemma_first_sep(s: Seq<char>, sep: char, k: int) -> (f: int)
    requires
        0 <= k < s.len(),
        s[k] == sep,
    ensures
        0 <= f <= k,
        s[f] == sep,
        forall|i: int| 0 <= i < f ==> s[i] != sep,
    decreases k,
{
    if exists|i: int| 0 <= i < k && s[i] == sep {
        let i = choose|i: int| 0 <= i < k && s[i] == sep;
        lemma_first_sep(s, sep, i)
    } else {
        k
    }
}

} // verus!
