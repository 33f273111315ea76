//! What the screens show, and when one device calls another.

use vstd::prelude::*;

use crate::link::{route, with_ip, Link, LinkKind};
use crate::net::{Interface, IpAddr, SocketAddr};
use crate::order::{
    codes, first_such, lemma_first_such, lemma_lex_total, lemma_sorted_same_images,
    lemma_stable_sorted, lex_le, stable_sorted, Keyed,
};
use crate::screen::devices::{
    asking, cable_peer, caller_key, in_order, initiates, is_self, may_call, offered, row_named,
    rows, since, via_kind, Heard, Row, RowView, Tone, ViaInfo,
};
use crate::screen::show::{activity_of, below, pairing_of, tilde_text, transfer_of, ActivityView};
use crate::screen::state::{
    after_event, disconnected, log_with, logged, picked_id, plural, pretty, sent_lines,
    starts_probe, AppView, PairedView, PickedView, SendView, SpeedView,
};
use crate::text::{dec, joined, lowercase, split};
use crate::transfer::events::EventView;
use crate::transfer::sender::ResultView;
use crate::util::shown_bytes;

verus! {

// ---- names ----

/// A device is called by its name up to the first dot.
pub proof fn lemma_pretty(name: Seq<char>, head: Seq<char>, rest: Seq<char>)
    requires
        !head.contains('.'),
    ensures
        name == head ==> pretty(name) == head,
        name == head + "."@ + rest ==> pretty(name) == head,
{
    reveal_strlit(".");
    if name == head {
        lemma_split_without(head, '.');
    }
    if name == head + "."@ + rest {
        lemma_split_head(head, '.', rest);
        assert(head + "."@ + rest =~= head + seq!['.'] + rest);
    }
}

pub proof fn lemma_split_without(head: Seq<char>, sep: char)
    requires
        !head.contains(sep),
    ensures
        split(head, sep) == seq![head],
    decreases head.len(),
{
    if head.len() == 0 {
        assert(head =~= Seq::empty());
    } else {
        let d = head.drop_last();
        assert(!d.contains(sep)) by {
            if d.contains(sep) {
                let i = choose|i: int| 0 <= i < d.len() && d[i] == sep;
                assert(head[i] == sep);
            }
        }
        lemma_split_without(d, sep);
        assert(head.last() != sep) by {
            assert(head.contains(head.last()));
        }
        assert(d.push(head.last()) =~= head);
        assert(split(head, sep) =~= seq![head]);
    }
}

pub proof fn lemma_split_head(head: Seq<char>, sep: char, rest: Seq<char>)
    requires
        !head.contains(sep),
    ensures
        split(head + seq![sep] + rest, sep)[0] == head,
        split(head + seq![sep] + rest, sep).len() >= 2,
    decreases rest.len(),
{
    let all = head + seq![sep] + rest;
    if rest.len() == 0 {
        assert(all.drop_last() =~= head);
        lemma_split_without(head, sep);
        assert(all.last() == sep);
    } else {
        assert(all.drop_last() =~= head + seq![sep] + rest.drop_last());
        lemma_split_head(head, sep, rest.drop_last());
    }
}

/// One takes no plural, every other number does.
pub proof fn lemma_plural(n: int)
    ensures
        plural(1).len() == 0,
        n != 1 ==> plural(n) == "s"@,
{
    reveal_strlit("");
}

// ---- the log ----

/// A new line is the last of the log and the lines in front of it keep their order.
/// The log keeps everything up to 300 lines; then it drops the 100 oldest.
pub proof fn lemma_log(log: Seq<Seq<char>>, line: Seq<char>, i: int)
    requires
        0 <= i < log.len(),
    ensures
        log_with(log, line).last() == line,
        log.len() < 300 ==> log_with(log, line).len() == log.len() + 1 && log_with(log, line)[i]
            == log[i],
        log.len() >= 300 ==> log_with(log, line).len() == log.len() - 99 && (i >= 100 ==> log_with(
            log,
            line,
        )[i - 100] == log[i]),
{
}

/// Writing to the log changes nothing else.
pub proof fn lemma_logging_is_all(s: AppView, line: Seq<char>)
    ensures
        logged(s, line) == (AppView { recv_log: logged(s, line).recv_log, ..s }),
        logged(s, line).recv_log == log_with(s.recv_log, line),
{
}

// ---- events ----

/// What no event of the receiver touches.
pub open spec fn same_elsewhere(a: AppView, b: AppView) -> bool {
    &&& a.my_name == b.my_name
    &&& a.incoming == b.incoming
    &&& a.outgoing == b.outgoing
    &&& a.pair_error == b.pair_error
    &&& a.peers == b.peers
    &&& a.searching == b.searching
    &&& a.disco_error == b.disco_error
    &&& a.last_disco == b.last_disco
    &&& a.picked == b.picked
    &&& a.last_auto == b.last_auto
}

/// What an event does to what is being received: a transfer that starts shows what it
/// has already, progress shows what it says, and the end shows nothing more. Every
/// file that is complete is counted, from nothing at the start.
pub proof fn lemma_event_receiving(s: AppView, ev: EventView, now: u128)
    ensures
        ({
            let t = after_event(s, ev, now);
            &&& same_elsewhere(t, s)
            &&& t.listen_port == match ev {
                EventView::Listening { port, .. } => port,
                _ => s.listen_port,
            }
            &&& t.recv_progress == match ev {
                EventView::SessionStarted { total_bytes, resumed_bytes, .. } => Some(
                    (resumed_bytes, total_bytes),
                ),
                EventView::Progress { done_bytes, total_bytes } => Some((done_bytes, total_bytes)),
                EventView::SessionEnded { .. } => None,
                _ => s.recv_progress,
            }
            &&& t.recv_started_at == match ev {
                EventView::SessionStarted { .. } => Some(now),
                EventView::SessionEnded { .. } => None,
                _ => s.recv_started_at,
            }
            &&& ev is SessionStarted ==> t.recv_session_files == 0
            &&& ev is FileCompleted && s.recv_session_files < u32::MAX ==> t.recv_session_files
                == s.recv_session_files + 1
            &&& !(ev is SessionStarted) && !(ev is FileCompleted) ==> t.recv_session_files
                == s.recv_session_files
            &&& t.last_received != s.last_received ==> (ev matches EventView::SessionEnded {
                ok,
                ..
            } && ok && s.recv_session_files > 0)
            &&& (ev matches EventView::SessionEnded { ok, .. } && ok && s.recv_session_files > 0)
                ==> t.last_received == Some(
                "Received "@ + dec(s.recv_session_files as nat) + " file"@ + plural(
                    s.recv_session_files as int,
                ),
            )
        }),
{
}

/// What an event does to the connection. The first device that pairs and can be called
/// is connected, and its link is measured; one that pairs later replaces no other.
/// When the other device disconnects, everything about the connection is dropped, and
/// this device does not call again by itself. No other event touches it.
pub proof fn lemma_event_connection(s: AppView, ev: EventView, now: u128)
    ensures
        ({
            let t = after_event(s, ev, now);
            let connects = ev matches EventView::Paired { peer_addr, .. } && peer_addr is Some
                && s.paired is None;
            let drops = ev is Unpaired && s.paired is Some;
            &&& starts_probe(s, ev) <==> connects
            &&& connects ==> (ev matches EventView::Paired { peer_name, peer_addr, send_token }
                && t.paired == Some(
                PairedView { name: peer_name, addr: peer_addr->0, token: send_token },
            ))
            &&& connects ==> t.speed is Testing
            &&& drops ==> t.paired is None && t.speed is Unknown && t.send_state is Idle
                && !t.auto_connect
            &&& !connects && !drops ==> t.paired == s.paired && t.speed == s.speed
            &&& !drops ==> t.send_state == s.send_state && t.auto_connect == s.auto_connect
        }),
{
}

/// What an event adds to the log: one line at most.
pub proof fn lemma_event_log(s: AppView, ev: EventView, now: u128)
    ensures
        ({
            let t = after_event(s, ev, now);
            &&& ev is Listening || ev is Progress || (ev is Unpaired && s.paired is None)
                ==> t.recv_log == s.recv_log
            &&& ev is Unpaired && s.paired is Some ==> t.recv_log == log_with(
                s.recv_log,
                "The other device disconnected."@,
            )
            &&& ev matches EventView::Paired { peer_name, .. } ==> t.recv_log == log_with(
                s.recv_log,
                "Connected to "@ + pretty(peer_name),
            )
            &&& ev matches EventView::SessionStarted { sender, files, total_bytes, .. }
                ==> t.recv_log == log_with(
                s.recv_log,
                "Receiving "@ + dec(files as nat) + " file"@ + plural(files as int) + " ("@
                    + shown_bytes(total_bytes as int) + ") from "@ + pretty(sender) + "…"@,
            )
            &&& ev matches EventView::FileCompleted { rel_path, bytes } ==> t.recv_log == log_with(
                s.recv_log,
                "Received "@ + rel_path + " ("@ + shown_bytes(bytes as int) + ")"@,
            )
            &&& (ev matches EventView::SessionEnded { ok, .. } && ok) ==> t.recv_log == log_with(
                s.recv_log,
                "All files received."@,
            )
            &&& (ev matches EventView::SessionEnded { ok, .. } && !ok) ==> t.recv_log == log_with(
                s.recv_log,
                "Transfer interrupted — it will pick up where it left off."@,
            )
        }),
{
}

/// A disconnected device keeps everything but the connection.
pub proof fn lemma_disconnected(s: AppView)
    ensures
        disconnected(s).paired is None,
        disconnected(s).send_state is Idle,
        disconnected(s).speed is Unknown,
        !disconnected(s).auto_connect,
        same_elsewhere(disconnected(s), s),
        disconnected(s).recv_log == s.recv_log,
        disconnected(s).recv_progress == s.recv_progress,
        disconnected(s).recv_started_at == s.recv_started_at,
        disconnected(s).recv_session_files == s.recv_session_files,
        disconnected(s).last_received == s.last_received,
        disconnected(s).listen_port == s.listen_port,
{
}

/// What was sent reads file by file, then what was skipped, where there is any, then
/// how much was sent and how fast.
pub proof fn lemma_sent_lines(
    files: Seq<ResultView>,
    sent: u64,
    skipped: u64,
    elapsed: Seq<char>,
    rate: Seq<char>,
    i: int,
)
    ensures
        ({
            let lines = sent_lines(files, sent, skipped, elapsed, rate);
            &&& skipped == 0 ==> lines.len() == files.len() + 1
            &&& skipped > 0 ==> lines.len() == files.len() + 2 && lines[files.len() as int]
                == shown_bytes(skipped as int)
                + " skipped (already there from an earlier run)"@
            &&& lines.last() == shown_bytes(sent as int) + " in "@ + elapsed + " — "@ + rate
                + " Mbit/s"@
            &&& 0 <= i < files.len() && files[i].ok ==> lines[i] == "Sent "@ + files[i].rel_path
            &&& 0 <= i < files.len() && !files[i].ok ==> lines[i] == "FAILED "@ + files[i].rel_path
                + " — "@ + files[i].message
        }),
{
}

// ---- devices ----

/// What a link means to the user: cables are cables, Thunderbolt the fast one, and the
/// faster a link is the lower its rank; a device that no link leads to comes last.
pub proof fn lemma_via(kind: Option<LinkKind>)
    ensures
        via_kind(kind).kind == kind,
        via_kind(kind).tone == Tone::Fast <==> kind == Some(LinkKind::ThunderboltOrUsb4),
        via_kind(kind).tone == Tone::Cable <==> kind == Some(LinkKind::UsbLink) || kind == Some(
            LinkKind::Ethernet,
        ),
        via_kind(kind).tone == Tone::Wireless <==> kind == Some(LinkKind::WiFi),
        via_kind(kind).is_cable <==> kind == Some(LinkKind::ThunderboltOrUsb4) || kind == Some(
            LinkKind::UsbLink,
        ) || kind == Some(LinkKind::Ethernet),
        via_kind(Some(LinkKind::ThunderboltOrUsb4)).rank < via_kind(Some(LinkKind::UsbLink)).rank,
        via_kind(Some(LinkKind::UsbLink)).rank == via_kind(Some(LinkKind::Ethernet)).rank,
        via_kind(Some(LinkKind::Ethernet)).rank < via_kind(Some(LinkKind::Loopback)).rank,
        via_kind(Some(LinkKind::Loopback)).rank < via_kind(Some(LinkKind::Other)).rank,
        via_kind(Some(LinkKind::Other)).rank < via_kind(Some(LinkKind::WiFi)).rank,
        via_kind(Some(LinkKind::WiFi)).rank < via_kind(Some(LinkKind::Vpn)).rank,
        via_kind(Some(LinkKind::Vpn)).rank < via_kind(None).rank,
{
}

/// A device is reached as the link that leads to it says.
pub proof fn lemma_via_route(
    links: Seq<Link>,
    ifs: Seq<Interface>,
    ip: IpAddr,
    local: Option<IpAddr>,
)
    ensures
        route(links, ifs, ip, local) is None ==> crate::screen::devices::via(
            links,
            ifs,
            ip,
            local,
        ) == via_kind(None),
        route(links, ifs, ip, local) matches Some(i) ==> crate::screen::devices::via(
            links,
            ifs,
            ip,
            local,
        ) == via_kind(Some(links[i].kind)),
{
}

/// How a link is called.
pub proof fn lemma_via_words(v: ViaInfo)
    ensures
        v.word() == "fast cable"@ <==> v.kind == Some(LinkKind::ThunderboltOrUsb4),
        v.word() == "cable"@ <==> v.kind == Some(LinkKind::UsbLink) || v.kind == Some(
            LinkKind::Ethernet,
        ),
        v.word() == "this computer"@ <==> v.kind == Some(LinkKind::Loopback),
        v.word() == "Wi-Fi"@ <==> v.kind == Some(LinkKind::WiFi),
        v.word() == "network"@ <==> v.kind is None || v.kind == Some(LinkKind::Other) || v.kind
            == Some(LinkKind::Vpn),
{
    reveal_strlit("fast cable");
    reveal_strlit("cable");
    reveal_strlit("this computer");
    reveal_strlit("Wi-Fi");
    reveal_strlit("network");
    assert("fast cable"@.len() == 10);
    assert("cable"@.len() == 5);
    assert("this computer"@.len() == 13);
    assert("network"@.len() == 7);
    assert("Wi-Fi"@.len() == 5);
    assert("Wi-Fi"@[0] == 'W');
    assert("cable"@[0] == 'c');
}

/// A beacon is this device's own exactly when it names this device's port at a
/// loopback address or at an address of one of its links.
pub proof fn lemma_own_beacon(links: Seq<Link>, addr: SocketAddr, me_port: u16)
    ensures
        is_self(links, addr, me_port) <==> addr.door() == me_port && (addr.host().loopback()
            || exists|i: int|
            0 <= i < links.len() && (#[trigger] links[i]).ips@.contains(addr.host())),
{
    lemma_first_such(links, with_ip(addr.host()));
    if exists|i: int| 0 <= i < links.len() && (#[trigger] links[i]).ips@.contains(addr.host()) {
        let i = choose|i: int|
            0 <= i < links.len() && (#[trigger] links[i]).ips@.contains(addr.host());
        assert(with_ip(addr.host())(links[i]));
    }
}

/// How a device that was heard is offered.
pub open spec fn row_of(h: Heard, links: Seq<Link>, ifs: Seq<Interface>) -> RowView {
    RowView {
        name: pretty(h.peer.name@),
        peer: h.peer@,
        via: crate::screen::devices::via(links, ifs, h.peer.addr.host(), h.local),
    }
}

/// The row of `heard[k]` is the one to offer: it is not this device, no other that was
/// heard under that name has a better link, and none in front of it has one as good.
pub open spec fn best_heard(
    heard: Seq<Heard>,
    links: Seq<Link>,
    ifs: Seq<Interface>,
    me_port: u16,
    k: int,
) -> bool {
    &&& 0 <= k < heard.len()
    &&& !is_self(links, heard[k].peer.addr, me_port)
    &&& forall|j: int|
        0 <= j < heard.len() && !is_self(links, (#[trigger] heard[j]).peer.addr, me_port) && pretty(
            heard[j].peer.name@,
        ) == pretty(heard[k].peer.name@) ==> row_of(heard[k], links, ifs).via.rank <= row_of(
            heard[j],
            links,
            ifs,
        ).via.rank && (j < k ==> row_of(heard[k], links, ifs).via.rank < row_of(
            heard[j],
            links,
            ifs,
        ).via.rank)
}

/// The rows that are left of these, the better one of two with one name.
spec fn folded(items: Seq<Option<RowView>>) -> Seq<RowView>
    decreases items.len(),
{
    if items.len() == 0 {
        Seq::empty()
    } else {
        let before = folded(items.drop_last());
        match items.last() {
            None => before,
            Some(new) => match first_such(before, row_named(new.name)) {
                Some(i) => if new.via.rank < before[i].via.rank {
                    before.update(i, new)
                } else {
                    before
                },
                None => before.push(new),
            },
        }
    }
}

spec fn best_item(items: Seq<Option<RowView>>, k: int) -> bool {
    &&& 0 <= k < items.len()
    &&& items[k] is Some
    &&& forall|j: int|
        0 <= j < items.len() && (#[trigger] items[j]) is Some && items[j]->0.name
            == items[k]->0.name ==> items[k]->0.via.rank <= items[j]->0.via.rank && (j < k
            ==> items[k]->0.via.rank < items[j]->0.via.rank)
}

spec fn comes_from(items: Seq<Option<RowView>>, row: RowView) -> bool {
    exists|k: int| #[trigger] best_item(items, k) && items[k] == Some(row)
}

proof fn lemma_folded_once(items: Seq<Option<RowView>>)
    ensures
        forall|i: int, j: int|
            0 <= i < j < folded(items).len() ==> (#[trigger] folded(items)[i]).name != (
            #[trigger] folded(items)[j]).name,
    decreases items.len(),
{
    if items.len() > 0 {
        let before = folded(items.drop_last());
        lemma_folded_once(items.drop_last());
        if items.last() is Some {
            let new = items.last()->0;
            lemma_first_such(before, row_named(new.name));
            if first_such(before, row_named(new.name)) is Some {
                assert(row_named(new.name)(before[first_such(before, row_named(new.name))->0]));
            } else {
                assert forall|i: int| 0 <= i < before.len() implies (#[trigger] before[i]).name
                    != new.name by {
                    assert(!row_named(new.name)(before[i]));
                }
            }
        }
    }
}

proof fn lemma_folded_covers(items: Seq<Option<RowView>>, k: int)
    requires
        0 <= k < items.len(),
        items[k] is Some,
    ensures
        exists|r: int|
            0 <= r < folded(items).len() && (#[trigger] folded(items)[r]).name == items[k]->0.name,
    decreases items.len(),
{
    let d = items.drop_last();
    let n = items.len() - 1;
    let before = folded(d);
    let after = folded(items);
    assert(items[n] == items.last());
    if items[n] is Some {
        lemma_first_such(before, row_named(items[n]->0.name));
    }
    if k < n {
        assert(d[k] == items[k]);
        lemma_folded_covers(d, k);
        let r = choose|r: int|
            0 <= r < before.len() && (#[trigger] before[r]).name == d[k]->0.name;
        assert(after[r].name == before[r].name);
    } else {
        let name = items[n]->0.name;
        match first_such(before, row_named(name)) {
            Some(i) => {
                assert(row_named(name)(before[i]));
                assert(after[i].name == name);
            },
            None => {
                assert(after[before.len() as int].name == name);
            },
        }
    }
}

proof fn lemma_folded(items: Seq<Option<RowView>>, r: int)
    requires
        0 <= r < folded(items).len(),
    ensures
        comes_from(items, folded(items)[r]),
    decreases items.len(),
{
    let d = items.drop_last();
    if r < folded(d).len() {
        lemma_folded(d, r);
    }
    lemma_folded_once(d);
    lemma_folded_row(items, r);
}

proof fn lemma_folded_row(items: Seq<Option<RowView>>, r: int)
    requires
        items.len() > 0,
        0 <= r < folded(items).len(),
        r < folded(items.drop_last()).len() ==> comes_from(
            items.drop_last(),
            folded(items.drop_last())[r],
        ),
        forall|i: int, j: int|
            0 <= i < j < folded(items.drop_last()).len() ==> (#[trigger] folded(
                items.drop_last(),
            )[i]).name != (#[trigger] folded(items.drop_last())[j]).name,
    ensures
        comes_from(items, folded(items)[r]),
{
    let d = items.drop_last();
    let n = items.len() - 1;
    let before = folded(d);
    let after = folded(items);
    assert(items[n] == items.last());
    let is_new = items[n] is Some && (r >= before.len() || (before[r].name == items[n]->0.name
        && items[n]->0.via.rank < before[r].via.rank));
    if items[n] is Some {
        lemma_first_such(before, row_named(items[n]->0.name));
        if r < before.len() && before[r].name == items[n]->0.name {
            assert(row_named(items[n]->0.name)(before[r]));
            let i = first_such(before, row_named(items[n]->0.name))->0;
            assert(row_named(items[n]->0.name)(before[i]));
            assert(i == r);
        }
    }
    if is_new {
        assert(after[r] == items[n]->0);
        assert forall|j: int|
            0 <= j < items.len() && (#[trigger] items[j]) is Some && items[j]->0.name
                == items[n]->0.name implies items[n]->0.via.rank <= items[j]->0.via.rank && (j < n
            ==> items[n]->0.via.rank < items[j]->0.via.rank) by {
            if j < n {
                assert(d[j] == items[j]);
                lemma_folded_covers(d, j);
                let q = choose|q: int|
                    0 <= q < before.len() && (#[trigger] before[q]).name == d[j]->0.name;
                assert(row_named(items[n]->0.name)(before[q]));
                if r >= before.len() {
                    assert(first_such(before, row_named(items[n]->0.name)) is None);
                    assert(false);
                } else {
                    assert(q == r);
                    assert(comes_from(d, before[r]));
                    let k = choose|k: int| #[trigger] best_item(d, k) && d[k] == Some(before[r]);
                    assert(d[k]->0.via.rank <= d[j]->0.via.rank);
                }
            }
        }
        assert(best_item(items, n));
    } else {
        assert(r < before.len());
        assert(after[r] == before[r]);
        assert(comes_from(d, before[r]));
        let k = choose|k: int| #[trigger] best_item(d, k) && d[k] == Some(before[r]);
        assert(d[k] == items[k]);
        assert forall|j: int|
            0 <= j < items.len() && (#[trigger] items[j]) is Some && items[j]->0.name
                == items[k]->0.name implies items[k]->0.via.rank <= items[j]->0.via.rank && (j < k
            ==> items[k]->0.via.rank < items[j]->0.via.rank) by {
            if j < n {
                assert(d[j] == items[j]);
            }
        }
        assert(best_item(items, k));
    }
}

spec fn cards(
    heard: Seq<Heard>,
    links: Seq<Link>,
    ifs: Seq<Interface>,
    me_port: u16,
) -> Seq<Option<RowView>> {
    Seq::new(
        heard.len(),
        |i: int|
            if is_self(links, heard[i].peer.addr, me_port) {
                None
            } else {
                Some(row_of(heard[i], links, ifs))
            },
    )
}

proof fn lemma_offered_is_folded(
    heard: Seq<Heard>,
    links: Seq<Link>,
    ifs: Seq<Interface>,
    me_port: u16,
)
    ensures
        offered(heard, links, ifs, me_port) == folded(cards(heard, links, ifs, me_port)),
    decreases heard.len(),
{
    let c = cards(heard, links, ifs, me_port);
    if heard.len() > 0 {
        lemma_offered_is_folded(heard.drop_last(), links, ifs, me_port);
        assert(c.drop_last() =~= cards(heard.drop_last(), links, ifs, me_port));
        assert(c.last() == c[heard.len() - 1]);
        assert(heard[heard.len() - 1] == heard.last());
    }
}

proof fn lemma_card(
    heard: Seq<Heard>,
    links: Seq<Link>,
    ifs: Seq<Interface>,
    me_port: u16,
    k: int,
)
    requires
        0 <= k < heard.len(),
    ensures
        cards(heard, links, ifs, me_port).len() == heard.len(),
        is_self(links, heard[k].peer.addr, me_port) <==> cards(heard, links, ifs, me_port)[k]
            is None,
        !is_self(links, heard[k].peer.addr, me_port) ==> cards(heard, links, ifs, me_port)[k]
            == Some(row_of(heard[k], links, ifs)),
{
}

proof fn lemma_best_card(
    heard: Seq<Heard>,
    links: Seq<Link>,
    ifs: Seq<Interface>,
    me_port: u16,
    k: int,
)
    requires
        best_item(cards(heard, links, ifs, me_port), k),
    ensures
        best_heard(heard, links, ifs, me_port, k),
        cards(heard, links, ifs, me_port)[k] == Some(row_of(heard[k], links, ifs)),
{
    let c = cards(heard, links, ifs, me_port);
    assert(c.len() == heard.len());
    lemma_card(heard, links, ifs, me_port, k);
    assert forall|j: int|
        0 <= j < heard.len() && !is_self(links, (#[trigger] heard[j]).peer.addr, me_port) && pretty(
            heard[j].peer.name@,
        ) == pretty(heard[k].peer.name@) implies row_of(heard[k], links, ifs).via.rank <= row_of(
        heard[j],
        links,
        ifs,
    ).via.rank && (j < k ==> row_of(heard[k], links, ifs).via.rank < row_of(
        heard[j],
        links,
        ifs,
    ).via.rank) by {
        lemma_card(heard, links, ifs, me_port, j);
        assert(c[j] is Some);
    }
}

/// What is offered are devices that were heard, each by the best link that leads to
/// it. This device itself is not offered.
pub proof fn lemma_offered_by_best_link(
    heard: Seq<Heard>,
    links: Seq<Link>,
    ifs: Seq<Interface>,
    me_port: u16,
    r: int,
)
    requires
        0 <= r < offered(heard, links, ifs, me_port).len(),
    ensures
        exists|k: int| #[trigger]
            best_heard(heard, links, ifs, me_port, k) && offered(heard, links, ifs, me_port)[r]
                == row_of(heard[k], links, ifs),
{
    let c = cards(heard, links, ifs, me_port);
    lemma_offered_is_folded(heard, links, ifs, me_port);
    lemma_folded(c, r);
    let k = choose|k: int| #[trigger] best_item(c, k) && c[k] == Some(folded(c)[r]);
    lemma_best_card(heard, links, ifs, me_port, k);
}

/// Every device that was heard is offered under its name, but for this one.
pub proof fn lemma_all_are_offered(
    heard: Seq<Heard>,
    links: Seq<Link>,
    ifs: Seq<Interface>,
    me_port: u16,
    k: int,
)
    requires
        0 <= k < heard.len(),
        !is_self(links, heard[k].peer.addr, me_port),
    ensures
        exists|r: int|
            0 <= r < offered(heard, links, ifs, me_port).len() && (#[trigger] offered(
                heard,
                links,
                ifs,
                me_port,
            )[r]).name == pretty(heard[k].peer.name@),
{
    let c = cards(heard, links, ifs, me_port);
    lemma_offered_is_folded(heard, links, ifs, me_port);
    lemma_card(heard, links, ifs, me_port, k);
    lemma_folded_covers(c, k);
    let r = choose|r: int|
        0 <= r < folded(c).len() && (#[trigger] folded(c)[r]).name == c[k]->0.name;
    assert(offered(heard, links, ifs, me_port)[r].name == pretty(heard[k].peer.name@));
}

/// Devices are found in the order in which they were first heard: what is heard later
/// moves none of them, and adds one at most.
pub proof fn lemma_offered_in_order(
    heard: Seq<Heard>,
    h: Heard,
    links: Seq<Link>,
    ifs: Seq<Interface>,
    me_port: u16,
)
    ensures
        ({
            let before = offered(heard, links, ifs, me_port);
            let after = offered(heard.push(h), links, ifs, me_port);
            &&& before.len() <= after.len() <= before.len() + 1
            &&& forall|r: int| 0 <= r < before.len() ==> (#[trigger] after[r]).name == before[r].name
        }),
{
    assert(heard.push(h).drop_last() =~= heard);
    lemma_first_such(
        offered(heard, links, ifs, me_port),
        row_named(pretty(h.peer.name@)),
    );
}

/// The rows are shown by rank and, within one rank, by name; all that were found and
/// no others.
pub proof fn lemma_rows_in_order(found: Seq<RowView>, shown: Seq<Row>)
    requires
        in_order(found, shown),
    ensures
        rows(shown).to_multiset() == found.to_multiset(),
        forall|i: int, j: int|
            0 <= i < j < shown.len() ==> (#[trigger] shown[i]).via.rank < (
            #[trigger] shown[j]).via.rank || (shown[i].via.rank == shown[j].via.rank && lex_le(
                codes(shown[i].name@),
                codes(shown[j].name@),
            )),
{
    let list = choose|list: Seq<Row>| rows(list) == found && shown == #[trigger] stable_sorted(list);
    lemma_stable_sorted(list);
    lemma_sorted_same_images(list, |r: Row| r@);
    assert(rows(shown) =~= shown.map_values(|r: Row| r@));
    assert(rows(list) =~= list.map_values(|r: Row| r@));
    assert forall|i: int, j: int| 0 <= i < j < shown.len() implies (#[trigger] shown[i]).via.rank
        < (#[trigger] shown[j]).via.rank || (shown[i].via.rank == shown[j].via.rank && lex_le(
        codes(shown[i].name@),
        codes(shown[j].name@),
    )) by {
        let a = shown[i].key();
        let b = shown[j].key();
        assert(lex_le(a, b));
        assert(a.skip(1) =~= codes(shown[i].name@));
        assert(b.skip(1) =~= codes(shown[j].name@));
        assert(a[0] == shown[i].via.rank);
        assert(b[0] == shown[j].via.rank);
    }
}

/// A device on a cable that is not this one.
pub open spec fn on_cable(
    heard: Seq<Heard>,
    links: Seq<Link>,
    ifs: Seq<Interface>,
    me_port: u16,
    k: int,
) -> bool {
    0 <= k < heard.len() && !is_self(links, heard[k].peer.addr, me_port) && row_of(
        heard[k],
        links,
        ifs,
    ).via.is_cable
}

/// The device to call is the first on the best cable; there is one exactly when a
/// device on a cable was heard.
pub proof fn lemma_cable_peer(
    heard: Seq<Heard>,
    links: Seq<Link>,
    ifs: Seq<Interface>,
    me_port: u16,
)
    ensures
        cable_peer(heard, links, ifs, me_port) is None <==> forall|k: int|
            !#[trigger] on_cable(heard, links, ifs, me_port, k),
        cable_peer(heard, links, ifs, me_port) matches Some(b) ==> on_cable(
            heard,
            links,
            ifs,
            me_port,
            b.0,
        ) && b.1 == row_of(heard[b.0], links, ifs).via.rank && forall|k: int| #[trigger]
            on_cable(heard, links, ifs, me_port, k) ==> b.1 <= row_of(
                heard[k],
                links,
                ifs,
            ).via.rank && (k < b.0 ==> b.1 < row_of(heard[k], links, ifs).via.rank),
    decreases heard.len(),
{
    if heard.len() == 0 {
        assert(forall|k: int| !#[trigger] on_cable(heard, links, ifs, me_port, k));
    } else {
        let d = heard.drop_last();
        let n = heard.len() - 1;
        lemma_cable_peer(d, links, ifs, me_port);
        assert(heard[n] == heard.last());
        assert forall|k: int| k != n implies #[trigger] on_cable(heard, links, ifs, me_port, k)
            == on_cable(d, links, ifs, me_port, k) by {
            if 0 <= k < n {
                assert(d[k] == heard[k]);
            }
        }
        if cable_peer(d, links, ifs, me_port) is Some {
            let b = cable_peer(d, links, ifs, me_port)->0;
            assert(d[b.0] == heard[b.0]);
            assert(on_cable(heard, links, ifs, me_port, b.0));
            let c = cable_peer(heard, links, ifs, me_port)->0;
            assert(cable_peer(heard, links, ifs, me_port) is Some);
            assert forall|k: int| #[trigger] on_cable(heard, links, ifs, me_port, k) implies c.1
                <= row_of(heard[k], links, ifs).via.rank && (k < c.0 ==> c.1 < row_of(
                heard[k],
                links,
                ifs,
            ).via.rank) by {
                if k != n {
                    assert(on_cable(d, links, ifs, me_port, k));
                    assert(d[k] == heard[k]);
                }
            }
        } else {
            assert(forall|k: int| k != n ==> !#[trigger] on_cable(heard, links, ifs, me_port, k));
            assert(on_cable(heard, links, ifs, me_port, n) <==> cable_peer(
                heard,
                links,
                ifs,
                me_port,
            ) is Some);
        }
    }
}

/// Of two devices the one whose name comes first calls, by the names that are shown
/// and without regard to case.
pub proof fn lemma_who_calls(mine: Seq<char>, theirs: Seq<char>)
    ensures
        initiates(mine, theirs) <==> codes(lowercase(pretty(mine))) != codes(
            lowercase(pretty(theirs)),
        ) && lex_le(codes(lowercase(pretty(mine))), codes(lowercase(pretty(theirs)))),
{
    lemma_lex_total(caller_key(mine), caller_key(theirs));
    lemma_lex_total(caller_key(theirs), caller_key(mine));
}

/// A device calls by itself exactly when it may and is not connected, asking or being
/// asked, and ten seconds have gone by since it last did.
pub proof fn lemma_may_call(s: AppView, now: u128, last: u128)
    ensures
        s.last_auto is None ==> (may_call(s, now) <==> s.auto_connect && s.paired is None
            && s.outgoing is None && s.incoming is None),
        s.last_auto == Some(last) ==> (may_call(s, now) <==> s.auto_connect && s.paired is None
            && s.outgoing is None && s.incoming is None && last + 10000000000 <= now),
        now >= last ==> since(now, last) == now - last,
        now < last ==> since(now, last) == 0,
{
}

/// A device that asks another shows whom it asks, without a code yet, and forgets the
/// trouble it had; nothing else changes.
pub proof fn lemma_asking(s: AppView, addr: SocketAddr, label: Seq<char>)
    ensures
        ({
            let t = asking(s, addr, label);
            &&& t.outgoing matches Some(o) && o.peer_label == label && o.addr == addr && o.code
                is None && !o.was_cancelled
            &&& t.pair_error is None
            &&& t == (AppView { outgoing: t.outgoing, pair_error: t.pair_error, ..s })
        }),
{
}

/// A path is picked already exactly when one with its number is.
pub proof fn lemma_picked(picked: Seq<PickedView>, id: u64)
    ensures
        first_such(picked, picked_id(id)) is Some <==> exists|i: int|
            0 <= i < picked.len() && (#[trigger] picked[i]).id == id,
{
    lemma_first_such(picked, picked_id(id));
    if exists|i: int| 0 <= i < picked.len() && (#[trigger] picked[i]).id == id {
        let i = choose|i: int| 0 <= i < picked.len() && (#[trigger] picked[i]).id == id;
        assert(picked_id(id)(picked[i]));
    }
}

// ---- screens ----

/// What is shown of receiving while no device is connected: a transfer while it runs,
/// otherwise what came last, otherwise nothing.
pub proof fn lemma_activity(s: AppView)
    ensures
        s.paired is Some ==> activity_of(s) is Hidden,
        activity_of(s) is Receiving <==> s.paired is None && s.recv_progress is Some,
        activity_of(s) is Received <==> s.paired is None && s.recv_progress is None
            && s.last_received is Some,
        activity_of(s) matches ActivityView::Receiving { done, total, text } ==> s.recv_progress
            == Some((done, total)) && text == shown_bytes(done as int) + " / "@ + shown_bytes(
            total as int,
        ),
        activity_of(s) matches ActivityView::Received(text) ==> s.last_received == Some(text),
{
}

/// What the pairing screen shows.
pub proof fn lemma_pairing(s: AppView)
    ensures
        s.auto_connect ==> pairing_of(s).hint
            == "Open Caybul on your other computer. Devices joined by a cable connect on their own."@,
        !s.auto_connect ==> pairing_of(s).hint == "Pick a device to connect."@,
        pairing_of(s).connecting is Some <==> s.outgoing is Some,
        s.outgoing matches Some(o) ==> (pairing_of(s).connecting matches Some(c) && c.0
            == "Connecting to "@ + o.peer_label + "…"@ && c.1 == o.code),
        pairing_of(s).trouble <==> s.outgoing is None && s.pair_error is Some,
{
}

/// What the transfer screen shows: it is there exactly while a device is connected. It
/// suggests a cable exactly when the link is neither a cable nor this computer, and
/// files can be sent exactly when some are picked and none are being sent.
pub proof fn lemma_transfer(s: AppView, how: ViaInfo)
    ensures
        transfer_of(s, how) is Some <==> s.paired is Some,
        transfer_of(s, how) matches Some(t) ==> {
            &&& t.connected == "Connected to "@ + pretty(s.paired->0.name)
            &&& t.over == "over "@ + how.word()
            &&& t.tone == how.tone
            &&& t.measuring <==> s.speed is Testing
            &&& t.speed is Some <==> s.speed is Done
            &&& s.speed matches SpeedView::Done(text) ==> t.speed == Some(text)
            &&& t.suggests_cable <==> !how.is_cable && how.kind != Some(LinkKind::Loopback)
            &&& s.send_state matches SendView::Finished { ok, lines } ==> t.lines == lines
                && t.interrupted == !ok
            &&& !(s.send_state is Finished) ==> t.lines.len() == 0 && !t.interrupted
            &&& s.send_state is Running ==> t.button == "Sending…"@ && !t.can_send
            &&& !(s.send_state is Running) ==> t.button == "Send"@ && (t.can_send <==> s.picked.len()
                > 0)
            &&& t.incoming == s.recv_progress
        },
{
}

/// A path below the home folder reads from a tilde on, and every other as it is.
pub proof fn lemma_tilde(
    full: Seq<char>,
    folder: Seq<Seq<char>>,
    rest: Seq<Seq<char>>,
    parts: Seq<Seq<char>>,
    separator: Seq<char>,
)
    ensures
        below(folder + rest, folder) == Some(rest),
        tilde_text(full, folder + rest, Some(folder), separator) == "~/"@ + joined(rest, separator),
        below(parts, folder) is None <==> !(folder.len() <= parts.len() && forall|i: int|
            0 <= i < folder.len() ==> parts[i] == #[trigger] folder[i]),
        below(parts, folder) is None ==> tilde_text(full, parts, Some(folder), separator) == full,
        tilde_text(full, parts, None, separator) == full,
{
    assert((folder + rest).take(folder.len() as int) =~= folder);
    assert((folder + rest).skip(folder.len() as int) =~= rest);
    if folder.len() <= parts.len() && forall|i: int|
        0 <= i < folder.len() ==> parts[i] == #[trigger] folder[i] {
        assert(parts.take(folder.len() as int) =~= folder);
    }
    if below(parts, folder) is Some {
        assert forall|i: int| 0 <= i < folder.len() implies parts[i] == #[trigger] folder[i] by {
            assert(parts.take(folder.len() as int)[i] == parts[i]);
        }
    }
}

} // verus!
