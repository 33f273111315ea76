//! What the systems' own tools say of links, on macOS and on Windows.

use vstd::prelude::*;
use vstd::utf8::{decode_utf8, encode_utf8, valid_utf8};

use crate::laws::basics::is_blank;
use crate::link::json::{
    items, json_node, keyed, member, member_items, member_text, plain_text, value_of, MemberView,
    NodeView,
};
use crate::link::macos::{
    behind, bus_of, buses_of, chosen_cable, cut_at, faster, fastest, gbps_numeral, generation_of,
    item_names, mac_kind, mac_link, member_speed, number_char, numeral_by, port_of, ports_read,
    says_usb4, speeds_in, speeds_in_items, speeds_in_members, tail_number, unit_at, PortView,
};
use crate::link::windows::{
    adapter_in, adapter_of, adapters_of, description_of, numeral_of, reported_adapters,
    text_or_empty, unit_of, windows_kind, windows_link, AdapterView, Unit,
};
use crate::link::{CableView, GroupedView, LinkKind, Speed};
use crate::net::tunnel_name;
use crate::order::{lemma_first_such, lemma_is_first};
use crate::text::{
    first_at, first_word, has_part, has_prefix, is_white, lossy_text, lowercase, trim_back, trimmed,
};

verus! {

// ---- macOS ----

/// The kind of an interface on macOS, and exactly when it is that. What counts is the
/// name of its hardware port, or its own where it has none.
pub proof fn lemma_mac_kinds(
    name: Seq<char>,
    port: Option<Seq<char>>,
    loopback: bool,
    mac_usb: bool,
    shown: Seq<char>,
)
    requires
        port is Some ==> shown == port->0,
        port is None ==> shown == name,
    ensures
        ({
            let kind = mac_kind(name, port, loopback, mac_usb);
            let lower = lowercase(shown);
            let tunnel = tunnel_name(name);
            let cable = has_part(lower, "thunderbolt"@);
            let air = has_part(lower, "wi-fi"@) || has_part(lower, "airport"@);
            let wire = has_part(lower, "ethernet"@) || has_part(lower, "lan"@);
            let usb = port is None && has_prefix(name, "en"@) && mac_usb;
            &&& kind == LinkKind::Loopback <==> loopback
            &&& kind == LinkKind::Vpn <==> !loopback && tunnel
            &&& kind == LinkKind::ThunderboltOrUsb4 <==> !loopback && !tunnel && cable
            &&& kind == LinkKind::WiFi <==> !loopback && !tunnel && !cable && air
            &&& kind == LinkKind::Ethernet <==> !loopback && !tunnel && !cable && !air && wire
            &&& kind == LinkKind::UsbLink <==> !loopback && !tunnel && !cable && !air && !wire
                && usb
            &&& kind == LinkKind::Other <==> !loopback && !tunnel && !cable && !air && !wire
                && !usb
        }),
{
}

/// A link on macOS keeps the name and the addresses of its interface and is called
/// after its hardware port. Thunderbolt has the Thunderbolt cable, a cable between two
/// Macs has one of its own, and nothing else has one.
pub proof fn lemma_mac_link(
    g: GroupedView,
    port: Option<Seq<char>>,
    mac_usb: bool,
    thunderbolt: Option<CableView>,
)
    ensures
        ({
            let l = mac_link(g, port, mac_usb, thunderbolt);
            &&& l.interface == g.name
            &&& l.ips == g.ips
            &&& l.kind == mac_kind(g.name, port, g.loopback, mac_usb)
            &&& l.kind == LinkKind::UsbLink ==> l.display == "USB-C link (Mac)"@
            &&& l.kind != LinkKind::UsbLink && port is Some ==> l.display == port->0
            &&& l.kind != LinkKind::UsbLink && port is None ==> l.display == g.name
            &&& l.kind == LinkKind::ThunderboltOrUsb4 ==> l.cable == thunderbolt
            &&& l.cable is Some ==> l.kind == LinkKind::ThunderboltOrUsb4 || l.kind
                == LinkKind::UsbLink
            &&& l.kind == LinkKind::UsbLink ==> l.cable is Some && !l.cable->0.is_usb4
                && l.cable->0.generation == Some("USB-C data cable (not Thunderbolt)"@)
                && l.cable->0.max_speed_gbps is None && l.cable->0.detail == Some(
                "Mac-to-Mac USB link"@,
            )
        }),
{
}

/// A title is found at the start of a line, and what stands behind it counts without
/// the blanks around it.
pub proof fn lemma_behind(title: Seq<char>, rest: Seq<char>, line: Seq<char>)
    ensures
        behind(title + rest, title) == Some(trimmed(rest)),
        behind(line, title) is Some <==> has_prefix(line, title),
{
    assert((title + rest).take(title.len() as int) =~= title);
    assert((title + rest).skip(title.len() as int) =~= rest);
}

/// A line that names a port and a later line that names a device, with nothing of the
/// kind between them, are one entry. Other lines change nothing; a device without a
/// port before it is no entry, and a port counts for one device alone.
pub proof fn lemma_ports_read(lines: Seq<Seq<char>>, line: Seq<char>, rest: Seq<char>)
    ensures
        ports_read(Seq::empty()).0 is None,
        ports_read(Seq::empty()).1.len() == 0,
        !has_prefix(line, "Hardware Port: "@) && !has_prefix(line, "Device: "@) ==> ports_read(
            lines.push(line),
        ) == ports_read(lines),
        ports_read(lines.push("Hardware Port: "@ + rest)).0 == Some(trimmed(rest)),
        ports_read(lines.push("Hardware Port: "@ + rest)).1 == ports_read(lines).1,
        ports_read(lines).0 is None ==> ports_read(lines.push("Device: "@ + rest)) == ports_read(
            lines,
        ),
        ports_read(lines).0 matches Some(port) ==> {
            &&& ports_read(lines.push("Device: "@ + rest)).0 is None
            &&& ports_read(lines.push("Device: "@ + rest)).1 == ports_read(lines).1.push(
                PortView { device: trimmed(rest), port },
            )
        },
{
    let a = "Hardware Port: "@ + rest;
    let b = "Device: "@ + rest;
    lemma_behind("Hardware Port: "@, rest, line);
    lemma_behind("Device: "@, rest, line);
    lemma_behind("Hardware Port: "@, rest, b);
    reveal_strlit("Hardware Port: ");
    reveal_strlit("Device: ");
    assert(lines.push(line).drop_last() =~= lines);
    assert(lines.push(a).drop_last() =~= lines);
    assert(lines.push(b).drop_last() =~= lines);
    assert(b[0] == 'D');
    if has_prefix(b, "Hardware Port: "@) {
        assert(b.take("Hardware Port: "@.len() as int)[0] == 'H');
    }
}

/// The port of a device is the last one that is named for it.
pub proof fn lemma_last_port(list: Seq<PortView>, device: Seq<char>, k: int)
    ensures
        port_of(list, device) is None <==> forall|i: int|
            0 <= i < list.len() ==> (#[trigger] list[i]).device != device,
        0 <= k < list.len() && list[k].device == device && (forall|i: int|
            k < i < list.len() ==> (#[trigger] list[i]).device != device) ==> port_of(list, device)
            == Some(list[k].port),
    decreases list.len(),
{
    if list.len() > 0 {
        let d = list.drop_last();
        lemma_last_port(d, device, k);
        assert(list[list.len() - 1] == list.last());
        assert(forall|i: int| 0 <= i < d.len() ==> d[i] == #[trigger] list[i]);
        if port_of(list, device) is None {
            assert forall|i: int| 0 <= i < list.len() implies (#[trigger] list[i]).device
                != device by {
                if i < d.len() {
                    assert(d[i].device != device);
                }
            }
        }
        if forall|i: int| 0 <= i < list.len() ==> (#[trigger] list[i]).device != device {
            assert forall|i: int| 0 <= i < d.len() implies (#[trigger] d[i]).device != device by {
                assert(list[i].device != device);
            }
        }
        if 0 <= k < d.len() && (forall|i: int|
            k < i < list.len() ==> (#[trigger] list[i]).device != device) {
            assert forall|i: int| k < i < d.len() implies (#[trigger] d[i]).device != device by {
                assert(list[i].device != device);
            }
        }
    }
}

/// The number at the end of a text: all the digits and dots that stand there.
pub proof fn lemma_tail_number(s: Seq<char>)
    ensures
        tail_number(s).len() <= s.len(),
        s == s.take(s.len() - tail_number(s).len()) + tail_number(s),
        forall|i: int|
            0 <= i < tail_number(s).len() ==> '0' <= #[trigger] tail_number(s)[i] <= '9'
                || tail_number(s)[i] == '.',
        tail_number(s).len() < s.len() ==> !('0' <= s[s.len() - tail_number(s).len() - 1] <= '9')
            && s[s.len() - tail_number(s).len() - 1] != '.',
    decreases s.len(),
{
    let t = tail_number(s);
    if s.len() == 0 || !number_char(s.last()) {
        assert(s =~= s.take(s.len() as int) + t);
    } else {
        let d = s.drop_last();
        lemma_tail_number(d);
        assert(s.take(s.len() - t.len()) =~= d.take(d.len() - tail_number(d).len()));
        assert(s =~= d.push(s.last()));
        assert forall|i: int| 0 <= i < t.len() implies '0' <= #[trigger] t[i] <= '9' || t[i]
            == '.' by {
            if i < t.len() - 1 {
                assert(t[i] == tail_number(d)[i]);
            }
        }
    }
}

/// A text is cut behind the first `bytes` bytes, exactly when a character ends there.
pub proof fn lemma_cut_at(s: Seq<char>, bytes: nat)
    ensures
        cut_at(s, bytes) matches Some(head) ==> encode_utf8(head).len() == bytes && head.len()
            <= s.len() && head == s.take(head.len() as int),
        cut_at(s, bytes) is None ==> forall|n: int|
            0 <= n <= s.len() ==> encode_utf8(#[trigger] s.take(n)).len() != bytes,
    decreases s.len(),
{
    assert(s.take(s.len() as int) =~= s);
    if encode_utf8(s).len() != bytes && s.len() > 0 {
        let d = s.drop_last();
        lemma_cut_at(d, bytes);
        if cut_at(d, bytes) is Some {
            let n = cut_at(d, bytes)->0.len() as int;
            assert(s.take(n) =~= d.take(n));
        } else {
            assert forall|n: int| 0 <= n <= s.len() implies encode_utf8(
                #[trigger] s.take(n),
            ).len() != bytes by {
                if n < s.len() {
                    assert(s.take(n) =~= d.take(n));
                }
            }
        }
    }
}

/// The unit of a speed is the first `gb/s`, or where there is none the first `gbps`.
pub proof fn lemma_unit_at(lower: Seq<char>)
    ensures
        unit_at(lower) is None <==> !has_part(lower, "gb/s"@) && !has_part(lower, "gbps"@),
        has_part(lower, "gb/s"@) ==> unit_at(lower) == first_at(lower, "gb/s"@),
        !has_part(lower, "gb/s"@) ==> unit_at(lower) == first_at(lower, "gbps"@),
{
}

/// A speed is the number before its unit, with blanks between them or without: it is
/// found wherever the text is cut at the unit, and nowhere else.
pub proof fn lemma_numeral_by(
    s: Seq<char>,
    lower: Seq<char>,
    before: Seq<char>,
    number: Seq<char>,
    blanks: Seq<char>,
    rest: Seq<char>,
)
    ensures
        !has_part(lower, "gb/s"@) && !has_part(lower, "gbps"@) ==> numeral_by(s, lower) is None,
        s == before + number + blanks + rest && unit_at(lower) is Some && cut_at(
            s,
            encode_utf8(lower.take(unit_at(lower)->0)).len(),
        ) == Some(before + number + blanks) && is_blank(blanks) && number.len() > 0 && (forall|
            i: int,
        |
            0 <= i < number.len() ==> '0' <= #[trigger] number[i] <= '9' || number[i] == '.')
            && (before.len() > 0 ==> !('0' <= before.last() <= '9') && before.last() != '.')
            ==> numeral_by(s, lower) == Some(number),
{
    reveal(numeral_by);
    if is_blank(blanks) && number.len() > 0 && (forall|i: int|
        0 <= i < number.len() ==> '0' <= #[trigger] number[i] <= '9' || number[i] == '.') && (
    before.len() > 0 ==> !('0' <= before.last() <= '9') && before.last() != '.') {
        assert('0' <= number.last() <= '9' || number.last() == '.');
        lemma_trim_back_blanks(before + number, blanks);
        lemma_tail_of(before, number);
    }
}

proof fn lemma_trim_back_blanks(a: Seq<char>, blanks: Seq<char>)
    requires
        is_blank(blanks),
        a.len() > 0,
        !is_white(a.last()),
    ensures
        trim_back(a + blanks) == a,
    decreases blanks.len(),
{
    if blanks.len() == 0 {
        assert(a + blanks =~= a);
    } else {
        assert(is_white(blanks[blanks.len() - 1]));
        assert((a + blanks).drop_last() =~= a + blanks.drop_last());
        assert forall|i: int| 0 <= i < blanks.drop_last().len() implies is_white(
            #[trigger] blanks.drop_last()[i],
        ) by {
            assert(is_white(blanks[i]));
        }
        lemma_trim_back_blanks(a, blanks.drop_last());
    }
}

proof fn lemma_tail_of(before: Seq<char>, number: Seq<char>)
    requires
        forall|i: int| 0 <= i < number.len() ==> '0' <= #[trigger] number[i] <= '9' || number[i] == '.',
        before.len() > 0 ==> !('0' <= before.last() <= '9') && before.last() != '.',
    ensures
        tail_number(before + number) == number,
    decreases number.len(),
{
    if number.len() == 0 {
        assert(before + number =~= before);
        assert(tail_number(before) =~= number);
    } else {
        assert((before + number).drop_last() =~= before + number.drop_last());
        assert(number[number.len() - 1] == number.last());
        assert forall|i: int| 0 <= i < number.drop_last().len() implies '0'
            <= #[trigger] number.drop_last()[i] <= '9' || number.drop_last()[i] == '.' by {
            assert(number.drop_last()[i] == number[i]);
        }
        lemma_tail_of(before, number.drop_last());
        assert(number.drop_last().push(number.last()) =~= number);
    }
}

/// A member tells a speed exactly when its key speaks of speed and its value is a text
/// with a number before a unit; it then tells that number alone.
pub proof fn lemma_member_speed(key: Seq<char>, value: Option<Seq<char>>, n: Seq<char>)
    ensures
        member_speed(key, value).contains(n) <==> has_part(lowercase(key), "speed"@) && value
            is Some && gbps_numeral(value->0) == Some(n),
        member_speed(key, value).len() <= 1,
        gbps_numeral(n) == numeral_by(n, lowercase(n)),
{
    if member_speed(key, value).contains(n) {
        let i = choose|i: int|
            0 <= i < member_speed(key, value).len() && member_speed(key, value)[i] == n;
    }
    if has_part(lowercase(key), "speed"@) && value is Some && gbps_numeral(value->0) == Some(n) {
        assert(member_speed(key, value)[0] == n);
    }
}

proof fn lemma_speeds_in_members(list: Seq<MemberView>, depth: nat, n: Seq<char>)
    ensures
        speeds_in_members(list, depth).contains(n) <==> exists|i: int|
            0 <= i < list.len() && (member_speed(
                (#[trigger] list[i]).key,
                plain_text(list[i].value),
            ).contains(n) || speeds_in(list[i].value, depth).contains(n)),
    decreases list.len(),
{
    if list.len() > 0 {
        let d = list.drop_last();
        let a = speeds_in_members(d, depth);
        let b = member_speed(list.last().key, plain_text(list.last().value));
        let c = speeds_in(list.last().value, depth);
        lemma_speeds_in_members(d, depth, n);
        lemma_add_contains(a + b, c, n);
        lemma_add_contains(a, b, n);
        assert(list[list.len() - 1] == list.last());
        assert(forall|i: int| 0 <= i < d.len() ==> d[i] == #[trigger] list[i]);
        if a.contains(n) {
            let i = choose|i: int|
                0 <= i < d.len() && (member_speed(
                    (#[trigger] d[i]).key,
                    plain_text(d[i].value),
                ).contains(n) || speeds_in(d[i].value, depth).contains(n));
            assert(list[i] == d[i]);
        }
        if exists|i: int|
            0 <= i < list.len() && (member_speed(
                (#[trigger] list[i]).key,
                plain_text(list[i].value),
            ).contains(n) || speeds_in(list[i].value, depth).contains(n)) {
            let i = choose|i: int|
                0 <= i < list.len() && (member_speed(
                    (#[trigger] list[i]).key,
                    plain_text(list[i].value),
                ).contains(n) || speeds_in(list[i].value, depth).contains(n));
            if i < d.len() {
                assert(d[i] == list[i]);
            }
        }
    }
}

proof fn lemma_add_contains<A>(a: Seq<A>, b: Seq<A>, x: A)
    ensures
        (a + b).contains(x) <==> a.contains(x) || b.contains(x),
{
    if a.contains(x) {
        let i = choose|i: int| 0 <= i < a.len() && a[i] == x;
        assert((a + b)[i] == x);
    }
    if b.contains(x) {
        let i = choose|i: int| 0 <= i < b.len() && b[i] == x;
        assert((a + b)[a.len() + i] == x);
    }
    if (a + b).contains(x) {
        let i = choose|i: int| 0 <= i < (a + b).len() && (a + b)[i] == x;
        if i < a.len() {
            assert(a[i] == x);
        } else {
            assert(b[i - a.len()] == x);
        }
    }
}

proof fn lemma_speeds_in_items(list: Seq<Seq<char>>, depth: nat, n: Seq<char>)
    ensures
        speeds_in_items(list, depth).contains(n) <==> exists|i: int|
            0 <= i < list.len() && speeds_in(#[trigger] list[i], depth).contains(n),
    decreases list.len(),
{
    if list.len() > 0 {
        let d = list.drop_last();
        let a = speeds_in_items(d, depth);
        let b = speeds_in(list.last(), depth);
        lemma_speeds_in_items(d, depth, n);
        lemma_add_contains(a, b, n);
        assert(list[list.len() - 1] == list.last());
        if a.contains(n) {
            let i = choose|i: int| 0 <= i < d.len() && speeds_in(#[trigger] d[i], depth).contains(n);
            assert(list[i] == d[i]);
        }
        if exists|i: int| 0 <= i < list.len() && speeds_in(#[trigger] list[i], depth).contains(n) {
            let i = choose|i: int|
                0 <= i < list.len() && speeds_in(#[trigger] list[i], depth).contains(n);
            if i < d.len() {
                assert(d[i] == list[i]);
            }
        }
    }
}

/// The speeds in a report are those that its members tell, at every level: a speed is
/// found in an object exactly when one of its members tells it or holds it, in a list
/// exactly when one of its items holds it, and nowhere else.
pub proof fn lemma_speeds_at_every_level(
    text: Seq<char>,
    depth: nat,
    n: Seq<char>,
    members: Seq<MemberView>,
    list: Seq<Seq<char>>,
)
    ensures
        json_node(text) == Some(NodeView::Members(members)) ==> (speeds_in(text, depth + 1).contains(
            n,
        ) <==> exists|i: int|
            0 <= i < members.len() && (member_speed(
                (#[trigger] members[i]).key,
                plain_text(members[i].value),
            ).contains(n) || speeds_in(members[i].value, depth).contains(n))),
        json_node(text) == Some(NodeView::Items(list)) ==> (speeds_in(text, depth + 1).contains(n)
            <==> exists|i: int|
            0 <= i < list.len() && speeds_in(#[trigger] list[i], depth).contains(n)),
        !(json_node(text) matches Some(NodeView::Members(_))) && !(json_node(text) matches Some(
            NodeView::Items(_),
        )) ==> speeds_in(text, depth).len() == 0,
{
    lemma_speeds_in_members(members, depth, n);
    lemma_speeds_in_items(list, depth, n);
}

/// A bus is USB4 exactly when its name or its report says so; otherwise it is
/// Thunderbolt exactly when its name says so.
pub proof fn lemma_generation(name: Seq<char>, text: Seq<char>)
    ensures
        says_usb4(name, text) <==> has_part(lowercase(name), "usb4"@) || has_part(
            lowercase(text),
            "usb4"@,
        ),
        generation_of(name, text) == Some("USB4"@) <==> says_usb4(name, text),
        generation_of(name, text) is None <==> !says_usb4(name, text) && !has_part(
            lowercase(name),
            "thunderbolt"@,
        ),
        generation_of(name, text) matches Some(g) ==> g == "USB4"@ || g == "Thunderbolt"@,
{
    reveal_strlit("USB4");
    reveal_strlit("Thunderbolt");
    assert("USB4"@.len() != "Thunderbolt"@.len());
}

/// The names of the items that have one, in order.
pub proof fn lemma_item_names(list: Seq<Seq<char>>)
    ensures
        item_names(list) == list.filter(|t: Seq<char>| member_text(t, "_name"@) is Some).map_values(
            |t: Seq<char>| member_text(t, "_name"@)->0,
        ),
    decreases list.len(),
{
    reveal(Seq::filter);
    let has = |t: Seq<char>| member_text(t, "_name"@) is Some;
    let get = |t: Seq<char>| member_text(t, "_name"@)->0;
    if list.len() == 0 {
        assert(item_names(list) =~= list.filter(has).map_values(get));
    } else {
        let d = list.drop_last();
        lemma_item_names(d);
        assert(d.filter(has).push(list.last()).map_values(get) =~= d.filter(has).map_values(
            get,
        ).push(get(list.last())));
    }
}

/// What is read of a bus is what its report says, down to 128 levels.
pub proof fn lemma_bus_of(text: Seq<char>, name: Seq<char>)
    requires
        name == match member_text(text, "_name"@) {
            Some(s) => s,
            None => Seq::empty(),
        },
    ensures
        bus_of(text).is_usb4 == says_usb4(name, text),
        bus_of(text).generation == generation_of(name, text),
        bus_of(text).numerals == speeds_in(text, 128),
        member_items(text, "_items"@) matches Some(list) ==> bus_of(text).devices == item_names(
            list,
        ),
        member_items(text, "_items"@) is None ==> bus_of(text).devices.len() == 0,
{
}

/// The buses are the items of the report's list, exactly when there is a report that
/// is text and holds one.
pub proof fn lemma_buses_of(bytes: Seq<u8>)
    ensures
        buses_of(None) is None,
        !valid_utf8(bytes) ==> buses_of(Some(bytes)) is None,
        valid_utf8(bytes) ==> buses_of(Some(bytes)) == member_items(
            decode_utf8(bytes),
            "SPThunderboltDataType"@,
        ),
{
}

/// The fastest of some speeds is one of them, none is faster, and none behind it is
/// as fast; there is one exactly when there is a speed.
pub proof fn lemma_fastest(speeds: Seq<Speed>)
    requires
        forall|i: int| 0 <= i < speeds.len() ==> (#[trigger] speeds[i]).order is Some,
    ensures
        fastest(speeds) is None <==> speeds.len() == 0,
        fastest(speeds) matches Some(best) ==> exists|k: int|
            0 <= k < speeds.len() && #[trigger] speeds[k] == best && (forall|j: int|
                0 <= j < speeds.len() ==> (#[trigger] speeds[j]).order->0 <= best.order->0)
                && forall|j: int|
                k < j < speeds.len() ==> (#[trigger] speeds[j]).order->0 < best.order->0,
    decreases speeds.len(),
{
    if speeds.len() > 0 {
        let d = speeds.drop_last();
        let n = speeds.len() - 1;
        assert forall|i: int| 0 <= i < d.len() implies (#[trigger] d[i]).order is Some by {
            assert(speeds[i].order is Some);
        }
        lemma_fastest(d);
        assert(speeds[n] == speeds.last());
        assert(speeds[n].order is Some);
        if fastest(d) is Some {
            let old_best = fastest(d)->0;
            let k = choose|k: int|
                0 <= k < d.len() && #[trigger] d[k] == old_best && (forall|j: int|
                    0 <= j < d.len() ==> (#[trigger] d[j]).order->0 <= old_best.order->0)
                    && forall|j: int|
                    k < j < d.len() ==> (#[trigger] d[j]).order->0 < old_best.order->0;
            assert(speeds[k] == d[k]);
            let best = fastest(speeds)->0;
            let at = if faster(old_best, speeds[n]) {
                k
            } else {
                n
            };
            assert(speeds[at] == best);
            assert forall|j: int| 0 <= j < speeds.len() implies (#[trigger] speeds[j]).order->0
                <= best.order->0 by {
                if j < n {
                    assert(d[j] == speeds[j]);
                }
            }
            assert forall|j: int| at < j < speeds.len() implies (#[trigger] speeds[j]).order->0
                < best.order->0 by {
                if j < n {
                    assert(d[j] == speeds[j]);
                }
            }
        }
    }
}

/// A speed is faster than another exactly when both are numbers and it is the greater
/// one; the fastest so far stays only where it is faster than the one that follows.
pub proof fn lemma_fastest_so_far(speeds: Seq<Speed>, next: Speed)
    ensures
        fastest(speeds.push(next)) == Some(next) || fastest(speeds.push(next)) == fastest(speeds),
        fastest(speeds) matches Some(best) ==> {
            let stays = best.order is Some && next.order is Some && best.order->0 > next.order->0;
            &&& faster(best, next) <==> stays
            &&& stays ==> fastest(speeds.push(next)) == Some(best)
            &&& !stays ==> fastest(speeds.push(next)) == Some(next)
        },
{
    assert(speeds.push(next).drop_last() =~= speeds);
}

/// The cable that is shown is the first with something plugged in, or the first of
/// all where nothing is.
pub proof fn lemma_chosen_cable(buses: Seq<CableView>, k: int)
    ensures
        chosen_cable(buses) is None <==> buses.len() == 0,
        0 <= k < buses.len() && buses[k].detail is Some && (forall|j: int|
            0 <= j < k ==> (#[trigger] buses[j]).detail is None) ==> chosen_cable(buses) == Some(
            buses[k],
        ),
        buses.len() > 0 && (forall|j: int|
            0 <= j < buses.len() ==> (#[trigger] buses[j]).detail is None) ==> chosen_cable(buses)
            == Some(buses[0]),
    decreases buses.len(),
{
    if buses.len() > 0 {
        let d = buses.drop_last();
        let n = buses.len() - 1;
        lemma_chosen_cable(d, k);
        assert(forall|j: int| 0 <= j < n ==> d[j] == #[trigger] buses[j]);
        assert(buses[n] == buses.last());
        if forall|j: int| 0 <= j < buses.len() ==> (#[trigger] buses[j]).detail is None {
            assert forall|j: int| 0 <= j < d.len() implies (#[trigger] d[j]).detail is None by {
                assert(buses[j].detail is None);
            }
            assert(buses[n].detail is None);
        }
        if 0 <= k < buses.len() && buses[k].detail is Some && (forall|j: int|
            0 <= j < k ==> (#[trigger] buses[j]).detail is None) {
            assert forall|j: int| 0 <= j < k && j < n implies (#[trigger] d[j]).detail is None by {
                assert(buses[j].detail is None);
            }
            if k == n && n > 0 {
                assert(chosen_cable(d) == Some(d[0]));
                assert(d[0].detail is None);
            }
        }
    }
}

// ---- Windows ----

/// The kind of an adapter on Windows, and exactly when it is that.
pub proof fn lemma_windows_kinds(loopback: bool, lower: Seq<char>, empty: bool)
    ensures
        ({
            let kind = windows_kind(loopback, lower, empty);
            let cable = has_part(lower, "thunderbolt"@) || has_part(lower, "usb4"@);
            let air = has_part(lower, "wi-fi"@) || has_part(lower, "wireless"@) || has_part(
                lower,
                "802.11"@,
            );
            let tunnel = has_part(lower, "tap"@) || has_part(lower, "wintun"@) || has_part(
                lower,
                "wireguard"@,
            ) || has_part(lower, "vpn"@) || has_part(lower, "tailscale"@);
            &&& kind == LinkKind::Loopback <==> loopback
            &&& kind == LinkKind::ThunderboltOrUsb4 <==> !loopback && cable
            &&& kind == LinkKind::WiFi <==> !loopback && !cable && air
            &&& kind == LinkKind::Vpn <==> !loopback && !cable && !air && tunnel
            &&& kind == LinkKind::Ethernet <==> !loopback && !cable && !air && !tunnel && !empty
            &&& kind == LinkKind::Other <==> !loopback && !cable && !air && !tunnel && empty
            &&& kind != LinkKind::UsbLink
        }),
{
}

/// A link on Windows keeps the name and the addresses of its interface and is called
/// as its adapter is described. It has a cable exactly when its adapter is known and
/// is Thunderbolt or Ethernet, with the speed of the adapter.
pub proof fn lemma_windows_link(
    g: GroupedView,
    adapter: Option<AdapterView>,
    speed: Option<Speed>,
    desc: Seq<char>,
)
    requires
        adapter is Some ==> desc == adapter->0.description,
        adapter is None ==> desc.len() == 0,
    ensures
        ({
            let l = windows_link(g, adapter, speed);
            let lower = lowercase(desc);
            &&& l.interface == g.name
            &&& l.ips == g.ips
            &&& l.kind == windows_kind(g.loopback, lower, desc.len() == 0)
            &&& desc.len() > 0 ==> l.display == desc
            &&& desc.len() == 0 ==> l.display == g.name
            &&& l.cable is Some <==> adapter is Some && (l.kind == LinkKind::ThunderboltOrUsb4
                || l.kind == LinkKind::Ethernet)
            &&& l.cable is Some ==> {
                &&& l.cable->0.is_usb4 <==> has_part(lower, "usb4"@)
                &&& has_part(lower, "usb4"@) ==> l.cable->0.generation == Some("USB4"@)
                &&& !has_part(lower, "usb4"@) && has_part(lower, "thunderbolt"@)
                    ==> l.cable->0.generation == Some("Thunderbolt"@)
                &&& !has_part(lower, "usb4"@) && !has_part(lower, "thunderbolt"@)
                    ==> l.cable->0.generation is None
                &&& l.cable->0.max_speed_gbps == speed
                &&& l.cable->0.detail == Some(desc)
            }
        }),
{
    if adapter is None {
        assert(desc =~= Seq::empty());
    }
}

/// The adapters of a report are its items that have a name, in order.
pub proof fn lemma_adapters_of(list: Seq<Seq<char>>)
    ensures
        adapters_of(list) == list.map_values(|t: Seq<char>| adapter_in(t)).filter(
            |a: AdapterView| a.name.len() > 0,
        ),
    decreases list.len(),
{
    reveal(Seq::filter);
    let get = |t: Seq<char>| adapter_in(t);
    let named = |a: AdapterView| a.name.len() > 0;
    if list.len() == 0 {
        assert(adapters_of(list) =~= list.map_values(get).filter(named));
    } else {
        lemma_adapters_of(list.drop_last());
        assert(list.map_values(get).drop_last() =~= list.drop_last().map_values(get));
    }
}

/// An adapter has the name, the description and the speed that its item tells, and
/// nothing where it tells none.
pub proof fn lemma_adapter_in(item: Seq<char>, s: Seq<char>)
    ensures
        member_text(item, "Name"@) == Some(s) ==> adapter_in(item).name == s,
        member_text(item, "InterfaceDescription"@) == Some(s) ==> adapter_in(item).description == s,
        member_text(item, "LinkSpeed"@) == Some(s) ==> adapter_in(item).link_speed == s,
        member_text(item, "Name"@) is None ==> adapter_in(item).name.len() == 0,
        member_text(item, "InterfaceDescription"@) is None ==> adapter_in(item).description.len()
            == 0,
        member_text(item, "LinkSpeed"@) is None ==> adapter_in(item).link_speed.len() == 0,
        text_or_empty(item, "Name"@) == adapter_in(item).name,
        description_of(Some(adapter_in(item))) == adapter_in(item).description,
{
}

/// A report is a list of adapters or one adapter alone; without a report there is
/// none.
pub proof fn lemma_reported_adapters(bytes: Seq<u8>, list: Seq<Seq<char>>)
    ensures
        reported_adapters(None).len() == 0,
        items(lossy_text(bytes)) == Some(list) ==> reported_adapters(Some(bytes)) == adapters_of(
            list,
        ),
        items(lossy_text(bytes)) is None && adapter_in(lossy_text(bytes)).name.len() > 0
            ==> reported_adapters(Some(bytes)) == seq![adapter_in(lossy_text(bytes))],
        items(lossy_text(bytes)) is None && adapter_in(lossy_text(bytes)).name.len() == 0
            ==> reported_adapters(Some(bytes)).len() == 0,
{
    let one = seq![lossy_text(bytes)];
    assert(one.drop_last() =~= Seq::empty());
    assert(adapters_of(one.drop_last()) =~= Seq::empty());
    assert(one.last() == lossy_text(bytes));
    assert(seq![adapter_in(lossy_text(bytes))] =~= Seq::<AdapterView>::empty().push(
        adapter_in(lossy_text(bytes)),
    ));
}

/// The adapter of a name is the last one of that name.
pub proof fn lemma_last_adapter(list: Seq<AdapterView>, name: Seq<char>, k: int)
    ensures
        adapter_of(list, name) is None <==> forall|i: int|
            0 <= i < list.len() ==> (#[trigger] list[i]).name != name,
        0 <= k < list.len() && list[k].name == name && (forall|i: int|
            k < i < list.len() ==> (#[trigger] list[i]).name != name) ==> adapter_of(list, name)
            == Some(list[k]),
    decreases list.len(),
{
    if list.len() > 0 {
        let d = list.drop_last();
        lemma_last_adapter(d, name, k);
        assert(list[list.len() - 1] == list.last());
        assert(forall|i: int| 0 <= i < d.len() ==> d[i] == #[trigger] list[i]);
        if adapter_of(list, name) is None {
            assert forall|i: int| 0 <= i < list.len() implies (#[trigger] list[i]).name != name by {
                if i < d.len() {
                    assert(d[i].name != name);
                }
            }
        }
        if forall|i: int| 0 <= i < list.len() ==> (#[trigger] list[i]).name != name {
            assert forall|i: int| 0 <= i < d.len() implies (#[trigger] d[i]).name != name by {
                assert(list[i].name != name);
            }
        }
        if 0 <= k < d.len() && (forall|i: int|
            k < i < list.len() ==> (#[trigger] list[i]).name != name) {
            assert forall|i: int| k < i < d.len() implies (#[trigger] d[i]).name != name by {
                assert(list[i].name != name);
            }
        }
    }
}

/// A speed on Windows is in gigabits exactly when it says so, in megabits exactly when
/// it says that alone, and otherwise has no unit; its number is its first word, with
/// points for commas.
pub proof fn lemma_windows_speed(s: Seq<char>, i: int)
    ensures
        ({
            let lower = lowercase(s);
            let giga = has_part(lower, "gbps"@) || has_part(lower, "gb/s"@);
            let mega = has_part(lower, "mbps"@) || has_part(lower, "mb/s"@);
            let word = first_word(lower);
            &&& unit_of(s) == Some(Unit::Gigabit) <==> giga
            &&& unit_of(s) == Some(Unit::Megabit) <==> !giga && mega
            &&& unit_of(s) is None <==> !giga && !mega
            &&& numeral_of(s).len() == word.len()
            &&& 0 <= i < word.len() && word[i] == ',' ==> numeral_of(s)[i] == '.'
            &&& 0 <= i < word.len() && word[i] != ',' ==> numeral_of(s)[i] == word[i]
        }),
{
}

// ---- reports ----

/// The value of a key is that of the first member with this key.
pub proof fn lemma_value_of(members: Seq<MemberView>, key: Seq<char>, k: int)
    ensures
        value_of(members, key) is None <==> forall|i: int|
            0 <= i < members.len() ==> (#[trigger] members[i]).key != key,
        0 <= k < members.len() && members[k].key == key && (forall|i: int|
            0 <= i < k ==> (#[trigger] members[i]).key != key) ==> value_of(members, key) == Some(
            members[k].value,
        ),
{
    lemma_first_such(members, keyed(key));
    if 0 <= k < members.len() && members[k].key == key && (forall|i: int|
        0 <= i < k ==> (#[trigger] members[i]).key != key) {
        lemma_is_first(members, keyed(key), k);
    }
    if value_of(members, key) is None {
        assert forall|i: int| 0 <= i < members.len() implies (#[trigger] members[i]).key != key by {
            assert(!keyed(key)(members[i]));
        }
    }
}

/// Only an object has members, only a list has items, and only a text is a text.
pub proof fn lemma_node_parts(
    text: Seq<char>,
    key: Seq<char>,
    members: Seq<MemberView>,
    list: Seq<Seq<char>>,
    s: Seq<char>,
)
    ensures
        json_node(text) == Some(NodeView::Members(members)) ==> member(text, key) == value_of(
            members,
            key,
        ),
        member(text, key) is Some ==> (json_node(text) matches Some(NodeView::Members(_))),
        items(text) == Some(list) <==> json_node(text) == Some(NodeView::Items(list)),
        plain_text(text) == Some(s) <==> json_node(text) == Some(NodeView::Text(s)),
        member_text(text, key) == Some(s) <==> member(text, key) is Some && plain_text(
            member(text, key)->0,
        ) == Some(s),
        member_items(text, key) == Some(list) <==> member(text, key) is Some && items(
            member(text, key)->0,
        ) == Some(list),
{
}

} // verus!
