//! Link detection on macOS, from what the system's tools report.
//!
//! - `networksetup -listallhardwareports` maps interfaces (en0, bridge0…) to
//!   human names ("Wi-Fi", "Thunderbolt Bridge") for classification.
//! - `system_profiler SPThunderboltDataType -json` reports each Thunderbolt /
//!   USB4 bus: whether a device is attached, and the negotiated receptacle
//!   speed, which gives the cable's max speed and USB4 yes/no.

use vstd::prelude::*;
use vstd::utf8::encode_utf8;

use crate::link::json::{
    get_member_items, get_member_text, get_text, json_node, look, member_items, member_text,
    member_views, plain_text, MemberView, Node, NodeView, MAX_DEPTH,
};
use crate::link::{
    copy_text, groups, link_views, opt_cable, opt_text, CableInfo, CableView, Grouped, GroupedView,
    Link, LinkKind, LinkView, Speed,
};
use crate::net::{is_tunnel, tunnel_name};
use crate::text::{
    add_line, contains, first_at, from_chars, from_utf8, from_utf8_lossy, has_part,
    has_prefix, is_digit, join_texts, joined, lossy_text, lowercase, no_lines, position, same, split,
    split_text, starts_with, texts, to_chars, to_lower, trim, trim_back, trimmed, white,
};

verus! {

// ---- names of interfaces ----

/// The name of a hardware port and the device that it is.
#[derive(Debug)]
pub struct Port {
    pub device: String,
    pub port: String,
}

/// The same, as contracts see it.
pub struct PortView {
    pub device: Seq<char>,
    pub port: Seq<char>,
}

impl View for Port {
    type V = PortView;

    open spec fn view(&self) -> PortView {
        PortView { device: self.device@, port: self.port@ }
    }
}

/// Ports, as contracts see them.
pub open spec fn ports(list: Seq<Port>) -> Seq<PortView> {
    list.map_values(|p: Port| p@)
}

/// What a line holds behind its title.
pub open spec fn behind(line: Seq<char>, title: Seq<char>) -> Option<Seq<char>> {
    if has_prefix(line, title) {
        Some(trimmed(line.skip(title.len() as int)))
    } else {
        None
    }
}

/// The port that was named last and has no device yet, and the ports that have
/// one, after these lines of the report.
pub open spec fn ports_read(lines: Seq<Seq<char>>) -> (Option<Seq<char>>, Seq<PortView>)
    decreases lines.len(),
{
    if lines.len() == 0 {
        (None, Seq::empty())
    } else {
        let before = ports_read(lines.drop_last());
        let line = lines.last();
        match behind(line, "Hardware Port: "@) {
            Some(port) => (Some(port), before.1),
            None => match (behind(line, "Device: "@), before.0) {
                (Some(device), Some(port)) => (None, before.1.push(PortView { device, port })),
                _ => before,
            },
        }
    }
}

/// The port of a device: the last one that was reported.
pub open spec fn port_of(list: Seq<PortView>, device: Seq<char>) -> Option<Seq<char>>
    decreases list.len(),
{
    if list.len() == 0 {
        None
    } else if list.last().device == device {
        Some(list.last().port)
    } else {
        port_of(list.drop_last(), device)
    }
}

fn read_behind(line: &str, title: &str) -> (r: Option<String>)
    ensures
        opt_text(r) == behind(line@, title@),
{
    if !starts_with(line, title) {
        return None;
    }
    let chars = to_chars(line);
    let n: usize = to_chars(title).len();
    let rest = from_chars(&chars, n, chars.len());
    assert(chars@.subrange(n as int, chars@.len() as int) =~= line@.skip(n as int));
    Some(trim(rest.as_str()))
}

/// Reads the report of the hardware ports.
pub fn parse_ports(text: &str) -> (r: Vec<Port>)
    ensures
        ports(r@) == ports_read(split(text@, '\n')).1,
{
    let lines = split_text(text, '\n');
    let ghost all = texts(lines@);
    let mut current: Option<String> = None;
    let mut out: Vec<Port> = Vec::new();
    let mut i: usize = 0;
    assert(all.take(0) =~= Seq::<Seq<char>>::empty());
    assert(ports(out@) =~= ports_read(all.take(0)).1);
    while i < lines.len()
        invariant
            i <= lines@.len(),
            all == texts(lines@),
            opt_text(current) == ports_read(all.take(i as int)).0,
            ports(out@) == ports_read(all.take(i as int)).1,
        decreases lines@.len() - i,
    {
        assert(all.take(i + 1).drop_last() =~= all.take(i as int));
        assert(all.take(i + 1).last() == lines@[i as int]@);
        let line = lines[i].as_str();
        match read_behind(line, "Hardware Port: ") {
            Some(port) => {
                current = Some(port);
            },
            None => {
                if let Some(device) = read_behind(line, "Device: ") {
                    match current {
                        Some(port) => {
                            let ghost before = out@;
                            out.push(Port { device, port });
                            assert(ports(out@) =~= ports(before).push(out@.last()@));
                            current = None;
                        },
                        None => {
                            current = None;
                        },
                    }
                }
            },
        }
        i = i + 1;
    }
    assert(all.take(all.len() as int) =~= all);
    out
}

/// The ports that the tool reported; none where it could not be run.
pub fn hardware_ports(output: Option<Vec<u8>>) -> (r: Vec<Port>)
    ensures
        ports(r@) == match output {
            Some(bytes) => ports_read(split(lossy_text(bytes@), '\n')).1,
            None => Seq::empty(),
        },
{
    match output {
        Some(bytes) => parse_ports(from_utf8_lossy(bytes.as_slice()).as_str()),
        None => {
            let none: Vec<Port> = Vec::new();
            assert(ports(none@) =~= Seq::<PortView>::empty());
            none
        },
    }
}

/// The port of a device.
pub fn find_port(list: &Vec<Port>, device: &str) -> (r: Option<String>)
    ensures
        opt_text(r) == port_of(ports(list@), device@),
{
    let ghost all = ports(list@);
    let mut n: usize = list.len();
    assert(all.take(n as int) =~= all);
    while n > 0
        invariant
            n <= list@.len(),
            all == ports(list@),
            port_of(all, device@) == port_of(all.take(n as int), device@),
        decreases n,
    {
        n = n - 1;
        assert(all.take(n + 1).drop_last() =~= all.take(n as int));
        assert(all.take(n + 1).last() == list@[n as int]@);
        if same(list[n].device.as_str(), device) {
            return Some(list[n].port.clone());
        }
    }
    None
}

/// What the USB report says when another Mac is attached as a USB device.
pub const MAC_PRODUCT: &'static str = "\"USB Product Name\" = \"Mac\"";

/// Is another Mac attached as a USB device? That is what the Mac-to-Mac USB-C
/// connection shows up as.
pub fn mac_usb_device_present(output: Option<Vec<u8>>) -> (r: bool)
    ensures
        r == match output {
            Some(bytes) => has_part(lossy_text(bytes@), MAC_PRODUCT@),
            None => false,
        },
{
    match output {
        Some(bytes) => contains(from_utf8_lossy(bytes.as_slice()).as_str(), MAC_PRODUCT),
        None => false,
    }
}

// ---- classification ----

/// The kind of an interface: by its loopback address, then by the name of a
/// tunnel, then by what its port is called. macOS creates an unnamed network
/// interface when another Mac is attached over a plain USB-C data cable.
pub open spec fn mac_kind(
    name: Seq<char>,
    port: Option<Seq<char>>,
    loopback: bool,
    mac_usb: bool,
) -> LinkKind {
    let shown = match port {
        Some(p) => p,
        None => name,
    };
    let lower = lowercase(shown);
    if loopback {
        LinkKind::Loopback
    } else if tunnel_name(name) {
        LinkKind::Vpn
    } else if has_part(lower, "thunderbolt"@) {
        LinkKind::ThunderboltOrUsb4
    } else if has_part(lower, "wi-fi"@) || has_part(lower, "airport"@) {
        LinkKind::WiFi
    } else if has_part(lower, "ethernet"@) || has_part(lower, "lan"@) {
        LinkKind::Ethernet
    } else if port is None && has_prefix(name, "en"@) && mac_usb {
        LinkKind::UsbLink
    } else {
        LinkKind::Other
    }
}

/// The kind of an interface.
pub fn classify(name: &str, port: &Option<String>, loopback: bool, mac_usb: bool) -> (r: LinkKind)
    ensures
        r == mac_kind(name@, opt_text(*port), loopback, mac_usb),
{
    if loopback {
        return LinkKind::Loopback;
    }
    if is_tunnel(name) {
        return LinkKind::Vpn;
    }
    let lower = match port {
        Some(p) => to_lower(p.as_str()),
        None => to_lower(name),
    };
    if contains(lower.as_str(), "thunderbolt") {
        LinkKind::ThunderboltOrUsb4
    } else if contains(lower.as_str(), "wi-fi") || contains(lower.as_str(), "airport") {
        LinkKind::WiFi
    } else if contains(lower.as_str(), "ethernet") || contains(lower.as_str(), "lan") {
        LinkKind::Ethernet
    } else if port.is_none() && starts_with(name, "en") && mac_usb {
        LinkKind::UsbLink
    } else {
        LinkKind::Other
    }
}

/// The link of an interface.
pub open spec fn mac_link(
    g: GroupedView,
    port: Option<Seq<char>>,
    mac_usb: bool,
    thunderbolt: Option<CableView>,
) -> LinkView {
    let kind = mac_kind(g.name, port, g.loopback, mac_usb);
    LinkView {
        interface: g.name,
        display: if kind is UsbLink {
            "USB-C link (Mac)"@
        } else {
            match port {
                Some(p) => p,
                None => g.name,
            }
        },
        kind,
        ips: g.ips,
        cable: match kind {
            LinkKind::ThunderboltOrUsb4 => thunderbolt,
            LinkKind::UsbLink => Some(
                CableView {
                    is_usb4: false,
                    generation: Some("USB-C data cable (not Thunderbolt)"@),
                    max_speed_gbps: None,
                    detail: Some("Mac-to-Mac USB link"@),
                },
            ),
            _ => None,
        },
    }
}

/// The link of an interface, given the ports, whether another Mac is attached,
/// and the Thunderbolt cable.
pub fn describe(
    iface: Grouped,
    port_list: &Vec<Port>,
    mac_usb: bool,
    thunderbolt: &Option<CableInfo>,
) -> (r: Link)
    ensures
        r@ == mac_link(
            iface@,
            port_of(ports(port_list@), iface.name@),
            mac_usb,
            opt_cable(*thunderbolt),
        ),
{
    let port = find_port(port_list, iface.name.as_str());
    let kind = classify(iface.name.as_str(), &port, iface.loopback, mac_usb);
    let display = if kind == LinkKind::UsbLink {
        "USB-C link (Mac)".to_string()
    } else {
        match &port {
            Some(p) => p.clone(),
            None => iface.name.clone(),
        }
    };
    let cable: Option<CableInfo> = match kind {
        LinkKind::ThunderboltOrUsb4 => match thunderbolt {
            Some(c) => Some(c.clone()),
            None => None,
        },
        LinkKind::UsbLink => Some(
            CableInfo {
                is_usb4: false,
                generation: Some("USB-C data cable (not Thunderbolt)".to_string()),
                max_speed_gbps: None,
                detail: Some("Mac-to-Mac USB link".to_string()),
            },
        ),
        _ => None,
    };
    Link { interface: iface.name, display, kind, ips: iface.ips, cable }
}

/// The links of the machine, one for each interface.
pub fn detect(
    found: Vec<Grouped>,
    port_list: &Vec<Port>,
    mac_usb: bool,
    thunderbolt: &Option<CableInfo>,
) -> (r: Vec<Link>)
    ensures
        link_views(r@) == groups(found@).map_values(
            |g: GroupedView|
                mac_link(
                    g,
                    port_of(ports(port_list@), g.name),
                    mac_usb,
                    opt_cable(*thunderbolt),
                ),
        ),
{
    let ghost link = |g: GroupedView|
        mac_link(g, port_of(ports(port_list@), g.name), mac_usb, opt_cable(*thunderbolt));
    let ghost target = groups(found@).map_values(link);
    let mut out: Vec<Link> = Vec::new();
    for g in it: found
        invariant
            it.seq() == found@,
            link == (|g: GroupedView|
                mac_link(g, port_of(ports(port_list@), g.name), mac_usb, opt_cable(*thunderbolt))),
            target == groups(found@).map_values(link),
            link_views(out@) =~= target.take(it.index() as int),
    {
        let ghost before = out@;
        let ghost k = it.index() as int;
        assert(target[k] == link(g@));
        out.push(describe(g, port_list, mac_usb, thunderbolt));
        assert(link_views(out@) =~= link_views(before).push(target[k]));
    }
    assert(target.take(target.len() as int) =~= target);
    out
}

// ---- the Thunderbolt report ----

/// A character of a decimal number.
pub open spec fn number_char(c: char) -> bool {
    is_digit(c) || c == '.'
}

/// The number that a text ends with, if any.
pub open spec fn tail_number(s: Seq<char>) -> Seq<char>
    decreases s.len(),
{
    if s.len() == 0 || !number_char(s.last()) {
        Seq::empty()
    } else {
        tail_number(s.drop_last()).push(s.last())
    }
}

/// Where the unit stands in a text in lower case like "up to 40 gb/s x1".
pub open spec fn unit_at(lower: Seq<char>) -> Option<int> {
    match first_at(lower, "gb/s"@) {
        Some(i) => Some(i),
        None => first_at(lower, "gbps"@),
    }
}

/// The start of a text that takes so many bytes, if the text can be cut there.
pub open spec fn cut_at(s: Seq<char>, bytes: nat) -> Option<Seq<char>>
    decreases s.len(),
{
    if encode_utf8(s).len() == bytes {
        Some(s)
    } else if s.len() == 0 {
        None
    } else {
        cut_at(s.drop_last(), bytes)
    }
}

/// The numeral before the unit in a text like "Up to 40 Gb/s x1"; empty where
/// there is a unit but no numeral. `lower` is the text in lower case. The text is cut
/// after as many bytes as stand before the unit in `lower`; where it cannot be cut
/// there, there is no numeral.
#[verifier::opaque]
pub open spec fn numeral_by(s: Seq<char>, lower: Seq<char>) -> Option<Seq<char>> {
    match unit_at(lower) {
        Some(i) => match cut_at(s, encode_utf8(lower.take(i)).len()) {
            Some(head) => Some(tail_number(trim_back(head))),
            None => None,
        },
        None => None,
    }
}

/// The numeral before the unit in a text like "Up to 40 Gb/s x1".
pub open spec fn gbps_numeral(s: Seq<char>) -> Option<Seq<char>> {
    numeral_by(s, lowercase(s))
}

/// How many characters of a text take so many bytes.
fn find_cut(chars: &Vec<char>, bytes: usize) -> (r: Option<usize>)
    ensures
        match cut_at(chars@, bytes as nat) {
            Some(head) => r matches Some(n) && n <= chars@.len() && head == chars@.take(n as int),
            None => r is None,
        },
{
    let mut n: usize = chars.len();
    assert(chars@.take(n as int) =~= chars@);
    loop
        invariant
            n <= chars@.len(),
            cut_at(chars@, bytes as nat) == cut_at(chars@.take(n as int), bytes as nat),
        decreases n,
    {
        let head = from_chars(chars, 0, n);
        assert(head@ =~= chars@.take(n as int));
        if head.as_str().as_bytes().len() == bytes {
            return Some(n);
        }
        if n == 0 {
            return None;
        }
        assert(chars@.take(n as int).drop_last() =~= chars@.take(n - 1));
        n = n - 1;
    }
}

fn numeral_before(chars: &Vec<char>, at: usize) -> (r: String)
    requires
        at <= chars@.len(),
    ensures
        r@ == tail_number(trim_back(chars@.take(at as int))),
{
    let ghost prefix = chars@.take(at as int);
    let mut to: usize = at;
    while to > 0 && white(chars[to - 1])
        invariant
            to <= at <= chars@.len(),
            trim_back(prefix) == trim_back(chars@.take(to as int)),
        decreases to,
    {
        assert(chars@.take(to as int).drop_last() =~= chars@.take(to - 1));
        to = to - 1;
    }
    let ghost cut = trim_back(prefix);
    assert(cut =~= chars@.take(to as int));
    let mut from: usize = to;
    assert(tail_number(cut) + chars@.subrange(to as int, to as int) =~= tail_number(cut));
    while from > 0 && is_number_char(chars[from - 1])
        invariant
            from <= to <= chars@.len(),
            tail_number(cut) == tail_number(chars@.take(from as int)) + chars@.subrange(
                from as int,
                to as int,
            ),
        decreases from,
    {
        let ghost now = chars@.take(from as int);
        assert(now.drop_last() =~= chars@.take(from - 1));
        assert(tail_number(now.drop_last()).push(now.last()) + chars@.subrange(
            from as int,
            to as int,
        ) =~= tail_number(chars@.take(from - 1)) + chars@.subrange(from - 1, to as int));
        from = from - 1;
    }
    assert(tail_number(chars@.take(from as int)) =~= Seq::<char>::empty());
    assert(tail_number(cut) =~= chars@.subrange(from as int, to as int));
    from_chars(chars, from, to)
}

fn numeral_at(chars: &Vec<char>, lower: &Vec<char>, at: usize) -> (r: Option<String>)
    requires
        at <= lower@.len(),
    ensures
        opt_text(r) == match cut_at(chars@, encode_utf8(lower@.take(at as int)).len()) {
            Some(head) => Some(tail_number(trim_back(head))),
            None => None,
        },
{
    let before = from_chars(lower, 0, at);
    assert(before@ =~= lower@.take(at as int));
    match find_cut(chars, before.as_str().as_bytes().len()) {
        Some(n) => Some(numeral_before(chars, n)),
        None => None,
    }
}

/// Extracts the numeral from texts like "Up to 40 Gb/s x1", given the text in lower
/// case.
pub fn numeral_in(s: &str, lower: &str) -> (r: Option<String>)
    ensures
        opt_text(r) == numeral_by(s@, lower@),
{
    proof {
        reveal(numeral_by);
    }
    let chars = to_chars(s);
    let low = to_chars(lower);
    match position(&low, "gb/s") {
        Some(i) => numeral_at(&chars, &low, i),
        None => match position(&low, "gbps") {
            Some(i) => numeral_at(&chars, &low, i),
            None => None,
        },
    }
}

/// Extracts the numeral from texts like "Up to 40 Gb/s x1".
pub fn parse_gbps(s: &str) -> (r: Option<String>)
    ensures
        opt_text(r) == gbps_numeral(s@),
{
    numeral_in(s, to_lower(s).as_str())
}

fn is_number_char(c: char) -> (r: bool)
    ensures
        r == number_char(c),
{
    ('0' <= c && c <= '9') || c == '.'
}

/// The numeral of one member of a report, where its key speaks of a speed and its
/// value is a text.
pub open spec fn member_speed(key: Seq<char>, value: Option<Seq<char>>) -> Seq<Seq<char>> {
    if has_part(lowercase(key), "speed"@) {
        match value {
            Some(s) => match gbps_numeral(s) {
                Some(n) => seq![n],
                None => Seq::empty(),
            },
            None => Seq::empty(),
        }
    } else {
        Seq::empty()
    }
}

/// All numerals of speeds in a JSON text, in its order, down to `depth` levels.
pub open spec fn speeds_in(text: Seq<char>, depth: nat) -> Seq<Seq<char>>
    decreases depth, 0nat,
{
    if depth == 0 {
        Seq::empty()
    } else {
        match json_node(text) {
            Some(NodeView::Members(list)) => speeds_in_members(list, (depth - 1) as nat),
            Some(NodeView::Items(list)) => speeds_in_items(list, (depth - 1) as nat),
            _ => Seq::empty(),
        }
    }
}

/// All numerals of speeds in the members of an object.
pub open spec fn speeds_in_members(list: Seq<MemberView>, depth: nat) -> Seq<Seq<char>>
    decreases depth, list.len() + 1,
{
    if list.len() == 0 {
        Seq::empty()
    } else {
        speeds_in_members(list.drop_last(), depth) + member_speed(
            list.last().key,
            plain_text(list.last().value),
        ) + speeds_in(list.last().value, depth)
    }
}

/// All numerals of speeds in a list.
pub open spec fn speeds_in_items(list: Seq<Seq<char>>, depth: nat) -> Seq<Seq<char>>
    decreases depth, list.len() + 1,
{
    if list.len() == 0 {
        Seq::empty()
    } else {
        speeds_in_items(list.drop_last(), depth) + speeds_in(list.last(), depth)
    }
}

/// Takes the numeral of one member of a report, where its key speaks of a speed.
pub fn note_speed(key: &str, value: Option<String>, out: &mut Vec<String>)
    ensures
        texts(final(out)@) == texts(old(out)@) + member_speed(key@, opt_text(value)),
{
    let ghost before = texts(out@);
    if contains(to_lower(key).as_str(), "speed") {
        if let Some(s) = value {
            if let Some(n) = parse_gbps(s.as_str()) {
                add_line(out, n);
            }
        }
    }
    assert(texts(out@) =~= before + member_speed(key@, opt_text(value)));
}

/// Collects the numerals of speeds ("40" of "Up to 40 Gb/s x1") from a JSON text.
pub fn scan_speeds(text: &str, depth: u32, out: &mut Vec<String>)
    ensures
        texts(final(out)@) == texts(old(out)@) + speeds_in(text@, depth as nat),
    decreases depth,
{
    let ghost start = texts(out@);
    assert(start + Seq::<Seq<char>>::empty() =~= start);
    if depth == 0 {
        return;
    }
    let below: u32 = depth - 1;
    match look(text) {
        Some(Node::Members(list)) => {
            let ghost all = member_views(list@);
            let mut i: usize = 0;
            assert(all.take(0) =~= Seq::<MemberView>::empty());
            while i < list.len()
                invariant
                    i <= list@.len(),
                    below == depth - 1,
                    depth > 0,
                    all == member_views(list@),
                    texts(out@) == start + speeds_in_members(all.take(i as int), below as nat),
                decreases list@.len() - i,
            {
                let ghost now = all.take(i + 1);
                assert(now.drop_last() =~= all.take(i as int));
                assert(now.last() == list@[i as int]@);
                let value = get_text(list[i].value.as_str());
                note_speed(list[i].key.as_str(), value, out);
                scan_speeds(list[i].value.as_str(), below, out);
                assert(texts(out@) =~= start + speeds_in_members(now, below as nat));
                i = i + 1;
            }
            assert(all.take(all.len() as int) =~= all);
        },
        Some(Node::Items(list)) => {
            let ghost all = texts(list@);
            let mut i: usize = 0;
            assert(all.take(0) =~= Seq::<Seq<char>>::empty());
            while i < list.len()
                invariant
                    i <= list@.len(),
                    below == depth - 1,
                    depth > 0,
                    all == texts(list@),
                    texts(out@) == start + speeds_in_items(all.take(i as int), below as nat),
                decreases list@.len() - i,
            {
                let ghost now = all.take(i + 1);
                assert(now.drop_last() =~= all.take(i as int));
                assert(now.last() == list@[i as int]@);
                scan_speeds(list[i].as_str(), below, out);
                assert(texts(out@) =~= start + speeds_in_items(now, below as nat));
                i = i + 1;
            }
            assert(all.take(all.len() as int) =~= all);
        },
        _ => {},
    }
}

/// What a bus of the report says.
#[derive(Debug)]
pub struct Bus {
    pub is_usb4: bool,
    pub generation: Option<String>,
    /// The devices that are plugged in.
    pub devices: Vec<String>,
    /// The numerals of its speeds.
    pub numerals: Vec<String>,
}

/// The same, as contracts see it.
pub struct BusView {
    pub is_usb4: bool,
    pub generation: Option<Seq<char>>,
    pub devices: Seq<Seq<char>>,
    pub numerals: Seq<Seq<char>>,
}

impl View for Bus {
    type V = BusView;

    open spec fn view(&self) -> BusView {
        BusView {
            is_usb4: self.is_usb4,
            generation: opt_text(self.generation),
            devices: texts(self.devices@),
            numerals: texts(self.numerals@),
        }
    }
}

/// Buses, as contracts see them.
pub open spec fn bus_views(list: Seq<Bus>) -> Seq<BusView> {
    list.map_values(|b: Bus| b@)
}

/// A bus that runs as USB4: its name or anything in its text says so.
pub open spec fn says_usb4(name: Seq<char>, text: Seq<char>) -> bool {
    has_part(lowercase(name), "usb4"@) || has_part(lowercase(text), "usb4"@)
}

/// What a bus of this name is.
pub open spec fn generation_of(name: Seq<char>, text: Seq<char>) -> Option<Seq<char>> {
    if says_usb4(name, text) {
        Some("USB4"@)
    } else if has_part(lowercase(name), "thunderbolt"@) {
        Some("Thunderbolt"@)
    } else {
        None
    }
}

/// The names of items, those that have one.
pub open spec fn item_names(list: Seq<Seq<char>>) -> Seq<Seq<char>>
    decreases list.len(),
{
    if list.len() == 0 {
        Seq::empty()
    } else {
        match member_text(list.last(), "_name"@) {
            Some(s) => item_names(list.drop_last()).push(s),
            None => item_names(list.drop_last()),
        }
    }
}

/// What the JSON text of a bus says.
pub open spec fn bus_of(text: Seq<char>) -> BusView {
    let name = match member_text(text, "_name"@) {
        Some(s) => s,
        None => Seq::empty(),
    };
    BusView {
        is_usb4: says_usb4(name, text),
        generation: generation_of(name, text),
        devices: match member_items(text, "_items"@) {
            Some(list) => item_names(list),
            None => Seq::empty(),
        },
        numerals: speeds_in(text, MAX_DEPTH as nat),
    }
}

fn read_names(list: &Vec<String>) -> (r: Vec<String>)
    ensures
        texts(r@) == item_names(texts(list@)),
{
    let ghost all = texts(list@);
    let mut out = no_lines();
    let mut i: usize = 0;
    assert(all.take(0) =~= Seq::<Seq<char>>::empty());
    while i < list.len()
        invariant
            i <= list@.len(),
            all == texts(list@),
            texts(out@) == item_names(all.take(i as int)),
        decreases list@.len() - i,
    {
        assert(all.take(i + 1).drop_last() =~= all.take(i as int));
        assert(all.take(i + 1).last() == list@[i as int]@);
        if let Some(s) = get_member_text(list[i].as_str(), "_name") {
            add_line(&mut out, s);
        }
        i = i + 1;
    }
    assert(all.take(all.len() as int) =~= all);
    out
}

/// What a bus is, from its name, its text, its devices and its speeds.
pub fn describe_bus(
    name: &str,
    text: &str,
    devices: Vec<String>,
    numerals: Vec<String>,
) -> (r: Bus)
    ensures
        r@ == (BusView {
            is_usb4: says_usb4(name@, text@),
            generation: generation_of(name@, text@),
            devices: texts(devices@),
            numerals: texts(numerals@),
        }),
{
    let lower = to_lower(name);
    let is_usb4 = contains(lower.as_str(), "usb4") || contains(to_lower(text).as_str(), "usb4");
    let generation = if is_usb4 {
        Some("USB4".to_string())
    } else if contains(lower.as_str(), "thunderbolt") {
        Some("Thunderbolt".to_string())
    } else {
        None
    };
    Bus { is_usb4, generation, devices, numerals }
}

/// Reads one bus of the report.
pub fn read_bus(text: &str) -> (r: Bus)
    ensures
        r@ == bus_of(text@),
{
    let name = match get_member_text(text, "_name") {
        Some(s) => s,
        None => {
            let s = String::new();
            assert(s@ =~= Seq::<char>::empty());
            s
        },
    };
    let devices = match get_member_items(text, "_items") {
        Some(list) => read_names(&list),
        None => no_lines(),
    };
    let mut numerals = no_lines();
    scan_speeds(text, MAX_DEPTH, &mut numerals);
    assert(texts(numerals@) =~= speeds_in(text@, MAX_DEPTH as nat));
    describe_bus(name.as_str(), text, devices, numerals)
}

/// The JSON texts of the buses of a report.
pub open spec fn buses_of(output: Option<Seq<u8>>) -> Option<Seq<Seq<char>>> {
    match output {
        Some(bytes) => if vstd::utf8::valid_utf8(bytes) {
            member_items(vstd::utf8::decode_utf8(bytes), "SPThunderboltDataType"@)
        } else {
            None
        },
        None => None,
    }
}

/// Reads the buses of a report, from what the tool printed; nothing where it could
/// not be run or printed something else.
pub fn read_report(output: Option<Vec<u8>>) -> (r: Option<Vec<Bus>>)
    ensures
        match buses_of(
            match output {
                Some(bytes) => Some(bytes@),
                None => None,
            },
        ) {
            Some(list) => r matches Some(v) && bus_views(v@) == list.map_values(
                |t: Seq<char>| bus_of(t),
            ),
            None => r is None,
        },
{
    let text = match output {
        Some(bytes) => match from_utf8(bytes) {
            Some(s) => s,
            None => {
                return None;
            },
        },
        None => {
            return None;
        },
    };
    match get_member_items(text.as_str(), "SPThunderboltDataType") {
        Some(list) => {
            let ghost target = texts(list@).map_values(|t: Seq<char>| bus_of(t));
            let mut out: Vec<Bus> = Vec::new();
            let mut i: usize = 0;
            while i < list.len()
                invariant
                    i <= list@.len(),
                    target == texts(list@).map_values(|t: Seq<char>| bus_of(t)),
                    bus_views(out@) =~= target.take(i as int),
                decreases list@.len() - i,
            {
                let ghost before = out@;
                out.push(read_bus(list[i].as_str()));
                assert(bus_views(out@) =~= bus_views(before).push(target[i as int]));
                i = i + 1;
            }
            assert(target.take(target.len() as int) =~= target);
            Some(out)
        },
        None => None,
    }
}

/// A speed that is greater than another.
pub open spec fn faster(a: Speed, b: Speed) -> bool {
    a.order matches Some(x) && b.order matches Some(y) && x > y
}

/// The fastest of these speeds, the last one where several are equal.
pub open spec fn fastest(speeds: Seq<Speed>) -> Option<Speed>
    decreases speeds.len(),
{
    if speeds.len() == 0 {
        None
    } else {
        match fastest(speeds.drop_last()) {
            Some(best) => if faster(best, speeds.last()) {
                Some(best)
            } else {
                Some(speeds.last())
            },
            None => Some(speeds.last()),
        }
    }
}

fn is_faster(a: &Speed, b: &Speed) -> (r: bool)
    ensures
        r == faster(*a, *b),
{
    match (a.order, b.order) {
        (Some(x), Some(y)) => x > y,
        _ => false,
    }
}

fn find_fastest(speeds: &Vec<Speed>) -> (r: Option<Speed>)
    ensures
        r == fastest(speeds@),
{
    let mut best: Option<Speed> = None;
    let mut i: usize = 0;
    assert(speeds@.take(0) =~= Seq::<Speed>::empty());
    while i < speeds.len()
        invariant
            i <= speeds@.len(),
            best == fastest(speeds@.take(i as int)),
        decreases speeds@.len() - i,
    {
        assert(speeds@.take(i + 1).drop_last() =~= speeds@.take(i as int));
        let keep = match &best {
            Some(b) => is_faster(b, &speeds[i]),
            None => false,
        };
        if !keep {
            best = Some(speeds[i].clone());
        }
        i = i + 1;
    }
    assert(speeds@.take(speeds@.len() as int) =~= speeds@);
    best
}

/// What a bus says of the cable; `speeds` are its numerals, those that are
/// numbers.
pub fn bus_cable(bus: &Bus, speeds: &Vec<Speed>) -> (r: CableInfo)
    ensures
        r@ == (CableView {
            is_usb4: bus.is_usb4,
            generation: opt_text(bus.generation),
            max_speed_gbps: fastest(speeds@),
            detail: if bus.devices@.len() > 0 {
                Some("connected: "@ + joined(texts(bus.devices@), ", "@))
            } else {
                None
            },
        }),
{
    let detail = if bus.devices.len() > 0 {
        let mut s = "connected: ".to_string();
        s.append(join_texts(&bus.devices, ", ").as_str());
        Some(s)
    } else {
        None
    };
    CableInfo {
        is_usb4: bus.is_usb4,
        generation: copy_text(&bus.generation),
        max_speed_gbps: find_fastest(speeds),
        detail,
    }
}

/// The cable of the machine: the first bus with something plugged in, or else
/// the first bus.
pub open spec fn chosen_cable(buses: Seq<CableView>) -> Option<CableView>
    decreases buses.len(),
{
    if buses.len() == 0 {
        None
    } else {
        match chosen_cable(buses.drop_last()) {
            Some(best) => if buses.last().detail is Some && best.detail is None {
                Some(buses.last())
            } else {
                Some(best)
            },
            None => Some(buses.last()),
        }
    }
}

/// Cables, as contracts see them.
pub open spec fn cable_views(list: Seq<CableInfo>) -> Seq<CableView> {
    list.map_values(|c: CableInfo| c@)
}

/// The cable of the machine: prefers a bus with something plugged in, otherwise
/// keeps any bus.
pub fn choose_cable(buses: Vec<CableInfo>) -> (r: Option<CableInfo>)
    ensures
        opt_cable(r) == chosen_cable(cable_views(buses@)),
{
    let ghost all = cable_views(buses@);
    let mut best: Option<CableInfo> = None;
    let mut i: usize = 0;
    assert(all.take(0) =~= Seq::<CableView>::empty());
    while i < buses.len()
        invariant
            i <= buses@.len(),
            all == cable_views(buses@),
            opt_cable(best) == chosen_cable(all.take(i as int)),
        decreases buses@.len() - i,
    {
        assert(all.take(i + 1).drop_last() =~= all.take(i as int));
        assert(all.take(i + 1).last() == buses@[i as int]@);
        let replace = match &best {
            None => true,
            Some(b) => buses[i].detail.is_some() && b.detail.is_none(),
        };
        if replace {
            best = Some(buses[i].clone());
        }
        i = i + 1;
    }
    assert(all.take(all.len() as int) =~= all);
    best
}

/// A bus with something plugged in is preferred: when there is one, the choice is
/// one.
pub proof fn lemma_plugged_in_wins(buses: Seq<CableView>, k: int)
    requires
        0 <= k < buses.len(),
        buses[k].detail is Some,
    ensures
        chosen_cable(buses) matches Some(c) && c.detail is Some,
    decreases buses.len(),
{
    if k < buses.len() - 1 {
        lemma_plugged_in_wins(buses.drop_last(), k);
    }
}

} // verus!
