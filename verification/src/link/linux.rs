//! Link detection on Linux, from what sysfs holds.
//!
//! - Interfaces are told apart by /sys/class/net/<if>: the `wireless` directory
//!   marks Wi-Fi, the device driver symlink identifies thunderbolt-net.
//! - The cable is read from /sys/bus/thunderbolt/devices/*: `generation`
//!   ("USB4" / "Thunderbolt 3" / …) and `rx_speed`/`tx_speed` ("40.0 Gb/s").

use vstd::prelude::*;

use crate::link::{
    link_views, opt_cable, opt_text, CableInfo, CableView, Grouped, GroupedView, Link, LinkKind, LinkView,
    Speed,
};
use crate::text::{
    contains, dec, dec_u64, digits_value, first_word, has_part, has_prefix, is_digit, lowercase,
    starts_with, to_chars, to_lower, trim, trimmed, word,
};

verus! {

// ---- classification ----

/// The name of a tunnel on Linux.
pub open spec fn linux_tunnel(name: Seq<char>) -> bool {
    ||| has_prefix(name, "tun"@)
    ||| has_prefix(name, "tap"@)
    ||| has_prefix(name, "wg"@)
    ||| has_prefix(name, "ppp"@)
    ||| has_prefix(name, "utun"@)
}

/// The kind of an interface. `driver` is the name of its driver, empty where it
/// has none; `wireless` and `device` tell whether it has those directories.
pub open spec fn linux_kind(
    name: Seq<char>,
    loopback: bool,
    driver: Seq<char>,
    wireless: bool,
    device: bool,
) -> LinkKind {
    if loopback {
        LinkKind::Loopback
    } else if linux_tunnel(name) {
        LinkKind::Vpn
    } else if has_part(driver, "thunderbolt"@) || has_prefix(name, "tb"@) {
        LinkKind::ThunderboltOrUsb4
    } else if wireless {
        LinkKind::WiFi
    } else if device {
        LinkKind::Ethernet
    } else {
        LinkKind::Other
    }
}

/// The kind of an interface.
pub fn classify(name: &str, loopback: bool, driver: &str, wireless: bool, device: bool) -> (r:
    LinkKind)
    ensures
        r == linux_kind(name@, loopback, driver@, wireless, device),
{
    if loopback {
        LinkKind::Loopback
    } else if starts_with(name, "tun") || starts_with(name, "tap") || starts_with(name, "wg")
        || starts_with(name, "ppp") || starts_with(name, "utun") {
        LinkKind::Vpn
    } else if contains(driver, "thunderbolt") || starts_with(name, "tb") {
        LinkKind::ThunderboltOrUsb4
    } else if wireless {
        LinkKind::WiFi
    } else if device {
        LinkKind::Ethernet
    } else {
        LinkKind::Other
    }
}

/// What an interface is called in front of users.
pub open spec fn shown_name(iface: Seq<char>, kind: LinkKind) -> Seq<char> {
    match kind {
        LinkKind::ThunderboltOrUsb4 => "Thunderbolt/USB4 ("@ + iface + ")"@,
        LinkKind::UsbLink => "USB link ("@ + iface + ")"@,
        LinkKind::Ethernet => "Ethernet ("@ + iface + ")"@,
        LinkKind::WiFi => "Wi-Fi ("@ + iface + ")"@,
        LinkKind::Vpn => "VPN/Tunnel ("@ + iface + ")"@,
        LinkKind::Loopback => "Loopback"@,
        LinkKind::Other => iface,
    }
}

/// What an interface is called in front of users.
pub fn display_name(iface: &str, kind: LinkKind) -> (r: String)
    ensures
        r@ == shown_name(iface@, kind),
{
    let mut s = match kind {
        LinkKind::ThunderboltOrUsb4 => "Thunderbolt/USB4 (".to_string(),
        LinkKind::UsbLink => "USB link (".to_string(),
        LinkKind::Ethernet => "Ethernet (".to_string(),
        LinkKind::WiFi => "Wi-Fi (".to_string(),
        LinkKind::Vpn => "VPN/Tunnel (".to_string(),
        LinkKind::Loopback => {
            return "Loopback".to_string();
        },
        LinkKind::Other => {
            return iface.to_string();
        },
    };
    s.append(iface);
    s.append(")");
    s
}

// ---- the speed of a network card ----

/// The digits of a numeral, without a plus sign before it.
pub open spec fn unsigned(s: Seq<char>) -> Seq<char> {
    if s.len() > 0 && s[0] == '+' {
        s.skip(1)
    } else {
        s
    }
}

/// The number above zero that a text spells, where it fits a signed 64-bit
/// number.
pub open spec fn positive_number(s: Seq<char>) -> Option<u64> {
    let digits = unsigned(s);
    if digits.len() > 0 && (forall|i: int|
        0 <= i < digits.len() ==> is_digit(#[trigger] digits[i])) && 0 < digits_value(digits)
        <= i64::MAX {
        Some(digits_value(digits) as u64)
    } else {
        None
    }
}

/// The speed of a network card in Mb/s, from the text of its `speed` file.
pub open spec fn card_speed(text: Option<Seq<char>>) -> Option<u64> {
    match text {
        Some(s) => positive_number(trimmed(s)),
        None => None,
    }
}

fn parse_positive(s: &str) -> (r: Option<u64>)
    ensures
        r == positive_number(s@),
{
    let chars = to_chars(s);
    let mut start: usize = 0;
    if chars.len() > 0 && chars[0] == '+' {
        start = 1;
    }
    let ghost digits = unsigned(s@);
    assert(chars@.skip(start as int) =~= digits);
    if start == chars.len() {
        return None;
    }
    let mut value: u64 = 0;
    let mut i: usize = start;
    let total: usize = chars.len();
    assert(digits.take(0) =~= Seq::<char>::empty());
    while i < total
        invariant
            start <= i <= total == chars@.len(),
            digits == unsigned(s@),
            digits == chars@.skip(start as int),
            value == digits_value(digits.take(i - start)),
            value <= i64::MAX,
            forall|j: int| 0 <= j < i - start ==> is_digit(#[trigger] digits[j]),
        decreases total - i,
    {
        let c = chars[i];
        let ghost k = i - start;
        assert(digits[k] == c);
        if !('0' <= c && c <= '9') {
            assert(!is_digit(digits[k]));
            return None;
        }
        let d: u64 = (c as u8 - 48u8) as u64;
        proof {
            assert(digits.take(k + 1).drop_last() =~= digits.take(k));
            assert(digits.take(k + 1).last() == c);
            crate::text::lemma_value_grows(digits, k + 1);
        }
        let limit: u64 = i64::MAX as u64;
        if value > (limit - d) / 10 {
            return None;
        }
        value = value * 10 + d;
        i = i + 1;
    }
    assert(digits.take(digits.len() as int) =~= digits);
    if value == 0 {
        None
    } else {
        Some(value)
    }
}

/// The speed of a network card in Mb/s, from the text of its `speed` file.
pub fn nic_speed(text: &Option<String>) -> (r: Option<u64>)
    ensures
        r == card_speed(opt_text(*text)),
{
    match text {
        Some(s) => parse_positive(trim(s.as_str()).as_str()),
        None => None,
    }
}

/// What a card of `mbps` says of its cable; `speed` is the same in Gbit/s.
pub fn card_cable(mbps: u64, speed: Speed) -> (r: CableInfo)
    ensures
        r@ == (CableView {
            is_usb4: false,
            generation: None,
            max_speed_gbps: Some(speed),
            detail: Some("NIC negotiated "@ + dec(mbps as nat) + " Mb/s"@),
        }),
{
    let mut s = "NIC negotiated ".to_string();
    s.append(dec_u64(mbps).as_str());
    s.append(" Mb/s");
    CableInfo { is_usb4: false, generation: None, max_speed_gbps: Some(speed), detail: Some(s) }
}

// ---- links ----

/// What sysfs holds of an interface.
#[derive(Debug)]
pub struct Sysfs {
    /// The name of its driver, empty where it has none.
    pub driver: String,
    pub wireless: bool,
    pub device: bool,
}

/// The link of an interface.
pub open spec fn linux_link(
    g: GroupedView,
    sysfs: Sysfs,
    card: Option<CableView>,
    thunderbolt: Option<CableView>,
) -> LinkView {
    let kind = linux_kind(g.name, g.loopback, sysfs.driver@, sysfs.wireless, sysfs.device);
    LinkView {
        interface: g.name,
        display: shown_name(g.name, kind),
        kind,
        ips: g.ips,
        cable: match kind {
            LinkKind::ThunderboltOrUsb4 => thunderbolt,
            LinkKind::Ethernet => card,
            _ => None,
        },
    }
}

/// The link of an interface, given what sysfs holds of it, what its card says of
/// the cable, and the Thunderbolt cable.
pub fn describe(
    iface: Grouped,
    sysfs: &Sysfs,
    card: Option<CableInfo>,
    thunderbolt: &Option<CableInfo>,
) -> (r: Link)
    ensures
        r@ == linux_link(iface@, *sysfs, opt_cable(card), opt_cable(*thunderbolt)),
{
    let kind = classify(
        iface.name.as_str(),
        iface.loopback,
        sysfs.driver.as_str(),
        sysfs.wireless,
        sysfs.device,
    );
    let cable: Option<CableInfo> = match kind {
        LinkKind::ThunderboltOrUsb4 => match thunderbolt {
            Some(c) => Some(c.clone()),
            None => None,
        },
        LinkKind::Ethernet => card,
        _ => None,
    };
    let display = display_name(iface.name.as_str(), kind);
    Link { interface: iface.name, display, kind, ips: iface.ips, cable }
}

/// An interface with what sysfs holds of it and what its card says of the cable.
#[derive(Debug)]
pub struct Probed {
    pub iface: Grouped,
    pub sysfs: Sysfs,
    pub card: Option<CableInfo>,
}

/// The link of an interface that was probed.
pub open spec fn probed_link(p: Probed, thunderbolt: Option<CableView>) -> LinkView {
    linux_link(p.iface@, p.sysfs, opt_cable(p.card), thunderbolt)
}

/// The links of the machine, one for each interface.
pub fn detect(found: Vec<Probed>, thunderbolt: &Option<CableInfo>) -> (r: Vec<Link>)
    ensures
        link_views(r@) == found@.map_values(|p: Probed| probed_link(p, opt_cable(*thunderbolt))),
{
    let ghost target = found@.map_values(|p: Probed| probed_link(p, opt_cable(*thunderbolt)));
    let mut out: Vec<Link> = Vec::new();
    for p in it: found
        invariant
            it.seq() == found@,
            target == found@.map_values(|p: Probed| probed_link(p, opt_cable(*thunderbolt))),
            link_views(out@) =~= target.take(it.index() as int),
    {
        let ghost before = out@;
        let ghost k = it.index() as int;
        assert(target[k] == probed_link(p, opt_cable(*thunderbolt)));
        out.push(describe(p.iface, &p.sysfs, p.card, thunderbolt));
        assert(link_views(out@) =~= link_views(before).push(target[k]));
    }
    assert(target.take(target.len() as int) =~= target);
    out
}

// ---- the Thunderbolt bus ----

/// The text of an attribute: trimmed, and nothing where nothing is left.
pub open spec fn attribute(raw: Option<Seq<char>>) -> Option<Seq<char>> {
    match raw {
        Some(s) => if trimmed(s).len() > 0 {
            Some(trimmed(s))
        } else {
            None
        },
        None => None,
    }
}

/// The text of an attribute, from what its file holds.
pub fn read_attribute(raw: Option<String>) -> (r: Option<String>)
    ensures
        opt_text(r) == attribute(opt_text(raw)),
{
    match raw {
        Some(s) => {
            let t = trim(s.as_str());
            if to_chars(t.as_str()).len() > 0 {
                Some(t)
            } else {
                None
            }
        },
        None => None,
    }
}

/// The numeral of a text like "40.0 Gb/s".
pub fn parse_gbps(s: &str) -> (r: Option<String>)
    ensures
        opt_text(r) == if first_word(s@).len() > 0 {
            Some(first_word(s@))
        } else {
            None
        },
{
    word(s)
}

/// A device on the bus.
#[derive(Debug)]
pub struct Device {
    pub generation: Option<String>,
    /// It has a receive speed, be it a number or not.
    pub has_rx: bool,
    pub rx_speed: Option<Speed>,
    pub tx_speed: Option<Speed>,
    pub device_name: Option<String>,
}

/// The greater of two speeds; one that is no number gives way.
pub open spec fn greater(a: Speed, b: Speed) -> Speed {
    match (a.order, b.order) {
        (Some(x), Some(y)) => if x < y {
            b
        } else {
            a
        },
        (None, _) => b,
        (_, None) => a,
    }
}

/// The speed of a device: the greater of its two.
pub open spec fn device_speed(d: Device) -> Option<Speed> {
    match (d.rx_speed, d.tx_speed) {
        (Some(a), Some(b)) => Some(greater(a, b)),
        (Some(a), None) => Some(a),
        (None, b) => b,
    }
}

/// Only device routers count: they have a generation or a speed.
pub open spec fn is_router(d: Device) -> bool {
    d.generation is Some || d.has_rx
}

/// What a device says of the cable.
pub open spec fn device_cable(d: Device) -> CableView {
    CableView {
        is_usb4: d.generation matches Some(g) && has_part(lowercase(g@), "usb4"@),
        generation: opt_text(d.generation),
        max_speed_gbps: device_speed(d),
        detail: match d.device_name {
            Some(n) => Some("connected: "@ + n@),
            None => None,
        },
    }
}

/// One speed is above another, where no speed at all is the lowest.
pub open spec fn above(a: Option<Speed>, b: Option<Speed>) -> bool {
    match (a, b) {
        (Some(x), Some(y)) => x.order matches Some(m) && y.order matches Some(n) && m > n,
        (Some(_), None) => true,
        (None, _) => false,
    }
}

/// The cable of the machine: the fastest device, the first of those that are
/// equally fast.
pub open spec fn best_cable(devices: Seq<Device>) -> Option<CableView>
    decreases devices.len(),
{
    if devices.len() == 0 {
        None
    } else {
        let before = best_cable(devices.drop_last());
        let d = devices.last();
        if !is_router(d) {
            before
        } else {
            match before {
                Some(best) => if above(device_speed(d), best.max_speed_gbps) {
                    Some(device_cable(d))
                } else {
                    before
                },
                None => Some(device_cable(d)),
            }
        }
    }
}

fn find_speed(d: &Device) -> (r: Option<Speed>)
    ensures
        r == device_speed(*d),
{
    match (&d.rx_speed, &d.tx_speed) {
        (Some(a), Some(b)) => {
            let second = match (a.order, b.order) {
                (Some(x), Some(y)) => x < y,
                (None, _) => true,
                (_, None) => false,
            };
            if second {
                Some(b.clone())
            } else {
                Some(a.clone())
            }
        },
        (Some(a), None) => Some(a.clone()),
        (None, Some(b)) => Some(b.clone()),
        (None, None) => None,
    }
}

fn is_above(a: &Option<Speed>, b: &Option<Speed>) -> (r: bool)
    ensures
        r == above(*a, *b),
{
    match (a, b) {
        (Some(x), Some(y)) => match (x.order, y.order) {
            (Some(m), Some(n)) => m > n,
            _ => false,
        },
        (Some(_), None) => true,
        (None, _) => false,
    }
}

fn describe_device(d: &Device) -> (r: CableInfo)
    ensures
        r@ == device_cable(*d),
{
    let is_usb4 = match &d.generation {
        Some(g) => contains(to_lower(g.as_str()).as_str(), "usb4"),
        None => false,
    };
    let detail = match &d.device_name {
        Some(n) => {
            let mut s = "connected: ".to_string();
            s.append(n.as_str());
            Some(s)
        },
        None => None,
    };
    CableInfo {
        is_usb4,
        generation: crate::link::copy_text(&d.generation),
        max_speed_gbps: find_speed(d),
        detail,
    }
}

/// The cable of the machine, out of the devices on its Thunderbolt bus.
pub fn thunderbolt_cable_info(devices: &Vec<Device>) -> (r: Option<CableInfo>)
    ensures
        opt_cable(r) == best_cable(devices@),
{
    let mut best: Option<CableInfo> = None;
    let mut i: usize = 0;
    assert(devices@.take(0) =~= Seq::<Device>::empty());
    while i < devices.len()
        invariant
            i <= devices@.len(),
            opt_cable(best) == best_cable(devices@.take(i as int)),
        decreases devices@.len() - i,
    {
        assert(devices@.take(i + 1).drop_last() =~= devices@.take(i as int));
        let d = &devices[i];
        if d.generation.is_some() || d.has_rx {
            let info = describe_device(d);
            let replace = match &best {
                None => true,
                Some(b) => is_above(&info.max_speed_gbps, &b.max_speed_gbps),
            };
            if replace {
                best = Some(info);
            }
        }
        i = i + 1;
    }
    assert(devices@.take(devices@.len() as int) =~= devices@);
    best
}

proof fn lemma_best_ordered(devices: Seq<Device>)
    requires
        forall|i: int|
            0 <= i < devices.len() ==> (device_speed(#[trigger] devices[i]) matches Some(s)
                ==> s.order is Some),
    ensures
        best_cable(devices) matches Some(c) ==> (c.max_speed_gbps matches Some(s) ==> s.order is Some),
    decreases devices.len(),
{
    if devices.len() > 0 {
        let rest = devices.drop_last();
        assert forall|i: int| 0 <= i < rest.len() implies (device_speed(#[trigger] rest[i])
            matches Some(s) ==> s.order is Some) by {
            assert(rest[i] == devices[i]);
        }
        lemma_best_ordered(rest);
        assert(devices.last() == devices[devices.len() - 1]);
    }
}

/// No device is faster than the cable that is chosen, as long as every speed is a
/// number.
pub proof fn lemma_best_speed(devices: Seq<Device>, k: int)
    requires
        0 <= k < devices.len(),
        is_router(devices[k]),
        forall|i: int|
            0 <= i < devices.len() ==> (device_speed(#[trigger] devices[i]) matches Some(s)
                ==> s.order is Some),
    ensures
        best_cable(devices) matches Some(c) && !above(device_speed(devices[k]), c.max_speed_gbps),
    decreases devices.len(),
{
    let rest = devices.drop_last();
    assert forall|i: int| 0 <= i < rest.len() implies (device_speed(#[trigger] rest[i])
        matches Some(s) ==> s.order is Some) by {
        assert(rest[i] == devices[i]);
    }
    lemma_best_ordered(rest);
    lemma_best_ordered(devices);
    assert(devices.last() == devices[devices.len() - 1]);
    if k < rest.len() {
        lemma_best_speed(rest, k);
    }
}

} // verus!
