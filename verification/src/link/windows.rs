//! Link detection on Windows, from what `Get-NetAdapter` reports.
//!
//! InterfaceDescription identifies Thunderbolt/USB4 networking adapters
//! ("Thunderbolt(TM) Networking", "USB4 Host Router"…); LinkSpeed is the
//! negotiated speed ("40 Gbps", "1 Gbps").

use vstd::prelude::*;

use crate::link::json::{get_items, get_member_text, items, member_text};
use crate::link::{
    link_views, CableInfo, CableView, Grouped, GroupedView, Link, LinkKind, LinkView, Speed,
};
use crate::text::{
    contains, first_word, from_utf8_lossy, has_part, lossy_text, lowercase, replace_char, replaced,
    same, texts, to_chars, to_lower, word,
};

verus! {

/// An adapter of the report.
#[derive(Debug)]
pub struct Adapter {
    pub name: String,
    pub description: String,
    pub link_speed: String,
}

/// The same, as contracts see it.
pub struct AdapterView {
    pub name: Seq<char>,
    pub description: Seq<char>,
    pub link_speed: Seq<char>,
}

impl View for Adapter {
    type V = AdapterView;

    open spec fn view(&self) -> AdapterView {
        AdapterView {
            name: self.name@,
            description: self.description@,
            link_speed: self.link_speed@,
        }
    }
}

/// Adapters, as contracts see them.
pub open spec fn adapters(list: Seq<Adapter>) -> Seq<AdapterView> {
    list.map_values(|a: Adapter| a@)
}

/// The text of a member; empty where there is none.
pub open spec fn text_or_empty(item: Seq<char>, key: Seq<char>) -> Seq<char> {
    match member_text(item, key) {
        Some(s) => s,
        None => Seq::empty(),
    }
}

/// The adapter that an item of the report speaks of.
pub open spec fn adapter_in(item: Seq<char>) -> AdapterView {
    AdapterView {
        name: text_or_empty(item, "Name"@),
        description: text_or_empty(item, "InterfaceDescription"@),
        link_speed: text_or_empty(item, "LinkSpeed"@),
    }
}

/// The adapters of a list of items; an item without a name is left out.
pub open spec fn adapters_of(list: Seq<Seq<char>>) -> Seq<AdapterView>
    decreases list.len(),
{
    if list.len() == 0 {
        Seq::empty()
    } else {
        let before = adapters_of(list.drop_last());
        if adapter_in(list.last()).name.len() == 0 {
            before
        } else {
            before.push(adapter_in(list.last()))
        }
    }
}

/// The adapters of a report: a list of them, or a single one.
pub open spec fn reported_adapters(output: Option<Seq<u8>>) -> Seq<AdapterView> {
    match output {
        Some(bytes) => match items(lossy_text(bytes)) {
            Some(list) => adapters_of(list),
            None => adapters_of(seq![lossy_text(bytes)]),
        },
        None => Seq::empty(),
    }
}

/// The adapter of an interface: the last one of its name.
pub open spec fn adapter_of(list: Seq<AdapterView>, name: Seq<char>) -> Option<AdapterView>
    decreases list.len(),
{
    if list.len() == 0 {
        None
    } else if list.last().name == name {
        Some(list.last())
    } else {
        adapter_of(list.drop_last(), name)
    }
}

fn read_text(item: &str, key: &str) -> (r: String)
    ensures
        r@ == text_or_empty(item@, key@),
{
    match get_member_text(item, key) {
        Some(s) => s,
        None => {
            let s = String::new();
            assert(s@ =~= Seq::<char>::empty());
            s
        },
    }
}

/// Adds an adapter to the list, unless it has no name.
pub fn note_adapter(adapter: Adapter, out: &mut Vec<Adapter>)
    ensures
        adapters(final(out)@) == if adapter@.name.len() == 0 {
            adapters(old(out)@)
        } else {
            adapters(old(out)@).push(adapter@)
        },
{
    if to_chars(adapter.name.as_str()).len() == 0 {
        return;
    }
    let ghost before = out@;
    out.push(adapter);
    assert(adapters(out@) =~= adapters(before).push(out@.last()@));
}

fn read_adapter(item: &str) -> (r: Adapter)
    ensures
        r@ == adapter_in(item@),
{
    Adapter {
        name: read_text(item, "Name"),
        description: read_text(item, "InterfaceDescription"),
        link_speed: read_text(item, "LinkSpeed"),
    }
}

/// The adapters of the report, from what the tool printed; none where it could not
/// be run or printed something else.
pub fn net_adapters(output: Option<Vec<u8>>) -> (r: Vec<Adapter>)
    ensures
        adapters(r@) == reported_adapters(
            match output {
                Some(bytes) => Some(bytes@),
                None => None,
            },
        ),
{
    let mut out: Vec<Adapter> = Vec::new();
    assert(adapters(out@) =~= Seq::<AdapterView>::empty());
    let text = match output {
        Some(bytes) => from_utf8_lossy(bytes.as_slice()),
        None => {
            return out;
        },
    };
    match get_items(text.as_str()) {
        Some(list) => {
            let ghost all = texts(list@);
            let mut i: usize = 0;
            assert(all.take(0) =~= Seq::<Seq<char>>::empty());
            while i < list.len()
                invariant
                    i <= list@.len(),
                    all == texts(list@),
                    adapters(out@) == adapters_of(all.take(i as int)),
                decreases list@.len() - i,
            {
                assert(all.take(i + 1).drop_last() =~= all.take(i as int));
                assert(all.take(i + 1).last() == list@[i as int]@);
                note_adapter(read_adapter(list[i].as_str()), &mut out);
                i = i + 1;
            }
            assert(all.take(all.len() as int) =~= all);
            out
        },
        None => {
            note_adapter(read_adapter(text.as_str()), &mut out);
            proof {
                let one = seq![text@];
                assert(one.drop_last() =~= Seq::<Seq<char>>::empty());
                assert(adapters_of(one.drop_last()) =~= Seq::<AdapterView>::empty());
                assert(one.last() == text@);
            }
            out
        },
    }
}

/// The adapter of an interface.
pub fn find_adapter<'a>(list: &'a Vec<Adapter>, name: &str) -> (r: Option<&'a Adapter>)
    ensures
        match adapter_of(adapters(list@), name@) {
            Some(v) => r matches Some(a) && a@ == v,
            None => r is None,
        },
{
    let ghost all = adapters(list@);
    let mut n: usize = list.len();
    assert(all.take(n as int) =~= all);
    while n > 0
        invariant
            n <= list@.len(),
            all == adapters(list@),
            adapter_of(all, name@) == adapter_of(all.take(n as int), name@),
        decreases n,
    {
        n = n - 1;
        assert(all.take(n + 1).drop_last() =~= all.take(n as int));
        assert(all.take(n + 1).last() == list@[n as int]@);
        if same(list[n].name.as_str(), name) {
            return Some(&list[n]);
        }
    }
    None
}

// ---- speeds ----

/// The unit of a speed.
#[derive(Debug, Clone, Copy, PartialEq, Eq, Structural)]
pub enum Unit {
    Gigabit,
    Megabit,
}

/// The numeral of a text like "1,5 Gbps", in lower case and with a point for a
/// comma.
pub open spec fn numeral_of(s: Seq<char>) -> Seq<char> {
    replaced(first_word(lowercase(s)), ',', '.')
}

/// The unit of a text like "1,5 Gbps".
pub open spec fn unit_of(s: Seq<char>) -> Option<Unit> {
    let lower = lowercase(s);
    if has_part(lower, "gbps"@) || has_part(lower, "gb/s"@) {
        Some(Unit::Gigabit)
    } else if has_part(lower, "mbps"@) || has_part(lower, "mb/s"@) {
        Some(Unit::Megabit)
    } else {
        None
    }
}

/// The numeral and the unit of a text: "40 Gbps" is forty gigabits, "100 Mbps"
/// a hundred megabits.
pub fn parse_gbps(s: &str) -> (r: Option<(String, Unit)>)
    ensures
        r is Some <==> first_word(lowercase(s@)).len() > 0 && unit_of(s@) is Some,
        r matches Some(p) ==> p.0@ == numeral_of(s@) && Some(p.1) == unit_of(s@),
{
    let lower = to_lower(s);
    let numeral = match word(lower.as_str()) {
        Some(w) => replace_char(w.as_str(), ',', '.'),
        None => {
            return None;
        },
    };
    if contains(lower.as_str(), "gbps") || contains(lower.as_str(), "gb/s") {
        Some((numeral, Unit::Gigabit))
    } else if contains(lower.as_str(), "mbps") || contains(lower.as_str(), "mb/s") {
        Some((numeral, Unit::Megabit))
    } else {
        None
    }
}

// ---- classification ----

/// The kind of an interface, by the description of its adapter in lower case.
pub open spec fn windows_kind(loopback: bool, lower: Seq<char>, empty: bool) -> LinkKind {
    if loopback {
        LinkKind::Loopback
    } else if has_part(lower, "thunderbolt"@) || has_part(lower, "usb4"@) {
        LinkKind::ThunderboltOrUsb4
    } else if has_part(lower, "wi-fi"@) || has_part(lower, "wireless"@) || has_part(
        lower,
        "802.11"@,
    ) {
        LinkKind::WiFi
    } else if has_part(lower, "tap"@) || has_part(lower, "wintun"@) || has_part(
        lower,
        "wireguard"@,
    ) || has_part(lower, "vpn"@) || has_part(lower, "tailscale"@) {
        LinkKind::Vpn
    } else if !empty {
        LinkKind::Ethernet
    } else {
        LinkKind::Other
    }
}

/// The description of the adapter of an interface; empty where it has none.
pub open spec fn description_of(adapter: Option<AdapterView>) -> Seq<char> {
    match adapter {
        Some(a) => a.description,
        None => Seq::empty(),
    }
}

/// The link of an interface; `speed` is the speed of its adapter, where it is a
/// number.
pub open spec fn windows_link(
    g: GroupedView,
    adapter: Option<AdapterView>,
    speed: Option<Speed>,
) -> LinkView {
    let desc = description_of(adapter);
    let lower = lowercase(desc);
    let kind = windows_kind(g.loopback, lower, desc.len() == 0);
    LinkView {
        interface: g.name,
        display: if desc.len() == 0 {
            g.name
        } else {
            desc
        },
        kind,
        ips: g.ips,
        cable: if adapter is Some && (kind is ThunderboltOrUsb4 || kind is Ethernet) {
            Some(
                CableView {
                    is_usb4: has_part(lower, "usb4"@),
                    generation: if has_part(lower, "usb4"@) {
                        Some("USB4"@)
                    } else if has_part(lower, "thunderbolt"@) {
                        Some("Thunderbolt"@)
                    } else {
                        None
                    },
                    max_speed_gbps: speed,
                    detail: Some(desc),
                },
            )
        } else {
            None
        },
    }
}

fn classify(loopback: bool, lower: &str, empty: bool) -> (r: LinkKind)
    ensures
        r == windows_kind(loopback, lower@, empty),
{
    if loopback {
        LinkKind::Loopback
    } else if contains(lower, "thunderbolt") || contains(lower, "usb4") {
        LinkKind::ThunderboltOrUsb4
    } else if contains(lower, "wi-fi") || contains(lower, "wireless") || contains(lower, "802.11") {
        LinkKind::WiFi
    } else if contains(lower, "tap") || contains(lower, "wintun") || contains(lower, "wireguard")
        || contains(lower, "vpn") || contains(lower, "tailscale") {
        LinkKind::Vpn
    } else if !empty {
        LinkKind::Ethernet
    } else {
        LinkKind::Other
    }
}

/// The link of an interface, given the adapters and the speed of its own.
pub fn describe(iface: Grouped, list: &Vec<Adapter>, speed: Option<Speed>) -> (r: Link)
    ensures
        r@ == windows_link(iface@, adapter_of(adapters(list@), iface.name@), speed),
{
    let adapter = find_adapter(list, iface.name.as_str());
    let desc = match adapter {
        Some(a) => a.description.clone(),
        None => String::new(),
    };
    assert(desc@ =~= description_of(adapter_of(adapters(list@), iface.name@)));
    let lower = to_lower(desc.as_str());
    let empty = to_chars(desc.as_str()).len() == 0;
    let kind = classify(iface.loopback, lower.as_str(), empty);
    let cable = if adapter.is_some() && (kind == LinkKind::ThunderboltOrUsb4 || kind
        == LinkKind::Ethernet) {
        let is_usb4 = contains(lower.as_str(), "usb4");
        let generation = if is_usb4 {
            Some("USB4".to_string())
        } else if contains(lower.as_str(), "thunderbolt") {
            Some("Thunderbolt".to_string())
        } else {
            None
        };
        Some(
            CableInfo { is_usb4, generation, max_speed_gbps: speed, detail: Some(desc.clone()) },
        )
    } else {
        None
    };
    let display = if empty {
        iface.name.clone()
    } else {
        desc
    };
    Link { interface: iface.name, display, kind, ips: iface.ips, cable }
}

/// An interface with the speed of its adapter, where that is a number.
#[derive(Debug)]
pub struct Measured {
    pub iface: Grouped,
    pub speed: Option<Speed>,
}

/// The links of the machine, one for each interface.
pub fn detect(found: Vec<Measured>, list: &Vec<Adapter>) -> (r: Vec<Link>)
    ensures
        link_views(r@) == found@.map_values(
            |m: Measured|
                windows_link(m.iface@, adapter_of(adapters(list@), m.iface.name@), m.speed),
        ),
{
    let ghost link = |m: Measured|
        windows_link(m.iface@, adapter_of(adapters(list@), m.iface.name@), m.speed);
    let ghost target = found@.map_values(link);
    let mut out: Vec<Link> = Vec::new();
    for m in it: found
        invariant
            it.seq() == found@,
            link == (|m: Measured|
                windows_link(m.iface@, adapter_of(adapters(list@), m.iface.name@), m.speed)),
            target == found@.map_values(link),
            link_views(out@) =~= target.take(it.index() as int),
    {
        let ghost before = out@;
        let ghost k = it.index() as int;
        assert(target[k] == link(m));
        out.push(describe(m.iface, list, m.speed));
        assert(link_views(out@) =~= link_views(before).push(target[k]));
    }
    assert(target.take(target.len() as int) =~= target);
    out
}

} // verus!
