//! Addresses as text: dotted decimals for IPv4, and for IPv6 the hexadecimal
//! form that shortens the longest run of zero segments.

use vstd::prelude::*;

use crate::net::{mapped_v4, to_ipv4_mapped, IpAddr, SocketAddr};
use crate::text::{dec, dec_u64, join_texts, joined, texts};
use crate::util::{hex_char, hex_digit};

verus! {

// ---- IPv4 ----

/// The dotted decimals of an IPv4 address.
pub open spec fn v4_text(ip: u32) -> Seq<char> {
    dec((ip / 16777216) as nat) + "."@ + dec((ip / 65536 % 256) as nat) + "."@ + dec(
        (ip / 256 % 256) as nat,
    ) + "."@ + dec((ip % 256) as nat)
}

/// The dotted decimals of an IPv4 address.
pub fn show_v4(ip: u32) -> (r: String)
    ensures
        r@ == v4_text(ip),
{
    let mut s = dec_u64((ip / 16777216) as u64);
    s.append(".");
    s.append(dec_u64((ip / 65536 % 256) as u64).as_str());
    s.append(".");
    s.append(dec_u64((ip / 256 % 256) as u64).as_str());
    s.append(".");
    s.append(dec_u64((ip % 256) as u64).as_str());
    s
}

// ---- IPv6 ----

/// `n` without its last `k` groups of sixteen bits.
pub open spec fn shifted(n: nat, k: nat) -> nat
    decreases k,
{
    if k == 0 {
        n
    } else {
        shifted(n, (k - 1) as nat) / 65536
    }
}

/// The eight segments of an IPv6 address, the highest first.
pub open spec fn segments(ip: u128) -> Seq<u16> {
    Seq::new(8, |i: int| (shifted(ip as nat, (7 - i) as nat) % 65536) as u16)
}

/// The hexadecimal numeral of `n`, in lower case and without leading zeros.
pub open spec fn hex_number(n: nat) -> Seq<char>
    decreases n,
{
    if n < 16 {
        seq![hex_digit(n as int)]
    } else {
        hex_number(n / 16).push(hex_digit((n % 16) as int))
    }
}

fn show_hex(n: u16) -> (r: String)
    ensures
        r@ == hex_number(n as nat),
    decreases n,
{
    if n < 16 {
        let mut s = String::new();
        s.push(hex_char(n as u8));
        assert(s@ =~= seq![hex_digit(n as int)]);
        s
    } else {
        let mut s = show_hex(n / 16);
        s.push(hex_char((n % 16) as u8));
        s
    }
}

/// How many zeros stand together in `segs` from position `i` on.
pub open spec fn zeros_from(segs: Seq<u16>, i: int) -> int
    decreases segs.len() - i,
{
    if i < 0 || i >= segs.len() || segs[i] != 0 {
        0
    } else {
        1 + zeros_from(segs, i + 1)
    }
}

/// Where the longest run of zeros starts; the first of them where several are
/// equally long.
pub open spec fn is_longest_run(segs: Seq<u16>, start: int) -> bool {
    &&& 0 <= start < segs.len()
    &&& forall|i: int| 0 <= i < segs.len() ==> zeros_from(segs, i) <= zeros_from(segs, start)
    &&& forall|i: int| 0 <= i < start ==> zeros_from(segs, i) < zeros_from(segs, start)
}

/// Segments in hexadecimal, with colons between them.
pub open spec fn colons(segs: Seq<u16>) -> Seq<char> {
    joined(segs.map_values(|s: u16| hex_number(s as nat)), ":"@)
}

/// The segments with the run at `start` shortened to two colons, if there is a
/// run of more than one zero.
pub open spec fn shortened(segs: Seq<u16>, start: int) -> Seq<char> {
    let n = zeros_from(segs, start);
    if n > 1 {
        colons(segs.take(start)) + "::"@ + colons(segs.skip(start + n))
    } else {
        colons(segs)
    }
}

/// The text of an IPv6 address.
pub open spec fn v6_text(ip: u128) -> Seq<char> {
    match mapped_v4(ip) {
        Some(v4) => "::ffff:"@ + v4_text(v4),
        None => shortened(segments(ip), choose|start: int| is_longest_run(segments(ip), start)),
    }
}

/// There is one longest run: two starts that qualify are the same.
pub proof fn lemma_longest_run(segs: Seq<u16>, a: int, b: int)
    requires
        is_longest_run(segs, a),
        is_longest_run(segs, b),
    ensures
        a == b,
{
    if a < b {
        assert(zeros_from(segs, a) < zeros_from(segs, b));
    } else if b < a {
        assert(zeros_from(segs, b) < zeros_from(segs, a));
    }
}

proof fn lemma_zeros_bound(segs: Seq<u16>, i: int)
    requires
        0 <= i <= segs.len(),
    ensures
        0 <= zeros_from(segs, i) <= segs.len() - i,
    decreases segs.len() - i,
{
    if i < segs.len() {
        lemma_zeros_bound(segs, i + 1);
    }
}

fn split_v6(ip: u128) -> (r: Vec<u16>)
    ensures
        r@ == segments(ip),
{
    let mut low: Vec<u16> = Vec::new();
    let mut rest: u128 = ip;
    let mut k: usize = 0;
    while k < 8
        invariant
            k <= 8,
            rest == shifted(ip as nat, k as nat),
            low@.len() == k,
            forall|j: int| 0 <= j < k ==> low@[j] == segments(ip)[7 - j],
        decreases 8 - k,
    {
        low.push((rest % 65536) as u16);
        rest = rest / 65536;
        k = k + 1;
    }
    let mut out: Vec<u16> = Vec::new();
    let mut i: usize = 0;
    while i < 8
        invariant
            i <= 8,
            low@.len() == 8,
            forall|j: int| 0 <= j < 8 ==> low@[j] == segments(ip)[7 - j],
            out@.len() == i,
            forall|j: int| 0 <= j < i ==> out@[j] == segments(ip)[j],
        decreases 8 - i,
    {
        assert(low@[7 - i] == segments(ip)[i as int]);
        out.push(low[7 - i]);
        i = i + 1;
    }
    assert(out@ =~= segments(ip));
    out
}

fn count_zeros(segs: &Vec<u16>, at: usize) -> (r: usize)
    requires
        at <= segs@.len(),
    ensures
        r == zeros_from(segs@, at as int),
        at + r <= segs@.len(),
{
    let mut n: usize = 0;
    let total: usize = segs.len();
    while at + n < total && segs[at + n] == 0
        invariant
            at + n <= total == segs@.len(),
            zeros_from(segs@, at as int) == n + zeros_from(segs@, at + n),
        decreases total - at - n,
    {
        n = n + 1;
    }
    n
}

fn longest_run(segs: &Vec<u16>) -> (r: usize)
    requires
        segs@.len() > 0,
    ensures
        is_longest_run(segs@, r as int),
{
    let mut best: usize = 0;
    let mut most: usize = count_zeros(segs, 0);
    let mut i: usize = 1;
    while i < segs.len()
        invariant
            1 <= i <= segs@.len(),
            best < i,
            most == zeros_from(segs@, best as int),
            forall|j: int| 0 <= j < i ==> zeros_from(segs@, j) <= most,
            forall|j: int| 0 <= j < best ==> zeros_from(segs@, j) < most,
        decreases segs@.len() - i,
    {
        let n: usize = count_zeros(segs, i);
        if n > most {
            most = n;
            best = i;
        }
        i = i + 1;
    }
    best
}

fn show_segments(segs: &Vec<u16>, from: usize, to: usize) -> (r: String)
    requires
        from <= to <= segs@.len(),
    ensures
        r@ == colons(segs@.subrange(from as int, to as int)),
{
    let mut parts: Vec<String> = Vec::new();
    let ghost target = segs@.subrange(from as int, to as int).map_values(
        |s: u16| hex_number(s as nat),
    );
    let mut i: usize = from;
    while i < to
        invariant
            from <= i <= to <= segs@.len(),
            target == segs@.subrange(from as int, to as int).map_values(
                |s: u16| hex_number(s as nat),
            ),
            texts(parts@) =~= target.take(i - from),
        decreases to - i,
    {
        let ghost before = parts@;
        parts.push(show_hex(segs[i]));
        assert(texts(parts@) =~= texts(before).push(hex_number(segs@[i as int] as nat)));
        i = i + 1;
    }
    assert(texts(parts@) =~= target);
    join_texts(&parts, ":")
}

/// The text of an IPv6 address: mapped IPv4 addresses keep their dots, and the
/// first longest run of more than one zero segment becomes two colons.
pub fn show_v6(ip: u128) -> (r: String)
    ensures
        r@ == v6_text(ip),
{
    match to_ipv4_mapped(ip) {
        Some(v4) => {
            let mut s = "::ffff:".to_string();
            s.append(show_v4(v4).as_str());
            s
        },
        None => {
            let segs = split_v6(ip);
            let start: usize = longest_run(&segs);
            let n: usize = count_zeros(&segs, start);
            proof {
                lemma_longest_run(
                    segs@,
                    start as int,
                    choose|start: int| is_longest_run(segs@, start),
                );
                lemma_zeros_bound(segs@, start as int);
            }
            if n > 1 {
                let mut s = show_segments(&segs, 0, start);
                s.append("::");
                s.append(show_segments(&segs, start + n, segs.len()).as_str());
                assert(segs@.subrange(0, start as int) =~= segs@.take(start as int));
                assert(segs@.subrange(start + n, segs@.len() as int) =~= segs@.skip(start + n));
                s
            } else {
                assert(segs@.subrange(0, segs@.len() as int) =~= segs@);
                show_segments(&segs, 0, segs.len())
            }
        },
    }
}

// ---- either ----

/// The text of an address.
pub open spec fn ip_text(ip: IpAddr) -> Seq<char> {
    match ip {
        IpAddr::V4(n) => v4_text(n),
        IpAddr::V6(n) => v6_text(n),
    }
}

/// The text of an address and a port; an IPv6 address stands in brackets, with
/// its scope where it has one.
pub open spec fn addr_text(addr: SocketAddr) -> Seq<char> {
    match addr {
        SocketAddr::V4 { ip, port } => v4_text(ip) + ":"@ + dec(port as nat),
        SocketAddr::V6 { ip, port, scope_id, .. } => if scope_id == 0 {
            "["@ + v6_text(ip) + "]:"@ + dec(port as nat)
        } else {
            "["@ + v6_text(ip) + "%"@ + dec(scope_id as nat) + "]:"@ + dec(port as nat)
        },
    }
}

/// The text of an address.
pub fn show_ip(ip: IpAddr) -> (r: String)
    ensures
        r@ == ip_text(ip),
{
    match ip {
        IpAddr::V4(n) => show_v4(n),
        IpAddr::V6(n) => show_v6(n),
    }
}

/// The text of an address and a port.
pub fn show_addr(addr: SocketAddr) -> (r: String)
    ensures
        r@ == addr_text(addr),
{
    match addr {
        SocketAddr::V4 { ip, port } => {
            let mut s = show_v4(ip);
            s.append(":");
            s.append(dec_u64(port as u64).as_str());
            s
        },
        SocketAddr::V6 { ip, port, scope_id, .. } => {
            let mut s = "[".to_string();
            s.append(show_v6(ip).as_str());
            if scope_id != 0 {
                s.append("%");
                s.append(dec_u64(scope_id as u64).as_str());
            }
            s.append("]:");
            s.append(dec_u64(port as u64).as_str());
            s
        },
    }
}

} // verus!
