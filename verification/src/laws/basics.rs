//! Texts, numbers, bytes and addresses.

use vstd::prelude::*;
use vstd::utf8::{decode_utf8, encode_utf8, valid_utf8};

use crate::address::{
    addr_text, hex_number, ip_text, is_longest_run, lemma_longest_run, segments, shifted, shortened,
    v4_text, v6_text, zeros_from,
};
use crate::digest::blake3_digest;
use crate::net::{IpAddr, SocketAddr};
use crate::order::{byte_key, codes, lex_le};
use crate::pair::{challenge_msg, code_number, code_of, requester_code};
use crate::protocol::{be32, framed, from_be32, MsgView};
use crate::text::{
    ascii_lower, dec, digit, digits_value, first_at, first_word, has_part, has_prefix, is_digit,
    is_white, joined, occurs_at, padded, replaced, trim_back, trim_front, trimmed, until_white,
};
use crate::util::{
    all_pairs, bit, bitmap_bytes, byte_unit, device_name, half_even, hex, hex_digit, hex_value,
    in_53_bits, pair_value, shown_bytes, token_seed, unhex,
};

verus! {

// ---- texts ----

/// A text begins with another exactly when it is that one and something behind it.
pub proof fn lemma_prefix(s: Seq<char>, p: Seq<char>, t: Seq<char>)
    ensures
        has_prefix(p + t, p),
        has_prefix(s, p) <==> exists|rest: Seq<char>| s == #[trigger] (p + rest),
{
    assert((p + t).take(p.len() as int) =~= p);
    if has_prefix(s, p) {
        assert(s =~= p + s.skip(p.len() as int));
    }
    if exists|rest: Seq<char>| s == #[trigger] (p + rest) {
        let rest = choose|rest: Seq<char>| s == #[trigger] (p + rest);
        assert((p + rest).take(p.len() as int) =~= p);
    }
}

/// A text holds another exactly when it is that one with something around it.
pub proof fn lemma_part(s: Seq<char>, p: Seq<char>, a: Seq<char>, b: Seq<char>)
    ensures
        has_part(a + p + b, p),
        has_part(s, p) <==> exists|x: Seq<char>, y: Seq<char>| s == #[trigger] (x + p + y),
{
    assert((a + p + b).subrange(a.len() as int, a.len() as int + p.len()) =~= p);
    assert(occurs_at(a + p + b, p, a.len() as int));
    if has_part(s, p) {
        let i = choose|i: int| occurs_at(s, p, i);
        assert(s =~= s.take(i) + p + s.skip(i + p.len())) by {
            assert forall|k: int| 0 <= k < p.len() implies s[i + k] == p[k] by {
                assert(s.subrange(i, i + p.len())[k] == p[k]);
            }
        }
    }
    if exists|x: Seq<char>, y: Seq<char>| s == #[trigger] (x + p + y) {
        let (x, y) = choose|x: Seq<char>, y: Seq<char>| s == #[trigger] (x + p + y);
        assert((x + p + y).subrange(x.len() as int, x.len() as int + p.len()) =~= p);
        assert(occurs_at(s, p, x.len() as int));
    }
}

proof fn lemma_earliest(s: Seq<char>, p: Seq<char>, k: int)
    requires
        occurs_at(s, p, k),
    ensures
        exists|i: int| occurs_at(s, p, i) && forall|j: int| 0 <= j < i ==> !occurs_at(s, p, j),
    decreases k,
{
    if exists|j: int| 0 <= j < k && occurs_at(s, p, j) {
        lemma_earliest(s, p, choose|j: int| 0 <= j < k && occurs_at(s, p, j));
    }
}

/// The place at which a text is found is the first at which it stands, and it is
/// found exactly when it is there.
pub proof fn lemma_found_first(s: Seq<char>, p: Seq<char>, a: Seq<char>, b: Seq<char>)
    ensures
        first_at(s, p) is Some <==> has_part(s, p),
        s == a + p + b ==> (first_at(s, p) matches Some(i) && 0 <= i <= a.len()),
        first_at(s, p) matches Some(i) ==> (0 <= i && i + p.len() <= s.len() && s == s.take(i) + p
            + s.skip(i + p.len())),
{
    lemma_part(s, p, a, b);
    if has_part(s, p) {
        let k = choose|k: int| occurs_at(s, p, k);
        lemma_earliest(s, p, k);
        let i = first_at(s, p)->0;
        assert(occurs_at(s, p, i));
        assert(s =~= s.take(i) + p + s.skip(i + p.len())) by {
            assert forall|k: int| 0 <= k < p.len() implies s[i + k] == p[k] by {
                assert(s.subrange(i, i + p.len())[k] == p[k]);
            }
        }
        if s == a + p + b {
            assert((a + p + b).subrange(a.len() as int, a.len() as int + p.len()) =~= p);
            assert(occurs_at(s, p, a.len() as int));
        }
    }
}

/// All of the text is blank.
pub open spec fn is_blank(s: Seq<char>) -> bool {
    forall|i: int| 0 <= i < s.len() ==> is_white(#[trigger] s[i])
}

/// None of the text is blank.
pub open spec fn is_dense(s: Seq<char>) -> bool {
    forall|i: int| 0 <= i < s.len() ==> !is_white(#[trigger] s[i])
}

/// Of the first 128 characters exactly the tab, the four line ends behind it and the
/// space are white.
pub proof fn lemma_ascii_white(c: char)
    requires
        (c as u32) < 128,
    ensures
        is_white(c) <==> c == ' ' || c == '\t' || c == '\n' || c as u32 == 11 || c as u32 == 12 || c
            == '\r',
{
}

proof fn lemma_trim_front(s: Seq<char>)
    ensures
        trim_front(s).len() <= s.len(),
        is_blank(s.take(s.len() - trim_front(s).len())),
        s.skip(s.len() - trim_front(s).len()) == trim_front(s),
        trim_front(s).len() > 0 ==> !is_white(trim_front(s)[0]),
    decreases s.len(),
{
    if s.len() > 0 && is_white(s[0]) {
        let t = s.skip(1);
        lemma_trim_front(t);
        let n = s.len() - trim_front(s).len();
        assert(s.skip(n) =~= t.skip(n - 1));
        assert forall|i: int| 0 <= i < n implies is_white(#[trigger] s.take(n)[i]) by {
            if i > 0 {
                assert(t.take(n - 1)[i - 1] == s[i]);
            }
        }
    } else {
        assert(s.skip(0) =~= s);
    }
}

proof fn lemma_trim_back(s: Seq<char>)
    ensures
        trim_back(s).len() <= s.len(),
        trim_back(s) == s.take(trim_back(s).len() as int),
        is_blank(s.skip(trim_back(s).len() as int)),
        trim_back(s).len() > 0 ==> !is_white(trim_back(s).last()),
    decreases s.len(),
{
    let n = trim_back(s).len() as int;
    if s.len() > 0 && is_white(s.last()) {
        let t = s.drop_last();
        lemma_trim_back(t);
        assert(s.take(n) =~= t.take(n));
        assert forall|i: int| 0 <= i < s.skip(n).len() implies is_white(
            #[trigger] s.skip(n)[i],
        ) by {
            if i < s.skip(n).len() - 1 {
                assert(t.skip(n)[i] == s.skip(n)[i]);
            }
        }
    } else {
        assert(s.take(n) =~= s);
    }
}

/// Trimming takes away what is blank at both ends and nothing else: the text is the
/// trimmed text between blanks, and that neither begins nor ends with one.
pub proof fn lemma_trimmed(s: Seq<char>)
    ensures
        exists|a: Seq<char>, b: Seq<char>|
            s == #[trigger] (a + trimmed(s) + b) && is_blank(a) && is_blank(b),
        trimmed(s).len() > 0 ==> !is_white(trimmed(s)[0]) && !is_white(trimmed(s).last()),
        trimmed(s).len() == 0 <==> is_blank(s),
{
    let f = trim_front(s);
    lemma_trim_front(s);
    lemma_trim_back(f);
    let a = s.take(s.len() - f.len());
    let b = f.skip(trimmed(s).len() as int);
    assert(s =~= a + trimmed(s) + b);
    if trimmed(s).len() > 0 {
        assert(trimmed(s)[0] == f[0]);
    } else {
        assert forall|i: int| 0 <= i < s.len() implies is_white(#[trigger] s[i]) by {
            if i < a.len() {
                assert(a[i] == s[i]);
            } else {
                assert(b[i - a.len()] == s[i]);
            }
        }
    }
    if trimmed(s).len() > 0 {
        assert(s[a.len() as int] == trimmed(s)[0]);
    }
}

proof fn lemma_until_white(s: Seq<char>)
    ensures
        until_white(s).len() <= s.len(),
        until_white(s) == s.take(until_white(s).len() as int),
        is_dense(until_white(s)),
        until_white(s).len() < s.len() ==> is_white(s[until_white(s).len() as int]),
    decreases s.len(),
{
    let n = until_white(s).len() as int;
    if s.len() == 0 || is_white(s[0]) {
        assert(s.take(0) =~= Seq::empty());
    } else {
        let t = s.skip(1);
        lemma_until_white(t);
        assert(s.take(n) =~= seq![s[0]] + t.take(n - 1));
        assert forall|i: int| 0 <= i < n implies !is_white(#[trigger] until_white(s)[i]) by {
            if i > 0 {
                assert(until_white(t)[i - 1] == until_white(s)[i]);
            }
        }
    }
}

/// The first word: blanks, then the word, which holds none, then the end or a blank.
/// It is empty exactly when all of the text is blank.
pub proof fn lemma_first_word(s: Seq<char>)
    ensures
        is_dense(first_word(s)),
        exists|a: Seq<char>, b: Seq<char>|
            s == #[trigger] (a + first_word(s) + b) && is_blank(a) && (b.len() > 0 ==> is_white(
                b[0],
            )),
        first_word(s).len() == 0 <==> is_blank(s),
{
    let f = trim_front(s);
    let w = first_word(s);
    lemma_trim_front(s);
    lemma_until_white(f);
    let a = s.take(s.len() - f.len());
    let b = f.skip(w.len() as int);
    assert(s =~= a + w + b);
    if w.len() == 0 {
        assert(f.len() == 0);
        assert(a =~= s);
    } else {
        assert(s[a.len() as int] == w[0]);
    }
}

/// Replacing a character touches no other.
pub proof fn lemma_replaced(s: Seq<char>, from: char, to: char, i: int)
    requires
        0 <= i < s.len(),
    ensures
        replaced(s, from, to).len() == s.len(),
        s[i] == from ==> replaced(s, from, to)[i] == to,
        s[i] != from ==> replaced(s, from, to)[i] == s[i],
{
}

/// Padding keeps the text and fills it up with spaces to the width, never beyond it.
pub proof fn lemma_padded(s: Seq<char>, width: nat)
    ensures
        padded(s, width).len() >= width,
        padded(s, width).len() == width || padded(s, width).len() == s.len(),
        padded(s, width).len() >= s.len(),
        padded(s, width).take(s.len() as int) == s,
        forall|i: int|
            s.len() <= i < padded(s, width).len() ==> #[trigger] padded(s, width)[i] == ' ',
{
    assert(padded(s, width).take(s.len() as int) =~= s);
}

/// Joining puts the separator between the parts and nowhere else.
pub proof fn lemma_joined(parts: Seq<Seq<char>>, sep: Seq<char>, last: Seq<char>)
    ensures
        joined(Seq::empty(), sep).len() == 0,
        joined(seq![last], sep) == last,
        parts.len() > 0 ==> joined(parts.push(last), sep) == joined(parts, sep) + sep + last,
{
    assert(parts.push(last).drop_last() =~= parts);
}

/// Capital letters of ASCII become small ones, and nothing else changes.
pub proof fn lemma_ascii_lower(c: char)
    ensures
        'A' <= c <= 'Z' ==> ascii_lower(c) as int == c as int + 32,
        !('A' <= c <= 'Z') ==> ascii_lower(c) == c,
{
}

/// A number reads as its decimal digits: the digits of its tenth and then its last
/// one; no number but zero begins with a zero.
pub proof fn lemma_decimal(n: nat, d: nat)
    requires
        d < 10,
    ensures
        dec(d) == seq![digit(d as int)],
        n > 0 ==> dec(n * 10 + d) == dec(n).push(digit(d as int)),
        dec(n)[0] == '0' ==> n == 0,
        digit(d as int) as int == '0' as int + d,
        is_digit(digit(d as int)),
    decreases n,
{
    if n >= 10 {
        lemma_decimal(n / 10, 0);
        crate::text::lemma_dec_value(n / 10);
        assert(dec(n)[0] == dec(n / 10)[0]);
    }
}

/// Digits have the value that they have in decimal.
pub proof fn lemma_digits_value(s: Seq<char>, d: nat)
    requires
        d < 10,
    ensures
        digits_value(Seq::empty()) == 0,
        digits_value(s.push(digit(d as int))) == digits_value(s) * 10 + d,
{
    assert(s.push(digit(d as int)).drop_last() =~= s);
}

/// The order of keys: where they first differ the smaller number comes first, and a
/// key comes before its own continuations.
pub proof fn lemma_key_order(a: Seq<int>, b: Seq<int>, common: Seq<int>, x: int, y: int)
    ensures
        lex_le(common, common + a),
        a.len() > 0 ==> !lex_le(common + a, common),
        x < y ==> lex_le(common + seq![x] + a, common + seq![y] + b),
        x < y ==> !lex_le(common + seq![y] + b, common + seq![x] + a),
    decreases common.len(),
{
    if common.len() == 0 {
        assert((common + seq![x] + a)[0] == x);
        assert((common + seq![y] + b)[0] == y);
    } else {
        let rest = common.skip(1);
        lemma_key_order(a, b, rest, x, y);
        assert((common + a).skip(1) =~= rest + a);
        assert((common + seq![x] + a).skip(1) =~= rest + seq![x] + a);
        assert((common + seq![y] + b).skip(1) =~= rest + seq![y] + b);
        assert((common + a)[0] == common[0]);
        assert((common + seq![x] + a)[0] == common[0]);
        assert((common + seq![y] + b)[0] == common[0]);
    }
}

/// The key of a text is its code points, one by one, and that of bytes is the bytes.
pub proof fn lemma_keys(s: Seq<char>, bytes: Seq<u8>, i: int)
    ensures
        codes(s).len() == s.len(),
        0 <= i < s.len() ==> codes(s)[i] == s[i] as int,
        byte_key(bytes).len() == bytes.len(),
        0 <= i < bytes.len() ==> byte_key(bytes)[i] == bytes[i],
{
}

// ---- bytes ----

/// The hexadecimal digits are the small ones, and capital letters are read like them.
pub proof fn lemma_hex_digits(d: int, b: u8)
    requires
        0 <= d < 16,
    ensures
        hex_digit(d) == "0123456789abcdef"@[d],
        hex_value(b) == Some(d) <==> b as char == "0123456789abcdef"@[d] || b as char
            == "0123456789ABCDEF"@[d],
        hex_value(b) matches Some(v) ==> 0 <= v < 16,
{
    reveal_strlit("0123456789abcdef");
    reveal_strlit("0123456789ABCDEF");
}

/// Two hexadecimal digits are a byte; a plus and a digit are that digit; nothing else
/// is a byte.
pub proof fn lemma_hex_pairs(a: u8, b: u8)
    ensures
        hex_value(a) is Some && hex_value(b) is Some ==> pair_value(a, b) is Some && pair_value(
            a,
            b,
        )->0 == 16 * hex_value(a)->0 + hex_value(b)->0,
        a == 43 && hex_value(b) is Some ==> pair_value(a, b) is Some && pair_value(a, b)->0
            == hex_value(b)->0,
        pair_value(a, b) is Some <==> hex_value(b) is Some && (hex_value(a) is Some || a == 43),
{
}

/// A text is hexadecimal exactly when all its pairs are two digits, or a plus and a
/// digit.
pub proof fn lemma_all_pairs(text: Seq<u8>)
    ensures
        all_pairs(text) <==> forall|i: int|
            0 <= i < text.len() / 2 ==> hex_value(#[trigger] text[2 * i + 1]) is Some && (hex_value(
                text[2 * i],
            ) is Some || text[2 * i] == 43),
{
    if all_pairs(text) {
        assert forall|i: int| 0 <= i < text.len() / 2 implies hex_value(
            #[trigger] text[2 * i + 1],
        ) is Some && (hex_value(text[2 * i]) is Some || text[2 * i] == 43) by {
            assert(pair_value(text[2 * i], text[2 * i + 1]) is Some);
        }
    }
}

/// Each byte is written as two digits, the high one first, and is read back from
/// them.
pub proof fn lemma_hex_places(bytes: Seq<u8>, text: Seq<u8>, i: int)
    ensures
        hex(bytes).len() == 2 * bytes.len(),
        0 <= i < bytes.len() ==> hex(bytes)[2 * i] == "0123456789abcdef"@[bytes[i] as int / 16]
            && hex(bytes)[2 * i + 1] == "0123456789abcdef"@[bytes[i] as int % 16],
        unhex(text).len() == text.len() / 2,
        all_pairs(text) && 0 <= i < text.len() / 2 ==> pair_value(text[2 * i], text[2 * i + 1])
            == Some(unhex(text)[i]),
{
    if 0 <= i < bytes.len() {
        lemma_hex_digits(bytes[i] as int / 16, 0);
        lemma_hex_digits(bytes[i] as int % 16, 0);
        assert((2 * i) / 2 == i && (2 * i) % 2 == 0);
        assert((2 * i + 1) / 2 == i && (2 * i + 1) % 2 == 1);
    }
}

/// Bit `k` of byte `i` of a bitmap, from the low end, is chunk `8 * i + k`; behind the
/// end of the bitmap no bit is set.
pub proof fn lemma_bit_places(bm: Seq<u8>, i: int, k: u8)
    requires
        k < 8,
    ensures
        bit(bm, 8 * i + k) <==> 0 <= i < bm.len() && (bm[i] >> k) % 2 == 1,
{
    let b = bm[i];
    assert((8 * i + k) / 8 == i && (8 * i + k) % 8 == k);
    assert((b & (1u8 << k) != 0) == ((b >> k) % 2 == 1)) by (bit_vector)
        requires
            k < 8,
    ;
}

/// A bitmap has a byte for every eight chunks and one for what is left over.
pub proof fn lemma_bitmap_bytes(chunks: int)
    requires
        0 <= chunks,
    ensures
        8 * bitmap_bytes(chunks) >= chunks,
        8 * (bitmap_bytes(chunks) - 1) < chunks,
{
}

/// A length goes out as four bytes, the high one first, in front of the body, and is
/// read from them.
pub proof fn lemma_frame_bytes(n: u32, body: Seq<u8>, a: u8, b: u8, c: u8, d: u8)
    ensures
        be32(n).len() == 4,
        ((be32(n)[0] * 256 + be32(n)[1]) * 256 + be32(n)[2]) * 256 + be32(n)[3] == n,
        from_be32(seq![a, b, c, d]) == ((a * 256 + b) * 256 + c) * 256 + d,
        body.len() <= u32::MAX ==> framed(body) == be32(body.len() as u32) + body,
{
    let x = n / 16777216;
    let y = n / 65536 % 256;
    let z = n / 256 % 256;
    let w = n % 256;
    assert(x < 256 && y < 256 && z < 256 && w < 256);
    assert(n == ((x * 256 + y) * 256 + z) * 256 + w);
}

/// The name of a device is what it calls itself, without the blanks around it; one
/// that does not say, or says nothing readable, gets a plain one.
pub proof fn lemma_device_name(bytes: Seq<u8>)
    ensures
        valid_utf8(bytes) && !is_blank(decode_utf8(bytes)) ==> device_name(Some(bytes)) == trimmed(
            decode_utf8(bytes),
        ),
        !valid_utf8(bytes) || is_blank(decode_utf8(bytes)) ==> device_name(Some(bytes))
            == "caybul-device"@,
        device_name(None) == "caybul-device"@,
{
    lemma_trimmed(decode_utf8(bytes));
}

/// Division to the nearest: no other quotient is nearer, and of two that are equally
/// near the even one counts.
pub proof fn lemma_half_even(a: int, b: int)
    requires
        0 <= a,
        0 < b,
    ensures
        -b <= 2 * (half_even(a, b) * b - a) <= b,
        2 * (half_even(a, b) * b - a) == b || 2 * (half_even(a, b) * b - a) == -b ==> half_even(
            a,
            b,
        ) % 2 == 0,
{
    let q = a / b;
    let m = a % b;
    vstd::arithmetic::div_mod::lemma_fundamental_div_mod(a, b);
    vstd::arithmetic::div_mod::lemma_mod_bound(a, b);
    assert(b * q == q * b) by (nonlinear_arith);
    assert((q + 1) * b == q * b + b) by (nonlinear_arith);
}

/// Numbers below 2 to the 53rd are exact.
pub proof fn lemma_small_is_exact(n: int)
    requires
        0 <= n < 9007199254740992,
    ensures
        in_53_bits(n, 1) == n,
{
    assert(n / 1 == n);
    assert(n % 1 == 0);
    assert(half_even(n, 1) == n);
}

/// Any number is rounded to the nearest with 53 bits: to a multiple of the smallest
/// step at which it has no more.
pub proof fn lemma_rounded(n: int, step: int)
    requires
        0 <= n,
        0 < step,
        step == 1 || n / (step / 2) >= 9007199254740992,
    ensures
        exists|s: int|
            #![trigger half_even(n, s)]
            s >= step && in_53_bits(n, step) == half_even(n, s) * s && (n / s < 9007199254740992 || 2
                * s > n) && (s == 1 || n / (s / 2) >= 9007199254740992),
    decreases n - step,
{
    if n / step < 9007199254740992 || 2 * step > n {
        assert(in_53_bits(n, step) == half_even(n, step) * step);
    } else {
        assert((2 * step) / 2 == step);
        lemma_rounded(n, 2 * step);
        let s = choose|s: int|
            #![trigger half_even(n, s)]
            s >= 2 * step && in_53_bits(n, 2 * step) == half_even(n, s) * s && (n / s
                < 9007199254740992 || 2 * s > n) && (s == 1 || n / (s / 2) >= 9007199254740992);
        assert(in_53_bits(n, step) == half_even(n, s) * s);
    }
}

/// Sizes are shown in the largest unit that is no larger than they are, up to TB.
pub proof fn lemma_byte_unit(n: int)
    requires
        0 <= n,
    ensures
        byte_unit(n).0 == 1 <==> n < 1024,
        n >= 1024 ==> byte_unit(n).0 <= n,
        n < 1024 * byte_unit(n).0 || byte_unit(n).0 == 1099511627776,
        byte_unit(n).0 == 1 ==> byte_unit(n).1 == "B"@,
        byte_unit(n).0 == 1024 ==> byte_unit(n).1 == "KB"@,
        byte_unit(n).0 == 1024 * 1024 ==> byte_unit(n).1 == "MB"@,
        byte_unit(n).0 == 1024 * 1024 * 1024 ==> byte_unit(n).1 == "GB"@,
        byte_unit(n).0 == 1024 * 1024 * 1024 * 1024 ==> byte_unit(n).1 == "TB"@,
        byte_unit(n).0 == 1 || byte_unit(n).0 == 1024 || byte_unit(n).0 == 1024 * 1024 || byte_unit(
            n,
        ).0 == 1024 * 1024 * 1024 || byte_unit(n).0 == 1024 * 1024 * 1024 * 1024,
{
}

/// How a size reads: below 1024 as it is, and above that in tenths of its unit,
/// rounded to the nearest, the even one of two.
pub proof fn lemma_shown_bytes(n: int, tenths: int)
    requires
        0 <= n < 9007199254740992,
        0 <= tenths,
        2 * (tenths * byte_unit(n).0 - n * 10) <= byte_unit(n).0,
        2 * (tenths * byte_unit(n).0 - n * 10) >= -byte_unit(n).0,
        2 * (tenths * byte_unit(n).0 - n * 10) == byte_unit(n).0 || 2 * (tenths * byte_unit(n).0 - n
            * 10) == -byte_unit(n).0 ==> tenths % 2 == 0,
    ensures
        n < 1024 ==> shown_bytes(n) == dec(n as nat) + " "@ + "B"@,
        n >= 1024 ==> shown_bytes(n) == dec((tenths / 10) as nat) + "."@ + dec((tenths % 10) as nat)
            + " "@ + byte_unit(n).1,
{
    lemma_small_is_exact(n);
    let u = byte_unit(n).0;
    if n >= 1024 {
        let h = half_even(n * 10, u);
        lemma_half_even(n * 10, u);
        assert(h == tenths) by (nonlinear_arith)
            requires
                u > 0,
                -u <= 2 * (h * u - n * 10) <= u,
                -u <= 2 * (tenths * u - n * 10) <= u,
                2 * (h * u - n * 10) == u || 2 * (h * u - n * 10) == -u ==> h % 2 == 0,
                2 * (tenths * u - n * 10) == u || 2 * (tenths * u - n * 10) == -u ==> tenths % 2
                    == 0,
        ;
    }
}

/// What a token is drawn from names the time, the process and a count.
pub proof fn lemma_token_seed(nanos: nat, pid: nat, count: nat)
    ensures
        token_seed(nanos, pid, count) == joined(
            seq!["caybul"@, dec(nanos), dec(pid), dec(count)],
            ":"@,
        ),
{
    reveal_strlit("caybul:");
    reveal_strlit("caybul");
    reveal_strlit(":");
    let a = seq!["caybul"@];
    let b = a.push(dec(nanos));
    let c = b.push(dec(pid));
    let d = c.push(dec(count));
    lemma_joined(Seq::empty(), ":"@, "caybul"@);
    lemma_joined(a, ":"@, dec(nanos));
    lemma_joined(b, ":"@, dec(pid));
    lemma_joined(c, ":"@, dec(count));
    assert(d =~= seq!["caybul"@, dec(nanos), dec(pid), dec(count)]);
    assert("caybul:"@ =~= "caybul"@ + ":"@);
    assert(a =~= Seq::<Seq<char>>::empty().push("caybul"@));
}

// ---- addresses ----

/// An IPv4 address reads as its four bytes with dots between them.
pub proof fn lemma_v4_text(ip: u32, a: u8, b: u8, c: u8, d: u8)
    requires
        ip == ((a * 256 + b) * 256 + c) * 256 + d,
    ensures
        v4_text(ip) == dec(a as nat) + "."@ + dec(b as nat) + "."@ + dec(c as nat) + "."@ + dec(
            d as nat,
        ),
        ip_text(IpAddr::V4(ip)) == v4_text(ip),
{
    assert(ip / 16777216 == a);
    assert(ip / 65536 % 256 == b);
    assert(ip / 256 % 256 == c);
    assert(ip % 256 == d);
}

/// The groups of an IPv6 address are its sixteen-bit digits, the high one first.
pub proof fn lemma_segments(ip: u128)
    ensures
        segments(ip).len() == 8,
        ((((((segments(ip)[0] * 65536 + segments(ip)[1]) * 65536 + segments(ip)[2]) * 65536
            + segments(ip)[3]) * 65536 + segments(ip)[4]) * 65536 + segments(ip)[5]) * 65536
            + segments(ip)[6]) * 65536 + segments(ip)[7] == ip,
{
    let n = ip as nat;
    assert(shifted(n, 0) == n);
    assert(shifted(n, 1) == n / 65536) by {
        reveal_with_fuel(shifted, 2);
    }
    assert(shifted(n, 2) == shifted(n, 1) / 65536);
    assert(shifted(n, 3) == shifted(n, 2) / 65536);
    assert(shifted(n, 4) == shifted(n, 3) / 65536);
    assert(shifted(n, 5) == shifted(n, 4) / 65536);
    assert(shifted(n, 6) == shifted(n, 5) / 65536);
    assert(shifted(n, 7) == shifted(n, 6) / 65536);
    assert(segments(ip)[7] == shifted(n, 0) % 65536);
    assert(segments(ip)[6] == shifted(n, 1) % 65536);
    assert(segments(ip)[5] == shifted(n, 2) % 65536);
    assert(segments(ip)[4] == shifted(n, 3) % 65536);
    assert(segments(ip)[3] == shifted(n, 4) % 65536);
    assert(segments(ip)[2] == shifted(n, 5) % 65536);
    assert(segments(ip)[1] == shifted(n, 6) % 65536);
    assert(segments(ip)[0] == shifted(n, 7) % 65536);
    assert(shifted(n, 7) < 65536);
}

/// A group reads as its hexadecimal digits, without zeros in front.
pub proof fn lemma_hex_number(n: nat, d: nat)
    requires
        d < 16,
    ensures
        hex_number(d) == seq!["0123456789abcdef"@[d as int]],
        n > 0 ==> hex_number(n * 16 + d) == hex_number(n).push("0123456789abcdef"@[d as int]),
{
    lemma_hex_digits(d as int, 0);
    if n > 0 {
        assert((n * 16 + d) / 16 == n);
        assert((n * 16 + d) % 16 == d);
    }
}

/// A run of zeros goes as far as there are zeros, and no further.
pub proof fn lemma_zero_run(segs: Seq<u16>, i: int)
    requires
        0 <= i <= segs.len(),
    ensures
        0 <= zeros_from(segs, i) <= segs.len() - i,
        forall|k: int| i <= k < i + zeros_from(segs, i) ==> #[trigger] segs[k] == 0,
        i + zeros_from(segs, i) < segs.len() ==> segs[i + zeros_from(segs, i)] != 0,
    decreases segs.len() - i,
{
    if i < segs.len() && segs[i] == 0 {
        lemma_zero_run(segs, i + 1);
    }
}

/// An IPv6 address reads as its groups with colons between them, and `::` in place of
/// the first of its longest runs of two or more zeros. One that carries an IPv4
/// address ends in that.
pub proof fn lemma_v6_text(ip: u128, start: int, v4: u32)
    ensures
        ip == 0xffff_0000_0000 + v4 ==> v6_text(ip) == "::ffff:"@ + v4_text(v4),
        !(0xffff_0000_0000 <= ip <= 0xffff_ffff_ffff) && is_longest_run(segments(ip), start) ==> ({
            let groups = segments(ip).map_values(|s: u16| hex_number(s as nat));
            let run = zeros_from(segments(ip), start);
            &&& run <= 1 ==> v6_text(ip) == joined(groups, ":"@)
            &&& run > 1 ==> v6_text(ip) == joined(groups.take(start), ":"@) + "::"@ + joined(
                groups.skip(start + run),
                ":"@,
            )
        }),
        ip_text(IpAddr::V6(ip)) == v6_text(ip),
{
    if !(0xffff_0000_0000 <= ip <= 0xffff_ffff_ffff) && is_longest_run(segments(ip), start) {
        let segs = segments(ip);
        let groups = segs.map_values(|s: u16| hex_number(s as nat));
        let run = zeros_from(segs, start);
        let chosen = choose|start: int| is_longest_run(segs, start);
        lemma_longest_run(segs, start, chosen);
        lemma_zero_run(segs, start);
        assert(segs.take(start).map_values(|s: u16| hex_number(s as nat)) =~= groups.take(start));
        assert(segs.skip(start + run).map_values(|s: u16| hex_number(s as nat)) =~= groups.skip(
            start + run,
        ));
        assert(v6_text(ip) == shortened(segs, start));
    }
}

/// An address and a port read with a colon between them, an IPv6 address in brackets
/// and with its scope where it has one.
pub proof fn lemma_addr_text(ip: u32, port: u16, v6: u128, flowinfo: u32, scope_id: u32)
    ensures
        addr_text(SocketAddr::V4 { ip, port }) == v4_text(ip) + ":"@ + dec(port as nat),
        addr_text(SocketAddr::V6 { ip: v6, port, flowinfo, scope_id: 0 }) == "["@ + v6_text(v6)
            + "]:"@ + dec(port as nat),
        scope_id != 0 ==> addr_text(SocketAddr::V6 { ip: v6, port, flowinfo, scope_id }) == "["@
            + v6_text(v6) + "%"@ + dec(scope_id as nat) + "]:"@ + dec(port as nat),
{
}

// ---- pairing codes ----

/// A pairing code is drawn from both nonces, that of the one who asks first: six
/// digits of the digest's first four bytes, the low one first.
pub proof fn lemma_pairing_code(a: Seq<char>, b: Seq<char>, digest: Seq<u8>, n: nat)
    requires
        digest == blake3_digest(encode_utf8("caybul-pair:"@ + a + ":"@ + b)),
        n == (((digest[3] * 256 + digest[2]) * 256 + digest[1]) * 256 + digest[0]) % 1000000,
    ensures
        code_of(a, b).len() == 6,
        digits_value(code_of(a, b)) == n,
        forall|i: int| 0 <= i < 6 ==> is_digit(#[trigger] code_of(a, b)[i]),
{
    crate::pair::lemma_six_digits(n as int);
    assert(code_number(digest) == n);
}

/// The one who asks has a code exactly when the answer is a challenge, and then the
/// one of its own nonce and the nonce in the challenge.
pub proof fn lemma_code_from_challenge(nonce: Seq<char>, reply: MsgView, name: Seq<char>)
    ensures
        requester_code(nonce, reply) is Some <==> reply is PairChallenge,
        reply matches MsgView::PairChallenge { nonce_hex, .. } ==> requester_code(nonce, reply)
            == Some(code_of(nonce, nonce_hex)),
        challenge_msg(name, nonce) matches MsgView::PairChallenge { name: n, nonce_hex } && n == name
            && nonce_hex == nonce,
{
}

} // verus!
