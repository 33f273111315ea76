//! Hex text, chunk bitmaps, tokens and the other small tools of a transfer.

use vstd::prelude::*;
use vstd::utf8::encode_utf8;

use crate::digest::{blake3_digest, blake3_hash};
use crate::text::{dec, dec_text, dec_u64, from_utf8, is_digit, trim, trimmed};

verus! {

// ---- hex ----

/// The character of one hexadecimal digit, in lower case.
pub open spec fn hex_digit(d: int) -> char {
    if d < 10 {
        (48 + d) as char
    } else {
        (87 + d) as char
    }
}

/// Two lower-case hexadecimal digits for each byte, the high digit first.
pub open spec fn hex(bytes: Seq<u8>) -> Seq<char> {
    Seq::new(
        bytes.len() * 2,
        |i: int|
            if i % 2 == 0 {
                hex_digit(bytes[i / 2] as int / 16)
            } else {
                hex_digit(bytes[i / 2] as int % 16)
            },
    )
}

pub(crate) fn hex_char(d: u8) -> (c: char)
    requires
        d < 16,
    ensures
        c == hex_digit(d as int),
{
    if d < 10 {
        (48u8 + d) as char
    } else {
        (87u8 + d) as char
    }
}

/// Two lower-case hexadecimal digits for each byte.
pub fn hex_encode(bytes: &[u8]) -> (r: String)
    ensures
        r@ == hex(bytes@),
{
    let mut s = String::new();
    let mut i: usize = 0;
    assert(hex(bytes@.take(0)) =~= Seq::<char>::empty());
    while i < bytes.len()
        invariant
            i <= bytes@.len(),
            s@ == hex(bytes@.take(i as int)),
        decreases bytes@.len() - i,
    {
        let b: u8 = bytes[i];
        s.push(hex_char(b / 16));
        s.push(hex_char(b % 16));
        assert(s@ =~= hex(bytes@.take(i + 1)));
        i = i + 1;
    }
    assert(bytes@.take(bytes@.len() as int) =~= bytes@);
    s
}

/// Why a text is no hex text.
#[derive(Debug, Clone, Copy, PartialEq, Eq, Structural)]
pub enum HexError {
    /// The text has an odd number of bytes.
    OddLength,
    /// Two bytes that belong together are no number.
    BadDigit,
}

impl HexError {
    /// The error in words.
    pub fn message(&self) -> (r: String)
        ensures
            r@ == match self {
                HexError::OddLength => "odd hex length"@,
                HexError::BadDigit => "invalid digit found in string"@,
            },
    {
        match self {
            HexError::OddLength => "odd hex length".to_string(),
            HexError::BadDigit => "invalid digit found in string".to_string(),
        }
    }
}

/// The value of a hexadecimal digit in ASCII, of either case.
pub open spec fn hex_value(b: u8) -> Option<int> {
    if 48 <= b <= 57 {
        Some(b - 48)
    } else if 97 <= b <= 102 {
        Some(b - 87)
    } else if 65 <= b <= 70 {
        Some(b - 55)
    } else {
        None
    }
}

/// The number that two bytes spell: two digits, or a plus sign and one digit.
pub open spec fn pair_value(a: u8, b: u8) -> Option<u8> {
    match (hex_value(a), hex_value(b)) {
        (Some(x), Some(y)) => Some((x * 16 + y) as u8),
        (None, Some(y)) => if a == 43 {
            Some(y as u8)
        } else {
            None
        },
        _ => None,
    }
}

/// Every two bytes of the text spell a number.
pub open spec fn all_pairs(text: Seq<u8>) -> bool {
    forall|i: int|
        0 <= i < text.len() / 2 ==> (#[trigger] pair_value(text[2 * i], text[2 * i + 1])) is Some
}

/// The bytes that a hex text spells.
pub open spec fn unhex(text: Seq<u8>) -> Seq<u8> {
    Seq::new(text.len() / 2, |i: int| pair_value(text[2 * i], text[2 * i + 1]).unwrap())
}

fn hex_val(b: u8) -> (r: Option<u8>)
    ensures
        r is Some <==> hex_value(b) is Some,
        r matches Some(v) ==> v < 16 && hex_value(b) == Some(v as int),
{
    if 48 <= b && b <= 57 {
        Some(b - 48)
    } else if 97 <= b && b <= 102 {
        Some(b - 87)
    } else if 65 <= b && b <= 70 {
        Some(b - 55)
    } else {
        None
    }
}

fn pair_val(a: u8, b: u8) -> (r: Option<u8>)
    ensures
        r == pair_value(a, b),
{
    match (hex_val(a), hex_val(b)) {
        (Some(x), Some(y)) => Some(x * 16 + y),
        (None, Some(y)) => if a == 43 {
            Some(y)
        } else {
            None
        },
        _ => None,
    }
}

/// The bytes that a hex text spells. A pair that cuts through a character is
/// no number either.
pub fn hex_decode(s: &str) -> (r: Result<Vec<u8>, HexError>)
    ensures
        r matches Ok(v) ==> v@ == unhex(encode_utf8(s@)),
        r is Ok <==> encode_utf8(s@).len() % 2 == 0 && all_pairs(encode_utf8(s@)),
        r == Err::<Vec<u8>, _>(HexError::OddLength) <==> encode_utf8(s@).len() % 2 != 0,
        r == Err::<Vec<u8>, _>(HexError::BadDigit) <==> encode_utf8(s@).len() % 2 == 0
            && !all_pairs(encode_utf8(s@)),
{
    let text = s.as_bytes();
    if text.len() % 2 != 0 {
        return Err(HexError::OddLength);
    }
    let mut out: Vec<u8> = Vec::new();
    let mut i: usize = 0;
    while i < text.len() / 2
        invariant
            text@ == encode_utf8(s@),
            text@.len() % 2 == 0,
            i <= text@.len() / 2,
            out@.len() == i,
            forall|j: int|
                0 <= j < i ==> pair_value(text@[2 * j], text@[2 * j + 1]) == Some(
                    #[trigger] out@[j],
                ),
        decreases text@.len() - i,
    {
        match pair_val(text[2 * i], text[2 * i + 1]) {
            Some(v) => {
                out.push(v);
            },
            None => {
                assert(pair_value(text@[2 * (i as int)], text@[2 * (i as int) + 1]) is None);
                return Err(HexError::BadDigit);
            },
        }
        i = i + 1;
    }
    assert forall|j: int| 0 <= j < text@.len() / 2 implies (#[trigger] pair_value(
        text@[2 * j],
        text@[2 * j + 1],
    )) is Some by {
        assert(pair_value(text@[2 * j], text@[2 * j + 1]) == Some(out@[j]));
    }
    assert(out@ =~= unhex(text@));
    Ok(out)
}

proof fn lemma_hex_pair(b: u8)
    ensures
        pair_value(hex_digit(b as int / 16) as u8, hex_digit(b as int % 16) as u8) == Some(b),
        (hex_digit(b as int / 16) as u32) < 128,
        (hex_digit(b as int % 16) as u32) < 128,
{
}

/// Decoding undoes encoding: hex text carries every byte sequence whole.
pub proof fn lemma_hex_round_trip(bytes: Seq<u8>)
    ensures
        encode_utf8(hex(bytes)).len() % 2 == 0,
        all_pairs(encode_utf8(hex(bytes))),
        unhex(encode_utf8(hex(bytes))) == bytes,
{
    let text = hex(bytes);
    assert forall|i: int| 0 <= i < text.len() implies (#[trigger] text[i] as u32) < 128 by {
        lemma_hex_pair(bytes[i / 2]);
    }
    vstd::utf8::is_ascii_chars_encode_utf8(text);
    let code = encode_utf8(text);
    assert forall|i: int| 0 <= i < code.len() / 2 implies #[trigger] pair_value(
        code[2 * i],
        code[2 * i + 1],
    ) == Some(bytes[i]) by {
        lemma_hex_pair(bytes[i]);
        assert((2 * i) / 2 == i && (2 * i + 1) / 2 == i);
        assert(code[2 * i] == text[2 * i] as u8);
        assert(code[2 * i + 1] == text[2 * i + 1] as u8);
    }
    assert(unhex(code) =~= bytes);
}

// ---- bitmaps of chunks ----

/// Bit `idx` of a bitmap, lowest bit of each byte first; past the end no bit
/// is set.
pub open spec fn bit(bm: Seq<u8>, idx: int) -> bool {
    0 <= idx && idx / 8 < bm.len() && bm[idx / 8] & (1u8 << ((idx % 8) as u8)) != 0
}

/// How many of the first `n` bits are set.
pub open spec fn bits_set(bm: Seq<u8>, n: nat) -> nat
    decreases n,
{
    if n == 0 {
        0
    } else {
        bits_set(bm, (n - 1) as nat) + if bit(bm, n - 1) {
            1nat
        } else {
            0
        }
    }
}

/// The bytes that a bitmap of `chunks` bits takes.
pub open spec fn bitmap_bytes(chunks: int) -> int {
    (chunks + 7) / 8
}

/// The bytes that a bitmap of `chunks` bits takes.
pub fn bitmap_len(chunks: u64) -> (r: usize)
    requires
        bitmap_bytes(chunks as int) <= usize::MAX,
    ensures
        r == bitmap_bytes(chunks as int),
{
    let whole: u64 = chunks / 8;
    let rest: u64 = if chunks % 8 == 0 {
        0
    } else {
        1
    };
    (whole + rest) as usize
}

/// True when a bitmap of `chunks` bits can be held in memory at all.
pub fn bitmap_fits(chunks: u64) -> (r: bool)
    ensures
        r == (bitmap_bytes(chunks as int) <= usize::MAX),
{
    let whole: u64 = chunks / 8;
    let rest: u64 = if chunks % 8 == 0 {
        0
    } else {
        1
    };
    whole + rest <= usize::MAX as u64
}

/// Bit `idx`; past the end of the bitmap no bit is set.
pub fn bitmap_get(bm: &[u8], idx: u64) -> (r: bool)
    ensures
        r == bit(bm@, idx as int),
{
    if idx / 8 >= bm.len() as u64 {
        return false;
    }
    let b: u8 = bm[(idx / 8) as usize];
    let k: u8 = (idx % 8) as u8;
    b & (1u8 << k) != 0
}

proof fn lemma_set_bit(b: u8, k: u8, j: u8)
    requires
        k < 8,
        j < 8,
    ensures
        ((b | (1u8 << k)) & (1u8 << j) != 0) == (k == j || b & (1u8 << j) != 0),
{
    assert(((b | (1u8 << k)) & (1u8 << j) != 0) == (k == j || b & (1u8 << j) != 0)) by (bit_vector)
        requires
            k < 8,
            j < 8,
    ;
}

/// Sets bit `idx` and leaves every other bit as it is.
pub fn bitmap_set(bm: &mut [u8], idx: u64)
    requires
        idx as int / 8 < old(bm)@.len(),
    ensures
        final(bm)@.len() == old(bm)@.len(),
        forall|j: int|
            #![trigger bit(final(bm)@, j)]
            0 <= j ==> bit(final(bm)@, j) == (j == idx || bit(old(bm)@, j)),
{
    let i: usize = (idx / 8) as usize;
    let k: u8 = (idx % 8) as u8;
    let b: u8 = bm[i];
    let ghost before = bm@;
    bm[i] = b | (1u8 << k);
    assert forall|j: int|
        #![trigger bit(bm@, j)]
        0 <= j implies bit(bm@, j) == (j == idx || bit(before, j)) by {
        if j / 8 == i {
            lemma_set_bit(b, k, (j % 8) as u8);
        }
    }
}

/// No more bits are set than there are, and all are set exactly when the count
/// says so.
pub proof fn lemma_bits_set_full(bm: Seq<u8>, n: nat)
    ensures
        bits_set(bm, n) <= n,
        bits_set(bm, n) == n <==> forall|i: int| 0 <= i < n ==> bit(bm, i),
    decreases n,
{
    if n > 0 {
        lemma_bits_set_full(bm, (n - 1) as nat);
    }
}

/// Setting a bit that was clear adds one to the count.
pub proof fn lemma_bits_set_one_more(before: Seq<u8>, after: Seq<u8>, idx: int, n: nat)
    requires
        0 <= idx < n,
        !bit(before, idx),
        forall|j: int| 0 <= j ==> #[trigger] bit(after, j) == (j == idx || bit(before, j)),
    ensures
        bits_set(after, n) == bits_set(before, n) + 1,
    decreases n,
{
    let m = (n - 1) as nat;
    assert(bit(after, n - 1) == (n - 1 == idx || bit(before, n - 1)));
    if idx < n - 1 {
        lemma_bits_set_one_more(before, after, idx, m);
    } else {
        lemma_bits_set_same(before, after, m);
    }
}

/// Bitmaps with the same first bits have the same count of them.
pub proof fn lemma_bits_set_same(a: Seq<u8>, b: Seq<u8>, n: nat)
    requires
        forall|j: int| 0 <= j < n ==> #[trigger] bit(b, j) == bit(a, j),
    ensures
        bits_set(a, n) == bits_set(b, n),
    decreases n,
{
    if n > 0 {
        assert(bit(b, n - 1) == bit(a, n - 1));
        lemma_bits_set_same(a, b, (n - 1) as nat);
    }
}

/// A bitmap of zeros has no bit set.
pub proof fn lemma_bits_set_none(bm: Seq<u8>, n: nat)
    requires
        forall|i: int| 0 <= i < bm.len() ==> bm[i] == 0,
    ensures
        forall|i: int| !bit(bm, i),
        bits_set(bm, n) == 0,
    decreases n,
{
    assert(forall|m: u8| 0u8 & m == 0) by (bit_vector);
    if n > 0 {
        lemma_bits_set_none(bm, (n - 1) as nat);
    }
}

/// How many of the first `n` bits are set.
pub fn bitmap_count(bm: &[u8], n: u64) -> (r: u64)
    ensures
        r == bits_set(bm@, n as nat),
        r <= n,
{
    let mut i: u64 = 0;
    let mut found: u64 = 0;
    while i < n
        invariant
            i <= n,
            found <= i,
            found == bits_set(bm@, i as nat),
        decreases n - i,
    {
        if bitmap_get(bm, i) {
            found = found + 1;
        }
        i = i + 1;
    }
    found
}

// ---- tokens and names ----

/// What a token is the digest of: the time in nanoseconds, the process and the
/// count of the call.
pub open spec fn token_seed(nanos: nat, pid: nat, count: nat) -> Seq<char> {
    "caybul:"@ + dec(nanos) + ":"@ + dec(pid) + ":"@ + dec(count)
}

/// A session token: the digest, in hex, of the moment, the process and a
/// count that no two calls of one process share.
pub fn new_token(nanos: u128, pid: u32, count: u64) -> (r: String)
    ensures
        r@ == hex(
            blake3_digest(encode_utf8(token_seed(nanos as nat, pid as nat, count as nat))),
        ),
        r@.len() == 64,
{
    let mut s = "caybul:".to_string();
    s.append(dec_text(nanos).as_str());
    s.append(":");
    s.append(dec_text(pid as u128).as_str());
    s.append(":");
    s.append(dec_u64(count).as_str());
    let digest = blake3_hash(s.as_str().as_bytes());
    hex_encode(digest.as_slice())
}

/// A run of digits, and what follows it behind a colon, can be told apart.
proof fn lemma_digits_then_colon(a: Seq<char>, x: Seq<char>, b: Seq<char>, y: Seq<char>)
    requires
        forall|i: int| 0 <= i < a.len() ==> is_digit(#[trigger] a[i]),
        forall|i: int| 0 <= i < b.len() ==> is_digit(#[trigger] b[i]),
        x.len() > 0,
        y.len() > 0,
        x[0] == ':',
        y[0] == ':',
        a + x == b + y,
    ensures
        a == b,
        x == y,
{
    if a.len() < b.len() {
        assert((a + x)[a.len() as int] == ':');
        assert((b + y)[a.len() as int] == b[a.len() as int]);
    } else if b.len() < a.len() {
        assert((b + y)[b.len() as int] == ':');
        assert((a + x)[b.len() as int] == a[b.len() as int]);
    }
    assert(a =~= (a + x).take(a.len() as int));
    assert(b =~= (b + y).take(b.len() as int));
    assert(x =~= (a + x).skip(a.len() as int));
    assert(y =~= (b + y).skip(b.len() as int));
}

/// Three runs of digits between colons can be told apart.
proof fn lemma_three_numerals(
    head: Seq<char>,
    colon: Seq<char>,
    a: (Seq<char>, Seq<char>, Seq<char>),
    b: (Seq<char>, Seq<char>, Seq<char>),
)
    requires
        colon.len() == 1,
        colon[0] == ':',
        forall|i: int| 0 <= i < a.0.len() ==> is_digit(#[trigger] a.0[i]),
        forall|i: int| 0 <= i < b.0.len() ==> is_digit(#[trigger] b.0[i]),
        forall|i: int| 0 <= i < a.1.len() ==> is_digit(#[trigger] a.1[i]),
        forall|i: int| 0 <= i < b.1.len() ==> is_digit(#[trigger] b.1[i]),
        head + a.0 + colon + a.1 + colon + a.2 == head + b.0 + colon + b.1 + colon + b.2,
    ensures
        a == b,
{
    let tail1 = colon + a.2;
    let tail2 = colon + b.2;
    let mid1 = colon + (a.1 + tail1);
    let mid2 = colon + (b.1 + tail2);
    let all = head + a.0 + colon + a.1 + colon + a.2;
    let n = head.len() as int;
    assert(all.skip(n) =~= a.0 + mid1);
    assert((head + b.0 + colon + b.1 + colon + b.2).skip(n) =~= b.0 + mid2);
    lemma_digits_then_colon(a.0, mid1, b.0, mid2);
    assert(mid1.skip(1) =~= a.1 + tail1);
    assert(mid2.skip(1) =~= b.1 + tail2);
    lemma_digits_then_colon(a.1, tail1, b.1, tail2);
    assert(tail1.skip(1) =~= a.2);
    assert(tail2.skip(1) =~= b.2);
}

/// Two calls never hash the same bytes: different counts, processes or moments
/// give different seeds.
pub proof fn lemma_token_seed_unique(n1: nat, p1: nat, c1: nat, n2: nat, p2: nat, c2: nat)
    requires
        encode_utf8(token_seed(n1, p1, c1)) == encode_utf8(token_seed(n2, p2, c2)),
    ensures
        n1 == n2,
        p1 == p2,
        c1 == c2,
{
    vstd::utf8::encode_utf8_decode_utf8(token_seed(n1, p1, c1));
    vstd::utf8::encode_utf8_decode_utf8(token_seed(n2, p2, c2));
    reveal_strlit(":");
    crate::text::lemma_dec_value(n1);
    crate::text::lemma_dec_value(n2);
    crate::text::lemma_dec_value(p1);
    crate::text::lemma_dec_value(p2);
    lemma_three_numerals(
        "caybul:"@,
        ":"@,
        (dec(n1), dec(p1), dec(c1)),
        (dec(n2), dec(p2), dec(c2)),
    );
    crate::text::lemma_dec_injective(n1, n2);
    crate::text::lemma_dec_injective(p1, p2);
    crate::text::lemma_dec_injective(c1, c2);
}

/// The name in what the system's `hostname` command printed: the text without
/// the white space around it, or a stand-in when there is none to be had.
pub open spec fn device_name(output: Option<Seq<u8>>) -> Seq<char> {
    match output {
        Some(bytes) => if vstd::utf8::valid_utf8(bytes) && trimmed(
            vstd::utf8::decode_utf8(bytes),
        ).len() > 0 {
            trimmed(vstd::utf8::decode_utf8(bytes))
        } else {
            "caybul-device"@
        },
        None => "caybul-device"@,
    }
}

/// The name of this device, from what its `hostname` command printed (`None`
/// when it could not be run).
pub fn hostname(output: Option<Vec<u8>>) -> (r: String)
    ensures
        r@ == device_name(
            match output {
                Some(bytes) => Some(bytes@),
                None => None,
            },
        ),
{
    if let Some(bytes) = output {
        if let Some(text) = from_utf8(bytes) {
            let name = trim(text.as_str());
            if !name.as_str().is_empty() {
                return name;
            }
        }
    }
    "caybul-device".to_string()
}

// ---- byte counts for people ----

/// `a / b` rounded to the nearest integer, a tie to the even one.
pub open spec fn half_even(a: int, b: int) -> int {
    let q = a / b;
    let m = a % b;
    if 2 * m < b {
        q
    } else if 2 * m > b {
        q + 1
    } else {
        q + q % 2
    }
}

/// `n` with 53 significant bits, rounded in steps of the smallest power of two
/// (from `step` on) that leaves no more.
pub open spec fn in_53_bits(n: int, step: int) -> int
    decreases n - step,
{
    if step <= 0 || n / step < 9007199254740992 || 2 * step > n {
        half_even(n, step) * step
    } else {
        in_53_bits(n, 2 * step)
    }
}

/// The unit that a byte count is shown in, and its size in bytes.
pub open spec fn byte_unit(n: int) -> (int, Seq<char>) {
    if n < 1024 {
        (1, "B"@)
    } else if n < 1048576 {
        (1024, "KB"@)
    } else if n < 1073741824 {
        (1048576, "MB"@)
    } else if n < 1099511627776 {
        (1073741824, "GB"@)
    } else {
        (1099511627776, "TB"@)
    }
}

/// A byte count for people: whole bytes below 1024, else tenths of the largest
/// unit that fits, from the count in 53 significant bits.
pub open spec fn shown_bytes(n: int) -> Seq<char> {
    let v = in_53_bits(n, 1);
    let (unit, name) = byte_unit(v);
    if unit == 1 {
        dec(n as nat) + " "@ + name
    } else {
        let tenths = half_even(v * 10, unit);
        dec((tenths / 10) as nat) + "."@ + dec((tenths % 10) as nat) + " "@ + name
    }
}

fn round_half_even(a: u128, b: u128) -> (r: u128)
    requires
        b > 0,
        2 * b <= u128::MAX,
        a < 0x1000_0000_0000_0000_0000_0000,
    ensures
        r == half_even(a as int, b as int),
        r <= a + 1,
{
    let q: u128 = a / b;
    let m: u128 = a % b;
    assert(q <= a) by (nonlinear_arith)
        requires
            q == a / b,
            b > 0,
    ;
    if 2 * m < b {
        q
    } else if 2 * m > b {
        q + 1
    } else {
        q + q % 2
    }
}

fn round_to_53_bits(n: u64) -> (r: u128)
    ensures
        r == in_53_bits(n as int, 1),
        r <= 2 * n + 2,
{
    let whole: u128 = n as u128;
    let mut step: u128 = 1;
    while whole / step >= 9007199254740992 && 2 * step <= whole
        invariant
            whole == n,
            1 <= step,
            step == 1 || step <= whole,
            in_53_bits(n as int, 1) == in_53_bits(n as int, step as int),
        decreases whole - step,
    {
        step = 2 * step;
    }
    let q: u128 = round_half_even(whole, step);
    proof {
        let a = whole as int;
        let b = step as int;
        vstd::arithmetic::div_mod::lemma_fundamental_div_mod(a, b);
        let d = a / b;
        assert(q <= d + 1);
        assert(q * b <= b * d + b) by (nonlinear_arith)
            requires
                q <= d + 1,
                b >= 1,
        ;
        assert(a % b >= 0);
        assert(q * b <= a + b);
    }
    q * step
}

/// A byte count for people, e.g. "512 B" or "1.5 MB".
pub fn human_bytes(n: u64) -> (r: String)
    ensures
        r@ == shown_bytes(n as int),
{
    let v: u128 = round_to_53_bits(n);
    if v < 1024 {
        let mut s = dec_u64(n);
        s.append(" ");
        s.append("B");
        return s;
    }
    let unit: u128 = if v < 1048576 {
        1024
    } else if v < 1073741824 {
        1048576
    } else if v < 1099511627776 {
        1073741824
    } else {
        1099511627776
    };
    let tenths: u128 = round_half_even(v * 10, unit);
    let mut s = dec_text(tenths / 10);
    s.append(".");
    s.append(dec_text(tenths % 10).as_str());
    s.append(" ");
    if v < 1048576 {
        s.append("KB");
    } else if v < 1073741824 {
        s.append("MB");
    } else if v < 1099511627776 {
        s.append("GB");
    } else {
        s.append("TB");
    }
    s
}

} // verus!
