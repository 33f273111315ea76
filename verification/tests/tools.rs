use caybul::text::{
    contains, dec_text, join_texts, pad_right, replace_char, same, split_text, starts_with, trim,
    word,
};
use caybul::util::{
    bitmap_count, bitmap_fits, bitmap_get, bitmap_len, bitmap_set, hex_decode, hex_encode, hostname,
    human_bytes, new_token, HexError,
};

#[test]
fn hex_encodes_two_small_digits_for_each_byte() {
    assert_eq!(hex_encode(&[0x00, 0x0f, 0xa0, 0xff]), "000fa0ff");
    assert_eq!(hex_encode(&[]), "");
}

#[test]
fn hex_comes_back_whole() {
    let all: Vec<u8> = (0..=255).collect();
    assert_eq!(hex_decode(&hex_encode(&all)).unwrap(), all);
}

#[test]
fn hex_takes_either_case_and_a_plus_sign() {
    assert_eq!(hex_decode("aAbB09").unwrap(), vec![0xaa, 0xbb, 0x09]);
    assert_eq!(hex_decode("+f").unwrap(), vec![0x0f]);
}

#[test]
fn hex_refuses_an_odd_length() {
    assert_eq!(hex_decode("abc"), Err(HexError::OddLength));
    assert_eq!(HexError::OddLength.message(), "odd hex length");
}

#[test]
fn hex_refuses_what_is_no_digit() {
    assert_eq!(hex_decode("0g"), Err(HexError::BadDigit));
    assert_eq!(hex_decode("-1"), Err(HexError::BadDigit));
    assert_eq!(hex_decode("++"), Err(HexError::BadDigit));
    assert_eq!(hex_decode("é"), Err(HexError::BadDigit));
    assert_eq!(HexError::BadDigit.message(), "invalid digit found in string");
}

#[test]
fn bitmap_lengths() {
    assert_eq!(bitmap_len(0), 0);
    assert_eq!(bitmap_len(1), 1);
    assert_eq!(bitmap_len(8), 1);
    assert_eq!(bitmap_len(9), 2);
    assert!(bitmap_fits(9));
}

#[test]
fn bitmap_sets_one_bit_and_no_other() {
    let mut bm = vec![0u8; 2];
    bitmap_set(&mut bm, 9);
    assert_eq!(bm, vec![0, 2]);
    bitmap_set(&mut bm, 0);
    assert_eq!(bm, vec![1, 2]);
    for i in 0..16u64 {
        assert_eq!(bitmap_get(&bm, i), i == 0 || i == 9);
    }
}

#[test]
fn bitmap_ends_in_zeros() {
    assert!(!bitmap_get(&[0xff], 8));
    assert!(!bitmap_get(&[], u64::MAX));
}

#[test]
fn bitmap_counts_the_first_bits_only() {
    assert_eq!(bitmap_count(&[0xff, 0xff], 10), 10);
    assert_eq!(bitmap_count(&[0b1010_0101], 4), 2);
    assert_eq!(bitmap_count(&[], 100), 0);
}

#[test]
fn tokens_are_digests_of_their_seed() {
    let expected = blake3::hash(b"caybul:12345:678:9").to_hex().to_string();
    assert_eq!(new_token(12345, 678, 9), expected);
    assert_eq!(new_token(12345, 678, 9).len(), 64);
}

#[test]
fn tokens_of_different_moments_differ() {
    assert_ne!(new_token(1, 2, 3), new_token(1, 2, 4));
    assert_ne!(new_token(1, 23, 4), new_token(12, 3, 4));
}

#[test]
fn hostname_is_trimmed() {
    assert_eq!(hostname(Some(b"  box.local\n".to_vec())), "box.local");
}

#[test]
fn hostname_has_a_stand_in() {
    assert_eq!(hostname(None), "caybul-device");
    assert_eq!(hostname(Some(b" \n".to_vec())), "caybul-device");
    assert_eq!(hostname(Some(vec![0xff, 0xfe])), "caybul-device");
}

fn float_bytes(n: u64) -> String {
    let units = ["B", "KB", "MB", "GB", "TB"];
    let mut v = n as f64;
    let mut u = 0;
    while v >= 1024.0 && u < units.len() - 1 {
        v /= 1024.0;
        u += 1;
    }
    if u == 0 {
        format!("{} {}", n, units[u])
    } else {
        format!("{:.1} {}", v, units[u])
    }
}

#[test]
fn byte_counts_read_well() {
    assert_eq!(human_bytes(0), "0 B");
    assert_eq!(human_bytes(1023), "1023 B");
    assert_eq!(human_bytes(1024), "1.0 KB");
    assert_eq!(human_bytes(1536), "1.5 KB");
    assert_eq!(human_bytes(1048575), "1024.0 KB");
    assert_eq!(human_bytes(5 * 1024 * 1024), "5.0 MB");
    assert_eq!(human_bytes(3 * 1024 * 1024 * 1024 / 2), "1.5 GB");
    assert_eq!(human_bytes(u64::MAX), "16777216.0 TB");
}

#[test]
fn byte_counts_agree_with_floating_point() {
    let mut n: u64 = 1;
    let mut k: u64 = 0;
    while n < u64::MAX / 3 {
        for d in 0..40u64 {
            let m = n + d * (n / 16 + 1);
            assert_eq!(human_bytes(m), float_bytes(m), "{m}");
        }
        n = n * 2 + k % 7;
        k += 1;
    }
    // Exact ties between two tenths.
    for i in 0..200u64 {
        let m = 1024 + i * 256 / 5;
        assert_eq!(human_bytes(m), float_bytes(m), "{m}");
        let t = 1024 * i + 256;
        assert_eq!(human_bytes(t), float_bytes(t), "{t}");
    }
}

#[test]
fn text_searches() {
    assert!(starts_with("utun3", "utun"));
    assert!(!starts_with("ut", "utun"));
    assert!(contains("Thunderbolt Bridge", "bolt"));
    assert!(!contains("bolt", "Thunderbolt"));
    assert!(contains("x", ""));
    assert!(same("é", "é"));
    assert!(!same("e", "é"));
}

#[test]
fn text_cuts_and_joins() {
    assert_eq!(split_text("a//b", '/'), vec!["a", "", "b"]);
    assert_eq!(split_text("", '/'), vec![""]);
    let parts = split_text("x.y.z", '.');
    assert_eq!(join_texts(&parts, "."), "x.y.z");
    assert_eq!(replace_char("a\\b", '\\', '/'), "a/b");
    assert_eq!(trim("\u{a0} hi \t"), "hi");
    assert_eq!(word("  40.0 Gb/s").unwrap(), "40.0");
    assert!(word(" \n").is_none());
    assert_eq!(pad_right("en0", 5), "en0  ");
    assert_eq!(pad_right("toolong", 3), "toolong");
    assert_eq!(dec_text(u128::MAX), u128::MAX.to_string());
}
