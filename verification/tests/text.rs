use ring_wallet::text::{
    decimal_i64, decimal_u64, parse_number, same_but_for_case, to_hex, trim,
};

#[test]
fn numbers_are_written_in_decimal() {
    for n in [0i64, 7, 10, 1234567890, -1, -10, i64::MAX, i64::MIN] {
        assert_eq!(decimal_i64(n), n.to_string());
    }
    assert_eq!(decimal_u64(u64::MAX), u64::MAX.to_string());
}

#[test]
fn a_number_reads_back_as_itself() {
    for n in [0u64, 1, 10, 4294967295, u64::MAX] {
        assert_eq!(parse_number(&decimal_u64(n), u64::MAX), Some(n));
    }
}

#[test]
fn numbers_are_read_the_way_std_reads_them() {
    for text in [
        "", "+", "-", "-1", "+1", "++1", "0", "007", "12a", " 1", "1 ", "4294967295", "4294967296",
        "18446744073709551615", "18446744073709551616", "99999999999999999999999",
    ] {
        assert_eq!(parse_number(text, u64::MAX), text.parse::<u64>().ok(), "{text:?}");
        assert_eq!(
            parse_number(text, u64::from(u32::MAX)),
            text.parse::<u32>().ok().map(u64::from),
            "{text:?}"
        );
    }
}

#[test]
fn bytes_are_written_in_hexadecimal() {
    assert_eq!(to_hex(&[]), "");
    assert_eq!(to_hex(&[0x00, 0x0f, 0xa0, 0xff]), "000fa0ff");
    assert_ne!(to_hex(&[0, 1]), to_hex(&[1, 0]));
}

#[test]
fn white_space_is_trimmed_the_way_std_trims_it() {
    for code in 0..0x3100u32 {
        if let Some(c) = char::from_u32(code) {
            let text = format!("{c}a {c} b{c}");
            assert_eq!(trim(&text), text.trim(), "{code:x}");
        }
    }
    assert_eq!(trim(" \n\t "), "");
    assert_eq!(trim(""), "");
}

#[test]
fn case_is_ignored_in_ascii_alone() {
    assert!(same_but_for_case("UNKNOWN", "unknown"));
    assert!(!same_but_for_case("Ż", "ż"));
    assert!(!same_but_for_case("ab", "abc"));
}
