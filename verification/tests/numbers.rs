use evm_address_extractor::checkpoint::{checkpoint_file, load_checkpoint, save_checkpoint};
use evm_address_extractor::number::{
    decimal_text, decimal_to_u64, hex_text, hex_to_u64, parse_number, three_digit_text, NumberError,
};
use evm_address_extractor::text::{chars_of, holds, join, lower, same_text, space, to_lower, trim};

#[test]
fn hexadecimal_is_read_with_and_without_prefix() {
    assert_eq!(hex_to_u64("0x10"), Some(16));
    assert_eq!(hex_to_u64("ff"), Some(255));
    assert_eq!(hex_to_u64("0xDeadBeef"), Some(0xdeadbeef));
    assert_eq!(hex_to_u64("0x0x1f"), Some(31));
    assert_eq!(hex_to_u64("+1f"), Some(31));
    assert_eq!(hex_to_u64("0xffffffffffffffff"), Some(u64::MAX));
}

#[test]
fn what_is_no_hexadecimal_gives_nothing() {
    assert_eq!(hex_to_u64(""), None);
    assert_eq!(hex_to_u64("0x"), None);
    assert_eq!(hex_to_u64("0X10"), None);
    assert_eq!(hex_to_u64("0x1g"), None);
    assert_eq!(hex_to_u64("-1"), None);
    assert_eq!(hex_to_u64(" 1"), None);
    assert_eq!(hex_to_u64("0x10000000000000000"), None);
}

#[test]
fn hexadecimal_agrees_with_the_standard_library() {
    let samples = [
        "", "0", "0x", "0x0", "x0", "00x1", "0x0x", "0x00000000000000000001", "+", "-", "++1",
        "0x+a", "F", "\u{e9}", "12345678901234567890", "0xfffffffffffffffff", "1_0", "0x 1",
    ];
    for s in samples {
        let expected = u64::from_str_radix(s.trim_start_matches("0x"), 16).ok();
        assert_eq!(hex_to_u64(s), expected, "{:?}", s);
    }
}

#[test]
fn decimal_errors_are_told_apart() {
    assert_eq!(parse_number("", 10), Err(NumberError::Empty));
    assert_eq!(parse_number("+", 10), Err(NumberError::InvalidDigit));
    assert_eq!(parse_number("12a", 10), Err(NumberError::InvalidDigit));
    assert_eq!(parse_number("18446744073709551616", 10), Err(NumberError::TooLarge));
    assert_eq!(parse_number("18446744073709551615", 10), Ok(u64::MAX));
}

#[test]
fn decimal_errors_agree_with_the_standard_library() {
    let samples = [
        "", "+", "-", "0", "+7", "-7", "7-", " 7", "007", "18446744073709551615",
        "18446744073709551616", "99999999999999999999x", "1844674407370955161x", "x99999999999999999999",
        "\u{663}", "184467440737095516150",
    ];
    for s in samples {
        match (parse_number(s, 10), s.parse::<u64>()) {
            (Ok(a), Ok(b)) => assert_eq!(a, b),
            (Err(a), Err(b)) => assert_eq!(a.message(), b.to_string(), "{:?}", s),
            (a, b) => panic!("{:?}: {:?} against {:?}", s, a, b),
        }
        assert_eq!(decimal_to_u64(s), s.parse::<u64>().ok());
    }
}

#[test]
fn numbers_are_written_as_usual() {
    for n in [0u64, 1, 9, 10, 15, 16, 255, 256, 999, 1000, 1_000_000, u64::MAX] {
        assert_eq!(decimal_text(n), format!("{}", n));
        assert_eq!(hex_text(n), format!("0x{:x}", n));
        assert_eq!(hex_to_u64(&hex_text(n)), Some(n));
        assert_eq!(decimal_to_u64(&decimal_text(n)), Some(n));
    }
    for n in [0u32, 1, 9, 10, 99, 100, 999, 1000, u32::MAX] {
        assert_eq!(three_digit_text(n), format!("{:03}", n));
    }
}

#[test]
fn white_space_is_that_of_unicode() {
    for c in '\0'..=char::MAX {
        assert_eq!(space(c), c.is_whitespace(), "{:?}", c);
        assert_eq!(lower(c), c.to_ascii_lowercase(), "{:?}", c);
    }
}

#[test]
fn text_is_trimmed_at_both_ends() {
    for s in ["", " ", "\n\t ", "a", " a", "a ", "\u{3000}a b\u{a0}\r\n", "\u{200b}x"] {
        assert_eq!(trim(s), s.trim());
    }
}

#[test]
fn text_is_lowered() {
    for s in ["", "0xABCdef", "\u{c4}B\u{df}", "Z[a`"] {
        assert_eq!(to_lower(s), s.to_ascii_lowercase());
        assert_eq!(to_lower(&to_lower(s)), to_lower(s));
    }
}

#[test]
fn text_is_compared_and_joined() {
    assert!(same_text("a\u{e9}", "a\u{e9}"));
    assert!(!same_text("a", "b"));
    assert!(!same_text("a", "aa"));
    assert_eq!(join("a", "b"), "ab");
    assert_eq!(chars_of("a\u{e9}z"), vec!['a', '\u{e9}', 'z']);
    let list = vec!["x".to_string(), "y".to_string()];
    assert!(holds(&list, "y"));
    assert!(!holds(&list, "z"));
}

#[test]
fn checkpoint_is_loaded_as_it_was_saved() {
    for block in [0u64, 7, 38_000_000, u64::MAX] {
        let write = save_checkpoint(block);
        assert_eq!(write.temporary, "output/checkpoint.tmp");
        assert_eq!(write.target, checkpoint_file());
        assert_eq!(write.target, "output/checkpoint.txt");
        assert_eq!(write.content, block.to_string());
        assert_eq!(load_checkpoint(Some(&write.content)), Some(block));
        let padded = format!(" {}\n", write.content);
        assert_eq!(load_checkpoint(Some(&padded)), Some(block));
    }
}

#[test]
fn checkpoint_without_a_number_does_not_count() {
    assert_eq!(load_checkpoint(None), None);
    assert_eq!(load_checkpoint(Some("")), None);
    assert_eq!(load_checkpoint(Some("12 34")), None);
    assert_eq!(load_checkpoint(Some("-1")), None);
}
