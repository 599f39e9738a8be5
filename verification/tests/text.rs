use zfs_to_glacier::text::{
    decimal, joined, parse_i64, parse_usize, replace, signed_decimal, split, starts_with, trim,
};

#[test]
fn split_keeps_empty_pieces() {
    assert_eq!(split("a b  c", ' '), vec!["a", "b", "", "c"]);
    assert_eq!(split("", ' '), vec![""]);
    assert_eq!(split(" x ", ' '), vec!["", "x", ""]);
    assert_eq!(split("name\t42", '\t'), vec!["name", "42"]);
}

#[test]
fn split_agrees_with_std() {
    for text in ["", "a", "a,b", ",", ",,", "a,,b,", "é,ü"] {
        let expected: Vec<String> = text.split(',').map(|piece| piece.to_string()).collect();
        assert_eq!(split(text, ','), expected);
    }
}

#[test]
fn trim_removes_unicode_white_space() {
    assert_eq!(trim("  a b \t\r\n"), "a b");
    assert_eq!(trim("\u{a0}\u{2003}x\u{3000}\u{85}"), "x");
    assert_eq!(trim(" \n "), "");
    assert_eq!(trim(""), "");
    assert_eq!(trim("\u{200b}x"), "\u{200b}x");
}

#[test]
fn trim_agrees_with_std() {
    for text in ["", " ", "a", " a", "a ", "\t a \u{1680}b\u{2028} ", "\u{feff} x"] {
        assert_eq!(trim(text), text.trim());
    }
}

#[test]
fn parse_usize_reads_decimal_numerals() {
    assert_eq!(parse_usize("0"), Some(0));
    assert_eq!(parse_usize("+17"), Some(17));
    assert_eq!(parse_usize("007"), Some(7));
    assert_eq!(parse_usize("18446744073709551615"), Some(usize::MAX));
    assert_eq!(parse_usize("18446744073709551616"), None);
    assert_eq!(parse_usize(""), None);
    assert_eq!(parse_usize("+"), None);
    assert_eq!(parse_usize("-0"), None);
    assert_eq!(parse_usize("-1"), None);
    assert_eq!(parse_usize("1 "), None);
    assert_eq!(parse_usize("1_000"), None);
    assert_eq!(parse_usize("٣"), None);
}

#[test]
fn parse_i64_reads_both_signs() {
    assert_eq!(parse_i64("1616161616"), Some(1616161616));
    assert_eq!(parse_i64("-5"), Some(-5));
    assert_eq!(parse_i64("+5"), Some(5));
    assert_eq!(parse_i64("-0"), Some(0));
    assert_eq!(parse_i64("9223372036854775807"), Some(i64::MAX));
    assert_eq!(parse_i64("9223372036854775808"), None);
    assert_eq!(parse_i64("-9223372036854775808"), Some(i64::MIN));
    assert_eq!(parse_i64("-9223372036854775809"), None);
    assert_eq!(parse_i64("-"), None);
    assert_eq!(parse_i64("--1"), None);
    assert_eq!(parse_i64("12a"), None);
}

#[test]
fn parsing_agrees_with_std() {
    for text in ["", "0", "-0", "+0", "42", "-42", "+", "-", "4 2", "99999999999999999999"] {
        assert_eq!(parse_i64(text), text.parse::<i64>().ok());
        assert_eq!(parse_usize(text), text.parse::<usize>().ok());
    }
}

#[test]
fn decimal_writes_numbers() {
    assert_eq!(decimal(0), "0");
    assert_eq!(decimal(8388608), "8388608");
    assert_eq!(decimal(u64::MAX), "18446744073709551615");
    assert_eq!(signed_decimal(-40), "-40");
    assert_eq!(signed_decimal(200), "200");
    assert_eq!(signed_decimal(i64::MIN), "-9223372036854775808");
}

#[test]
fn decimal_reads_back() {
    for n in [0u64, 1, 9, 10, 99, 100, 12345, u64::MAX] {
        assert_eq!(decimal(n), n.to_string());
        assert_eq!(parse_usize(&decimal(n)), Some(n as usize));
    }
}

#[test]
fn replace_replaces_every_occurrence() {
    assert_eq!(replace("pool/backup@1_yearly", "@", "_AT_"), "pool/backup_AT_1_yearly");
    assert_eq!(replace("a@@b", "@", "_AT_"), "a_AT__AT_b");
    assert_eq!(replace("aaa", "aa", "b"), "ba");
    assert_eq!(replace("abc", "", "-"), "-a-b-c-");
    assert_eq!(replace("", "", "-"), "-");
    assert_eq!(replace("abc", "abcd", "x"), "abc");
}

#[test]
fn replace_agrees_with_std() {
    for (text, from, to) in [
        ("my-bucket-name", "-", " "),
        ("$BUCKET and $BUCKET", "$BUCKET", "b"),
        ("xxxx", "xx", "xxx"),
        ("abab", "ba", ""),
        ("", "a", "b"),
    ] {
        assert_eq!(replace(text, from, to), text.replace(from, to));
    }
}

#[test]
fn starts_with_and_joined() {
    assert!(starts_with("pool@snap", "pool@"));
    assert!(!starts_with("pool/sub@snap", "pool@"));
    assert!(starts_with("x", ""));
    assert!(!starts_with("", "x"));
    assert_eq!(joined("ab", "cd"), "abcd");
}
