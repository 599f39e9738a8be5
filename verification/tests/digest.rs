use zfs_to_glacier::digest::content_md5;
use zfs_to_glacier::s3_utils::Tag;
use zfs_to_glacier::tagging::{encode_tagging, with_buffer_size};

#[test]
fn content_md5_is_base64_of_md5() {
    assert_eq!(content_md5(b""), "1B2M2Y8AsgTpgAmY7PhCfg==");
    assert_eq!(content_md5(b"this is a test"), "VLDFjHzp8qi1UTURAu4JOA==");
    assert_eq!(content_md5(b"hello world"), "XrY7u+Ae7tCTyyK7j1rNww==");
    let bytes: Vec<u8> = (0..=255).collect();
    assert_eq!(content_md5(&bytes), "4shl20Fivtljv6qe9qwY8A==");
}

#[test]
fn content_md5_has_twenty_four_characters() {
    for data in [&b""[..], &b"a"[..], &b"ab"[..], &[0u8; 1000][..]] {
        let text = content_md5(data);
        assert_eq!(text.len(), 24);
        assert!(text.ends_with("=="));
    }
}

fn tag(key: &str, value: &str) -> Tag {
    Tag { key: key.to_string(), value: value.to_string() }
}

#[test]
fn tagging_encodes_all_but_letters_and_digits() {
    assert_eq!(encode_tagging(&vec![]), "");
    assert_eq!(encode_tagging(&vec![tag("k", "v")]), "k=v");
    assert_eq!(encode_tagging(&vec![tag("", "")]), "=");
    assert_eq!(encode_tagging(&vec![tag("", ""), tag("", "")]), "=&=");
    assert_eq!(encode_tagging(&vec![tag("foo bar?", "a&b=c")]), "foo%20bar%3F=a%26b%3Dc");
    assert_eq!(
        encode_tagging(&vec![tag("creation_date", "2021-03-01T00:00:00+01:00"), tag("é", "~._-")]),
        "creation%5Fdate=2021%2D03%2D01T00%3A00%3A00%2B01%3A00&%C3%A9=%7E%2E%5F%2D"
    );
    assert_eq!(encode_tagging(&vec![tag("a", "\u{0}\u{7f}\u{10ffff}")]), "a=%00%7F%F4%8F%BF%BF");
}

#[test]
fn buffer_size_tag_comes_last() {
    let tags = with_buffer_size(vec![tag("parent", "full")], 8388608);
    assert_eq!(tags, vec![tag("parent", "full"), tag("buffer_size", "8388608")]);
    assert_eq!(with_buffer_size(vec![], 0), vec![tag("buffer_size", "0")]);
}
