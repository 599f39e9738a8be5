//! The tags of an uploaded object, and the one string in which they travel to
//! the store: `k1=v1&k2=v2...`, each name and value percent-encoded.

use crate::s3_utils::Tag;
use crate::text::decimal;
use crate::text::decimal_seq;
use vstd::prelude::*;
use vstd::string::StringExecFns;
use vstd::string::StringSliceAdditionalSpecFns;
use vstd::utf8::encode_utf8;

verus! {

/// Whether the byte `b` is an ASCII letter or digit.
pub open spec fn is_ascii_alphanumeric(b: u8) -> bool {
    ||| 0x30 <= b <= 0x39
    ||| 0x41 <= b <= 0x5A
    ||| 0x61 <= b <= 0x7A
}

/// The hexadecimal digit, in upper case, of a value below sixteen.
pub open spec fn hex_digit(v: int) -> char
    recommends
        0 <= v < 16,
{
    if v < 10 {
        ('0' as int + v) as char
    } else {
        ('A' as int + (v - 10)) as char
    }
}

/// One byte, percent-encoded: an ASCII letter or digit stands for itself, any
/// other byte becomes `%` and its two hexadecimal digits.
pub open spec fn percent_encoded_byte(b: u8) -> Seq<char> {
    if is_ascii_alphanumeric(b) {
        seq![b as char]
    } else {
        seq!['%', hex_digit(b as int / 16), hex_digit(b as int % 16)]
    }
}

/// The bytes, percent-encoded one after the other.
pub open spec fn percent_encoded(bytes: Seq<u8>) -> Seq<char>
    decreases bytes.len(),
{
    if bytes.len() == 0 {
        Seq::empty()
    } else {
        percent_encoded(bytes.drop_last()) + percent_encoded_byte(bytes.last())
    }
}

/// `percent_encoding::utf8_percent_encode` with the set `NON_ALPHANUMERIC`,
/// collected into a string: the UTF-8 bytes of `text`, each percent-encoded
/// unless it is an ASCII letter or digit.
#[verifier::external_body]
fn percent_encode(text: &str) -> (encoded: String)
    ensures
        encoded@ == percent_encoded(text.spec_bytes()),
{
    percent_encoding::utf8_percent_encode(text, percent_encoding::NON_ALPHANUMERIC).to_string()
}

/// One tag as it stands in the tagging string: name, `=`, value.
pub open spec fn encoded_tag(tag: (Seq<char>, Seq<char>)) -> Seq<char> {
    percent_encoded(encode_utf8(tag.0)).push('=') + percent_encoded(encode_utf8(tag.1))
}

/// The tagging string of `tags`: the encoded tags in order, with `&` between
/// each two.
pub open spec fn tagging_of(tags: Seq<(Seq<char>, Seq<char>)>) -> Seq<char>
    decreases tags.len(),
{
    if tags.len() == 0 {
        Seq::empty()
    } else if tags.len() == 1 {
        encoded_tag(tags[0])
    } else {
        tagging_of(tags.drop_last()).push('&') + encoded_tag(tags.last())
    }
}

/// Writes the tagging string of `tags`.
pub fn encode_tagging(tags: &Vec<Tag>) -> (tagging: String)
    ensures
        tagging@ == tagging_of(tags.deep_view()),
{
    let mut tagging = String::new();
    let mut i: usize = 0;
    while i < tags.len()
        invariant
            i <= tags.len(),
            tagging@ == tagging_of(tags.deep_view().take(i as int)),
        decreases tags.len() - i,
    {
        let ghost done = tags.deep_view().take(i as int);
        let ghost next = tags.deep_view().take(i + 1);
        proof {
            assert(next.drop_last() =~= done);
            assert(next.last() == tags@[i as int]@);
        }
        if i > 0 {
            tagging.push('&');
        }
        let name = percent_encode(tags[i].key.as_str());
        let value = percent_encode(tags[i].value.as_str());
        tagging.append(name.as_str());
        tagging.push('=');
        tagging.append(value.as_str());
        i += 1;
        assert(tagging@ =~= tagging_of(next));
    }
    assert(tags.deep_view().take(tags.len() as int) =~= tags.deep_view());
    tagging
}

/// The tag that records the part size of an upload.
pub open spec fn buffer_size_tag(buf_size: nat) -> (Seq<char>, Seq<char>) {
    ("buffer_size"@, decimal_seq(buf_size))
}

/// Adds to `tags` the tag `buffer_size`, which records the part size.
pub fn with_buffer_size(tags: Vec<Tag>, buf_size: usize) -> (all: Vec<Tag>)
    ensures
        all.deep_view() == tags.deep_view().push(buffer_size_tag(buf_size as nat)),
{
    let mut all = tags;
    all.push(Tag { key: String::from_str("buffer_size"), value: decimal(buf_size as u64) });
    assert(all.deep_view() =~= tags.deep_view().push(buffer_size_tag(buf_size as nat)));
    all
}

} // verus!
