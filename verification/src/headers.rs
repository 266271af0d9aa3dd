//! Header values, on the `http` and `itoa` crates.
use crate::numbers;
use crate::reply::{ReplyHeader, ReplyHeaderView};
use crate::text;
use http::HeaderValue;
use vstd::prelude::*;
use vstd::utf8::encode_utf8;

verus! {

/// Whether a byte may stand in a header value that is read as text.
pub open spec fn visible_byte(b: u8) -> bool {
    32 <= b < 127 || b == 9
}

/// Whether a byte may stand in a header value.
pub open spec fn header_byte(b: u8) -> bool {
    (b >= 32 && b != 127) || b == 9
}

/// The text of a header value, if all of it can be read as text.
pub open spec fn header_text(value: Seq<u8>) -> Option<Seq<char>> {
    if forall|i: int| 0 <= i < value.len() ==> visible_byte(#[trigger] value[i]) {
        Some(value.map_values(|b: u8| b as char))
    } else {
        None
    }
}

/// The text of a header that may be missing.
pub open spec fn optional_text(value: Option<Seq<u8>>) -> Option<Seq<char>> {
    match value {
        Some(v) => header_text(v),
        None => None,
    }
}

/// What an optional header value holds.
pub open spec fn bytes_view(value: Option<Vec<u8>>) -> Option<Seq<u8>> {
    match value {
        Some(v) => Some(v@),
        None => None,
    }
}

/// Whether a text can be sent as a header value.
pub open spec fn sendable(s: Seq<char>) -> bool {
    forall|i: int| 0 <= i < encode_utf8(s).len() ==> header_byte(#[trigger] encode_utf8(s)[i])
}

/// `HeaderValue::from_bytes` and `HeaderValue::to_str`: the text of the value,
/// if every byte of it is a visible ASCII character, a space or a tab.
#[verifier::external_body]
pub(crate) fn value_text(value: &[u8]) -> (r: Option<String>)
    ensures
        text::option_view(r) == header_text(value@),
{
    HeaderValue::from_bytes(value).ok()?.to_str().ok().map(str::to_owned)
}

/// `HeaderValue::from_str`: the bytes of the text, if none of them is an ASCII
/// control character other than a tab.
#[verifier::external_body]
pub(crate) fn value_bytes(s: &str) -> (r: Option<Vec<u8>>)
    ensures
        r is Some <==> sendable(s@),
        r matches Some(bytes) ==> bytes@ == encode_utf8(s@),
{
    HeaderValue::from_str(s).ok().map(|v| v.as_bytes().to_vec())
}

/// `itoa::Buffer::format` on an `i64`: the number in decimal.
#[verifier::external_body]
pub(crate) fn itoa_i64(i: i64) -> (r: String)
    ensures
        r@ == numbers::signed_decimal(i as int),
{
    itoa::Buffer::new().format(i).to_owned()
}

/// The text of a header that may be missing.
pub fn text_of(value: &Option<Vec<u8>>) -> (r: Option<String>)
    ensures
        text::option_view(r) == optional_text(bytes_view(*value)),
{
    match value {
        Some(v) => value_text(v.as_slice()),
        None => None,
    }
}

/// Whether a header is there, reads as text and says exactly `expected`.
pub fn header_str_eq(value: &Option<Vec<u8>>, expected: &str) -> (r: bool)
    ensures
        r == (optional_text(bytes_view(*value)) == Some(expected@)),
{
    match text_of(value) {
        Some(s) => text::str_eq(s.as_str(), expected),
        None => false,
    }
}

/// Whether a content type names raw bytes: the part before any parameters,
/// without the white space around it, up to the case of letters.
pub open spec fn octet_stream(content_type: Option<Seq<u8>>) -> bool {
    match optional_text(content_type) {
        Some(s) => text::lowered(text::trimmed(s.take(text::position(s, ';')))) == text::lowered(
            "application/octet-stream"@,
        ),
        None => false,
    }
}

/// Whether a content type names raw bytes.
pub fn content_type_is_octet_stream(content_type: &Option<Vec<u8>>) -> (r: bool)
    ensures
        r == octet_stream(bytes_view(*content_type)),
{
    match text_of(content_type) {
        Some(s) => {
            let primary = text::trim(text::before_char(s.as_str(), ';'));
            text::eq_ignore_ascii_case(primary, "application/octet-stream")
        },
        None => false,
    }
}

/// The headers in `before`, and after them one with the given name and text if
/// that text can be sent.
pub open spec fn with_text(
    before: Seq<ReplyHeaderView>,
    name: Seq<char>,
    value: Seq<char>,
) -> Seq<ReplyHeaderView> {
    if sendable(value) {
        before.push(ReplyHeaderView { name, value: encode_utf8(value) })
    } else {
        before
    }
}

/// The value of the `Content-Type` header of raw bytes.
pub open spec fn octet_stream_header() -> ReplyHeaderView {
    ReplyHeaderView {
        name: "Content-Type"@,
        value: encode_utf8("application/octet-stream"@),
    }
}

/// Adds a header if its text can be sent.
pub(crate) fn push_text(headers: &mut Vec<ReplyHeader>, name: &'static str, value: &str)
    ensures
        final(headers)@.map_values(|h: ReplyHeader| h@) == with_text(
            old(headers)@.map_values(|h: ReplyHeader| h@),
            name@,
            value@,
        ),
{
    if let Some(bytes) = value_bytes(value) {
        let ghost before = headers@.map_values(|h: ReplyHeader| h@);
        let header = ReplyHeader { name, value: bytes };
        let ghost shown = header@;
        headers.push(header);
        assert(headers@.map_values(|h: ReplyHeader| h@) =~= before.push(shown));
    }
}

/// Adds the content type of raw bytes.
pub(crate) fn push_octet_stream(headers: &mut Vec<ReplyHeader>)
    ensures
        final(headers)@.map_values(|h: ReplyHeader| h@) == old(headers)@.map_values(
            |h: ReplyHeader| h@,
        ).push(octet_stream_header()),
{
    let ghost before = headers@.map_values(|h: ReplyHeader| h@);
    let s = "application/octet-stream";
    let header = ReplyHeader {
        name: "Content-Type",
        value: vstd::slice::slice_to_vec(s.as_bytes()),
    };
    let ghost shown = header@;
    headers.push(header);
    assert(headers@.map_values(|h: ReplyHeader| h@) =~= before.push(shown));
}

/// A text of visible ASCII characters can be sent, and is sent as one byte for each
/// character.
pub proof fn lemma_visible_text_is_sent(s: Seq<char>)
    requires
        forall|k: int| 0 <= k < s.len() ==> ' ' <= #[trigger] s[k] <= '~',
    ensures
        sendable(s),
        encode_utf8(s).len() == s.len(),
        forall|k: int| 0 <= k < s.len() ==> (#[trigger] encode_utf8(s)[k]) as char == s[k],
        header_text(encode_utf8(s)) == Some(s),
{
    assert(vstd::utf8::is_ascii_chars(s));
    vstd::utf8::is_ascii_chars_encode_utf8(s);
    let bytes = encode_utf8(s);
    assert forall|k: int| 0 <= k < bytes.len() implies header_byte(#[trigger] bytes[k])
        && visible_byte(bytes[k]) && bytes[k] as char == s[k] by {
        assert(bytes[k] == s[k] as u8);
    }
    assert(bytes.map_values(|b: u8| b as char) =~= s);
}

/// A header says a text of visible ASCII characters just if it has one byte for each
/// character, with its code.
pub proof fn law_header_says_a_text_byte_for_byte(value: Seq<u8>, s: Seq<char>)
    requires
        forall|k: int| 0 <= k < s.len() ==> ' ' <= #[trigger] s[k] <= '~',
    ensures
        header_text(value) == Some(s) <==> value.len() == s.len() && forall|k: int|
            0 <= k < s.len() ==> (#[trigger] value[k]) as u32 == s[k] as u32,
{
    if header_text(value) == Some(s) {
        assert forall|k: int| 0 <= k < s.len() implies (#[trigger] value[k]) as u32
            == s[k] as u32 by {
            assert(s[k] == value.map_values(|b: u8| b as char)[k]);
        }
    }
    if value.len() == s.len() && forall|k: int|
        0 <= k < s.len() ==> (#[trigger] value[k]) as u32 == s[k] as u32 {
        assert forall|k: int| 0 <= k < value.len() implies visible_byte(#[trigger] value[k]) by {
            assert(' ' <= s[k] <= '~');
        }
        assert forall|k: int| 0 <= k < value.len() implies (#[trigger] value[k]) as char
            == s[k] by {
            lemma_same_code(value[k], s[k]);
        }
        assert(value.map_values(|b: u8| b as char) =~= s);
    }
}

proof fn lemma_same_code(b: u8, c: char)
    requires
        b as u32 == c as u32,
    ensures
        b as char == c,
{
}

/// A header reads as text just if each byte of it is a visible ASCII character, a space
/// or a tab, and its text has the characters with those codes.
pub proof fn law_header_reads_as_text(value: Seq<u8>)
    ensures
        header_text(value) is Some <==> forall|k: int|
            0 <= k < value.len() ==> 32 <= #[trigger] value[k] <= 126 || value[k] == 9,
        header_text(value) is Some ==> header_text(value)->0.len() == value.len() && forall|k: int|
            0 <= k < value.len() ==> (#[trigger] header_text(value)->0[k]) as u32
                == value[k] as u32,
{
    if forall|k: int| 0 <= k < value.len() ==> 32 <= #[trigger] value[k] <= 126 || value[k] == 9 {
        assert(forall|k: int| 0 <= k < value.len() ==> visible_byte(#[trigger] value[k]));
    }
    if header_text(value) is Some {
        assert(forall|k: int| 0 <= k < value.len() ==> visible_byte(#[trigger] value[k]));
    }
}

/// A content type names raw bytes just if what stands before the first semicolon, or all
/// of it where there is none, says `application/octet-stream` up to the case of letters,
/// with nothing but white space around.
pub proof fn law_content_type_names_raw_bytes(
    value: Seq<u8>,
    left: Seq<char>,
    name: Seq<char>,
    right: Seq<char>,
    parameters: Seq<char>,
)
    requires
        header_text(value) == Some(left + name + right) || header_text(value) == Some(
            left + name + right + seq![';'] + parameters,
        ),
        !(left + name + right).contains(';'),
        forall|i: int| 0 <= i < left.len() ==> text::whitespace(#[trigger] left[i]),
        forall|i: int| 0 <= i < right.len() ==> text::whitespace(#[trigger] right[i]),
        name.len() > 0 ==> !text::whitespace(name[0]) && !text::whitespace(name.last()),
    ensures
        octet_stream(Some(value)) <==> name.len() == 24 && forall|i: int|
            0 <= i < 24 ==> {
                ||| #[trigger] name[i] == "application/octet-stream"@[i]
                ||| 'A' <= name[i] <= 'Z' && "application/octet-stream"@[i] as u32 == name[i] as u32
                    + 32
            },
        !octet_stream(None),
{
    let s = header_text(value)->0;
    let before = left + name + right;
    let wanted = "application/octet-stream"@;
    reveal_strlit("application/octet-stream");
    if s == before {
        text::lemma_position(s, ';');
        if text::position(s, ';') < s.len() {
            assert(s.contains(s[text::position(s, ';')]));
        }
        assert(s.take(text::position(s, ';')) =~= before);
    } else {
        let at = before.len() as int;
        assert(s[at] == ';');
        assert forall|k: int| 0 <= k < at implies #[trigger] s[k] != ';' by {
            assert(s[k] == before[k]);
            assert(before.contains(before[k]));
        }
        text::lemma_position_is(s, ';', at);
        assert(s.take(at) =~= before);
    }
    text::law_trimming_takes_off_white_space(left, name, right);
    text::law_case_is_that_of_ascii_letters(name, wanted);
    assert(wanted.len() == 24);
    assert forall|i: int| 0 <= i < 24 implies !('A' <= #[trigger] wanted[i] <= 'Z') by {
        assert(i < 8 || i < 16 || i < 24);
    }
}

} // verus!
