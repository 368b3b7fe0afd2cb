//! The wire format of a scale datagram and of the frame sent to subscribers.

use crate::error::RelayError;
use rustc_serialize::base64::{ToBase64, STANDARD};
use vstd::prelude::*;
use vstd::slice::slice_to_vec;
use vstd::utf8::{decode_utf8, encode_utf8, valid_utf8};

verus! {

/// The control character that separates the sender id from the payload.
pub const SEPARATOR: char = '\u{2}';

/// `raw` holds the separator at index `i` and nowhere else.
pub open spec fn splits_at(raw: Seq<char>, i: int) -> bool {
    &&& 0 <= i < raw.len()
    &&& raw[i] == SEPARATOR
    &&& forall|j: int| 0 <= j < raw.len() && j != i ==> raw[j] != SEPARATOR
}

/// The sender id and the payload of a datagram's text, where the text holds
/// the separator exactly once.
pub open spec fn parse_message(raw: Seq<char>) -> Option<(Seq<char>, Seq<char>)> {
    if exists|i: int| splits_at(raw, i) {
        let i = choose|i: int| splits_at(raw, i);
        Some((raw.subrange(0, i), raw.subrange(i + 1, raw.len() as int)))
    } else {
        None
    }
}

/// The text holds the separator at two places at least.
pub open spec fn has_two_separators(raw: Seq<char>) -> bool {
    exists|i: int, j: int|
        0 <= i < j < raw.len() && raw[i] == SEPARATOR && raw[j] == SEPARATOR
}

/// A sender id and a payload without separator, joined by one, are what the
/// joined text parses to.
pub proof fn lemma_parse_joined(scale_id: Seq<char>, payload: Seq<char>)
    requires
        !scale_id.contains(SEPARATOR),
        !payload.contains(SEPARATOR),
    ensures
        parse_message(scale_id + seq![SEPARATOR] + payload) == Some((scale_id, payload)),
{
    let raw = scale_id + seq![SEPARATOR] + payload;
    let at = scale_id.len() as int;
    assert(raw[at] == SEPARATOR);
    assert forall|j: int| 0 <= j < raw.len() && j != at implies raw[j] != SEPARATOR by {
        if j < at {
            assert(scale_id.contains(scale_id[j]));
        } else {
            assert(payload.contains(payload[j - at - 1]));
        }
    }
    assert(splits_at(raw, at));
    let i = choose|i: int| splits_at(raw, i);
    assert(i == at);
    assert(raw.subrange(0, at) == scale_id);
    assert(raw.subrange(at + 1, raw.len() as int) == payload);
}

/// A text without the separator, or with more than one, is no message.
pub proof fn lemma_parse_malformed(raw: Seq<char>)
    requires
        !raw.contains(SEPARATOR) || has_two_separators(raw),
    ensures
        parse_message(raw) is None,
{
    if exists|i: int| splits_at(raw, i) {
        let i = choose|i: int| splits_at(raw, i);
        assert(raw.contains(raw[i]));
        let (a, b) = choose|a: int, b: int|
            0 <= a < b < raw.len() && raw[a] == SEPARATOR && raw[b] == SEPARATOR;
        assert(a == i && b == i);
    }
}

/// Splits a datagram's text into sender id and payload.
pub fn extract_message(message: &str) -> (r: Option<(&str, &str)>)
    ensures
        match r {
            Some((id, payload)) => parse_message(message@) == Some((id@, payload@)),
            None => parse_message(message@) is None,
        },
{
    let n: usize = message.unicode_len();
    let mut at: usize = 0;
    let mut found: usize = 0;
    let mut i: usize = 0;
    let chars = message.chars();
    for c in it: chars
        invariant
            n == message@.len(),
            it.seq() == message@,
            i == it.index(),
            found <= 2,
            found == 0 ==> forall|j: int| 0 <= j < i ==> message@[j] != SEPARATOR,
            found == 1 ==> at < i && message@[at as int] == SEPARATOR && forall|j: int|
                0 <= j < i && j != at ==> message@[j] != SEPARATOR,
            found == 2 ==> exists|a: int, b: int|
                0 <= a < b < i && message@[a] == SEPARATOR && message@[b] == SEPARATOR,
    {
        if c == SEPARATOR {
            if found == 0 {
                at = i;
                found = 1;
            } else {
                found = 2;
            }
        }
        i += 1;
    }
    if found == 1 {
        assert(splits_at(message@, at as int));
        let id = message.substring_char(0, at);
        let payload = message.substring_char(at + 1, n);
        Some((id, payload))
    } else {
        None
    }
}

/// The text that padded base64 over the standard alphabet, without line
/// breaks, gives for `bytes`.
pub uninterp spec fn base64_text(bytes: Seq<u8>) -> Seq<char>;

/// The hexadecimal digit, in lower case, of a number below sixteen.
pub open spec fn hex_digit(n: int) -> char {
    "0123456789abcdef"@[n]
}

/// Whether a character must be escaped inside a JSON string: the quote, the
/// backslash and the control characters below U+0020.
pub open spec fn needs_escape(c: char) -> bool {
    c == '"' || c == '\\' || (c as u32) < 0x20
}

/// What stands for one character inside a JSON string: `\"` for the quote,
/// `\\` for the backslash, `\u00` and two hexadecimal digits for a control
/// character, and the character itself otherwise.
pub open spec fn json_escaped_char(c: char) -> Seq<char> {
    if c == '"' {
        seq!['\\', '"']
    } else if c == '\\' {
        seq!['\\', '\\']
    } else if (c as u32) < 0x20 {
        seq![
            '\\',
            'u',
            '0',
            '0',
            hex_digit((c as u32) as int / 16),
            hex_digit((c as u32) as int % 16),
        ]
    } else {
        seq![c]
    }
}

/// What stands for a text inside a JSON string: its characters, each
/// escaped where it must be.
pub open spec fn json_escaped(text: Seq<char>) -> Seq<char>
    decreases text.len(),
{
    if text.len() == 0 {
        Seq::empty()
    } else {
        json_escaped(text.drop_last()) + json_escaped_char(text.last())
    }
}

/// The JSON object with the two keys `scaleId` and `data`, both strings,
/// the two texts set between the quotes as they are.
pub open spec fn json_frame(id_text: Seq<char>, data_text: Seq<char>) -> Seq<char> {
    "{\"scaleId\":\""@ + id_text + "\",\"data\":\""@ + data_text + "\"}"@
}

/// The frame sent to a subscriber for one message: a JSON object whose
/// `scaleId` is the sender id and whose `data` is the payload's UTF-8 bytes
/// in base64.
pub open spec fn frame_text(scale_id: Seq<char>, payload: Seq<char>) -> Seq<char> {
    json_frame(json_escaped(scale_id), base64_text(encode_utf8(payload)))
}

/// A text without quote, backslash and control character stands for itself
/// inside a JSON string.
pub proof fn lemma_plain_text_is_unescaped(text: Seq<char>)
    requires
        forall|i: int| 0 <= i < text.len() ==> !needs_escape(text[i]),
    ensures
        json_escaped(text) == text,
    decreases text.len(),
{
    if text.len() > 0 {
        lemma_plain_text_is_unescaped(text.drop_last());
        assert(text.drop_last().push(text.last()) == text);
    }
}

/// Calls `to_base64` of rustc_serialize's `ToBase64` for `[u8]` with the
/// `STANDARD` configuration. Trusted: the result is the encoding's text,
/// which depends on `bytes` alone.
#[verifier::external_body]
fn to_base64(bytes: &[u8]) -> (r: String)
    ensures
        r@ == base64_text(bytes@),
{
    bytes.to_base64(STANDARD)
}

/// Calls `String::from_utf8`. Trusted: the call succeeds exactly on valid
/// UTF-8, and the string then holds the characters that the bytes encode.
#[verifier::external_body]
fn from_utf8(bytes: Vec<u8>) -> (r: Option<String>)
    ensures
        match r {
            Some(text) => valid_utf8(bytes@) && text@ == decode_utf8(bytes@),
            None => !valid_utf8(bytes@),
        },
{
    String::from_utf8(bytes).ok()
}

/// Decodes a datagram as text. A datagram that is not UTF-8 is turned away.
pub fn decode_datagram(datagram: &[u8]) -> (r: Result<String, RelayError>)
    ensures
        match r {
            Ok(text) => valid_utf8(datagram@) && text@ == decode_utf8(datagram@),
            Err(e) => !valid_utf8(datagram@) && e == RelayError::UndecodableDatagram,
        },
{
    match from_utf8(slice_to_vec(datagram)) {
        Some(text) => Ok(text),
        None => Err(RelayError::UndecodableDatagram),
    }
}

/// The text of one hexadecimal digit.
fn hex_digit_text(n: usize) -> (r: &'static str)
    requires
        n < 16,
    ensures
        r@ == seq![hex_digit(n as int)],
{
    proof {
        reveal_strlit("0123456789abcdef");
    }
    "0123456789abcdef".substring_char(n, n + 1)
}

/// Puts what stands for the character `c` inside a JSON string at the end
/// of `out`, where `c` must be escaped.
fn push_escape(out: &mut String, c: char)
    requires
        needs_escape(c),
    ensures
        final(out)@ == old(out)@ + json_escaped_char(c),
{
    if c == '"' {
        proof {
            reveal_strlit("\\\"");
        }
        out.append("\\\"");
        assert(out@ == old(out)@ + seq!['\\', '"']);
    } else if c == '\\' {
        proof {
            reveal_strlit("\\\\");
        }
        out.append("\\\\");
        assert(out@ == old(out)@ + seq!['\\', '\\']);
    } else {
        let code: u32 = c as u32;
        proof {
            reveal_strlit("\\u00");
        }
        out.append("\\u00");
        out.append(hex_digit_text((code / 16) as usize));
        out.append(hex_digit_text((code % 16) as usize));
        assert(out@ == old(out)@ + seq![
            '\\',
            'u',
            '0',
            '0',
            hex_digit((c as u32) as int / 16),
            hex_digit((c as u32) as int % 16),
        ]);
    }
}

/// Escapes a text for a JSON string.
pub fn escape_json(text: &str) -> (r: String)
    ensures
        r@ == json_escaped(text@),
{
    let n: usize = text.unicode_len();
    let mut out = String::new();
    let mut start: usize = 0;
    let mut i: usize = 0;
    let chars = text.chars();
    proof {
        assert(text@.take(0) == Seq::<char>::empty());
        assert(text@.subrange(0, 0) == Seq::<char>::empty());
    }
    for c in it: chars
        invariant
            n == text@.len(),
            it.seq() == text@,
            i == it.index(),
            start <= i,
            json_escaped(text@.take(i as int)) == out@ + text@.subrange(start as int, i as int),
    {
        proof {
            let seen = text@.take(i + 1);
            assert(seen.drop_last() == text@.take(i as int));
            assert(seen.last() == c);
        }
        if c == '"' || c == '\\' || (c as u32) < 0x20 {
            out.append(text.substring_char(start, i));
            push_escape(&mut out, c);
            start = i + 1;
            assert(text@.subrange(start as int, i + 1) == Seq::<char>::empty());
        } else {
            assert(text@.subrange(start as int, i + 1) == text@.subrange(
                start as int,
                i as int,
            ).push(c));
        }
        i += 1;
    }
    out.append(text.substring_char(start, n));
    assert(text@.take(n as int) == text@);
    out
}

/// Sets two texts that are fit for a JSON string into a frame: the sender
/// id, already escaped, and the payload, already in base64.
pub fn encode_frame(id_text: &str, data_text: &str) -> (r: String)
    ensures
        r@ == json_frame(id_text@, data_text@),
{
    let mut frame = String::from_str("{\"scaleId\":\"");
    frame.append(id_text);
    frame.append("\",\"data\":\"");
    frame.append(data_text);
    frame.append("\"}");
    frame
}

/// Builds the frame that carries `message` from the sender `scale_id`.
pub fn message_to_json(scale_id: &str, message: &str) -> (r: String)
    ensures
        r@ == frame_text(scale_id@, message@),
{
    let id_text = escape_json(scale_id);
    let data_text = to_base64(message.as_bytes());
    encode_frame(id_text.as_str(), data_text.as_str())
}

} // verus!
