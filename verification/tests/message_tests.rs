use scale_server::error::RelayError;
use scale_server::message::{
    decode_datagram, encode_frame, escape_json, extract_message, message_to_json,
};

#[test]
fn extract_splits_at_the_separator() {
    assert_eq!(extract_message("5\u{2}12.34"), Some(("5", "12.34")));
}

#[test]
fn extract_keeps_spaces_and_unicode() {
    assert_eq!(extract_message("é 1\u{2}12.34 lb ü"), Some(("é 1", "12.34 lb ü")));
}

#[test]
fn extract_allows_empty_fields() {
    assert_eq!(extract_message("\u{2}"), Some(("", "")));
    assert_eq!(extract_message("7\u{2}"), Some(("7", "")));
    assert_eq!(extract_message("\u{2}9.5"), Some(("", "9.5")));
}

#[test]
fn extract_rejects_text_without_separator() {
    assert_eq!(extract_message("512.34"), None);
    assert_eq!(extract_message(""), None);
}

#[test]
fn extract_rejects_text_with_two_separators() {
    assert_eq!(extract_message("5\u{2}12\u{2}34"), None);
    assert_eq!(extract_message("\u{2}\u{2}"), None);
    assert_eq!(extract_message("5\u{2}12.34\u{2}"), None);
}

#[test]
fn frame_is_exact_for_sender_and_payload() {
    assert_eq!(message_to_json("5", "12.34 lb"), "{\"scaleId\":\"5\",\"data\":\"MTIuMzQgbGI=\"}");
}

#[test]
fn frame_encodes_payload_in_padded_base64() {
    assert_eq!(message_to_json("a", ""), "{\"scaleId\":\"a\",\"data\":\"\"}");
    assert_eq!(message_to_json("a", "f"), "{\"scaleId\":\"a\",\"data\":\"Zg==\"}");
    assert_eq!(message_to_json("a", "fo"), "{\"scaleId\":\"a\",\"data\":\"Zm8=\"}");
    assert_eq!(message_to_json("a", "foo"), "{\"scaleId\":\"a\",\"data\":\"Zm9v\"}");
    assert_eq!(message_to_json("a", "12.34"), "{\"scaleId\":\"a\",\"data\":\"MTIuMzQ=\"}");
}

#[test]
fn frame_encodes_the_utf8_bytes_of_the_payload() {
    assert_eq!(message_to_json("s", "é"), "{\"scaleId\":\"s\",\"data\":\"w6k=\"}");
}

#[test]
fn encode_frame_sets_the_texts_as_they_are() {
    assert_eq!(encode_frame("5", "MTIuMzQgbGI="), "{\"scaleId\":\"5\",\"data\":\"MTIuMzQgbGI=\"}");
    assert_eq!(encode_frame("", ""), "{\"scaleId\":\"\",\"data\":\"\"}");
}

#[test]
fn decode_accepts_utf8() {
    assert_eq!(decode_datagram(b"5\x0212.34"), Ok("5\u{2}12.34".to_string()));
    assert_eq!(decode_datagram(&[0xc3, 0xa9]), Ok("é".to_string()));
    assert_eq!(decode_datagram(&[]), Ok(String::new()));
}

#[test]
fn decode_rejects_bytes_that_are_not_utf8() {
    assert_eq!(decode_datagram(&[0xff, 0x02, 0x31]), Err(RelayError::UndecodableDatagram));
    assert_eq!(decode_datagram(&[0xc3]), Err(RelayError::UndecodableDatagram));
}

#[test]
fn escape_leaves_plain_text_as_it_is() {
    assert_eq!(escape_json(""), "");
    assert_eq!(escape_json("5"), "5");
    assert_eq!(escape_json("scale 7/é ~"), "scale 7/é ~");
    assert_eq!(escape_json("\u{7f}"), "\u{7f}");
}

#[test]
fn escape_handles_quote_backslash_and_control_characters() {
    assert_eq!(escape_json("\""), "\\\"");
    assert_eq!(escape_json("\\"), "\\\\");
    assert_eq!(escape_json("\n"), "\\u000a");
    assert_eq!(escape_json("\u{0}"), "\\u0000");
    assert_eq!(escape_json("\u{1f}"), "\\u001f");
    assert_eq!(escape_json("\u{10}\t"), "\\u0010\\u0009");
    assert_eq!(escape_json(" "), " ");
}

#[test]
fn escape_keeps_the_text_between_escapes() {
    assert_eq!(escape_json("a\"b\\c\nd"), "a\\\"b\\\\c\\u000ad");
    assert_eq!(escape_json("\"\""), "\\\"\\\"");
    assert_eq!(escape_json("é\"ü"), "é\\\"ü");
}

#[test]
fn frame_escapes_quote_backslash_and_newline_in_the_sender_id() {
    assert_eq!(
        message_to_json("a\"b\\c\nd", "12.34 lb"),
        "{\"scaleId\":\"a\\\"b\\\\c\\u000ad\",\"data\":\"MTIuMzQgbGI=\"}"
    );
    assert_eq!(
        message_to_json("\"", "f"),
        "{\"scaleId\":\"\\\"\",\"data\":\"Zg==\"}"
    );
}
