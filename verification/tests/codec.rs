use nest_core::codec::{classify_chunk, encode_all, encode_message};
use nest_core::events::{Message, Payload};
use nest_core::telnet::{GMCP, IAC, SB, SE};

#[test]
fn classify_plain_text_is_trimmed() {
    let r = classify_chunk(b"  hello \r\n".to_vec());
    assert_eq!(r, Some(Message::Text(String::from("hello"))));
}

#[test]
fn classify_text_keeps_interior_whitespace() {
    let r = classify_chunk(b"say hello world\r\n".to_vec());
    assert_eq!(r, Some(Message::Text(String::from("say hello world"))));
}

#[test]
fn classify_iac_first_byte_is_one_command() {
    let chunk = vec![IAC, 253u8, 1u8, IAC, 251u8, 1u8];
    let r = classify_chunk(chunk.clone());
    assert_eq!(r, Some(Message::Command(chunk)));
}

#[test]
fn classify_whitespace_only_yields_nothing() {
    assert_eq!(classify_chunk(b" \t \r\n".to_vec()), None);
}

#[test]
fn classify_invalid_utf8_yields_nothing() {
    assert_eq!(classify_chunk(vec![0x41u8, 0xc3u8, 0x28u8]), None);
}

#[test]
fn classify_valid_multibyte_utf8_text() {
    let r = classify_chunk(vec![0x63u8, 0x61u8, 0x66u8, 0xc3u8, 0xa9u8, 0x0au8]);
    match r {
        Some(Message::Text(s)) => assert_eq!(s.as_bytes(), &[0x63u8, 0x61u8, 0x66u8, 0xc3u8, 0xa9u8]),
        other => panic!("expected text, got {:?}", other),
    }
}

#[test]
fn encode_text_appends_crlf() {
    let bytes = encode_message(Message::Text(String::from("a")));
    assert_eq!(bytes, b"a\r\n".to_vec());
}

#[test]
fn encode_command_passes_verbatim() {
    let bytes = encode_message(Message::Command(vec![IAC, 252u8, 1u8]));
    assert_eq!(bytes, vec![IAC, 252u8, 1u8]);
}

#[test]
fn encode_gmcp_full_payload_exact_bytes() {
    let payload = Payload {
        package: String::from("chat"),
        subpackage: Some(String::from("who")),
        data: Some(String::from("3")),
    };
    let bytes = encode_message(Message::GMCP(payload));
    let mut expected = vec![IAC, SB, GMCP];
    expected.extend_from_slice(b"chat.who 3");
    expected.push(IAC);
    expected.push(SE);
    assert_eq!(bytes, expected);
}

#[test]
fn encode_gmcp_package_only() {
    let payload = Payload { package: String::from("core"), subpackage: None, data: None };
    let bytes = encode_message(Message::GMCP(payload));
    let mut expected = vec![IAC, SB, GMCP];
    expected.extend_from_slice(b"core");
    expected.push(IAC);
    expected.push(SE);
    assert_eq!(bytes, expected);
}

#[test]
fn encode_gmcp_package_and_data_without_subpackage() {
    let payload = Payload {
        package: String::from("ping"),
        subpackage: None,
        data: Some(String::from("{}")),
    };
    let bytes = encode_message(Message::GMCP(payload));
    let mut expected = vec![IAC, SB, GMCP];
    expected.extend_from_slice(b"ping {}");
    expected.push(IAC);
    expected.push(SE);
    assert_eq!(bytes, expected);
}

#[test]
fn encode_all_keeps_order() {
    let frames = encode_all(vec![
        Message::Text(String::from("a")),
        Message::Text(String::from("b")),
        Message::Text(String::from("c")),
    ]);
    assert_eq!(
        frames,
        vec![b"a\r\n".to_vec(), b"b\r\n".to_vec(), b"c\r\n".to_vec()]
    );
}

#[test]
fn message_from_string_is_text() {
    let m = Message::from(String::from("hi"));
    assert_eq!(m, Message::Text(String::from("hi")));
}

#[test]
fn message_from_bytes_is_command() {
    let m = Message::from(vec![IAC, 251u8, 1u8]);
    assert_eq!(m, Message::Command(vec![IAC, 251u8, 1u8]));
}

#[test]
fn message_from_payload_is_gmcp() {
    let payload = Payload { package: String::from("chat"), subpackage: None, data: None };
    let m = Message::from(payload.clone());
    assert_eq!(m, Message::GMCP(payload));
}
