//! Wire-format round trips and exact encodings.

use tui_messenger::codec::{decode, encode, DecodeError};
use tui_messenger::envelope::MessageType;

fn round_trip(m: MessageType) {
    let text = encode(&m);
    let back = decode(text.as_str()).expect("decodes");
    assert_eq!(back, m);
}

#[test]
fn encode_exact_wire_texts() {
    let m = MessageType::ChatMessage { sender: "alice".to_string(), content: "hi".to_string() };
    assert_eq!(encode(&m), "{\"ChatMessage\":{\"sender\":\"alice\",\"content\":\"hi\"}}");

    let m = MessageType::Command {
        name: "DirectMessage".to_string(),
        args: vec!["bob".to_string(), "hello".to_string()],
    };
    assert_eq!(encode(&m), "{\"Command\":{\"name\":\"DirectMessage\",\"args\":[\"bob\",\"hello\"]}}");

    let m = MessageType::Command { name: "list".to_string(), args: vec![] };
    assert_eq!(encode(&m), "{\"Command\":{\"name\":\"list\",\"args\":[]}}");

    let m = MessageType::SystemMessage("alice:pw".to_string());
    assert_eq!(encode(&m), "{\"SystemMessage\":\"alice:pw\"}");
}

#[test]
fn escaping_in_encode() {
    let m = MessageType::SystemMessage("say \"hi\" \\ there".to_string());
    assert_eq!(encode(&m), "{\"SystemMessage\":\"say \\\"hi\\\" \\\\ there\"}");
}

#[test]
fn round_trips_all_variants() {
    round_trip(MessageType::ChatMessage { sender: "alice".to_string(), content: "hi".to_string() });
    round_trip(MessageType::ChatMessage { sender: "".to_string(), content: "".to_string() });
    round_trip(MessageType::SystemMessage("x:y:z".to_string()));
    round_trip(MessageType::SystemMessage("quote \" and slash \\".to_string()));
    round_trip(MessageType::Command { name: "list".to_string(), args: vec![] });
    round_trip(MessageType::Command {
        name: "name".to_string(),
        args: vec!["wonder".to_string()],
    });
    round_trip(MessageType::Command {
        name: "DirectMessage".to_string(),
        args: vec!["bob".to_string(), "hi there".to_string(), "".to_string()],
    });
}

#[test]
fn decode_known_texts() {
    let m = decode("{\"SystemMessage\":\"hello\"}").expect("decodes");
    assert_eq!(m, MessageType::SystemMessage("hello".to_string()));

    let m = decode("{\"ChatMessage\":{\"sender\":\"a\",\"content\":\"b\"}}").expect("decodes");
    assert_eq!(m, MessageType::ChatMessage { sender: "a".to_string(), content: "b".to_string() });
}

#[test]
fn decode_rejects_malformed() {
    for bad in [
        "",
        "hello",
        "{\"SystemMessage\":\"unterminated}",
        "{\"SystemMessage\":\"x\"} trailing",
        "{\"Chat\":\"x\"}",
        "{\"Command\":{\"name\":\"x\",\"args\":[\"a\"}}",
        "{\"SystemMessage\":\"bad \\n escape\"}",
    ] {
        assert_eq!(decode(bad), Err(DecodeError::MalformedFrame), "input: {}", bad);
    }
}
