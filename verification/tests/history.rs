//! Boundary behaviors of the bounded message history.

use tui_messenger::envelope::MessageType;
use tui_messenger::history::MessageHistory;

fn sys(text: &str) -> MessageType {
    MessageType::SystemMessage(text.to_string())
}

#[test]
fn hundred_appends_keep_all_in_order() {
    let mut h = MessageHistory::new();
    for i in 0..100 {
        h.append(sys(&format!("m{}", i)));
    }
    let snap = h.snapshot();
    assert_eq!(snap.len(), 100);
    for i in 0..100 {
        assert_eq!(snap[i], sys(&format!("m{}", i)));
    }
}

#[test]
fn hundred_first_append_evicts_oldest() {
    let mut h = MessageHistory::new();
    for i in 0..101 {
        h.append(sys(&format!("m{}", i)));
    }
    let snap = h.snapshot();
    assert_eq!(snap.len(), 100);
    assert_eq!(snap[0], sys("m1"));
    assert_eq!(snap[99], sys("m100"));
}

#[test]
fn command_envelopes_are_not_historic() {
    let mut h = MessageHistory::new();
    h.append(sys("kept"));
    h.append(MessageType::Command { name: "list".to_string(), args: vec![] });
    let snap = h.snapshot();
    assert_eq!(snap.len(), 1);
    assert_eq!(snap[0], sys("kept"));
}

#[test]
fn snapshot_is_not_mutated_by_later_appends() {
    let mut h = MessageHistory::new();
    h.append(sys("one"));
    let snap = h.snapshot();
    h.append(sys("two"));
    assert_eq!(snap.len(), 1);
    assert_eq!(h.len(), 2);
}
