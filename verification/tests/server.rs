//! End-to-end scenarios of the server core: handshake, broadcast, commands,
//! teardown and keep-alive.

use tui_messenger::app::App;
use tui_messenger::commander::handle_command;
use tui_messenger::envelope::MessageType;
use tui_messenger::router::{direct, fan_out, find_by_username, snapshot_usernames};
use tui_messenger::session::{
    handle_disconnection, handle_frame, handle_incoming_message, keeper_step, AuthOutcome, Frame,
    FrameAction, KeeperAction, KeeperEvent, KeeperState,
};

fn sys(text: &str) -> MessageType {
    MessageType::SystemMessage(text.to_string())
}

fn chat(sender: &str, content: &str) -> MessageType {
    MessageType::ChatMessage { sender: sender.to_string(), content: content.to_string() }
}

fn outbound_of<'a>(app: &'a App, id: &str) -> &'a Vec<MessageType> {
    let k = app.sessions.iter().position(|h| h.id == id).expect("session present");
    &app.sessions[k].outbound
}

fn authenticate(app: &mut App, id: &str, user: &str, pass: &str) {
    app.add_connected_user(id.to_string(), "Anonymous".to_string());
    let outcome = handle_incoming_message(app, id, sys(&format!("{}:{}", user, pass)));
    assert_eq!(outcome, AuthOutcome::Accepted);
}

#[test]
fn successful_login_and_echo() {
    let mut app = App::new();
    app.seed_credential("alice".to_string(), "pw".to_string());
    app.add_connected_user("c1".to_string(), "Anonymous".to_string());

    let outcome = handle_incoming_message(&mut app, "c1", sys("alice:pw"));
    assert_eq!(outcome, AuthOutcome::Accepted);
    // Success reply, then the (empty) history replay.
    assert_eq!(outbound_of(&app, "c1"), &vec![sys("Authentication successful")]);

    let outcome = handle_incoming_message(&mut app, "c1", chat("", "hi"));
    assert_eq!(outcome, AuthOutcome::Ignored);
    let q = outbound_of(&app, "c1");
    assert_eq!(q.last(), Some(&chat("alice", "hi")));
    assert_eq!(app.history.items.len(), 1);
    assert_eq!(app.history.items[0], chat("alice", "hi"));
    assert_eq!(app.sessions[0].info.message_count, 1);
}

#[test]
fn failed_login_lockout() {
    let mut app = App::new();
    app.seed_credential("alice".to_string(), "pw".to_string());
    app.add_connected_user("c1".to_string(), "Anonymous".to_string());

    for left in (1..=4u8).rev() {
        let outcome = handle_incoming_message(&mut app, "c1", sys("alice:wrong"));
        assert_eq!(outcome, AuthOutcome::Rejected { attempts_left: left });
        assert_eq!(
            outbound_of(&app, "c1").last(),
            Some(&sys(&format!("Authentication failed. {} attempts remaining.", left)))
        );
    }

    let outcome = handle_incoming_message(&mut app, "c1", sys("alice:wrong"));
    match outcome {
        AuthOutcome::LockedOut { farewell } => {
            let n = farewell.len();
            assert_eq!(farewell[n - 2], sys("Authentication failed. 0 attempts remaining."));
            assert_eq!(farewell[n - 1], sys("Max login attempts reached. Connection closed."));
        }
        other => panic!("expected lockout, got {:?}", other),
    }
    // R5: removed from the registry before any further frame.
    assert!(app.sessions.is_empty());
    let outcome = handle_incoming_message(&mut app, "c1", sys("alice:pw"));
    assert_eq!(outcome, AuthOutcome::Ignored);
}

#[test]
fn empty_credentials_rejected() {
    let mut app = App::new();
    assert!(!app.authenticate_user("", "pw"));
    assert!(!app.authenticate_user("user1", ""));
    assert!(!app.authenticate_user("nobody", "password1"));
    assert!(app.authenticate_user("user1", "password1"));
}

#[test]
fn password_may_contain_colons() {
    let mut app = App::new();
    app.seed_credential("alice".to_string(), "p:w:d".to_string());
    app.add_connected_user("c1".to_string(), "Anonymous".to_string());
    let outcome = handle_incoming_message(&mut app, "c1", sys("alice:p:w:d"));
    assert_eq!(outcome, AuthOutcome::Accepted);
    assert_eq!(app.sessions[0].info.username, "alice");
}

#[test]
fn list_command() {
    let mut app = App::new();
    app.seed_credential("a".to_string(), "pa".to_string());
    app.seed_credential("b".to_string(), "pb".to_string());
    app.seed_credential("c".to_string(), "pc".to_string());
    authenticate(&mut app, "c1", "a", "pa");
    authenticate(&mut app, "c2", "b", "pb");
    authenticate(&mut app, "c3", "c", "pc");

    let before_c2 = outbound_of(&app, "c2").len();
    let before_c3 = outbound_of(&app, "c3").len();
    handle_command("list", &vec![], "c1", &mut app);
    assert_eq!(outbound_of(&app, "c1").last(), Some(&sys("Connected users: a, b, c")));
    // Only the issuing session observes the reply.
    assert_eq!(outbound_of(&app, "c2").len(), before_c2);
    assert_eq!(outbound_of(&app, "c3").len(), before_c3);
}

#[test]
fn rename_then_broadcast() {
    let mut app = App::new();
    app.seed_credential("alice".to_string(), "pw".to_string());
    authenticate(&mut app, "c1", "alice", "pw");

    handle_command("name", &vec!["wonder".to_string()], "c1", &mut app);
    assert_eq!(outbound_of(&app, "c1").last(), Some(&sys("Your name is now set to 'wonder'")));
    assert_eq!(app.sessions[0].info.username, "wonder");

    handle_incoming_message(&mut app, "c1", chat("", "hello"));
    assert_eq!(outbound_of(&app, "c1").last(), Some(&chat("wonder", "hello")));
}

#[test]
fn rename_then_list_observes_new_name() {
    let mut app = App::new();
    app.seed_credential("alice".to_string(), "pw".to_string());
    authenticate(&mut app, "c1", "alice", "pw");
    handle_command("name", &vec!["wonder".to_string()], "c1", &mut app);
    handle_command("list", &vec![], "c1", &mut app);
    assert_eq!(outbound_of(&app, "c1").last(), Some(&sys("Connected users: wonder")));
}

#[test]
fn empty_name_rejected() {
    let mut app = App::new();
    app.seed_credential("alice".to_string(), "pw".to_string());
    authenticate(&mut app, "c1", "alice", "pw");

    handle_command("name", &vec!["".to_string()], "c1", &mut app);
    assert_eq!(outbound_of(&app, "c1").last(), Some(&sys("Please provide a valid name.")));
    assert_eq!(app.sessions[0].info.username, "alice");

    handle_command("name", &vec![], "c1", &mut app);
    assert_eq!(outbound_of(&app, "c1").last(), Some(&sys("Please provide a valid name.")));
    assert_eq!(app.sessions[0].info.username, "alice");
}

#[test]
fn unknown_command_reply() {
    let mut app = App::new();
    app.seed_credential("alice".to_string(), "pw".to_string());
    authenticate(&mut app, "c1", "alice", "pw");
    handle_command("dance", &vec![], "c1", &mut app);
    assert_eq!(
        outbound_of(&app, "c1").last(),
        Some(&sys("Unknown command. Type /help for a list of commands."))
    );
}

#[test]
fn direct_message_delivery() {
    let mut app = App::new();
    app.seed_credential("alice".to_string(), "pa".to_string());
    app.seed_credential("bob".to_string(), "pb".to_string());
    app.seed_credential("carol".to_string(), "pc".to_string());
    authenticate(&mut app, "c1", "alice", "pa");
    authenticate(&mut app, "c2", "bob", "pb");
    authenticate(&mut app, "c3", "carol", "pc");

    let before_c3 = outbound_of(&app, "c3").len();
    handle_command(
        "DirectMessage",
        &vec!["bob".to_string(), "hello".to_string()],
        "c1",
        &mut app,
    );
    assert_eq!(outbound_of(&app, "c2").last(), Some(&sys("(Private message from alice): hello")));
    assert_eq!(outbound_of(&app, "c1").last(), Some(&sys("(Private message to bob): hello")));
    // R4: no third session observes the exchange.
    assert_eq!(outbound_of(&app, "c3").len(), before_c3);
}

#[test]
fn direct_message_unknown_recipient() {
    let mut app = App::new();
    app.seed_credential("alice".to_string(), "pa".to_string());
    app.seed_credential("bob".to_string(), "pb".to_string());
    authenticate(&mut app, "c1", "alice", "pa");
    authenticate(&mut app, "c2", "bob", "pb");

    let before_c2 = outbound_of(&app, "c2").len();
    handle_command(
        "DirectMessage",
        &vec!["nobody".to_string(), "psst".to_string()],
        "c1",
        &mut app,
    );
    assert_eq!(outbound_of(&app, "c1").last(), Some(&sys("User 'nobody' not found.")));
    assert_eq!(outbound_of(&app, "c2").len(), before_c2);
}

#[test]
fn direct_message_first_match_wins() {
    let mut app = App::new();
    app.add_connected_user("c1".to_string(), "dup".to_string());
    app.add_connected_user("c2".to_string(), "dup".to_string());
    let delivered = direct(&mut app, "dup", sys("ping"));
    assert!(delivered);
    assert_eq!(outbound_of(&app, "c1").len(), 1);
    assert_eq!(outbound_of(&app, "c2").len(), 0);
    let info = find_by_username(&app, "dup").expect("found");
    assert_eq!(info.username, "dup");
}

#[test]
fn broadcast_order_per_recipient() {
    let mut app = App::new();
    app.add_connected_user("c1".to_string(), "a".to_string());
    app.add_connected_user("c2".to_string(), "b".to_string());
    fan_out(&mut app, &sys("first"));
    fan_out(&mut app, &sys("second"));
    for id in ["c1", "c2"] {
        assert_eq!(outbound_of(&app, id), &vec![sys("first"), sys("second")]);
    }
}

#[test]
fn history_replayed_on_join() {
    let mut app = App::new();
    app.seed_credential("alice".to_string(), "pw".to_string());
    app.add_message_to_history(chat("x", "one"));
    app.add_message_to_history(chat("y", "two"));
    authenticate(&mut app, "c1", "alice", "pw");
    assert_eq!(
        outbound_of(&app, "c1"),
        &vec![sys("Authentication successful"), chat("x", "one"), chat("y", "two")]
    );
}

#[test]
fn teardown_announces_and_is_single_shot() {
    let mut app = App::new();
    app.add_connected_user("c1".to_string(), "alice".to_string());
    app.add_connected_user("c2".to_string(), "bob".to_string());

    let removed = handle_disconnection(&mut app, "c1");
    assert!(removed);
    assert_eq!(app.sessions.len(), 1);
    assert_eq!(outbound_of(&app, "c2").last(), Some(&sys("alice has disconnected.")));

    // L2: a second teardown is a silent no-op.
    let len_before = outbound_of(&app, "c2").len();
    let removed_again = handle_disconnection(&mut app, "c1");
    assert!(!removed_again);
    assert_eq!(app.sessions.len(), 1);
    assert_eq!(outbound_of(&app, "c2").len(), len_before);

    // A later list no longer shows the dead session.
    let names = snapshot_usernames(&app);
    assert_eq!(names, vec!["bob"]);
}

#[test]
fn remove_twice_returns_none() {
    let mut app = App::new();
    app.add_connected_user("c1".to_string(), "alice".to_string());
    let first = app.remove_connected_user("c1");
    assert_eq!(first.map(|u| u.username), Some("alice".to_string()));
    let second = app.remove_connected_user("c1");
    assert!(second.is_none());
}

#[test]
fn registry_get_and_update() {
    let mut app = App::new();
    app.add_connected_user("c1".to_string(), "alice".to_string());
    let got = app.get_connected_user("c1").expect("present");
    assert_eq!(got.username, "alice");
    assert_eq!(got.message_count, 0);
    assert!(app.get_connected_user("cX").is_none());

    app.update_username("c1".to_string(), "wonder".to_string());
    assert_eq!(app.get_connected_user("c1").expect("present").username, "wonder");

    let all = app.get_connected_users();
    assert_eq!(all.len(), 1);
    assert_eq!(all[0].username, "wonder");
}

#[test]
fn accept_issues_fresh_ids() {
    let mut app = App::new();
    let id1 = app.accept_connection();
    let id2 = app.accept_connection();
    assert_eq!(id1.chars().count(), 36);
    assert_eq!(id2.chars().count(), 36);
    assert_ne!(id1, id2);
    assert_eq!(app.sessions.len(), 2);
    assert_eq!(app.get_connected_user(&id1).expect("registered").username, "Anonymous");
}

#[test]
fn drain_outbound_empties_the_queue() {
    let mut app = App::new();
    app.add_connected_user("c1".to_string(), "alice".to_string());
    fan_out(&mut app, &sys("one"));
    fan_out(&mut app, &sys("two"));
    let drained = app.drain_outbound("c1");
    assert_eq!(drained, vec![sys("one"), sys("two")]);
    assert!(app.drain_outbound("c1").is_empty());
    assert!(app.drain_outbound("unknown").is_empty());
    assert_eq!(app.sessions.len(), 1);
}

#[test]
fn keeper_protocol() {
    let st = KeeperState { awaiting_pong: false };
    let (st, act) = keeper_step(st, &KeeperEvent::IntervalElapsed);
    assert_eq!(act, KeeperAction::SendPing);
    assert!(st.awaiting_pong);

    let (st2, act) = keeper_step(st, &KeeperEvent::PongArrived);
    assert_eq!(act, KeeperAction::Wait);
    assert!(!st2.awaiting_pong);

    let (_, act) = keeper_step(st, &KeeperEvent::PongTimedOut);
    assert_eq!(act, KeeperAction::Disconnect);

    let (_, act) = keeper_step(st2, &KeeperEvent::PongTimedOut);
    assert_eq!(act, KeeperAction::Wait);
}

#[test]
fn keeper_timeout_disconnects_session() {
    let mut app = App::new();
    app.add_connected_user("c1".to_string(), "alice".to_string());
    app.add_connected_user("c2".to_string(), "bob".to_string());

    let st = KeeperState { awaiting_pong: true };
    let (_, act) = keeper_step(st, &KeeperEvent::PongTimedOut);
    assert_eq!(act, KeeperAction::Disconnect);
    let removed = handle_disconnection(&mut app, "c1");
    assert!(removed);
    let names = snapshot_usernames(&app);
    assert_eq!(names, vec!["bob"]);
}

#[test]
fn frame_handling() {
    let mut app = App::new();
    app.seed_credential("alice".to_string(), "pw".to_string());
    app.add_connected_user("c1".to_string(), "Anonymous".to_string());

    // Ping frames are echoed as pongs with the identical payload.
    let act = handle_frame(&mut app, "c1", Frame::Ping(vec![1, 2, 3]));
    assert_eq!(act, FrameAction::ReplyPong(vec![1, 2, 3]));

    // Pongs go to the keeper; binary frames are ignored.
    assert_eq!(handle_frame(&mut app, "c1", Frame::Pong(vec![])), FrameAction::NotifyKeeper);
    assert_eq!(handle_frame(&mut app, "c1", Frame::Binary(vec![9])), FrameAction::DiscardBinary);

    // A malformed text frame is discarded and the session survives.
    let act = handle_frame(&mut app, "c1", Frame::Text("not json".to_string()));
    assert_eq!(act, FrameAction::DiscardMalformed);
    assert_eq!(app.sessions.len(), 1);

    // A well-formed credential frame authenticates.
    let act = handle_frame(
        &mut app,
        "c1",
        Frame::Text("{\"SystemMessage\":\"alice:pw\"}".to_string()),
    );
    assert_eq!(act, FrameAction::Dispatched(AuthOutcome::Accepted));

    // Close triggers the teardown path.
    let act = handle_frame(&mut app, "c1", Frame::Close);
    assert_eq!(act, FrameAction::TornDown(true));
    assert!(app.sessions.is_empty());
}
