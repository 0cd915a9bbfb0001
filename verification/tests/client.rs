//! Client state machine and the required text-wrapping tests.

use tui_messenger::client_app::{App, Command, CurrentScreen};
use tui_messenger::envelope::MessageType;
use tui_messenger::ui_text::{wrap_single_line, wrap_text};

fn sys(text: &str) -> MessageType {
    MessageType::SystemMessage(text.to_string())
}

#[test]
fn test_wrap_text() {
    let text = "Hello, world! This is a long text that needs to be wrapped.";
    let max_width = 10;
    let expected_lines = vec![
        "Hello,",
        "world! This",
        "is a long",
        "text that",
        "needs to be",
        "wrapped.",
    ];

    let result = wrap_text(text, max_width);

    assert_eq!(result, expected_lines);
}

#[test]
fn test_wrap_text_empty() {
    let text = "";
    let max_width = 10;
    let expected_lines = vec![""];

    let result = wrap_text(text, max_width);

    assert_eq!(result, expected_lines);
}

#[test]
fn wrap_single_line_clamps_width() {
    // Widths below ten are raised to ten before wrapping.
    assert_eq!(wrap_single_line("aaa bbb ccc", 1), wrap_text("aaa bbb ccc", 10));
    assert_eq!(wrap_single_line("aaa bbb ccc", 11), wrap_text("aaa bbb ccc", 11));
}

#[test]
fn wrap_text_honours_line_feeds() {
    assert_eq!(wrap_text("one\ntwo", 10), vec!["one", "two"]);
}

#[test]
fn parse_command_variants() {
    let app = App::new();
    assert_eq!(app.parse_command("/name bob"), Command::SetName("bob".to_string()));
    assert_eq!(app.parse_command("/list"), Command::ListUsers);
    assert_eq!(app.parse_command("/help"), Command::Help);
    assert_eq!(
        app.parse_command("/dm bob hi there"),
        Command::DirectMessage("bob".to_string(), "hi there".to_string())
    );
    assert_eq!(app.parse_command("hello all"), Command::Unknown("hello all".to_string()));
    assert_eq!(app.parse_command("/name"), Command::Unknown("/name".to_string()));
    assert_eq!(app.parse_command("/dm bob"), Command::Unknown("/dm bob".to_string()));
    assert_eq!(app.parse_command("  /list  "), Command::ListUsers);
    assert_eq!(app.parse_command(""), Command::Unknown("".to_string()));
}

#[test]
fn client_auth_success_adopts_staged_username() {
    let mut app = App::new();
    app.staging_username = Some("alice".to_string());
    app.current_screen = CurrentScreen::LoggingIn;
    app.scroll_offset = 7;

    app.handle_websocket_message("{\"SystemMessage\":\"Authentication successful\"}");

    assert_eq!(app.current_screen, CurrentScreen::Main);
    assert_eq!(app.username, Some("alice".to_string()));
    assert_eq!(app.failed_login_attempts, 0);
    assert_eq!(app.messages.last(), Some(&sys("You are authenticated!")));
    assert_eq!(app.scroll_offset, 0);
}

#[test]
fn client_auth_failures_disconnect_after_five() {
    let mut app = App::new();
    app.current_screen = CurrentScreen::LoggingIn;
    for left in (1..=4u8).rev() {
        app.handle_websocket_message("{\"SystemMessage\":\"Authentication failed\"}");
        assert_eq!(app.current_screen, CurrentScreen::LoggingIn);
        assert_eq!(
            app.messages.last(),
            Some(&sys(&format!("Authentication failed. {} attempts remaining.", left)))
        );
    }
    app.handle_websocket_message("{\"SystemMessage\":\"Authentication failed\"}");
    assert_eq!(app.current_screen, CurrentScreen::Disconnected);
    assert_eq!(app.messages.last(), Some(&sys("Max login attempts reached. Connection closed.")));
    assert_eq!(app.failed_login_attempts, 5);
}

#[test]
fn client_receives_chat_and_plain_text() {
    let mut app = App::new();
    app.handle_websocket_message("{\"ChatMessage\":{\"sender\":\"bob\",\"content\":\"hi\"}}");
    assert_eq!(
        app.messages.last(),
        Some(&MessageType::ChatMessage { sender: "bob".to_string(), content: "hi".to_string() })
    );

    // Unparseable text joins the transcript verbatim.
    app.handle_websocket_message("plain words");
    assert_eq!(app.messages.last(), Some(&sys("plain words")));
    assert_eq!(app.messages.len(), 2);
}

#[test]
fn client_scrolling() {
    let mut app = App::new();
    app.scroll_up();
    app.scroll_up();
    assert_eq!(app.scroll_offset, 2);
    app.scroll_down();
    assert_eq!(app.scroll_offset, 1);
    app.scroll_down();
    app.scroll_down();
    assert_eq!(app.scroll_offset, 0);

    app.scroll_offset = 3;
    app.compose_scroll_up();
    assert_eq!(app.compose_scroll_offset, 4);
    app.compose_scroll_down();
    assert_eq!(app.compose_scroll_offset, 2);

    app.set_username("zoe".to_string());
    assert_eq!(app.username, Some("zoe".to_string()));
}
