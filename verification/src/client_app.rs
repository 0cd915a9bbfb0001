//! Client state: the screen the user is on, the transcript of received
//! envelopes, the login bookkeeping, and the slash-command parser.  The
//! terminal rendering and the socket live in the runtime shell, which
//! feeds this state with plain values.

use vstd::prelude::*;
use vstd::string::*;

use crate::codec::{decode, spec_decode};
use crate::envelope::{Envelope, MessageType};
use crate::text::{
    clone_str, contains_str, find_char, lemma_first_index_at, lemma_first_index_none, str_eq,
    spec_contains, first_index, trimmed, trim_str,
};

verus! {

/// Which screen the client is showing.
#[derive(Debug, PartialEq)]
pub enum CurrentScreen {
    Main,
    SetUser,
    ComposingMessage,
    HelpMenu,
    Exiting,
    Disconnected,
    LoggingIn,
    ExitingLoggingIn,
    ServerSelection,
    AddServer,
}

/// A parsed slash command from the compose line.
#[derive(Debug, PartialEq)]
pub enum Command {
    SetName(String),
    ListUsers,
    DirectMessage(String, String),
    Help,
    Unknown(String),
}

/// Which login field has the focus.
#[derive(Debug, PartialEq)]
pub enum LoginField {
    Username,
    Password,
}

/// A bookmarked server: a display name and its address as text.
pub struct ServerEntry {
    pub name: String,
    pub url: String,
}

/// Client-side state.  The sound device, the terminal and the socket stay
/// in the runtime shell.
pub struct App {
    pub username: Option<String>,
    pub staging_username: Option<String>,
    pub password: Option<String>,
    pub message_input: String,
    pub current_screen: CurrentScreen,
    pub messages: Vec<MessageType>,
    pub scroll_offset: usize,
    pub compose_scroll_offset: usize,
    pub failed_login_attempts: u8,
    pub current_login_field: LoginField,
    pub is_typing: bool,
    pub servers: Vec<ServerEntry>,
    pub selected_server: Option<String>,
    pub selected_server_index: usize,
}

pub open spec fn you_are_authenticated_text() -> Seq<char> {
    "You are authenticated!"@
}

pub open spec fn client_lockout_text() -> Seq<char> {
    "Max login attempts reached. Connection closed."@
}

/// The client's own failure notice for a number of remaining attempts.
pub open spec fn client_auth_failed_text(remaining: u8) -> Seq<char> {
    if remaining == 4 {
        "Authentication failed. 4 attempts remaining."@
    } else if remaining == 3 {
        "Authentication failed. 3 attempts remaining."@
    } else if remaining == 2 {
        "Authentication failed. 2 attempts remaining."@
    } else if remaining == 1 {
        "Authentication failed. 1 attempts remaining."@
    } else {
        "Authentication failed. 0 attempts remaining."@
    }
}

/// Appends one envelope to a transcript, tracking the deep view.
fn push_envelope(v: &mut Vec<MessageType>, m: MessageType)
    ensures
        final(v).deep_view() == old(v).deep_view().push(m@),
{
    let ghost pre = v@;
    let ghost pre_dv = v.deep_view();
    let ghost mval = m;
    v.push(m);
    proof {
        assert(v@ == pre.push(mval));
        assert forall|k: int|
            0 <= k < v@.len() implies v.deep_view()[k] == pre_dv.push(mval@)[k] by {
            if k < pre.len() {
                assert(v@[k] == pre[k]);
                assert(pre_dv[k] == pre[k]@);
            } else {
                assert(v@[k] == mval);
            }
        }
        assert(v.deep_view() =~= pre_dv.push(mval@));
    }
}

impl App {
    /// Fresh client state: two bookmarked servers, the second selected,
    /// on the main screen with an empty transcript.
    pub fn new() -> (app: App)
        ensures
            app.username is None,
            app.staging_username is None,
            app.password is None,
            app.message_input@.len() == 0,
            app.current_screen is Main,
            app.messages.deep_view() == Seq::<Envelope>::empty(),
            app.scroll_offset == 0,
            app.compose_scroll_offset == 0,
            app.failed_login_attempts == 0,
            app.current_login_field is Username,
            app.is_typing == false,
            app.servers@.len() == 2,
            app.servers@[0].name@ == "local"@,
            app.servers@[0].url@ == "ws://0.0.0.0:8080"@,
            app.servers@[1].name@ == "default"@,
            app.servers@[1].url@ == "ws://autorack.proxy.rlwy.net:55901"@,
            app.selected_server matches Some(sel) && sel@ == "default"@,
            app.selected_server_index == 1,
    {
        let mut servers: Vec<ServerEntry> = Vec::new();
        servers.push(
            ServerEntry {
                name: String::from_str("local"),
                url: String::from_str("ws://0.0.0.0:8080"),
            },
        );
        servers.push(
            ServerEntry {
                name: String::from_str("default"),
                url: String::from_str("ws://autorack.proxy.rlwy.net:55901"),
            },
        );
        let app = App {
            username: None,
            staging_username: None,
            password: None,
            message_input: String::new(),
            current_screen: CurrentScreen::Main,
            messages: Vec::new(),
            scroll_offset: 0,
            compose_scroll_offset: 0,
            failed_login_attempts: 0,
            current_login_field: LoginField::Username,
            is_typing: false,
            servers,
            selected_server: Some(String::from_str("default")),
            selected_server_index: 1,
        };
        proof {
            assert(app.messages.deep_view() =~= Seq::<Envelope>::empty());
        }
        app
    }

    pub fn scroll_up(&mut self)
        ensures
            *final(self) == (App {
                scroll_offset: (if old(self).scroll_offset < usize::MAX {
                    (old(self).scroll_offset + 1) as usize
                } else {
                    old(self).scroll_offset
                }),
                ..*old(self)
            }),
    {
        if self.scroll_offset < usize::MAX {
            self.scroll_offset = self.scroll_offset + 1;
        }
    }

    pub fn scroll_down(&mut self)
        ensures
            *final(self) == (App {
                scroll_offset: (if old(self).scroll_offset > 0 {
                    (old(self).scroll_offset - 1) as usize
                } else {
                    0usize
                }),
                ..*old(self)
            }),
    {
        if self.scroll_offset > 0 {
            self.scroll_offset = self.scroll_offset - 1;
        }
    }

    /// The compose offset is recomputed from the chat scroll offset, so
    /// composing follows wherever the chat view was scrolled to.
    pub fn compose_scroll_up(&mut self)
        ensures
            *final(self) == (App {
                compose_scroll_offset: (if old(self).scroll_offset < usize::MAX {
                    (old(self).scroll_offset + 1) as usize
                } else {
                    old(self).scroll_offset
                }),
                ..*old(self)
            }),
    {
        if self.scroll_offset < usize::MAX {
            self.compose_scroll_offset = self.scroll_offset + 1;
        } else {
            self.compose_scroll_offset = self.scroll_offset;
        }
    }

    pub fn compose_scroll_down(&mut self)
        ensures
            *final(self) == (App {
                compose_scroll_offset: (if old(self).scroll_offset > 0 {
                    (old(self).scroll_offset - 1) as usize
                } else {
                    0usize
                }),
                ..*old(self)
            }),
    {
        if self.scroll_offset > 0 {
            self.compose_scroll_offset = self.scroll_offset - 1;
        } else {
            self.compose_scroll_offset = 0;
        }
    }

    pub fn set_username(&mut self, name: String)
        ensures
            *final(self) == (App { username: Some(name), ..*old(self) }),
    {
        self.username = Some(name);
    }

    /// Reacts to one text frame from the server: a chat message joins the
    /// transcript; a system message is matched against the authentication
    /// replies (success adopts the staged username, failure counts up and
    /// the fifth failure disconnects) or otherwise joins the transcript;
    /// text that decodes to nothing joins the transcript verbatim.  The
    /// chat scroll returns to the bottom in every case.
    #[verifier::rlimit(60)]
    pub fn handle_websocket_message(&mut self, message: &str)
        ensures
            ws_message_effect(*old(self), *final(self), message@),
    {
        let decoded = decode(message);
        match decoded {
            Ok(m) => {
                match m {
                    MessageType::ChatMessage { sender, content } => {
                        push_envelope(
                            &mut self.messages,
                            MessageType::ChatMessage { sender, content },
                        );
                    },
                    MessageType::SystemMessage(text) => {
                        if contains_str(text.as_str(), "Authentication successful") {
                            push_envelope(
                                &mut self.messages,
                                MessageType::SystemMessage(clone_str("You are authenticated!")),
                            );
                            self.current_screen = CurrentScreen::Main;
                            self.failed_login_attempts = 0;
                            let staged: Option<String> = match &self.staging_username {
                                Some(u) => Some(clone_str(u.as_str())),
                                None => None,
                            };
                            self.username = staged;
                        } else if contains_str(text.as_str(), "Authentication failed") {
                            if self.failed_login_attempts < 5 {
                                self.failed_login_attempts = self.failed_login_attempts + 1;
                            }
                            let nf = self.failed_login_attempts;
                            let remaining: u8 = if nf <= 5 {
                                5 - nf
                            } else {
                                0
                            };
                            let reply: &str = if remaining == 4 {
                                "Authentication failed. 4 attempts remaining."
                            } else if remaining == 3 {
                                "Authentication failed. 3 attempts remaining."
                            } else if remaining == 2 {
                                "Authentication failed. 2 attempts remaining."
                            } else if remaining == 1 {
                                "Authentication failed. 1 attempts remaining."
                            } else {
                                "Authentication failed. 0 attempts remaining."
                            };
                            push_envelope(
                                &mut self.messages,
                                MessageType::SystemMessage(clone_str(reply)),
                            );
                            if nf >= 5 {
                                self.current_screen = CurrentScreen::Disconnected;
                                push_envelope(
                                    &mut self.messages,
                                    MessageType::SystemMessage(
                                        clone_str("Max login attempts reached. Connection closed."),
                                    ),
                                );
                            } else {
                                self.current_screen = CurrentScreen::LoggingIn;
                            }
                        } else {
                            push_envelope(&mut self.messages, MessageType::SystemMessage(text));
                        }
                    },
                    MessageType::Command { .. } => {},
                }
            },
            Err(_) => {
                push_envelope(
                    &mut self.messages,
                    MessageType::SystemMessage(clone_str(message)),
                );
            },
        }
        self.scroll_offset = 0;
    }

    /// Parses the compose line as a slash command: `/name <n>`, `/list`,
    /// `/dm <recipient> <message>`, `/help`; everything else, including a
    /// line that does not begin with a slash, is unknown and carried back
    /// verbatim (trimmed).
    pub fn parse_command(&self, input: &str) -> (r: Command)
        ensures
            ({
                let t = trimmed(input@);
                if t.len() == 0 || t[0] != '/' {
                    r matches Command::Unknown(u) && u@ == t
                } else {
                    let i = first_index(t, ' ');
                    if i < 0 {
                        if t == "/list"@ {
                            r is ListUsers
                        } else if t == "/help"@ {
                            r is Help
                        } else {
                            r matches Command::Unknown(u) && u@ == t
                        }
                    } else {
                        let p1 = t.subrange(0, i);
                        let rest = t.subrange(i + 1, t.len() as int);
                        let j = first_index(rest, ' ');
                        if j < 0 {
                            if p1 == "/name"@ && rest.len() > 0 {
                                r matches Command::SetName(nm) && nm@ == rest
                            } else {
                                r matches Command::Unknown(u) && u@ == t
                            }
                        } else {
                            let p2 = rest.subrange(0, j);
                            let p3 = rest.subrange(j + 1, rest.len() as int);
                            if p1 == "/dm"@ && p3.len() > 0 {
                                r matches Command::DirectMessage(a, b) && a@ == p2 && b@ == p3
                            } else {
                                r matches Command::Unknown(u) && u@ == t
                            }
                        }
                    }
                }
            }),
    {
        let t = trim_str(input);
        let tlen = t.as_str().unicode_len();
        if tlen == 0 || t.as_str().get_char(0) != '/' {
            return Command::Unknown(t);
        }
        let found = find_char(t.as_str(), ' ');
        match found {
            None => {
                proof {
                    lemma_first_index_none(t@, ' ');
                }
                if str_eq(t.as_str(), "/list") {
                    Command::ListUsers
                } else if str_eq(t.as_str(), "/help") {
                    Command::Help
                } else {
                    Command::Unknown(t)
                }
            },
            Some(i) => {
                proof {
                    lemma_first_index_at(t@, ' ', i as int);
                }
                let p1 = t.as_str().substring_char(0, i);
                let rest = t.as_str().substring_char(i + 1, tlen);
                let restlen = rest.unicode_len();
                let inner = find_char(rest, ' ');
                match inner {
                    None => {
                        proof {
                            lemma_first_index_none(rest@, ' ');
                        }
                        if str_eq(p1, "/name") && restlen > 0 {
                            Command::SetName(clone_str(rest))
                        } else {
                            Command::Unknown(t)
                        }
                    },
                    Some(j) => {
                        proof {
                            lemma_first_index_at(rest@, ' ', j as int);
                        }
                        let p2 = rest.substring_char(0, j);
                        let p3 = rest.substring_char(j + 1, restlen);
                        if str_eq(p1, "/dm") && p3.unicode_len() > 0 {
                            Command::DirectMessage(clone_str(p2), clone_str(p3))
                        } else {
                            Command::Unknown(t)
                        }
                    },
                }
            },
        }
    }
}

/// Full effect of one inbound server frame on the client state; see
/// [`App::handle_websocket_message`].
pub open spec fn ws_message_effect(pre: App, post: App, msg: Seq<char>) -> bool {
    &&& post.scroll_offset == 0
    &&& post.message_input == pre.message_input
    &&& post.compose_scroll_offset == pre.compose_scroll_offset
    &&& post.current_login_field == pre.current_login_field
    &&& post.is_typing == pre.is_typing
    &&& post.servers == pre.servers
    &&& post.selected_server == pre.selected_server
    &&& post.selected_server_index == pre.selected_server_index
    &&& post.password == pre.password
    &&& post.staging_username == pre.staging_username
    &&& match spec_decode(msg) {
        Some(Envelope::ChatMessage { sender, content }) => {
            &&& post.messages.deep_view() == pre.messages.deep_view().push(
                Envelope::ChatMessage { sender, content },
            )
            &&& post.current_screen == pre.current_screen
            &&& post.failed_login_attempts == pre.failed_login_attempts
            &&& post.username == pre.username
        },
        Some(Envelope::SystemMessage { text }) => {
            if spec_contains(text, "Authentication successful"@) {
                &&& post.messages.deep_view() == pre.messages.deep_view().push(
                    crate::commander::sysmsg(you_are_authenticated_text()),
                )
                &&& post.current_screen is Main
                &&& post.failed_login_attempts == 0
                &&& (match pre.staging_username {
                    Some(u) => post.username matches Some(v) && v@ == u@,
                    None => post.username is None,
                })
            } else if spec_contains(text, "Authentication failed"@) {
                let nf = if pre.failed_login_attempts < 5 {
                    (pre.failed_login_attempts + 1) as u8
                } else {
                    pre.failed_login_attempts
                };
                let remaining = if nf <= 5 {
                    (5 - nf) as u8
                } else {
                    0u8
                };
                &&& post.failed_login_attempts == nf
                &&& post.username == pre.username
                &&& (nf >= 5 ==> post.current_screen is Disconnected
                    && post.messages.deep_view() == pre.messages.deep_view().push(
                    crate::commander::sysmsg(client_auth_failed_text(remaining)),
                ).push(crate::commander::sysmsg(client_lockout_text())))
                &&& (nf < 5 ==> post.current_screen is LoggingIn
                    && post.messages.deep_view() == pre.messages.deep_view().push(
                    crate::commander::sysmsg(client_auth_failed_text(remaining)),
                ))
            } else {
                &&& post.messages.deep_view() == pre.messages.deep_view().push(
                    Envelope::SystemMessage { text },
                )
                &&& post.current_screen == pre.current_screen
                &&& post.failed_login_attempts == pre.failed_login_attempts
                &&& post.username == pre.username
            }
        },
        Some(Envelope::Command { .. }) => {
            &&& post.messages == pre.messages
            &&& post.current_screen == pre.current_screen
            &&& post.failed_login_attempts == pre.failed_login_attempts
            &&& post.username == pre.username
        },
        None => {
            &&& post.messages.deep_view() == pre.messages.deep_view().push(
                Envelope::SystemMessage { text: msg },
            )
            &&& post.current_screen == pre.current_screen
            &&& post.failed_login_attempts == pre.failed_login_attempts
            &&& post.username == pre.username
        },
    }
}

} // verus!
