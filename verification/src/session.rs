//! Per-connection session logic: the credential handshake, the reader's
//! dispatch of decoded envelopes and transport frames, the keep-alive state
//! machine, and the single-shot teardown path.

use vstd::prelude::*;
use vstd::string::*;

use crate::app::{cred_ok, enqueued, has_id, index_of_id, lemma_index_of_id_unique, App};
use crate::commander::{handle_command, sysmsg};
use crate::envelope::{Envelope, MessageType};
use crate::router::fan_out;
use crate::text::{clone_str, find_char};

verus! {

/// Index of the first colon, or `-1` when there is none: the separator of
/// the credential payload is the first colon, so passwords may contain
/// colons.
pub open spec fn colon_index(s: Seq<char>) -> int {
    if exists|i: int|
        0 <= i < s.len() && s[i] == ':' && (forall|j: int| 0 <= j < i ==> s[j] != ':') {
        choose|i: int|
            0 <= i < s.len() && s[i] == ':' && (forall|j: int| 0 <= j < i ==> s[j] != ':')
    } else {
        -1
    }
}

/// The username part of a credential payload: everything before the first
/// colon, or the whole payload when there is none.
pub open spec fn cred_username(s: Seq<char>) -> Seq<char> {
    if colon_index(s) >= 0 {
        s.subrange(0, colon_index(s))
    } else {
        s
    }
}

/// The password part of a credential payload: everything after the first
/// colon, or empty when there is none.
pub open spec fn cred_password(s: Seq<char>) -> Seq<char> {
    if colon_index(s) >= 0 {
        s.subrange(colon_index(s) + 1, s.len() as int)
    } else {
        Seq::empty()
    }
}

/// Whether this payload authenticates against the store.
pub open spec fn auth_ok(creds: Seq<crate::app::UserCredentials>, payload: Seq<char>) -> bool {
    cred_ok(creds, cred_username(payload), cred_password(payload))
}

pub open spec fn auth_success_text() -> Seq<char> {
    "Authentication successful"@
}

/// The failure reply for a given number of remaining attempts.
pub open spec fn auth_failed_text(left: u8) -> Seq<char> {
    if left == 4 {
        "Authentication failed. 4 attempts remaining."@
    } else if left == 3 {
        "Authentication failed. 3 attempts remaining."@
    } else if left == 2 {
        "Authentication failed. 2 attempts remaining."@
    } else if left == 1 {
        "Authentication failed. 1 attempts remaining."@
    } else {
        "Authentication failed. 0 attempts remaining."@
    }
}

pub open spec fn lockout_text() -> Seq<char> {
    "Max login attempts reached. Connection closed."@
}

pub open spec fn disconnected_text(username: Seq<char>) -> Seq<char> {
    username + " has disconnected."@
}

/// What the handshake decided; the runtime shell acts on it.
#[derive(Debug, PartialEq)]
pub enum AuthOutcome {
    /// Credentials accepted: the session is active and its queue now ends
    /// with the success reply followed by the history replay.
    Accepted,
    /// Credentials rejected; this many attempts remain.
    Rejected { attempts_left: u8 },
    /// Fifth failure: the session was removed from the registry and the
    /// transport must be closed after these final envelopes are written.
    LockedOut { farewell: Vec<MessageType> },
    /// No such session, or the session is already authenticated.
    Ignored,
}

/// Splits a credential payload at its first colon.
fn split_credentials(payload: &str) -> (r: (String, String))
    ensures
        r.0@ == cred_username(payload@),
        r.1@ == cred_password(payload@),
{
    let n = payload.unicode_len();
    let found = find_char(payload, ':');
    match found {
        Some(i) => {
            proof {
                lemma_colon_index(payload@, i as int);
            }
            let u = payload.substring_char(0, i);
            let p = payload.substring_char(i + 1, n);
            (clone_str(u), clone_str(p))
        },
        None => {
            proof {
                assert(colon_index(payload@) == -1) by {
                    if exists|i: int|
                        0 <= i < payload@.len() && payload@[i] == ':' && (forall|j: int|
                            0 <= j < i ==> payload@[j] != ':') {
                        let w = choose|i: int|
                            0 <= i < payload@.len() && payload@[i] == ':' && (forall|j: int|
                                0 <= j < i ==> payload@[j] != ':');
                        assert(payload@[w] != ':');
                    }
                }
            }
            (clone_str(payload), String::new())
        },
    }
}

/// Full effect of one handshake step: `pre` is the server state before,
/// `post` the state after, `r` what the shell is told.  On success the
/// session becomes authenticated under the credential's username, its
/// failure counter resets, and its queue receives the success reply
/// followed by a replay of the whole message history.  On failure the
/// counter rises and the session is told how many attempts remain; the
/// fifth failure removes the session from the registry and hands back
/// the envelopes still owed to the dying transport.
pub open spec fn auth_effect(
    pre: App,
    post: App,
    session_id: Seq<char>,
    pay: Seq<char>,
    r: AuthOutcome,
) -> bool {
    &&& post.credentials@ == pre.credentials@
    &&& post.history@ == pre.history@
    &&& ({
            let s = pre.sessions@;
            let f = post.sessions@;
            let k = index_of_id(s, session_id);
            if !has_id(s, session_id) {
                f == s && r is Ignored
            } else if s[k].authenticated {
                f == s && r is Ignored
            } else if auth_ok(pre.credentials@, pay) {
                &&& r is Accepted
                &&& f.len() == s.len()
                &&& forall|j: int| 0 <= j < s.len() && j != k ==> f[j] == s[j]
                &&& f[k].id@ == s[k].id@
                &&& f[k].info.username@ == cred_username(pay)
                &&& f[k].info.connection_time == s[k].info.connection_time
                &&& f[k].info.message_count == s[k].info.message_count
                &&& f[k].authenticated == true
                &&& f[k].failures == 0
                &&& f[k].outbound.deep_view() == s[k].outbound.deep_view().push(
                    sysmsg(auth_success_text()),
                ) + pre.history@
            } else if s[k].failures < 4 {
                let left = (4 - s[k].failures) as u8;
                &&& r == AuthOutcome::Rejected { attempts_left: left }
                &&& f.len() == s.len()
                &&& forall|j: int| 0 <= j < s.len() && j != k ==> f[j] == s[j]
                &&& f[k].id@ == s[k].id@
                &&& f[k].info.username@ == s[k].info.username@
                &&& f[k].info.connection_time == s[k].info.connection_time
                &&& f[k].info.message_count == s[k].info.message_count
                &&& f[k].authenticated == false
                &&& f[k].failures == s[k].failures + 1
                &&& f[k].outbound.deep_view() == s[k].outbound.deep_view().push(
                    sysmsg(auth_failed_text(left)),
                )
            } else {
                &&& r is LockedOut
                &&& r->farewell.deep_view() == s[k].outbound.deep_view().push(
                    sysmsg(auth_failed_text(0)),
                ).push(sysmsg(lockout_text()))
                &&& f == s.remove(k)
                &&& !has_id(f, session_id)
            }
    })
}

/// Runs the credential handshake for one inbound `SystemMessage` payload
/// of the form `username:password` (the first colon separates, so the
/// password may itself contain colons); see [`auth_effect`] for the exact
/// state change.
#[verifier::rlimit(60)]
pub fn handle_auth_frame(app: &mut App, session_id: &str, payload: &str) -> (r: AuthOutcome)
    requires
        old(app).wf(),
    ensures
        final(app).wf(),
        auth_effect(*old(app), *final(app), session_id@, payload@, r),
{
    let ghost s = app.sessions@;
    let search = app.find_session_index(session_id);
    let sk: usize;
    match search {
        Some(k) => {
            sk = k;
        },
        None => {
            return AuthOutcome::Ignored;
        },
    }
    proof {
        lemma_index_of_id_unique(s, session_id@, sk as int);
    }
    if app.sessions[sk].authenticated {
        return AuthOutcome::Ignored;
    }
    let creds = split_credentials(payload);
    let authed = app.authenticate_user(creds.0.as_str(), creds.1.as_str());
    if authed {
        let mut h = app.sessions.remove(sk);
        let ghost base = h.outbound.deep_view();
        h.info.username = creds.0;
        h.authenticated = true;
        h.failures = 0;
        h.outbound.push(MessageType::SystemMessage(clone_str("Authentication successful")));
        proof {
            assert(h.outbound.deep_view() =~= base.push(sysmsg(auth_success_text())));
        }
        let ghost base2 = h.outbound.deep_view();
        let replay = app.history.snapshot();
        let rn = replay.len();
        let mut i: usize = 0;
        proof {
            assert(h.outbound.deep_view() =~= base2 + replay.deep_view().subrange(0, 0));
        }
        while i < rn
            invariant
                rn == replay@.len(),
                i <= rn,
                replay.deep_view() == app.history@,
                s == old(app).sessions@,
                sk < s.len(),
                app.sessions@ == s.remove(sk as int),
                app.credentials@ == old(app).credentials@,
                app.history@ == old(app).history@,
                old(app).wf(),
                h.id == s[sk as int].id,
                h.info.username@ == cred_username(payload@),
                h.info.connection_time == s[sk as int].info.connection_time,
                h.info.message_count == s[sk as int].info.message_count,
                h.authenticated == true,
                h.failures == 0,
                h.outbound@.len() == base2.len() + i,
                h.outbound.deep_view() == base2 + replay.deep_view().subrange(0, i as int),
            decreases rn - i,
        {
            let item = replay[i].clone();
            proof {
                assert(item@ == replay.deep_view()[i as int]);
            }
            let ghost pre_ob = h.outbound@;
            let ghost pre_dv = h.outbound.deep_view();
            h.outbound.push(item);
            i += 1;
            proof {
                let dv = replay.deep_view();
                let rhs = base2 + dv.subrange(0, i as int);
                assert(h.outbound@ == pre_ob.push(item));
                assert(pre_dv == base2 + dv.subrange(0, i - 1));
                assert(pre_dv.len() == pre_ob.len());
                assert forall|m: int|
                    0 <= m < h.outbound@.len() implies h.outbound.deep_view()[m] == rhs[m] by {
                    assert(h.outbound.deep_view()[m] == h.outbound@[m]@);
                    if m < pre_ob.len() {
                        assert(h.outbound@[m] == pre_ob[m]);
                        assert(pre_dv[m] == pre_ob[m]@);
                        assert(rhs[m] == pre_dv[m]);
                    } else {
                        assert(h.outbound@[m] == item);
                        assert(rhs[m] == dv[i - 1]);
                    }
                }
                assert(h.outbound.deep_view() =~= rhs);
            }
        }
        proof {
            assert(replay.deep_view().subrange(0, rn as int) =~= replay.deep_view());
            assert(h.outbound.deep_view() =~= base.push(sysmsg(auth_success_text()))
                + app.history@);
        }
        let ghost newh = h;
        app.sessions.insert(sk, h);
        proof {
            assert(app.sessions@ =~= s.update(sk as int, newh));
            assert forall|i2: int, j2: int|
                0 <= i2 < j2 < app.sessions@.len() implies app.sessions@[i2].id@
                != app.sessions@[j2].id@ by {
                assert(s[i2].id@ != s[j2].id@);
            }
        }
        AuthOutcome::Accepted
    } else {
        let mut h = app.sessions.remove(sk);
        let ghost base = h.outbound.deep_view();
        if h.failures < 4 {
            let left: u8 = 4 - h.failures;
            h.failures = h.failures + 1;
            let reply: &str = if left == 4 {
                "Authentication failed. 4 attempts remaining."
            } else if left == 3 {
                "Authentication failed. 3 attempts remaining."
            } else if left == 2 {
                "Authentication failed. 2 attempts remaining."
            } else {
                "Authentication failed. 1 attempts remaining."
            };
            h.outbound.push(MessageType::SystemMessage(clone_str(reply)));
            proof {
                assert(h.outbound.deep_view() =~= base.push(sysmsg(auth_failed_text(left))));
            }
            let ghost newh = h;
            app.sessions.insert(sk, h);
            proof {
                assert(app.sessions@ =~= s.update(sk as int, newh));
                assert forall|i2: int, j2: int|
                    0 <= i2 < j2 < app.sessions@.len() implies app.sessions@[i2].id@
                    != app.sessions@[j2].id@ by {
                    assert(s[i2].id@ != s[j2].id@);
                }
            }
            AuthOutcome::Rejected { attempts_left: left }
        } else {
            let mut farewell = h.outbound;
            farewell.push(
                MessageType::SystemMessage(
                    clone_str("Authentication failed. 0 attempts remaining."),
                ),
            );
            farewell.push(
                MessageType::SystemMessage(
                    clone_str("Max login attempts reached. Connection closed."),
                ),
            );
            proof {
                assert(farewell.deep_view() =~= base.push(sysmsg(auth_failed_text(0))).push(
                    sysmsg(lockout_text()),
                ));
                assert forall|i2: int, j2: int|
                    0 <= i2 < j2 < app.sessions@.len() implies app.sessions@[i2].id@
                    != app.sessions@[j2].id@ by {
                    let pi: int = if i2 < sk as int {
                        i2
                    } else {
                        i2 + 1
                    };
                    let pj: int = if j2 < sk as int {
                        j2
                    } else {
                        j2 + 1
                    };
                    assert(s[pi].id@ != s[pj].id@);
                }
                assert forall|i2: int|
                    0 <= i2 < app.sessions@.len() implies (#[trigger] app.sessions@[i2]).id@
                    != session_id@ by {
                    let pi: int = if i2 < sk as int {
                        i2
                    } else {
                        i2 + 1
                    };
                    if pi < sk as int {
                        assert(s[pi].id@ != s[sk as int].id@);
                    } else {
                        assert(s[sk as int].id@ != s[pi].id@);
                    }
                }
            }
            AuthOutcome::LockedOut { farewell }
        }
    }
}

/// The single teardown path.  The first call for a live session removes it
/// from the registry and announces the departure to every remaining
/// session; any further call for the same id finds no session and changes
/// nothing, so at most one teardown ever completes per session.  Returns
/// whether this call performed the removal.
/// Full effect of the teardown path: `pre` the state before, `post` the
/// state after, `removed` whether this call did the removal.
pub open spec fn disconnect_effect(pre: App, post: App, client_id: Seq<char>, removed: bool) -> bool {
    &&& post.credentials@ == pre.credentials@
    &&& post.history@ == pre.history@
    &&& removed == has_id(pre.sessions@, client_id)
    &&& !has_id(post.sessions@, client_id)
    &&& (!removed ==> post.sessions@ == pre.sessions@)
    &&& (removed ==> ({
        let s = pre.sessions@;
        let f = post.sessions@;
        let k = index_of_id(s, client_id);
        let dmsg = sysmsg(disconnected_text(s[k].info.username@));
        &&& f.len() == s.len() - 1
        &&& forall|j: int| 0 <= j < k ==> enqueued(s[j], f[j], dmsg)
        &&& forall|j: int| k <= j < f.len() ==> enqueued(s[j + 1], f[j], dmsg)
    }))
}

pub fn handle_disconnection(app: &mut App, client_id: &str) -> (removed: bool)
    requires
        old(app).wf(),
    ensures
        final(app).wf(),
        disconnect_effect(*old(app), *final(app), client_id@, removed),
{
    let ghost s = app.sessions@;
    let search = app.find_session_index(client_id);
    let sk: usize;
    match search {
        Some(k) => {
            sk = k;
        },
        None => {
            return false;
        },
    }
    proof {
        lemma_index_of_id_unique(s, client_id@, sk as int);
    }
    let h = app.sessions.remove(sk);
    proof {
        assert forall|i2: int, j2: int|
            0 <= i2 < j2 < app.sessions@.len() implies app.sessions@[i2].id@
            != app.sessions@[j2].id@ by {
            let pi: int = if i2 < sk as int {
                i2
            } else {
                i2 + 1
            };
            let pj: int = if j2 < sk as int {
                j2
            } else {
                j2 + 1
            };
            assert(s[pi].id@ != s[pj].id@);
        }
    }
    let mut t = clone_str(h.info.username.as_str());
    t.append(" has disconnected.");
    proof {
        assert(t@ =~= disconnected_text(s[sk as int].info.username@));
    }
    let dmsg = MessageType::SystemMessage(t);
    fan_out(app, &dmsg);
    proof {
        let f = app.sessions@;
        let mid = s.remove(sk as int);
        assert forall|j: int| 0 <= j < sk as int implies enqueued(
            s[j],
            f[j],
            sysmsg(disconnected_text(s[sk as int].info.username@)),
        ) by {
            assert(mid[j] == s[j]);
            assert(enqueued(mid[j], f[j], dmsg@));
        }
        assert forall|j: int| sk as int <= j < f.len() implies enqueued(
            s[j + 1],
            f[j],
            sysmsg(disconnected_text(s[sk as int].info.username@)),
        ) by {
            assert(mid[j] == s[j + 1]);
            assert(enqueued(mid[j], f[j], dmsg@));
        }
        assert forall|i2: int|
            0 <= i2 < app.sessions@.len() implies (#[trigger] app.sessions@[i2]).id@
            != client_id@ by {
            let pi: int = if i2 < sk as int {
                i2
            } else {
                i2 + 1
            };
            assert(enqueued(mid[i2], app.sessions@[i2], dmsg@));
            assert(app.sessions@[i2].id@ == s[pi].id@);
            if pi < sk as int {
                assert(s[pi].id@ != s[sk as int].id@);
            } else {
                assert(s[sk as int].id@ != s[pi].id@);
            }
        }
    }
    true
}

/// State of the keep-alive task: whether a probe is outstanding.
#[derive(Clone, Copy, Debug, PartialEq)]
pub struct KeeperState {
    pub awaiting_pong: bool,
}

/// What the keep-alive task observed: its interval fired, the reader
/// delivered a pong, or the wait for a pong ran out.
pub enum KeeperEvent {
    IntervalElapsed,
    PongArrived,
    PongTimedOut,
}

/// What the keep-alive task must do next.
#[derive(Debug, PartialEq)]
pub enum KeeperAction {
    /// Send a ping with an empty payload and start waiting for the pong.
    SendPing,
    /// Nothing to do; keep waiting.
    Wait,
    /// The peer is unresponsive: run the teardown path.
    Disconnect,
}

/// One step of the keep-alive protocol.  A ping goes out on every interval
/// tick; a pong settles the outstanding probe; a timeout with a probe
/// outstanding condemns the session, and a stale timeout is ignored.
pub fn keeper_step(state: KeeperState, event: &KeeperEvent) -> (r: (KeeperState, KeeperAction))
    ensures
        event is IntervalElapsed ==> r.0.awaiting_pong == true && r.1 is SendPing,
        event is PongArrived ==> r.0.awaiting_pong == false && r.1 is Wait,
        event is PongTimedOut && state.awaiting_pong ==> r.0.awaiting_pong
            == state.awaiting_pong && r.1 is Disconnect,
        event is PongTimedOut && !state.awaiting_pong ==> r.0.awaiting_pong
            == state.awaiting_pong && r.1 is Wait,
{
    match event {
        KeeperEvent::IntervalElapsed => (KeeperState { awaiting_pong: true }, KeeperAction::SendPing),
        KeeperEvent::PongArrived => (KeeperState { awaiting_pong: false }, KeeperAction::Wait),
        KeeperEvent::PongTimedOut => {
            if state.awaiting_pong {
                (state, KeeperAction::Disconnect)
            } else {
                (state, KeeperAction::Wait)
            }
        },
    }
}

/// Full effect of dispatching one decoded envelope.  A chat message from
/// an active session is stamped with the session's current username
/// (whatever sender the client claimed), recorded in the history, counted,
/// and fanned out to every connected session.  A command goes to the
/// dispatcher.  A system message is the credential carrier while the
/// session is unauthenticated and is discarded afterwards.  Envelopes
/// other than system messages are discarded while the session is
/// unauthenticated, as is everything from an unknown session id.
pub open spec fn incoming_effect(
    pre: App,
    post: App,
    client_id: Seq<char>,
    msg: Envelope,
    r: AuthOutcome,
) -> bool {
    &&& post.credentials@ == pre.credentials@
    &&& (!has_id(pre.sessions@, client_id) ==> post == pre && r is Ignored)
    &&& (has_id(pre.sessions@, client_id) ==> ({
        let s = pre.sessions@;
        let f = post.sessions@;
        let k = index_of_id(s, client_id);
        match msg {
            Envelope::ChatMessage { sender: _, content } => {
                if s[k].authenticated {
                    let bm = Envelope::ChatMessage { sender: s[k].info.username@, content };
                    &&& r is Ignored
                    &&& f.len() == s.len()
                    &&& forall|j: int| 0 <= j < s.len() && j != k ==> enqueued(s[j], f[j], bm)
                    &&& f[k].id@ == s[k].id@
                    &&& f[k].info.username@ == s[k].info.username@
                    &&& f[k].info.connection_time == s[k].info.connection_time
                    &&& f[k].info.message_count == (if s[k].info.message_count < usize::MAX {
                        s[k].info.message_count + 1
                    } else {
                        s[k].info.message_count as int
                    })
                    &&& f[k].authenticated == s[k].authenticated
                    &&& f[k].failures == s[k].failures
                    &&& f[k].outbound.deep_view() == s[k].outbound.deep_view().push(bm)
                    &&& (pre.history@.len() < crate::history::HISTORY_CAPACITY
                        ==> post.history@ == pre.history@.push(bm))
                    &&& (pre.history@.len() == crate::history::HISTORY_CAPACITY
                        ==> post.history@ == pre.history@.subrange(
                        1,
                        crate::history::HISTORY_CAPACITY as int,
                    ).push(bm))
                } else {
                    post == pre && r is Ignored
                }
            },
            Envelope::Command { name, args } => {
                if s[k].authenticated {
                    r is Ignored && crate::commander::command_effect(
                        name,
                        args,
                        client_id,
                        pre,
                        post,
                    )
                } else {
                    post == pre && r is Ignored
                }
            },
            Envelope::SystemMessage { text } => {
                if !s[k].authenticated {
                    auth_effect(pre, post, client_id, text, r)
                } else {
                    post == pre && r is Ignored
                }
            },
        }
    }))
}

/// Dispatches one decoded envelope from the session's reader; see
/// [`incoming_effect`] for the exact state change.
#[verifier::rlimit(60)]
pub fn handle_incoming_message(app: &mut App, client_id: &str, message: MessageType) -> (r:
    AuthOutcome)
    requires
        old(app).wf(),
    ensures
        final(app).wf(),
        incoming_effect(*old(app), *final(app), client_id@, message@, r),
{
    let ghost s = app.sessions@;
    let search = app.find_session_index(client_id);
    let sk: usize;
    match search {
        Some(k) => {
            sk = k;
        },
        None => {
            return AuthOutcome::Ignored;
        },
    }
    proof {
        lemma_index_of_id_unique(s, client_id@, sk as int);
    }
    let authed = app.sessions[sk].authenticated;
    match message {
        MessageType::ChatMessage { sender: _, content } => {
            if !authed {
                return AuthOutcome::Ignored;
            }
            let uname = clone_str(app.sessions[sk].info.username.as_str());
            let bm = MessageType::ChatMessage { sender: uname, content };
            app.add_message_to_history(bm.clone());
            let mut h = app.sessions.remove(sk);
            let c = h.info.message_count;
            h.info.message_count = if c < usize::MAX {
                c + 1
            } else {
                c
            };
            let ghost newh = h;
            app.sessions.insert(sk, h);
            proof {
                assert(app.sessions@ =~= s.update(sk as int, newh));
                assert forall|i2: int, j2: int|
                    0 <= i2 < j2 < app.sessions@.len() implies app.sessions@[i2].id@
                    != app.sessions@[j2].id@ by {
                    assert(s[i2].id@ != s[j2].id@);
                }
            }
            fan_out(app, &bm);
            AuthOutcome::Ignored
        },
        MessageType::Command { name, args } => {
            if !authed {
                return AuthOutcome::Ignored;
            }
            handle_command(name.as_str(), &args, client_id, app);
            AuthOutcome::Ignored
        },
        MessageType::SystemMessage(text) => {
            if !authed {
                handle_auth_frame(app, client_id, text.as_str())
            } else {
                AuthOutcome::Ignored
            }
        },
    }
}

/// One discrete frame as the transport delivers it.
pub enum Frame {
    Text(String),
    Binary(Vec<u8>),
    Ping(Vec<u8>),
    Pong(Vec<u8>),
    Close,
}

/// What the reader decided about one frame; the runtime shell acts on it.
#[derive(Debug, PartialEq)]
pub enum FrameAction {
    /// Echo a pong with exactly this payload.
    ReplyPong(Vec<u8>),
    /// Hand the pong to the keep-alive task.
    NotifyKeeper,
    /// The text frame carried an envelope, now dispatched.
    Dispatched(AuthOutcome),
    /// The text frame did not parse: logged and discarded, the session
    /// continues.
    DiscardMalformed,
    /// A binary frame: accepted and ignored.
    DiscardBinary,
    /// A close frame: the teardown path ran; the flag says whether this
    /// call performed the removal.
    TornDown(bool),
}

/// The reader's treatment of one transport frame.  Text frames are decoded
/// and dispatched (malformed ones are discarded and the session lives on),
/// binary frames are ignored, pings are echoed with the identical payload,
/// pongs go to the keeper, and a close frame triggers teardown.
pub fn handle_frame(app: &mut App, client_id: &str, frame: Frame) -> (r: FrameAction)
    requires
        old(app).wf(),
    ensures
        final(app).wf(),
        match frame {
            Frame::Text(t) => match crate::codec::spec_decode(t@) {
                Some(m) => r matches FrameAction::Dispatched(o) && incoming_effect(
                    *old(app),
                    *final(app),
                    client_id@,
                    m,
                    o,
                ),
                None => r is DiscardMalformed && *final(app) == *old(app),
            },
            Frame::Binary(_) => r is DiscardBinary && *final(app) == *old(app),
            Frame::Ping(p) => (r matches FrameAction::ReplyPong(q) && q@ == p@) && *final(app)
                == *old(app),
            Frame::Pong(_) => r is NotifyKeeper && *final(app) == *old(app),
            Frame::Close => r matches FrameAction::TornDown(removed) && disconnect_effect(
                *old(app),
                *final(app),
                client_id@,
                removed,
            ),
        },
{
    match frame {
        Frame::Text(t) => {
            let decoded = crate::codec::decode(t.as_str());
            match decoded {
                Ok(m) => {
                    let outcome = handle_incoming_message(app, client_id, m);
                    FrameAction::Dispatched(outcome)
                },
                Err(_) => FrameAction::DiscardMalformed,
            }
        },
        Frame::Binary(_) => FrameAction::DiscardBinary,
        Frame::Ping(p) => FrameAction::ReplyPong(p),
        Frame::Pong(_) => FrameAction::NotifyKeeper,
        Frame::Close => {
            let removed = handle_disconnection(app, client_id);
            FrameAction::TornDown(removed)
        },
    }
}

/// A position that holds a colon with none before it is the position that
/// `colon_index` denotes.
pub proof fn lemma_colon_index(s: Seq<char>, i: int)
    requires
        0 <= i < s.len(),
        s[i] == ':',
        forall|j: int| 0 <= j < i ==> s[j] != ':',
    ensures
        colon_index(s) == i,
{
    assert(0 <= i < s.len() && s[i] == ':' && (forall|j: int| 0 <= j < i ==> s[j] != ':'));
    let c = choose|k: int|
        0 <= k < s.len() && s[k] == ':' && (forall|j: int| 0 <= j < k ==> s[j] != ':');
    if c < i {
        assert(s[c] != ':');
    } else if i < c {
        assert(s[i] != ':');
    }
}

} // verus!
