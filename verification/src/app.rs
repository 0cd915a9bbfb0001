//! Server state: the credential store, the registry of connected sessions
//! and the shared message history.
//!
//! Each connected client is one [`SessionHandle`].  The handle's `outbound`
//! vector models the per-session FIFO queue that the writer task drains to
//! the transport: routing functions append envelopes here, and the runtime
//! shell forwards them in order.

use vstd::prelude::*;
use vstd::string::*;

use crate::envelope::{Envelope, MessageType};
use crate::history::MessageHistory;
use crate::text::str_eq;

verus! {

/// A session is closed after this many failed authentications.
pub const MAX_AUTH_ATTEMPTS: u8 = 5;

/// One record of the credential store.
pub struct UserCredentials {
    pub username: String,
    pub password: String,
}

/// Per-session user data, visible to the command dispatcher.
pub struct UserInfo {
    pub username: String,
    /// Stamp of the moment the connection was accepted, in milliseconds.
    /// The wall clock lives in the runtime shell, which sets this field;
    /// constructors start it at zero and no routing logic reads it.
    pub connection_time: u64,
    pub message_count: usize,
}

impl UserInfo {
    pub fn new() -> (u: UserInfo)
        ensures
            u.username@ == "username"@,
            u.connection_time == 0,
            u.message_count == 0,
    {
        UserInfo { username: String::from_str("username"), connection_time: 0, message_count: 0 }
    }
}

/// Per-connection record held by the registry.
pub struct SessionHandle {
    /// Opaque process-unique connection identifier.
    pub id: String,
    pub info: UserInfo,
    /// Whether the credential handshake has completed successfully.
    pub authenticated: bool,
    /// Failed authentication attempts so far, at most `MAX_AUTH_ATTEMPTS`.
    pub failures: u8,
    /// Model of the outbound queue: the writer task sends these envelopes
    /// to the transport in order.
    pub outbound: Vec<MessageType>,
}

/// The two handles agree on everything but their outbound queues.
pub open spec fn same_identity(a: SessionHandle, b: SessionHandle) -> bool {
    &&& a.id@ == b.id@
    &&& a.info.username@ == b.info.username@
    &&& a.info.connection_time == b.info.connection_time
    &&& a.info.message_count == b.info.message_count
    &&& a.authenticated == b.authenticated
    &&& a.failures == b.failures
}

/// `b` is `a` with `e` appended to its outbound queue.
pub open spec fn enqueued(a: SessionHandle, b: SessionHandle, e: Envelope) -> bool {
    &&& same_identity(a, b)
    &&& b.outbound.deep_view() == a.outbound.deep_view().push(e)
}

/// Connection identifiers are never reused, so the registry holds at most
/// one handle per id.
pub open spec fn ids_unique(s: Seq<SessionHandle>) -> bool {
    forall|i: int, j: int| 0 <= i < j < s.len() ==> s[i].id@ != s[j].id@
}

pub open spec fn has_id(s: Seq<SessionHandle>, id: Seq<char>) -> bool {
    exists|i: int| 0 <= i < s.len() && s[i].id@ == id
}

/// Index of the handle with the given id; meaningful under `ids_unique`.
pub open spec fn index_of_id(s: Seq<SessionHandle>, id: Seq<char>) -> int {
    if has_id(s, id) {
        choose|i: int| 0 <= i < s.len() && s[i].id@ == id
    } else {
        -1
    }
}

/// Credential store lookup: non-empty username and password that match a
/// seeded record.
pub open spec fn cred_ok(creds: Seq<UserCredentials>, u: Seq<char>, p: Seq<char>) -> bool {
    &&& u.len() > 0
    &&& p.len() > 0
    &&& exists|i: int| 0 <= i < creds.len() && creds[i].username@ == u && creds[i].password@ == p
}

pub open spec fn cred_names_unique(creds: Seq<UserCredentials>) -> bool {
    forall|i: int, j: int| 0 <= i < j < creds.len() ==> creds[i].username@ != creds[j].username@
}

pub open spec fn has_cred_name(creds: Seq<UserCredentials>, u: Seq<char>) -> bool {
    exists|i: int| 0 <= i < creds.len() && (#[trigger] creds[i]).username@ == u
}

/// Server state: seeded credentials, connected sessions, shared history.
pub struct App {
    pub credentials: Vec<UserCredentials>,
    pub sessions: Vec<SessionHandle>,
    pub history: MessageHistory,
}

impl App {
    /// Well-formedness: unique connection ids, unique credential names,
    /// bounded history, bounded failure counters.
    pub open spec fn wf(&self) -> bool {
        &&& ids_unique(self.sessions@)
        &&& cred_names_unique(self.credentials@)
        &&& self.history.wf()
        &&& forall|i: int|
            0 <= i < self.sessions@.len() ==> (#[trigger] self.sessions@[i]).failures
                <= MAX_AUTH_ATTEMPTS
    }

    /// Fresh server state with the built-in demonstration credentials.
    pub fn new() -> (app: App)
        ensures
            app.wf(),
            app.sessions@.len() == 0,
            app.history@.len() == 0,
            app.credentials@.len() == 2,
            app.credentials@[0].username@ == "user1"@,
            app.credentials@[0].password@ == "password1"@,
            app.credentials@[1].username@ == "user2"@,
            app.credentials@[1].password@ == "password2"@,
    {
        let mut credentials: Vec<UserCredentials> = Vec::new();
        credentials.push(
            UserCredentials {
                username: String::from_str("user1"),
                password: String::from_str("password1"),
            },
        );
        credentials.push(
            UserCredentials {
                username: String::from_str("user2"),
                password: String::from_str("password2"),
            },
        );
        proof {
            reveal_strlit("user1");
            reveal_strlit("user2");
            assert("user1"@[4] == '1' && "user2"@[4] == '2');
            assert(credentials@[0].username@ != credentials@[1].username@);
        }
        App { credentials, sessions: Vec::new(), history: MessageHistory::new() }
    }

    /// Index of the credential record with this username, if any.
    fn find_cred_index(&self, username: &str) -> (r: Option<usize>)
        ensures
            match r {
                Some(k) => k < self.credentials@.len() && self.credentials@[k as int].username@
                    == username@,
                None => !has_cred_name(self.credentials@, username@),
            },
    {
        let n = self.credentials.len();
        let mut k: usize = 0;
        while k < n
            invariant
                n == self.credentials@.len(),
                k <= n,
                forall|j: int|
                    0 <= j < k ==> (#[trigger] self.credentials@[j]).username@ != username@,
            decreases n - k,
        {
            if str_eq(self.credentials[k].username.as_str(), username) {
                return Some(k);
            }
            k += 1;
        }
        None
    }

    /// Adds or replaces one credential record, keyed by username.
    pub fn seed_credential(&mut self, username: String, password: String)
        requires
            old(self).wf(),
        ensures
            final(self).wf(),
            final(self).sessions@ == old(self).sessions@,
            final(self).history@ == old(self).history@,
            has_cred_name(old(self).credentials@, username@) ==> {
                &&& final(self).credentials@.len() == old(self).credentials@.len()
                &&& forall|j: int|
                    0 <= j < old(self).credentials@.len()
                        && (#[trigger] old(self).credentials@[j]).username@ != username@
                        ==> final(self).credentials@[j] == old(self).credentials@[j]
            },
            !has_cred_name(old(self).credentials@, username@) ==> {
                &&& final(self).credentials@.len() == old(self).credentials@.len() + 1
                &&& forall|j: int|
                    0 <= j < old(self).credentials@.len()
                        ==> final(self).credentials@[j] == old(self).credentials@[j]
            },
            exists|j: int|
                0 <= j < final(self).credentials@.len()
                    && (#[trigger] final(self).credentials@[j]).username@ == username@
                    && final(self).credentials@[j].password@ == password@,
    {
        let ghost pre = self.credentials@;
        let search = self.find_cred_index(username.as_str());
        if let Some(k) = search {
            let mut rec = self.credentials.remove(k);
            rec.username = username;
            rec.password = password;
            let ghost newrec = rec;
            self.credentials.insert(k, rec);
            proof {
                assert(self.credentials@ =~= pre.update(k as int, newrec));
                assert((#[trigger] self.credentials@[k as int]).username@ == username@);
            }
        } else {
            let ghost plen = self.credentials@.len() as int;
            self.credentials.push(UserCredentials { username, password });
            proof {
                assert((#[trigger] self.credentials@[plen]).username@ == username@);
            }
        }
    }

    /// Verifies a username and password against the store.  Unknown users,
    /// empty usernames and empty passwords all answer `false`.
    pub fn authenticate_user(&self, username: &str, password: &str) -> (r: bool)
        ensures
            r == cred_ok(self.credentials@, username@, password@),
    {
        if username.unicode_len() == 0 || password.unicode_len() == 0 {
            return false;
        }
        let n = self.credentials.len();
        let mut k: usize = 0;
        while k < n
            invariant
                n == self.credentials@.len(),
                k <= n,
                username@.len() > 0,
                password@.len() > 0,
                forall|j: int|
                    0 <= j < k ==> !((#[trigger] self.credentials@[j]).username@ == username@
                        && self.credentials@[j].password@ == password@),
            decreases n - k,
        {
            if str_eq(self.credentials[k].username.as_str(), username) && str_eq(
                self.credentials[k].password.as_str(),
                password,
            ) {
                proof {
                    assert((#[trigger] self.credentials@[k as int]).username@ == username@);
                }
                return true;
            }
            k += 1;
        }
        false
    }

    /// Index of the handle with this connection id, if any.
    pub(crate) fn find_session_index(&self, id: &str) -> (r: Option<usize>)
        ensures
            match r {
                Some(k) => k < self.sessions@.len() && self.sessions@[k as int].id@ == id@,
                None => !has_id(self.sessions@, id@),
            },
    {
        let n = self.sessions.len();
        let mut k: usize = 0;
        while k < n
            invariant
                n == self.sessions@.len(),
                k <= n,
                forall|j: int| 0 <= j < k ==> (#[trigger] self.sessions@[j]).id@ != id@,
            decreases n - k,
        {
            if str_eq(self.sessions[k].id.as_str(), id) {
                return Some(k);
            }
            k += 1;
        }
        None
    }

    /// Registers a connection under a fresh id; on an id collision (never
    /// expected, ids are unique) only the user data is replaced and the
    /// existing queue survives.
    pub fn add_connected_user(&mut self, user_id: String, username: String)
        requires
            old(self).wf(),
        ensures
            final(self).wf(),
            final(self).credentials@ == old(self).credentials@,
            final(self).history@ == old(self).history@,
            has_id(final(self).sessions@, user_id@),
            !has_id(old(self).sessions@, user_id@) ==> {
                &&& final(self).sessions@.len() == old(self).sessions@.len() + 1
                &&& forall|j: int|
                    0 <= j < old(self).sessions@.len() ==> final(self).sessions@[j] == old(
                        self,
                    ).sessions@[j]
                &&& final(self).sessions@.last().id@ == user_id@
                &&& final(self).sessions@.last().info.username@ == username@
                &&& final(self).sessions@.last().info.message_count == 0
                &&& final(self).sessions@.last().authenticated == false
                &&& final(self).sessions@.last().failures == 0
                &&& final(self).sessions@.last().outbound.deep_view() == Seq::<Envelope>::empty()
            },
            has_id(old(self).sessions@, user_id@) ==> {
                let k = index_of_id(old(self).sessions@, user_id@);
                &&& final(self).sessions@.len() == old(self).sessions@.len()
                &&& forall|j: int|
                    0 <= j < old(self).sessions@.len() && j != k ==> final(self).sessions@[j]
                        == old(self).sessions@[j]
                &&& final(self).sessions@[k].id@ == user_id@
                &&& final(self).sessions@[k].info.username@ == username@
                &&& final(self).sessions@[k].info.message_count == 0
                &&& final(self).sessions@[k].authenticated == old(self).sessions@[k].authenticated
                &&& final(self).sessions@[k].failures == old(self).sessions@[k].failures
                &&& final(self).sessions@[k].outbound.deep_view() == old(
                    self,
                ).sessions@[k].outbound.deep_view()
            },
    {
        let ghost pre = self.sessions@;
        let search = self.find_session_index(user_id.as_str());
        if let Some(k) = search {
            proof {
                lemma_index_of_id_unique(pre, user_id@, k as int);
            }
            let mut h = self.sessions.remove(k);
            h.info = UserInfo { username, connection_time: 0, message_count: 0 };
            let ghost newh = h;
            self.sessions.insert(k, h);
            proof {
                assert(self.sessions@ =~= pre.update(k as int, newh));
                assert(self.sessions@[k as int].id@ == user_id@);
                assert forall|i: int, j: int|
                    0 <= i < j < self.sessions@.len() implies self.sessions@[i].id@
                    != self.sessions@[j].id@ by {
                    assert(pre[i].id@ != pre[j].id@);
                }
            }
        } else {
            let handle = SessionHandle {
                id: user_id,
                info: UserInfo { username, connection_time: 0, message_count: 0 },
                authenticated: false,
                failures: 0,
                outbound: Vec::new(),
            };
            self.sessions.push(handle);
            proof {
                let ghost n = pre.len() as int;
                assert((#[trigger] self.sessions@[n]).id@ == user_id@);
                assert(self.sessions@.last().outbound.deep_view() =~= Seq::<Envelope>::empty());
                assert forall|i: int, j: int|
                    0 <= i < j < self.sessions@.len() implies self.sessions@[i].id@
                    != self.sessions@[j].id@ by {
                    if j < n {
                        assert(pre[i].id@ != pre[j].id@);
                    } else {
                        assert(self.sessions@[i].id@ != user_id@);
                    }
                }
            }
        }
    }
    /// A copy of the user data of the session with this id.
    pub fn get_connected_user(&self, user_id: &str) -> (r: Option<UserInfo>)
        requires
            self.wf(),
        ensures
            match r {
                Some(u) => {
                    let k = index_of_id(self.sessions@, user_id@);
                    &&& has_id(self.sessions@, user_id@)
                    &&& u.username@ == self.sessions@[k].info.username@
                    &&& u.connection_time == self.sessions@[k].info.connection_time
                    &&& u.message_count == self.sessions@[k].info.message_count
                },
                None => !has_id(self.sessions@, user_id@),
            },
    {
        let search = self.find_session_index(user_id);
        if let Some(k) = search {
            proof {
                lemma_index_of_id_unique(self.sessions@, user_id@, k as int);
            }
            let info = &self.sessions[k].info;
            Some(
                UserInfo {
                    username: crate::text::clone_str(info.username.as_str()),
                    connection_time: info.connection_time,
                    message_count: info.message_count,
                },
            )
        } else {
            None
        }
    }

    /// Removes the session with this id and hands back its user data; a
    /// second removal of the same id finds nothing and returns `None`.
    pub fn remove_connected_user(&mut self, user_id: &str) -> (r: Option<UserInfo>)
        requires
            old(self).wf(),
        ensures
            final(self).wf(),
            remove_effect(*old(self), *final(self), user_id@, r),
    {
        let ghost pre = self.sessions@;
        let search = self.find_session_index(user_id);
        if let Some(k) = search {
            proof {
                lemma_index_of_id_unique(pre, user_id@, k as int);
            }
            let h = self.sessions.remove(k);
            proof {
                assert forall|i: int, j: int|
                    0 <= i < j < self.sessions@.len() implies self.sessions@[i].id@
                    != self.sessions@[j].id@ by {
                    let pi: int = if i < k { i } else { i + 1 };
                    let pj: int = if j < k { j } else { j + 1 };
                    assert(pre[pi].id@ != pre[pj].id@);
                }
                assert forall|i: int|
                    0 <= i < self.sessions@.len() implies (#[trigger] self.sessions@[i]).id@
                    != user_id@ by {
                    let pi: int = if i < k { i } else { i + 1 };
                    if pi < k {
                        assert(pre[pi].id@ != pre[k as int].id@);
                    } else {
                        assert(pre[k as int].id@ != pre[pi].id@);
                    }
                }
            }
            Some(h.info)
        } else {
            None
        }
    }

    /// Copies of the user data of every connected session, registry order.
    pub fn get_connected_users(&self) -> (r: Vec<UserInfo>)
        ensures
            r@.len() == self.sessions@.len(),
            forall|i: int|
                0 <= i < r@.len() ==> {
                    &&& (#[trigger] r@[i]).username@ == self.sessions@[i].info.username@
                    &&& r@[i].connection_time == self.sessions@[i].info.connection_time
                    &&& r@[i].message_count == self.sessions@[i].info.message_count
                },
    {
        let n = self.sessions.len();
        let mut r: Vec<UserInfo> = Vec::new();
        let mut k: usize = 0;
        while k < n
            invariant
                n == self.sessions@.len(),
                k <= n,
                r@.len() == k,
                forall|i: int|
                    0 <= i < k ==> {
                        &&& (#[trigger] r@[i]).username@ == self.sessions@[i].info.username@
                        &&& r@[i].connection_time == self.sessions@[i].info.connection_time
                        &&& r@[i].message_count == self.sessions@[i].info.message_count
                    },
            decreases n - k,
        {
            let info = &self.sessions[k].info;
            r.push(
                UserInfo {
                    username: crate::text::clone_str(info.username.as_str()),
                    connection_time: info.connection_time,
                    message_count: info.message_count,
                },
            );
            k += 1;
        }
        r
    }

    /// Renames the session with this id; every other session and every
    /// other field, the queue included, is untouched.  Without a matching
    /// session this is a silent no-op.
    pub fn update_username(&mut self, user_id: String, username: String)
        requires
            old(self).wf(),
        ensures
            final(self).wf(),
            final(self).credentials@ == old(self).credentials@,
            final(self).history@ == old(self).history@,
            !has_id(old(self).sessions@, user_id@) ==> final(self).sessions@ == old(
                self,
            ).sessions@,
            has_id(old(self).sessions@, user_id@) ==> {
                let k = index_of_id(old(self).sessions@, user_id@);
                &&& final(self).sessions@.len() == old(self).sessions@.len()
                &&& forall|j: int|
                    0 <= j < old(self).sessions@.len() && j != k ==> final(self).sessions@[j]
                        == old(self).sessions@[j]
                &&& final(self).sessions@[k].id@ == old(self).sessions@[k].id@
                &&& final(self).sessions@[k].info.username@ == username@
                &&& final(self).sessions@[k].info.connection_time == old(
                    self,
                ).sessions@[k].info.connection_time
                &&& final(self).sessions@[k].info.message_count == old(
                    self,
                ).sessions@[k].info.message_count
                &&& final(self).sessions@[k].authenticated == old(self).sessions@[k].authenticated
                &&& final(self).sessions@[k].failures == old(self).sessions@[k].failures
                &&& final(self).sessions@[k].outbound == old(self).sessions@[k].outbound
            },
    {
        let ghost pre = self.sessions@;
        let search = self.find_session_index(user_id.as_str());
        if let Some(k) = search {
            proof {
                lemma_index_of_id_unique(pre, user_id@, k as int);
            }
            let mut h = self.sessions.remove(k);
            h.info.username = username;
            let ghost newh = h;
            self.sessions.insert(k, h);
            proof {
                assert(self.sessions@ =~= pre.update(k as int, newh));
                assert forall|i: int, j: int|
                    0 <= i < j < self.sessions@.len() implies self.sessions@[i].id@
                    != self.sessions@[j].id@ by {
                    assert(pre[i].id@ != pre[j].id@);
                }
            }
        }
    }

    /// Appends one envelope to the queue of the session at index `k`.
    pub(crate) fn enqueue_at(&mut self, k: usize, m: MessageType)
        requires
            old(self).wf(),
            k < old(self).sessions@.len(),
        ensures
            final(self).wf(),
            final(self).credentials@ == old(self).credentials@,
            final(self).history@ == old(self).history@,
            final(self).sessions@.len() == old(self).sessions@.len(),
            forall|j: int|
                0 <= j < old(self).sessions@.len() && j != k ==> final(self).sessions@[j] == old(
                    self,
                ).sessions@[j],
            enqueued(old(self).sessions@[k as int], final(self).sessions@[k as int], m@),
    {
        let ghost pre = self.sessions@;
        let ghost mv = m@;
        let mut h = self.sessions.remove(k);
        let ghost preq = h.outbound.deep_view();
        h.outbound.push(m);
        proof {
            assert(h.outbound.deep_view() =~= preq.push(mv));
        }
        let ghost newh = h;
        self.sessions.insert(k, h);
        proof {
            assert(self.sessions@ =~= pre.update(k as int, newh));
            assert forall|i: int, j: int|
                0 <= i < j < self.sessions@.len() implies self.sessions@[i].id@
                != self.sessions@[j].id@ by {
                assert(pre[i].id@ != pre[j].id@);
            }
        }
    }

    /// Appends a historic envelope to the shared history ring.
    pub fn add_message_to_history(&mut self, message: MessageType)
        requires
            old(self).wf(),
        ensures
            final(self).wf(),
            final(self).credentials@ == old(self).credentials@,
            final(self).sessions@ == old(self).sessions@,
            !crate::history::is_historic(message@) ==> final(self).history@ == old(self).history@,
            crate::history::is_historic(message@) && old(self).history@.len()
                < crate::history::HISTORY_CAPACITY ==> final(self).history@ == old(
                self,
            ).history@.push(message@),
            crate::history::is_historic(message@) && old(self).history@.len()
                == crate::history::HISTORY_CAPACITY ==> final(self).history@ == old(
                self,
            ).history@.subrange(1, crate::history::HISTORY_CAPACITY as int).push(message@),
    {
        self.history.append(message);
    }

    /// A consistent snapshot of the history, oldest first.
    pub fn get_message_history(&self) -> (r: Vec<MessageType>)
        ensures
            r.deep_view() == self.history@,
    {
        self.history.snapshot()
    }

    /// Accepts a connection: issues a fresh opaque id and registers the
    /// session under the anonymous placeholder name.
    pub fn accept_connection(&mut self) -> (id: String)
        requires
            old(self).wf(),
        ensures
            final(self).wf(),
            final(self).credentials@ == old(self).credentials@,
            final(self).history@ == old(self).history@,
            id@.len() == 36,
            has_id(final(self).sessions@, id@),
            ({
                let k = index_of_id(final(self).sessions@, id@);
                &&& final(self).sessions@[k].info.username@ == "Anonymous"@
                &&& final(self).sessions@[k].info.message_count == 0
            }),
    {
        let id = fresh_connection_id();
        let ghost idv = id@;
        self.add_connected_user(
            crate::text::clone_str(id.as_str()),
            crate::text::clone_str("Anonymous"),
        );
        proof {
            if !has_id(old(self).sessions@, idv) {
                let n = old(self).sessions@.len() as int;
                lemma_index_of_id_unique(self.sessions@, idv, n);
            } else {
                let k = index_of_id(old(self).sessions@, idv);
                assert(0 <= k < old(self).sessions@.len() && old(self).sessions@[k].id@ == idv);
                lemma_index_of_id_unique(self.sessions@, idv, k);
            }
        }
        id
    }

    /// Hands the shell everything queued for one session, in order; the
    /// session's queue is empty afterwards.  An unknown id yields nothing.
    pub fn drain_outbound(&mut self, id: &str) -> (r: Vec<MessageType>)
        requires
            old(self).wf(),
        ensures
            final(self).wf(),
            final(self).credentials@ == old(self).credentials@,
            final(self).history@ == old(self).history@,
            !has_id(old(self).sessions@, id@) ==> final(self).sessions@ == old(self).sessions@
                && r.deep_view() == Seq::<Envelope>::empty(),
            has_id(old(self).sessions@, id@) ==> ({
                let k = index_of_id(old(self).sessions@, id@);
                &&& final(self).sessions@.len() == old(self).sessions@.len()
                &&& forall|j: int|
                    0 <= j < old(self).sessions@.len() && j != k ==> final(self).sessions@[j]
                        == old(self).sessions@[j]
                &&& same_identity(old(self).sessions@[k], final(self).sessions@[k])
                &&& final(self).sessions@[k].outbound.deep_view() == Seq::<Envelope>::empty()
                &&& r.deep_view() == old(self).sessions@[k].outbound.deep_view()
            }),
    {
        let ghost pre = self.sessions@;
        let search = self.find_session_index(id);
        if let Some(k) = search {
            proof {
                lemma_index_of_id_unique(pre, id@, k as int);
            }
            let mut h = self.sessions.remove(k);
            let drained = h.outbound;
            h.outbound = Vec::new();
            proof {
                assert(h.outbound.deep_view() =~= Seq::<Envelope>::empty());
            }
            let ghost newh = h;
            self.sessions.insert(k, h);
            proof {
                assert(self.sessions@ =~= pre.update(k as int, newh));
                assert forall|i: int, j: int|
                    0 <= i < j < self.sessions@.len() implies self.sessions@[i].id@
                    != self.sessions@[j].id@ by {
                    assert(pre[i].id@ != pre[j].id@);
                }
            }
            drained
        } else {
            let r: Vec<MessageType> = Vec::new();
            proof {
                assert(r.deep_view() =~= Seq::<Envelope>::empty());
            }
            r
        }
    }
}

/// Relies on `uuid::Uuid::new_v4` and its hyphenated rendering: a random
/// 128-bit version-4 identifier always prints as 36 characters.
#[verifier::external_body]
fn fresh_connection_id() -> (r: String)
    ensures
        r@.len() == 36,
{
    uuid::Uuid::new_v4().to_string()
}

/// Full effect of removing a session by id.
pub open spec fn remove_effect(pre: App, post: App, id: Seq<char>, r: Option<UserInfo>) -> bool {
    &&& post.credentials@ == pre.credentials@
    &&& post.history@ == pre.history@
    &&& !has_id(post.sessions@, id)
    &&& match r {
        Some(u) => {
            let k = index_of_id(pre.sessions@, id);
            &&& has_id(pre.sessions@, id)
            &&& post.sessions@ == pre.sessions@.remove(k)
            &&& u.username@ == pre.sessions@[k].info.username@
            &&& u.connection_time == pre.sessions@[k].info.connection_time
            &&& u.message_count == pre.sessions@[k].info.message_count
        },
        None => {
            &&& !has_id(pre.sessions@, id)
            &&& post.sessions@ == pre.sessions@
        },
    }
}

/// Under unique ids, any index whose handle bears `id` is the index that
/// `index_of_id` denotes.
pub proof fn lemma_index_of_id_unique(s: Seq<SessionHandle>, id: Seq<char>, k: int)
    requires
        ids_unique(s),
        0 <= k < s.len(),
        s[k].id@ == id,
    ensures
        has_id(s, id),
        index_of_id(s, id) == k,
{
    assert(has_id(s, id));
    let c = choose|i: int| 0 <= i < s.len() && s[i].id@ == id;
    if c < k {
        assert(s[c].id@ != s[k].id@);
    } else if k < c {
        assert(s[k].id@ != s[c].id@);
    }
}

} // verus!
