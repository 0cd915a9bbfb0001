//! Broadcast router: fan-out of an envelope to every connected session and
//! direct routing to the first session with a matching username.

use vstd::prelude::*;

use crate::app::{enqueued, App, SessionHandle, UserInfo};
use crate::envelope::MessageType;
use crate::text::str_eq;

verus! {

/// Some connected session carries this username.
pub open spec fn has_username(s: Seq<SessionHandle>, name: Seq<char>) -> bool {
    exists|i: int| 0 <= i < s.len() && (#[trigger] s[i]).info.username@ == name
}

/// Index of the first session carrying this username; `-1` when none does.
/// When names collide, the first match wins.
pub open spec fn first_username_index(s: Seq<SessionHandle>, name: Seq<char>) -> int {
    if exists|i: int|
        0 <= i < s.len() && (#[trigger] s[i]).info.username@ == name && forall|j: int|
            0 <= j < i ==> (#[trigger] s[j]).info.username@ != name {
        choose|i: int|
            0 <= i < s.len() && (#[trigger] s[i]).info.username@ == name && forall|j: int|
                0 <= j < i ==> (#[trigger] s[j]).info.username@ != name
    } else {
        -1
    }
}

/// The usernames of the connected sessions, registry order.
pub open spec fn usernames_of(s: Seq<SessionHandle>) -> Seq<Seq<char>> {
    Seq::new(s.len(), |i: int| s[i].info.username@)
}

/// Full effect of one fan-out: every connected session's queue is
/// extended with the envelope, and nothing else changes.
pub open spec fn fan_out_effect(pre: App, post: App, m: crate::envelope::Envelope) -> bool {
    &&& post.credentials@ == pre.credentials@
    &&& post.history@ == pre.history@
    &&& post.sessions@.len() == pre.sessions@.len()
    &&& forall|i: int|
        0 <= i < pre.sessions@.len() ==> enqueued(pre.sessions@[i], post.sessions@[i], m)
}

/// Enqueues a copy of the envelope onto every connected session's outbound
/// queue.  Per recipient, messages fanned out in order are enqueued in
/// order, so every recipient observes a single producer's broadcasts in
/// that producer's order.
pub fn fan_out(app: &mut App, message: &MessageType)
    requires
        old(app).wf(),
    ensures
        final(app).wf(),
        fan_out_effect(*old(app), *final(app), message@),
{
    let ghost pre = app.sessions@;
    let ghost mv = message@;
    let n = app.sessions.len();
    let mut k: usize = 0;
    while k < n
        invariant
            old(app).wf(),
            app.wf(),
            n == app.sessions@.len(),
            n == pre.len(),
            k <= n,
            app.credentials@ == old(app).credentials@,
            app.history@ == old(app).history@,
            pre == old(app).sessions@,
            mv == message@,
            forall|i: int| 0 <= i < k ==> enqueued(pre[i], #[trigger] app.sessions@[i], mv),
            forall|i: int| k <= i < n ==> #[trigger] app.sessions@[i] == pre[i],
        decreases n - k,
    {
        let copy = message.clone();
        app.enqueue_at(k, copy);
        k += 1;
    }
}

/// Routes an envelope to the first session whose username matches, if any;
/// returns whether a recipient was found.  No other session's queue is
/// touched.
pub fn direct(app: &mut App, recipient_username: &str, message: MessageType) -> (delivered: bool)
    requires
        old(app).wf(),
    ensures
        final(app).wf(),
        final(app).credentials@ == old(app).credentials@,
        final(app).history@ == old(app).history@,
        delivered == has_username(old(app).sessions@, recipient_username@),
        !delivered ==> final(app).sessions@ == old(app).sessions@,
        delivered ==> {
            let t = first_username_index(old(app).sessions@, recipient_username@);
            &&& 0 <= t < old(app).sessions@.len()
            &&& old(app).sessions@[t].info.username@ == recipient_username@
            &&& forall|j: int|
                0 <= j < t ==> (#[trigger] old(app).sessions@[j]).info.username@
                    != recipient_username@
            &&& final(app).sessions@.len() == old(app).sessions@.len()
            &&& enqueued(old(app).sessions@[t], final(app).sessions@[t], message@)
            &&& forall|j: int|
                0 <= j < old(app).sessions@.len() && j != t ==> final(app).sessions@[j] == old(
                    app,
                ).sessions@[j]
        },
{
    let ghost pre = app.sessions@;
    let n = app.sessions.len();
    let mut k: usize = 0;
    while k < n
        invariant
            app.wf(),
            n == app.sessions@.len(),
            k <= n,
            app.sessions@ == pre,
            pre == old(app).sessions@,
            app.credentials@ == old(app).credentials@,
            app.history@ == old(app).history@,
            forall|j: int|
                0 <= j < k ==> (#[trigger] pre[j]).info.username@ != recipient_username@,
        decreases n - k,
    {
        if str_eq(app.sessions[k].info.username.as_str(), recipient_username) {
            proof {
                lemma_first_username_index(pre, recipient_username@, k as int);
            }
            app.enqueue_at(k, message);
            return true;
        }
        k += 1;
    }
    proof {
        assert(!has_username(pre, recipient_username@));
    }
    false
}

/// Any index whose session bears `name`, with no earlier match, is the one
/// that `first_username_index` denotes.
pub proof fn lemma_first_username_index(s: Seq<SessionHandle>, name: Seq<char>, k: int)
    requires
        0 <= k < s.len(),
        s[k].info.username@ == name,
        forall|j: int| 0 <= j < k ==> (#[trigger] s[j]).info.username@ != name,
    ensures
        has_username(s, name),
        first_username_index(s, name) == k,
{
    assert(has_username(s, name));
    let c = choose|i: int|
        0 <= i < s.len() && (#[trigger] s[i]).info.username@ == name && forall|j: int|
            0 <= j < i ==> (#[trigger] s[j]).info.username@ != name;
    if c < k {
        assert(s[c].info.username@ != name);
    } else if k < c {
        assert(s[k].info.username@ != name);
    }
}

/// User data of the first session carrying this username, if any.
pub fn find_by_username(app: &App, name: &str) -> (r: Option<UserInfo>)
    ensures
        r is Some <==> has_username(app.sessions@, name@),
        r is Some ==> {
            let t = first_username_index(app.sessions@, name@);
            &&& 0 <= t < app.sessions@.len()
            &&& r->Some_0.username@ == app.sessions@[t].info.username@
            &&& r->Some_0.connection_time == app.sessions@[t].info.connection_time
            &&& r->Some_0.message_count == app.sessions@[t].info.message_count
        },
{
    let n = app.sessions.len();
    let mut k: usize = 0;
    while k < n
        invariant
            n == app.sessions@.len(),
            k <= n,
            forall|j: int| 0 <= j < k ==> (#[trigger] app.sessions@[j]).info.username@ != name@,
        decreases n - k,
    {
        if str_eq(app.sessions[k].info.username.as_str(), name) {
            proof {
                lemma_first_username_index(app.sessions@, name@, k as int);
            }
            let info = &app.sessions[k].info;
            return Some(
                UserInfo {
                    username: crate::text::clone_str(info.username.as_str()),
                    connection_time: info.connection_time,
                    message_count: info.message_count,
                },
            );
        }
        k += 1;
    }
    proof {
        assert(!has_username(app.sessions@, name@));
    }
    None
}

/// The usernames of all connected sessions, registry order.
pub fn snapshot_usernames(app: &App) -> (r: Vec<String>)
    ensures
        r.deep_view() == usernames_of(app.sessions@),
{
    let n = app.sessions.len();
    let mut r: Vec<String> = Vec::new();
    let mut k: usize = 0;
    while k < n
        invariant
            n == app.sessions@.len(),
            k <= n,
            r@.len() == k,
            forall|i: int| 0 <= i < k ==> (#[trigger] r@[i])@ == app.sessions@[i].info.username@,
        decreases n - k,
    {
        r.push(crate::text::clone_str(app.sessions[k].info.username.as_str()));
        k += 1;
    }
    proof {
        assert forall|i: int| 0 <= i < r@.len() implies r.deep_view()[i] == usernames_of(
            app.sessions@,
        )[i] by {
            assert(r@[i]@ == app.sessions@[i].info.username@);
        }
        assert(r.deep_view() =~= usernames_of(app.sessions@));
    }
    r
}

} // verus!
