//! Cross-cutting laws of the server core, each proved from the effect
//! predicates that the executable functions are specified by.

use vstd::prelude::*;

use crate::app::{
    has_id, index_of_id, lemma_index_of_id_unique, remove_effect, same_identity, App, UserInfo,
};
use crate::commander::{
    command_effect, connected_users_text, lemma_command_names_distinct, sysmsg,
};
use crate::envelope::Envelope;
use crate::router::{fan_out_effect, usernames_of};
use crate::session::{auth_effect, disconnect_effect, incoming_effect, AuthOutcome};

verus! {

/// At most one teardown completes per session: a second teardown for the
/// same id removes nothing and leaves every observable part of the state
/// as the first teardown left it.
pub proof fn lemma_teardown_idempotent(
    pre: App,
    mid: App,
    post: App,
    id: Seq<char>,
    r1: bool,
    r2: bool,
)
    requires
        disconnect_effect(pre, mid, id, r1),
        disconnect_effect(mid, post, id, r2),
    ensures
        r2 == false,
        post.sessions@ == mid.sessions@,
        post.history@ == mid.history@,
        post.credentials@ == mid.credentials@,
{
}

/// Removing a session twice: the second removal finds nothing, returns
/// `None` and changes nothing.
pub proof fn lemma_remove_twice(
    pre: App,
    mid: App,
    post: App,
    id: Seq<char>,
    r1: Option<UserInfo>,
    r2: Option<UserInfo>,
)
    requires
        remove_effect(pre, mid, id, r1),
        remove_effect(mid, post, id, r2),
    ensures
        r2 is None,
        post.sessions@ == mid.sessions@,
{
}

/// Broadcast order: when two envelopes are fanned out one after the
/// other, every recipient's queue ends with them in that order.
pub proof fn lemma_broadcast_order(
    pre: App,
    mid: App,
    post: App,
    m1: Envelope,
    m2: Envelope,
    i: int,
)
    requires
        fan_out_effect(pre, mid, m1),
        fan_out_effect(mid, post, m2),
        0 <= i < pre.sessions@.len(),
    ensures
        post.sessions@[i].outbound.deep_view() == pre.sessions@[i].outbound.deep_view().push(
            m1,
        ).push(m2),
        same_identity(pre.sessions@[i], post.sessions@[i]),
{
}

/// After the lockout, the transport's session is gone from the registry,
/// and no further frame from that connection is accepted: dispatching
/// anything more for that id changes nothing.
pub proof fn lemma_lockout_then_silence(
    pre: App,
    mid: App,
    post: App,
    id: Seq<char>,
    pay: Seq<char>,
    r1: AuthOutcome,
    m: Envelope,
    r2: AuthOutcome,
)
    requires
        auth_effect(pre, mid, id, pay, r1),
        r1 is LockedOut,
        incoming_effect(mid, post, id, m, r2),
    ensures
        !has_id(mid.sessions@, id),
        post == mid,
        r2 is Ignored,
{
}

/// The history never holds more than its capacity, whatever the server
/// has been through: the bound is part of well-formedness, which every
/// operation preserves.
pub proof fn lemma_history_never_exceeds_capacity(app: App)
    requires
        app.wf(),
    ensures
        app.history@.len() <= crate::history::HISTORY_CAPACITY,
{
}

/// A direct message reaches nobody but the first session carrying the
/// recipient's username and the sender's own echo: every other session's
/// handle, its queue included, is exactly what it was.
pub proof fn lemma_direct_message_isolation(
    pre: App,
    post: App,
    cid: Seq<char>,
    args: Seq<Seq<char>>,
    j: int,
)
    requires
        pre.wf(),
        has_id(pre.sessions@, cid),
        command_effect("DirectMessage"@, args, cid, pre, post),
        0 <= j < pre.sessions@.len(),
        j != index_of_id(pre.sessions@, cid),
        crate::router::has_username(pre.sessions@, crate::commander::arg_or_empty(args, 0))
            ==> j != crate::router::first_username_index(
            pre.sessions@,
            crate::commander::arg_or_empty(args, 0),
        ),
    ensures
        post.sessions@[j] == pre.sessions@[j],
{
    lemma_command_names_distinct();
}

/// The most recent successful rename is what the next `list` observes:
/// after renaming, the session's entry in the username snapshot is the
/// new name, and the `list` reply is built from exactly that snapshot.
pub proof fn lemma_rename_then_list(
    pre: App,
    mid: App,
    post: App,
    cid: Seq<char>,
    newname: Seq<char>,
    args: Seq<Seq<char>>,
)
    requires
        pre.wf(),
        mid.wf(),
        has_id(pre.sessions@, cid),
        args.len() >= 1,
        args[0] == newname,
        newname.len() > 0,
        command_effect("name"@, args, cid, pre, mid),
        command_effect("list"@, Seq::empty(), cid, mid, post),
    ensures
        ({
            let k = index_of_id(pre.sessions@, cid);
            &&& index_of_id(mid.sessions@, cid) == k
            &&& usernames_of(mid.sessions@)[k] == newname
            &&& post.sessions@[k].outbound.deep_view() == mid.sessions@[
                k
            ].outbound.deep_view().push(sysmsg(connected_users_text(usernames_of(mid.sessions@))))
        }),
{
    lemma_command_names_distinct();
    let k = index_of_id(pre.sessions@, cid);
    assert(0 <= k < pre.sessions@.len() && pre.sessions@[k].id@ == cid);
    assert(mid.sessions@[k].id@ == cid);
    lemma_index_of_id_unique(mid.sessions@, cid, k);
    assert(usernames_of(mid.sessions@)[k] == mid.sessions@[k].info.username@);
}

} // verus!
