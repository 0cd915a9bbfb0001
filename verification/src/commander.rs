//! Command dispatcher: interprets `Command` envelopes (`name`, `list`,
//! `DirectMessage`) on behalf of the session whose reader dispatched them.

use vstd::prelude::*;
use vstd::string::*;

use crate::app::{
    enqueued, has_id, index_of_id, lemma_index_of_id_unique, same_identity, App,
};
use crate::envelope::{Envelope, MessageType};
use crate::router::{
    direct, first_username_index, has_username, snapshot_usernames, usernames_of,
};
use crate::text::{clone_str, str_eq};

verus! {

/// Shorthand for the model of a system message.
pub open spec fn sysmsg(t: Seq<char>) -> Envelope {
    Envelope::SystemMessage { text: t }
}

pub open spec fn invalid_name_text() -> Seq<char> {
    "Please provide a valid name."@
}

pub open spec fn name_set_text(n: Seq<char>) -> Seq<char> {
    "Your name is now set to '"@ + n + "'"@
}

/// Comma-and-space separated concatenation, in sequence order.
pub open spec fn join_comma(names: Seq<Seq<char>>) -> Seq<char>
    decreases names.len(),
{
    if names.len() == 0 {
        Seq::empty()
    } else if names.len() == 1 {
        names[0]
    } else {
        join_comma(names.drop_last()) + ", "@ + names.last()
    }
}

pub open spec fn connected_users_text(names: Seq<Seq<char>>) -> Seq<char> {
    "Connected users: "@ + join_comma(names)
}

pub open spec fn dm_recipient_text(sender: Seq<char>, content: Seq<char>) -> Seq<char> {
    "(Private message from "@ + sender + "): "@ + content
}

pub open spec fn dm_sender_text(recipient: Seq<char>, content: Seq<char>) -> Seq<char> {
    "(Private message to "@ + recipient + "): "@ + content
}

pub open spec fn user_not_found_text(recipient: Seq<char>) -> Seq<char> {
    "User '"@ + recipient + "' not found."@
}

pub open spec fn unknown_command_text() -> Seq<char> {
    "Unknown command. Type /help for a list of commands."@
}

/// The i-th argument, or the empty string when it is absent.
pub open spec fn arg_or_empty(args: Seq<Seq<char>>, i: int) -> Seq<char> {
    if args.len() > i {
        args[i]
    } else {
        Seq::empty()
    }
}

/// Joins usernames with `", "`.
pub fn join_usernames(names: &Vec<String>) -> (r: String)
    ensures
        r@ == join_comma(names.deep_view()),
{
    let n = names.len();
    let mut r = String::new();
    let mut k: usize = 0;
    while k < n
        invariant
            n == names@.len(),
            k <= n,
            r@ == join_comma(names.deep_view().subrange(0, k as int)),
        decreases n - k,
    {
        if k > 0 {
            r.append(", ");
        }
        r.append(names[k].as_str());
        k += 1;
        proof {
            let dv = names.deep_view();
            let prefix = dv.subrange(0, k as int);
            assert(prefix.drop_last() =~= dv.subrange(0, k - 1));
            assert(prefix.last() == dv[k - 1]);
            assert(dv[k - 1] == names@[k - 1]@);
            if k == 1 {
                assert(r@ =~= join_comma(prefix));
            } else {
                assert(r@ =~= join_comma(prefix.drop_last()) + ", "@ + prefix.last());
            }
        }
    }
    proof {
        assert(names.deep_view().subrange(0, n as int) =~= names.deep_view());
    }
    r
}

/// Enqueues an envelope for one session, by connection id.  An unknown id
/// is a silent no-op: the session is treated as already disconnected.
pub fn send_to_client(app: &mut App, client_id: &str, message: MessageType)
    requires
        old(app).wf(),
    ensures
        final(app).wf(),
        final(app).credentials@ == old(app).credentials@,
        final(app).history@ == old(app).history@,
        !has_id(old(app).sessions@, client_id@) ==> final(app).sessions@ == old(app).sessions@,
        has_id(old(app).sessions@, client_id@) ==> {
            let k = index_of_id(old(app).sessions@, client_id@);
            &&& final(app).sessions@.len() == old(app).sessions@.len()
            &&& forall|j: int|
                0 <= j < old(app).sessions@.len() && j != k ==> final(app).sessions@[j] == old(
                    app,
                ).sessions@[j]
            &&& enqueued(old(app).sessions@[k], final(app).sessions@[k], message@)
        },
{
    let search = app.find_session_index(client_id);
    if let Some(k) = search {
        proof {
            lemma_index_of_id_unique(app.sessions@, client_id@, k as int);
        }
        app.enqueue_at(k, message);
    }
}

/// Full effect of one command dispatch: `pre` is the server state before,
/// `post` the state after.  `name` renames the session (an absent or
/// empty name is rejected with a system message and leaves the username
/// unchanged), `list` answers the usernames of every connected session,
/// `DirectMessage` routes a private note to the first session with the
/// matching username and echoes it to the sender; anything else earns the
/// unknown-command reply.  Only the issuing session and (for a delivered
/// direct message) the recipient ever observe an effect.  An unknown
/// `client_id` is a silent no-op.
pub open spec fn command_effect(
    command_name: Seq<char>,
    a: Seq<Seq<char>>,
    client_id: Seq<char>,
    pre: App,
    post: App,
) -> bool {
    &&& post.credentials@ == pre.credentials@
    &&& post.history@ == pre.history@
    &&& (!has_id(pre.sessions@, client_id) ==> post.sessions@ == pre.sessions@)
    &&& (has_id(pre.sessions@, client_id) ==> {
        let k = index_of_id(pre.sessions@, client_id);
        let s = pre.sessions@;
        let f = post.sessions@;
            &&& f.len() == s.len()
            &&& (command_name == "name"@ && a.len() >= 1 && a[0].len() > 0) ==> {
                &&& forall|j: int| 0 <= j < s.len() && j != k ==> f[j] == s[j]
                &&& f[k].id@ == s[k].id@
                &&& f[k].info.username@ == a[0]
                &&& f[k].info.connection_time == s[k].info.connection_time
                &&& f[k].info.message_count == s[k].info.message_count
                &&& f[k].authenticated == s[k].authenticated
                &&& f[k].failures == s[k].failures
                &&& f[k].outbound.deep_view() == s[k].outbound.deep_view().push(
                    sysmsg(name_set_text(a[0])),
                )
            }
            &&& (command_name == "name"@ && !(a.len() >= 1 && a[0].len() > 0)) ==> {
                &&& forall|j: int| 0 <= j < s.len() && j != k ==> f[j] == s[j]
                &&& enqueued(s[k], f[k], sysmsg(invalid_name_text()))
            }
            &&& command_name == "list"@ ==> {
                &&& forall|j: int| 0 <= j < s.len() && j != k ==> f[j] == s[j]
                &&& enqueued(s[k], f[k], sysmsg(connected_users_text(usernames_of(s))))
            }
            &&& command_name == "DirectMessage"@ ==> {
                let recipient = arg_or_empty(a, 0);
                let content = arg_or_empty(a, 1);
                &&& !has_username(s, recipient) ==> {
                    &&& forall|j: int| 0 <= j < s.len() && j != k ==> f[j] == s[j]
                    &&& enqueued(s[k], f[k], sysmsg(user_not_found_text(recipient)))
                }
                &&& has_username(s, recipient) ==> {
                    let t = first_username_index(s, recipient);
                    &&& (t != k) ==> {
                        &&& forall|j: int| 0 <= j < s.len() && j != k && j != t ==> f[j] == s[j]
                        &&& enqueued(
                            s[t],
                            f[t],
                            sysmsg(dm_recipient_text(s[k].info.username@, content)),
                        )
                        &&& enqueued(s[k], f[k], sysmsg(dm_sender_text(recipient, content)))
                    }
                    &&& (t == k) ==> {
                        &&& forall|j: int| 0 <= j < s.len() && j != k ==> f[j] == s[j]
                        &&& same_identity(s[k], f[k])
                        &&& f[k].outbound.deep_view() == s[k].outbound.deep_view().push(
                            sysmsg(dm_recipient_text(s[k].info.username@, content)),
                        ).push(sysmsg(dm_sender_text(recipient, content)))
                    }
                }
            }
            &&& (command_name != "name"@ && command_name != "list"@ && command_name
                != "DirectMessage"@) ==> {
                &&& forall|j: int| 0 <= j < s.len() && j != k ==> f[j] == s[j]
                &&& enqueued(s[k], f[k], sysmsg(unknown_command_text()))
            }
    })
}

/// Interprets one command on behalf of the session with id `client_id`;
/// see [`command_effect`] for the exact state change.
#[verifier::rlimit(100)]
#[verifier::spinoff_prover]
pub fn handle_command(command_name: &str, args: &Vec<String>, client_id: &str, app: &mut App)
    requires
        old(app).wf(),
    ensures
        final(app).wf(),
        command_effect(command_name@, args.deep_view(), client_id@, *old(app), *final(app)),
{
    let ghost s = app.sessions@;
    let search = app.find_session_index(client_id);
    let sk: usize;
    match search {
        Some(k) => {
            sk = k;
        },
        None => {
            return ;
        },
    }
    proof {
        lemma_index_of_id_unique(s, client_id@, sk as int);
    }
    if str_eq(command_name, "name") {
        command_rename(app, client_id, sk, args);
        proof {
            lemma_command_names_distinct();
        }
    } else if str_eq(command_name, "list") {
        command_list(app, sk);
        proof {
            lemma_command_names_distinct();
        }
    } else if str_eq(command_name, "DirectMessage") {
        command_direct_message(app, sk, args);
        proof {
            lemma_command_names_distinct();
        }
    } else {
        app.enqueue_at(
            sk,
            MessageType::SystemMessage(
                clone_str("Unknown command. Type /help for a list of commands."),
            ),
        );
    }
}

/// The three recognized command names are pairwise distinct words.
pub proof fn lemma_command_names_distinct()
    ensures
        "name"@ != "list"@,
        "name"@ != "DirectMessage"@,
        "list"@ != "DirectMessage"@,
{
    reveal_strlit("name");
    reveal_strlit("list");
    reveal_strlit("DirectMessage");
    assert("name"@[0] == 'n');
    assert("list"@[0] == 'l');
    assert("DirectMessage"@[0] == 'D');
}

/// The `name` command: rename the issuing session and acknowledge, or
/// reject an absent or empty name.
fn command_rename(app: &mut App, client_id: &str, sk: usize, args: &Vec<String>)
    requires
        old(app).wf(),
        sk < old(app).sessions@.len(),
        old(app).sessions@[sk as int].id@ == client_id@,
    ensures
        final(app).wf(),
        final(app).credentials@ == old(app).credentials@,
        final(app).history@ == old(app).history@,
        final(app).sessions@.len() == old(app).sessions@.len(),
        forall|j: int|
            0 <= j < old(app).sessions@.len() && j != sk ==> final(app).sessions@[j] == old(
                app,
            ).sessions@[j],
        ({
            let s = old(app).sessions@;
            let f = final(app).sessions@;
            let k = sk as int;
            let a = args.deep_view();
            if a.len() >= 1 && a[0].len() > 0 {
                &&& f[k].id@ == s[k].id@
                &&& f[k].info.username@ == a[0]
                &&& f[k].info.connection_time == s[k].info.connection_time
                &&& f[k].info.message_count == s[k].info.message_count
                &&& f[k].authenticated == s[k].authenticated
                &&& f[k].failures == s[k].failures
                &&& f[k].outbound.deep_view() == s[k].outbound.deep_view().push(
                    sysmsg(name_set_text(a[0])),
                )
            } else {
                enqueued(s[k], f[k], sysmsg(invalid_name_text()))
            }
        }),
{
    let ghost s = app.sessions@;
    let valid = args.len() >= 1 && args[0].unicode_len() > 0;
    if valid {
        let newname = clone_str(args[0].as_str());
        app.update_username(clone_str(client_id), newname);
        proof {
            lemma_index_of_id_unique(s, client_id@, sk as int);
            lemma_index_of_id_unique(app.sessions@, client_id@, sk as int);
        }
        let mut t = String::from_str("Your name is now set to '");
        t.append(args[0].as_str());
        t.append("'");
        proof {
            assert(t@ =~= name_set_text(args.deep_view()[0]));
        }
        app.enqueue_at(sk, MessageType::SystemMessage(t));
    } else {
        app.enqueue_at(
            sk,
            MessageType::SystemMessage(clone_str("Please provide a valid name.")),
        );
    }
}

/// The `list` command: answer the usernames of every connected session.
fn command_list(app: &mut App, sk: usize)
    requires
        old(app).wf(),
        sk < old(app).sessions@.len(),
    ensures
        final(app).wf(),
        final(app).credentials@ == old(app).credentials@,
        final(app).history@ == old(app).history@,
        final(app).sessions@.len() == old(app).sessions@.len(),
        forall|j: int|
            0 <= j < old(app).sessions@.len() && j != sk ==> final(app).sessions@[j] == old(
                app,
            ).sessions@[j],
        enqueued(
            old(app).sessions@[sk as int],
            final(app).sessions@[sk as int],
            sysmsg(connected_users_text(usernames_of(old(app).sessions@))),
        ),
{
    let ghost s = app.sessions@;
    let names = snapshot_usernames(app);
    let joined = join_usernames(&names);
    let mut t = String::from_str("Connected users: ");
    t.append(joined.as_str());
    proof {
        assert(t@ =~= connected_users_text(usernames_of(s)));
    }
    app.enqueue_at(sk, MessageType::SystemMessage(t));
}

/// The `DirectMessage` command: route a private note to the first session
/// with the matching username and echo it to the sender, or report that
/// the recipient was not found.
#[verifier::rlimit(60)]
fn command_direct_message(app: &mut App, sk: usize, args: &Vec<String>)
    requires
        old(app).wf(),
        sk < old(app).sessions@.len(),
    ensures
        final(app).wf(),
        final(app).credentials@ == old(app).credentials@,
        final(app).history@ == old(app).history@,
        final(app).sessions@.len() == old(app).sessions@.len(),
        ({
            let s = old(app).sessions@;
            let f = final(app).sessions@;
            let k = sk as int;
            let recipient = arg_or_empty(args.deep_view(), 0);
            let content = arg_or_empty(args.deep_view(), 1);
            if !has_username(s, recipient) {
                &&& forall|j: int| 0 <= j < s.len() && j != k ==> f[j] == s[j]
                &&& enqueued(s[k], f[k], sysmsg(user_not_found_text(recipient)))
            } else {
                let t = first_username_index(s, recipient);
                if t != k {
                    &&& forall|j: int| 0 <= j < s.len() && j != k && j != t ==> f[j] == s[j]
                    &&& enqueued(
                        s[t],
                        f[t],
                        sysmsg(dm_recipient_text(s[k].info.username@, content)),
                    )
                    &&& enqueued(s[k], f[k], sysmsg(dm_sender_text(recipient, content)))
                } else {
                    &&& forall|j: int| 0 <= j < s.len() && j != k ==> f[j] == s[j]
                    &&& same_identity(s[k], f[k])
                    &&& f[k].outbound.deep_view() == s[k].outbound.deep_view().push(
                        sysmsg(dm_recipient_text(s[k].info.username@, content)),
                    ).push(sysmsg(dm_sender_text(recipient, content)))
                }
            }
        }),
{
    let ghost s = app.sessions@;
    let recipient = if args.len() >= 1 {
        args[0].as_str()
    } else {
        ""
    };
    let content = if args.len() >= 2 {
        args[1].as_str()
    } else {
        ""
    };
    proof {
        reveal_strlit("");
        assert(""@ =~= Seq::<char>::empty());
        assert(recipient@ == arg_or_empty(args.deep_view(), 0));
        assert(content@ == arg_or_empty(args.deep_view(), 1));
    }
    let mut tr = String::from_str("(Private message from ");
    tr.append(app.sessions[sk].info.username.as_str());
    tr.append("): ");
    tr.append(content);
    proof {
        assert(tr@ =~= dm_recipient_text(s[sk as int].info.username@, content@));
    }
    let delivered = direct(app, recipient, MessageType::SystemMessage(tr));
    if delivered {
        let mut ts = String::from_str("(Private message to ");
        ts.append(recipient);
        ts.append("): ");
        ts.append(content);
        proof {
            assert(ts@ =~= dm_sender_text(recipient@, content@));
        }
        app.enqueue_at(sk, MessageType::SystemMessage(ts));
    } else {
        let mut ts = String::from_str("User '");
        ts.append(recipient);
        ts.append("' not found.");
        proof {
            assert(ts@ =~= user_not_found_text(recipient@));
        }
        app.enqueue_at(sk, MessageType::SystemMessage(ts));
    }
}

} // verus!
