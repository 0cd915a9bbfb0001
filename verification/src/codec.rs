//! Frame codec: the textual wire form of an envelope.
//!
//! An envelope travels as a tagged object with quoted strings; quotes and
//! backslashes inside a string are escaped with a backslash.  `encode` is
//! total; `decode` accepts exactly the texts this grammar produces and
//! answers `MalformedFrame` for everything else.

use vstd::prelude::*;
use vstd::string::*;

use crate::envelope::{Envelope, MessageType};
use crate::text::{clone_str, push_char, str_eq};

verus! {

/// Wire form of one character inside a quoted string.
pub open spec fn esc_char(c: char) -> Seq<char> {
    if c == '\\' || c == '"' {
        seq!['\\', c]
    } else {
        seq![c]
    }
}

/// Wire form of a string body, character by character.
pub open spec fn escape(s: Seq<char>) -> Seq<char>
    decreases s.len(),
{
    if s.len() == 0 {
        Seq::empty()
    } else {
        escape(s.drop_last()) + esc_char(s.last())
    }
}

/// A quoted string: escaped body between double quotes.
pub open spec fn quoted(s: Seq<char>) -> Seq<char> {
    seq!['"'] + escape(s) + seq!['"']
}

/// The bodies of an argument list, quoted and comma-separated.
pub open spec fn args_body(args: Seq<Seq<char>>) -> Seq<char>
    decreases args.len(),
{
    if args.len() == 0 {
        Seq::empty()
    } else if args.len() == 1 {
        quoted(args[0])
    } else {
        args_body(args.drop_last()) + seq![','] + quoted(args.last())
    }
}

pub open spec fn chat_prefix() -> Seq<char> {
    "{\"ChatMessage\":{\"sender\":\""@
}

pub open spec fn chat_mid() -> Seq<char> {
    ",\"content\":\""@
}

pub open spec fn cmd_prefix() -> Seq<char> {
    "{\"Command\":{\"name\":\""@
}

pub open spec fn cmd_mid() -> Seq<char> {
    ",\"args\":["@
}

pub open spec fn sys_prefix() -> Seq<char> {
    "{\"SystemMessage\":\""@
}

/// The exact wire text of an envelope.
pub open spec fn spec_encode(e: Envelope) -> Seq<char> {
    match e {
        Envelope::ChatMessage { sender, content } => chat_prefix() + escape(sender) + seq!['"']
            + chat_mid() + escape(content) + seq!['"'] + "}}"@,
        Envelope::Command { name, args } => cmd_prefix() + escape(name) + seq!['"'] + cmd_mid()
            + args_body(args) + seq![']'] + "}}"@,
        Envelope::SystemMessage { text } => sys_prefix() + escape(text) + seq!['"'] + "}"@,
    }
}

/// Characters consumed by a quoted-string body that starts right after the
/// opening quote, through the closing quote; `-1` when the text ends or an
/// unknown escape appears before the string closes.
pub open spec fn scan_len(rem: Seq<char>) -> int
    decreases rem.len(),
{
    if rem.len() == 0 {
        -1
    } else if rem[0] == '"' {
        1
    } else if rem[0] == '\\' {
        if rem.len() >= 2 && (rem[1] == '\\' || rem[1] == '"') {
            let r = scan_len(rem.subrange(2, rem.len() as int));
            if r < 0 {
                -1
            } else {
                r + 2
            }
        } else {
            -1
        }
    } else {
        let r = scan_len(rem.subrange(1, rem.len() as int));
        if r < 0 {
            -1
        } else {
            r + 1
        }
    }
}

/// The unescaped characters of that same quoted-string body.
pub open spec fn content(rem: Seq<char>) -> Seq<char>
    decreases rem.len(),
{
    if rem.len() == 0 {
        Seq::empty()
    } else if rem[0] == '"' {
        Seq::empty()
    } else if rem[0] == '\\' {
        if rem.len() >= 2 && (rem[1] == '\\' || rem[1] == '"') {
            seq![rem[1]] + content(rem.subrange(2, rem.len() as int))
        } else {
            Seq::empty()
        }
    } else {
        seq![rem[0]] + content(rem.subrange(1, rem.len() as int))
    }
}

/// Parses an argument list from the character after the `[`, through the
/// `]`; yields the arguments and the characters consumed.
pub open spec fn parse_args(rem: Seq<char>) -> Option<(Seq<Seq<char>>, int)>
    decreases rem.len(),
{
    if rem.len() == 0 {
        None
    } else if rem[0] == ']' {
        Some((Seq::empty(), 1))
    } else if rem[0] == '"' {
        let n = scan_len(rem.subrange(1, rem.len() as int));
        if n < 0 || 1 + n > rem.len() {
            None
        } else {
            let item = content(rem.subrange(1, rem.len() as int));
            let j = 1 + n;
            if j < rem.len() && rem[j] == ',' {
                match parse_args(rem.subrange(j + 1, rem.len() as int)) {
                    Some((rest, m)) => Some((seq![item] + rest, j + 1 + m)),
                    None => None,
                }
            } else if j < rem.len() && rem[j] == ']' {
                Some((seq![item], j + 1))
            } else {
                None
            }
        }
    } else {
        None
    }
}

pub open spec fn starts_with(s: Seq<char>, p: Seq<char>) -> bool {
    p.len() <= s.len() && s.subrange(0, p.len() as int) == p
}

/// The envelope a wire text denotes, if any: the inverse of
/// [`spec_encode`] on its image, `None` elsewhere.
pub open spec fn spec_decode(s: Seq<char>) -> Option<Envelope> {
    if starts_with(s, chat_prefix()) {
        let rem1 = s.subrange(chat_prefix().len() as int, s.len() as int);
        let n1 = scan_len(rem1);
        if n1 < 0 || n1 > rem1.len() {
            None
        } else {
            let sender = content(rem1);
            let rem2 = rem1.subrange(n1, rem1.len() as int);
            if starts_with(rem2, chat_mid()) {
                let rem3 = rem2.subrange(chat_mid().len() as int, rem2.len() as int);
                let n3 = scan_len(rem3);
                if n3 < 0 || n3 > rem3.len() {
                    None
                } else {
                    let body = content(rem3);
                    let rem4 = rem3.subrange(n3, rem3.len() as int);
                    if rem4 == "}}"@ {
                        Some(Envelope::ChatMessage { sender, content: body })
                    } else {
                        None
                    }
                }
            } else {
                None
            }
        }
    } else if starts_with(s, cmd_prefix()) {
        let rem1 = s.subrange(cmd_prefix().len() as int, s.len() as int);
        let n1 = scan_len(rem1);
        if n1 < 0 || n1 > rem1.len() {
            None
        } else {
            let name = content(rem1);
            let rem2 = rem1.subrange(n1, rem1.len() as int);
            if starts_with(rem2, cmd_mid()) {
                let rem3 = rem2.subrange(cmd_mid().len() as int, rem2.len() as int);
                match parse_args(rem3) {
                    Some((args, m)) => {
                        if 0 <= m <= rem3.len() && rem3.subrange(m, rem3.len() as int) == "}}"@ {
                            Some(Envelope::Command { name, args })
                        } else {
                            None
                        }
                    },
                    None => None,
                }
            } else {
                None
            }
        }
    } else if starts_with(s, sys_prefix()) {
        let rem1 = s.subrange(sys_prefix().len() as int, s.len() as int);
        let n1 = scan_len(rem1);
        if n1 < 0 || n1 > rem1.len() {
            None
        } else {
            let text = content(rem1);
            let rem2 = rem1.subrange(n1, rem1.len() as int);
            if rem2 == "}"@ {
                Some(Envelope::SystemMessage { text })
            } else {
                None
            }
        }
    } else {
        None
    }
}

/// Decoding failure: the text is not the wire form of any envelope.
#[derive(Debug, PartialEq)]
pub enum DecodeError {
    MalformedFrame,
}

/// Appends the escaped wire form of `s` to `out`.
fn append_escaped(out: &mut String, s: &str)
    ensures
        final(out)@ == old(out)@ + escape(s@),
{
    let n = s.unicode_len();
    let mut i: usize = 0;
    proof {
        assert(out@ =~= old(out)@ + escape(s@.subrange(0, 0)));
    }
    while i < n
        invariant
            n == s@.len(),
            i <= n,
            out@ == old(out)@ + escape(s@.subrange(0, i as int)),
        decreases n - i,
    {
        let c = s.get_char(i);
        if c == '\\' || c == '"' {
            push_char(out, '\\');
            push_char(out, c);
        } else {
            push_char(out, c);
        }
        i += 1;
        proof {
            let pre = s@.subrange(0, i - 1);
            let cur = s@.subrange(0, i as int);
            assert(cur.drop_last() =~= pre);
            assert(cur.last() == s@[i - 1]);
            assert(out@ =~= old(out)@ + (escape(pre) + esc_char(s@[i - 1])));
        }
    }
    proof {
        assert(s@.subrange(0, n as int) =~= s@);
    }
}

/// Encodes an envelope to its wire text.
pub fn encode(e: &MessageType) -> (r: String)
    ensures
        r@ == spec_encode(e@),
{
    match e {
        MessageType::ChatMessage { sender, content } => {
            let mut out = clone_str("{\"ChatMessage\":{\"sender\":\"");
            append_escaped(&mut out, sender.as_str());
            push_char(&mut out, '"');
            out.append(",\"content\":\"");
            append_escaped(&mut out, content.as_str());
            push_char(&mut out, '"');
            out.append("}}");
            proof {
                assert(out@ =~= spec_encode(e@));
            }
            out
        },
        MessageType::Command { name, args } => {
            let mut out = clone_str("{\"Command\":{\"name\":\"");
            append_escaped(&mut out, name.as_str());
            push_char(&mut out, '"');
            out.append(",\"args\":[");
            let ghost base = out@;
            let an = args.len();
            let mut k: usize = 0;
            proof {
                assert(out@ =~= base + args_body(args.deep_view().subrange(0, 0)));
            }
            while k < an
                invariant
                    an == args@.len(),
                    k <= an,
                    out@ == base + args_body(args.deep_view().subrange(0, k as int)),
                decreases an - k,
            {
                if k > 0 {
                    push_char(&mut out, ',');
                }
                push_char(&mut out, '"');
                append_escaped(&mut out, args[k].as_str());
                push_char(&mut out, '"');
                k += 1;
                proof {
                    let dv = args.deep_view();
                    let prefix = dv.subrange(0, k as int);
                    assert(prefix.drop_last() =~= dv.subrange(0, k - 1));
                    assert(prefix.last() == dv[k - 1]);
                    assert(dv[k - 1] == args@[k - 1]@);
                    if k == 1 {
                        assert(out@ =~= base + args_body(prefix));
                    } else {
                        assert(out@ =~= base + (args_body(prefix.drop_last()) + seq![',']
                            + quoted(prefix.last())));
                    }
                }
            }
            push_char(&mut out, ']');
            out.append("}}");
            proof {
                assert(args.deep_view().subrange(0, an as int) =~= args.deep_view());
                assert(out@ =~= spec_encode(e@));
            }
            out
        },
        MessageType::SystemMessage(text) => {
            let mut out = clone_str("{\"SystemMessage\":\"");
            append_escaped(&mut out, text.as_str());
            push_char(&mut out, '"');
            out.append("}");
            proof {
                assert(out@ =~= spec_encode(e@));
            }
            out
        },
    }
}

/// When a quoted-string body closes, it consumes at least one and at most
/// all of the remaining characters.
pub proof fn lemma_scan_bounds(rem: Seq<char>)
    ensures
        scan_len(rem) == -1 || (1 <= scan_len(rem) <= rem.len()),
    decreases rem.len(),
{
    if rem.len() == 0 {
    } else if rem[0] == '"' {
    } else if rem[0] == '\\' {
        if rem.len() >= 2 && (rem[1] == '\\' || rem[1] == '"') {
            lemma_scan_bounds(rem.subrange(2, rem.len() as int));
        }
    } else {
        lemma_scan_bounds(rem.subrange(1, rem.len() as int));
    }
}

/// Whether the text begins with this prefix.
fn match_prefix(s: &str, p: &str) -> (r: bool)
    ensures
        r == starts_with(s@, p@),
{
    let n = s.unicode_len();
    let m = p.unicode_len();
    if m > n {
        return false;
    }
    let head = s.substring_char(0, m);
    str_eq(head, p)
}

/// Reads a quoted-string body from the start of `rem` (the opening quote
/// already consumed): the unescaped content and the characters consumed
/// through the closing quote.
fn take_string(rem: &str) -> (r: Option<(String, usize)>)
    ensures
        match r {
            Some(pair) => scan_len(rem@) == pair.1 && 1 <= pair.1 <= rem@.len() && pair.0@
                == content(rem@),
            None => scan_len(rem@) == -1,
        },
{
    let n = rem.unicode_len();
    let mut out = String::new();
    let mut p: usize = 0;
    proof {
        assert(rem@.subrange(0, n as int) =~= rem@);
    }
    while p < n
        invariant
            n == rem@.len(),
            p <= n,
            scan_len(rem@) == (if scan_len(rem@.subrange(p as int, n as int)) >= 0 {
                p + scan_len(rem@.subrange(p as int, n as int))
            } else {
                -1int
            }),
            content(rem@) == out@ + content(rem@.subrange(p as int, n as int)),
        decreases n - p,
    {
        let ghost sub = rem@.subrange(p as int, n as int);
        proof {
            lemma_scan_bounds(sub);
        }
        let c = rem.get_char(p);
        proof {
            assert(sub[0] == c);
        }
        if c == '"' {
            proof {
                assert(scan_len(sub) == 1);
                assert(content(sub) =~= Seq::<char>::empty());
                assert(content(rem@) =~= out@);
            }
            return Some((out, p + 1));
        } else if c == '\\' {
            if p + 1 < n {
                let c2 = rem.get_char(p + 1);
                proof {
                    assert(sub[1] == c2);
                }
                if c2 == '\\' || c2 == '"' {
                    push_char(&mut out, c2);
                    p += 2;
                    proof {
                        let sub2 = rem@.subrange(p as int, n as int);
                        assert(sub.subrange(2, sub.len() as int) =~= sub2);
                        assert(content(rem@) =~= out@ + content(sub2));
                    }
                } else {
                    proof {
                        assert(scan_len(sub) == -1);
                        assert(scan_len(rem@) == -1);
                    }
                    return None;
                }
            } else {
                proof {
                    assert(scan_len(sub) == -1);
                    assert(scan_len(rem@) == -1);
                }
                return None;
            }
        } else {
            push_char(&mut out, c);
            p += 1;
            proof {
                let sub2 = rem@.subrange(p as int, n as int);
                assert(sub.subrange(1, sub.len() as int) =~= sub2);
                assert(content(rem@) =~= out@ + content(sub2));
            }
        }
    }
    proof {
        assert(rem@.subrange(n as int, n as int).len() == 0);
        assert(scan_len(rem@.subrange(n as int, n as int)) == -1);
        assert(scan_len(rem@) == -1);
    }
    None
}

/// Appends one string to a vector, tracking the deep view.
fn push_string(v: &mut Vec<String>, s: String)
    ensures
        final(v)@.len() == old(v)@.len() + 1,
        final(v).deep_view() == old(v).deep_view().push(s@),
{
    let ghost pre = v@;
    let ghost pre_dv = v.deep_view();
    let ghost sval = s;
    v.push(s);
    proof {
        assert(v@ == pre.push(sval));
        assert forall|m: int| 0 <= m < v@.len() implies v.deep_view()[m] == pre_dv.push(sval@)[m]
            by {
            if m < pre.len() {
                assert(v@[m] == pre[m]);
                assert(pre_dv[m] == pre[m]@);
            } else {
                assert(v@[m] == sval);
            }
        }
        assert(v.deep_view() =~= pre_dv.push(sval@));
    }
}

/// Reads an argument list from the start of `rem` (the `[` already
/// consumed): the arguments and the characters consumed through the `]`.
fn take_args(rem: &str) -> (r: Option<(Vec<String>, usize)>)
    ensures
        match r {
            Some(pair) => parse_args(rem@) == Some((pair.0.deep_view(), pair.1 as int)) && pair.1
                <= rem@.len(),
            None => parse_args(rem@) is None,
        },
{
    let n = rem.unicode_len();
    let mut out: Vec<String> = Vec::new();
    let mut p: usize = 0;
    proof {
        assert(out.deep_view() =~= Seq::<Seq<char>>::empty());
        assert(rem@.subrange(0, n as int) =~= rem@);
    }
    loop
        invariant
            n == rem@.len(),
            p <= n,
            parse_args(rem@) == (match parse_args(rem@.subrange(p as int, n as int)) {
                Some((rest, m)) => Some((out.deep_view() + rest, p + m)),
                None => None::<(Seq<Seq<char>>, int)>,
            }),
        decreases n - p,
    {
        let ghost p0 = p as int;
        let ghost sub = rem@.subrange(p0, n as int);
        let ghost out0 = out.deep_view();
        if p >= n {
            proof {
                assert(sub.len() == 0);
                assert(parse_args(sub) is None);
            }
            return None;
        }
        let c = rem.get_char(p);
        proof {
            assert(sub[0] == c);
        }
        if c == ']' {
            proof {
                assert(parse_args(sub) == Some((Seq::<Seq<char>>::empty(), 1int)));
                assert(out0 + Seq::<Seq<char>>::empty() =~= out0);
            }
            return Some((out, p + 1));
        } else if c == '"' {
            let tail = rem.substring_char(p + 1, n);
            proof {
                assert(tail@ =~= sub.subrange(1, sub.len() as int));
            }
            let got = take_string(tail);
            match got {
                Some(pair) => {
                    let item = pair.0;
                    let consumed = pair.1;
                    let ghost itemv = item@;
                    let j = p + 1 + consumed;
                    proof {
                        assert(scan_len(sub.subrange(1, sub.len() as int)) == consumed);
                        assert(content(sub.subrange(1, sub.len() as int)) == itemv);
                        assert(j - p0 == 1 + consumed);
                        assert(j - p0 <= sub.len());
                    }
                    if j < n {
                        let sep = rem.get_char(j);
                        proof {
                            assert(sub[j - p0] == sep);
                        }
                        if sep == ',' {
                            push_string(&mut out, item);
                            p = j + 1;
                            proof {
                                let sub2 = rem@.subrange(p as int, n as int);
                                assert(sub.subrange(j - p0 + 1, sub.len() as int) =~= sub2);
                                assert(parse_args(sub) == (match parse_args(sub2) {
                                    Some((rest, m)) => Some(
                                        (seq![itemv] + rest, j - p0 + 1 + m),
                                    ),
                                    None => None::<(Seq<Seq<char>>, int)>,
                                }));
                                assert(out.deep_view() == out0.push(itemv));
                                assert forall|rest: Seq<Seq<char>>|
                                    true implies out0 + (seq![itemv] + rest) =~= out.deep_view()
                                    + rest by {
                                    assert(out0 + (seq![itemv] + rest) =~= out0.push(itemv)
                                        + rest);
                                }
                            }
                        } else if sep == ']' {
                            push_string(&mut out, item);
                            proof {
                                assert(parse_args(sub) == Some((seq![itemv], j - p0 + 1)));
                                assert(out0 + seq![itemv] =~= out.deep_view());
                            }
                            return Some((out, j + 1));
                        } else {
                            proof {
                                assert(parse_args(sub) is None);
                            }
                            return None;
                        }
                    } else {
                        proof {
                            assert(j - p0 >= sub.len());
                            assert(parse_args(sub) is None);
                        }
                        return None;
                    }
                },
                None => {
                    proof {
                        assert(scan_len(sub.subrange(1, sub.len() as int)) == -1);
                        assert(parse_args(sub) is None);
                    }
                    return None;
                },
            }
        } else {
            proof {
                assert(parse_args(sub) is None);
            }
            return None;
        }
    }
}

/// Decodes a wire text back to an envelope, or reports a malformed frame.
/// Succeeds exactly on the texts that [`spec_decode`] accepts.
#[verifier::rlimit(60)]
pub fn decode(s: &str) -> (r: Result<MessageType, DecodeError>)
    ensures
        match r {
            Ok(m) => spec_decode(s@) == Some(m@),
            Err(e) => spec_decode(s@) is None && e is MalformedFrame,
        },
{
    let n = s.unicode_len();
    if match_prefix(s, "{\"ChatMessage\":{\"sender\":\"") {
        let plen = "{\"ChatMessage\":{\"sender\":\"".unicode_len();
        let rem1 = s.substring_char(plen, n);
        proof {
            assert(rem1@ =~= s@.subrange(chat_prefix().len() as int, s@.len() as int));
        }
        let got1 = take_string(rem1);
        match got1 {
            Some(pair1) => {
                let sender = pair1.0;
                let n1 = pair1.1;
                let rem2 = s.substring_char(plen + n1, n);
                proof {
                    assert(rem2@ =~= rem1@.subrange(n1 as int, rem1@.len() as int));
                }
                if match_prefix(rem2, ",\"content\":\"") {
                    let mlen = ",\"content\":\"".unicode_len();
                    let rem3 = s.substring_char(plen + n1 + mlen, n);
                    proof {
                        assert(rem3@ =~= rem2@.subrange(chat_mid().len() as int,
                        rem2@.len() as int));
                    }
                    let got3 = take_string(rem3);
                    match got3 {
                        Some(pair3) => {
                            let body = pair3.0;
                            let n3 = pair3.1;
                            let rem4 = s.substring_char(plen + n1 + mlen + n3, n);
                            proof {
                                assert(rem4@ =~= rem3@.subrange(n3 as int, rem3@.len() as int));
                            }
                            if str_eq(rem4, "}}") {
                                Ok(MessageType::ChatMessage { sender, content: body })
                            } else {
                                Err(DecodeError::MalformedFrame)
                            }
                        },
                        None => Err(DecodeError::MalformedFrame),
                    }
                } else {
                    Err(DecodeError::MalformedFrame)
                }
            },
            None => Err(DecodeError::MalformedFrame),
        }
    } else if match_prefix(s, "{\"Command\":{\"name\":\"") {
        let plen = "{\"Command\":{\"name\":\"".unicode_len();
        let rem1 = s.substring_char(plen, n);
        proof {
            assert(rem1@ =~= s@.subrange(cmd_prefix().len() as int, s@.len() as int));
        }
        let got1 = take_string(rem1);
        match got1 {
            Some(pair1) => {
                let name = pair1.0;
                let n1 = pair1.1;
                let rem2 = s.substring_char(plen + n1, n);
                proof {
                    assert(rem2@ =~= rem1@.subrange(n1 as int, rem1@.len() as int));
                }
                if match_prefix(rem2, ",\"args\":[") {
                    let mlen = ",\"args\":[".unicode_len();
                    let rem3 = s.substring_char(plen + n1 + mlen, n);
                    proof {
                        assert(rem3@ =~= rem2@.subrange(cmd_mid().len() as int,
                        rem2@.len() as int));
                    }
                    let got3 = take_args(rem3);
                    match got3 {
                        Some(pair3) => {
                            let args = pair3.0;
                            let m3 = pair3.1;
                            let rem4 = s.substring_char(plen + n1 + mlen + m3, n);
                            proof {
                                assert(rem4@ =~= rem3@.subrange(m3 as int, rem3@.len() as int));
                            }
                            if str_eq(rem4, "}}") {
                                Ok(MessageType::Command { name, args })
                            } else {
                                Err(DecodeError::MalformedFrame)
                            }
                        },
                        None => Err(DecodeError::MalformedFrame),
                    }
                } else {
                    Err(DecodeError::MalformedFrame)
                }
            },
            None => Err(DecodeError::MalformedFrame),
        }
    } else if match_prefix(s, "{\"SystemMessage\":\"") {
        let plen = "{\"SystemMessage\":\"".unicode_len();
        let rem1 = s.substring_char(plen, n);
        proof {
            assert(rem1@ =~= s@.subrange(sys_prefix().len() as int, s@.len() as int));
        }
        let got1 = take_string(rem1);
        match got1 {
            Some(pair1) => {
                let text = pair1.0;
                let n1 = pair1.1;
                let rem2 = s.substring_char(plen + n1, n);
                proof {
                    assert(rem2@ =~= rem1@.subrange(n1 as int, rem1@.len() as int));
                }
                if str_eq(rem2, "}") {
                    Ok(MessageType::SystemMessage(text))
                } else {
                    Err(DecodeError::MalformedFrame)
                }
            },
            None => Err(DecodeError::MalformedFrame),
        }
    } else {
        Err(DecodeError::MalformedFrame)
    }
}

/// The wire form of a string can also be taken apart from the front.
proof fn lemma_escape_unfold_first(cs: Seq<char>)
    requires
        cs.len() > 0,
    ensures
        escape(cs) == esc_char(cs[0]) + escape(cs.drop_first()),
    decreases cs.len(),
{
    if cs.len() == 1 {
        assert(cs.drop_last() =~= Seq::<char>::empty());
        assert(cs.drop_first() =~= Seq::<char>::empty());
        assert(escape(cs) =~= esc_char(cs[0]) + escape(cs.drop_first()));
    } else {
        let dl = cs.drop_last();
        lemma_escape_unfold_first(dl);
        assert(cs.drop_first().drop_last() =~= dl.drop_first());
        assert(cs.drop_first().last() == cs.last());
        assert(escape(cs.drop_first()) == escape(dl.drop_first()) + esc_char(cs.last()));
        assert(escape(cs) =~= esc_char(cs[0]) + escape(cs.drop_first()));
    }
}

/// Scanning an escaped body followed by its closing quote consumes exactly
/// that much and recovers the original characters, whatever follows.
proof fn lemma_scan_escape(cs: Seq<char>, t: Seq<char>)
    ensures
        scan_len(escape(cs) + seq!['"'] + t) == escape(cs).len() + 1,
        content(escape(cs) + seq!['"'] + t) == cs,
    decreases cs.len(),
{
    let rem = escape(cs) + seq!['"'] + t;
    if cs.len() == 0 {
        assert(escape(cs) =~= Seq::<char>::empty());
        assert(rem[0] == '"');
        assert(content(rem) =~= cs);
    } else {
        lemma_escape_unfold_first(cs);
        let c = cs[0];
        let cs1 = cs.drop_first();
        lemma_scan_escape(cs1, t);
        let rem1 = escape(cs1) + seq!['"'] + t;
        if c == '\\' || c == '"' {
            assert(escape(cs).len() == 2 + escape(cs1).len());
            assert(rem[0] == '\\');
            assert(rem[1] == c);
            assert(rem.subrange(2, rem.len() as int) =~= rem1);
            assert(content(rem) == seq![c] + content(rem1));
            assert(seq![c] + cs1 =~= cs);
        } else {
            assert(escape(cs).len() == 1 + escape(cs1).len());
            assert(rem[0] == c);
            assert(rem.subrange(1, rem.len() as int) =~= rem1);
            assert(content(rem) == seq![rem[0]] + content(rem1));
            assert(seq![c] + cs1 =~= cs);
        }
    }
}

/// The argument-list body can also be taken apart from the front.
proof fn lemma_args_body_unfold_first(args: Seq<Seq<char>>)
    requires
        args.len() > 0,
    ensures
        args.len() == 1 ==> args_body(args) == quoted(args[0]),
        args.len() > 1 ==> args_body(args) == quoted(args[0]) + seq![','] + args_body(
            args.drop_first(),
        ),
    decreases args.len(),
{
    if args.len() == 1 {
    } else if args.len() == 2 {
        let dl = args.drop_last();
        assert(dl.len() == 1);
        assert(dl[0] == args[0]);
        assert(args.drop_first().len() == 1);
        assert(args.drop_first()[0] == args[1]);
        assert(args_body(dl) == quoted(args[0]));
        assert(args_body(args) == args_body(dl) + seq![','] + quoted(args.last()));
        assert(args_body(args.drop_first()) == quoted(args[1]));
        assert(args.last() == args[1]);
        assert(args_body(args) =~= quoted(args[0]) + seq![','] + args_body(args.drop_first()));
    } else {
        let dl = args.drop_last();
        lemma_args_body_unfold_first(dl);
        assert(dl.len() > 1);
        assert(dl[0] == args[0]);
        assert(args_body(dl) == quoted(args[0]) + seq![','] + args_body(dl.drop_first()));
        assert(args_body(args) == args_body(dl) + seq![','] + quoted(args.last()));
        assert(args.drop_first().drop_last() =~= dl.drop_first());
        assert(args.drop_first().last() == args.last());
        assert(args.drop_first().len() > 1);
        assert(args_body(args.drop_first()) == args_body(dl.drop_first()) + seq![','] + quoted(
            args.last(),
        ));
        assert(args_body(args) =~= quoted(args[0]) + seq![','] + args_body(args.drop_first()));
    }
}

/// Parsing the encoded argument list recovers the arguments and consumes
/// through the closing bracket, whatever follows.
proof fn lemma_parse_args_roundtrip(args: Seq<Seq<char>>, t: Seq<char>)
    ensures
        parse_args(args_body(args) + seq![']'] + t) == Some(
            (args, args_body(args).len() as int + 1),
        ),
    decreases args.len(),
{
    let rem = args_body(args) + seq![']'] + t;
    if args.len() == 0 {
        assert(args_body(args) =~= Seq::<char>::empty());
        assert(rem[0] == ']');
        assert(Seq::<Seq<char>>::empty() =~= args);
    } else {
        lemma_args_body_unfold_first(args);
        let a0 = args[0];
        assert(quoted(a0)[0] == '"');
        assert(rem[0] == '"');
        let inner = rem.subrange(1, rem.len() as int);
        if args.len() == 1 {
            assert(inner =~= escape(a0) + seq!['"'] + (seq![']'] + t));
            lemma_scan_escape(a0, seq![']'] + t);
            let nn = escape(a0).len() as int + 1;
            assert(scan_len(inner) == nn);
            assert(content(inner) == a0);
            let j = 1 + nn;
            assert(j == quoted(a0).len());
            assert(rem[j] == ']');
            assert(seq![a0] =~= args);
            assert(parse_args(rem) == Some((args, args_body(args).len() as int + 1)));
        } else {
            let df = args.drop_first();
            let rest = seq![','] + args_body(df) + seq![']'] + t;
            assert(inner =~= escape(a0) + seq!['"'] + rest);
            lemma_scan_escape(a0, rest);
            let nn = escape(a0).len() as int + 1;
            assert(scan_len(inner) == nn);
            assert(content(inner) == a0);
            let j = 1 + nn;
            assert(j == quoted(a0).len());
            assert(rem[j] == ',');
            let rem2 = rem.subrange(j + 1, rem.len() as int);
            assert(rem2 =~= args_body(df) + seq![']'] + t);
            lemma_parse_args_roundtrip(df, t);
            assert(parse_args(rem2) == Some((df, args_body(df).len() as int + 1)));
            assert(seq![a0] + df =~= args);
            assert(args_body(args).len() == quoted(a0).len() + 1 + args_body(df).len());
            assert(parse_args(rem) == Some((args, args_body(args).len() as int + 1)));
        }
    }
}

/// The three variant prefixes are mutually exclusive on encoded texts.
proof fn lemma_prefixes_distinct()
    ensures
        chat_prefix().len() == 26,
        cmd_prefix().len() == 20,
        sys_prefix().len() == 18,
        chat_mid().len() == 12,
        cmd_mid().len() == 9,
        chat_prefix()[2] == 'C' && chat_prefix()[3] == 'h',
        cmd_prefix()[2] == 'C' && cmd_prefix()[3] == 'o',
        sys_prefix()[2] == 'S',
{
    reveal_strlit("{\"ChatMessage\":{\"sender\":\"");
    reveal_strlit("{\"Command\":{\"name\":\"");
    reveal_strlit("{\"SystemMessage\":\"");
    reveal_strlit(",\"content\":\"");
    reveal_strlit(",\"args\":[");
}

/// Round trip: decoding the wire text of any envelope gives that envelope
/// back, in each of the three variants.
#[verifier::rlimit(100)]
#[verifier::spinoff_prover]
pub proof fn lemma_decode_encode(e: Envelope)
    ensures
        spec_decode(spec_encode(e)) == Some(e),
{
    lemma_prefixes_distinct();
    match e {
        Envelope::ChatMessage { sender, content } => {
            let enc = spec_encode(e);
            assert(enc.subrange(0, chat_prefix().len() as int) =~= chat_prefix());
            assert(starts_with(enc, chat_prefix()));
            let rem1 = enc.subrange(chat_prefix().len() as int, enc.len() as int);
            let t1 = chat_mid() + escape(content) + seq!['"'] + "}}"@;
            assert(rem1 =~= escape(sender) + seq!['"'] + t1);
            lemma_scan_escape(sender, t1);
            let n1 = escape(sender).len() as int + 1;
            let rem2 = rem1.subrange(n1, rem1.len() as int);
            assert(rem2 =~= t1);
            assert(rem2.subrange(0, chat_mid().len() as int) =~= chat_mid());
            assert(starts_with(rem2, chat_mid()));
            let rem3 = rem2.subrange(chat_mid().len() as int, rem2.len() as int);
            assert(rem3 =~= escape(content) + seq!['"'] + "}}"@);
            lemma_scan_escape(content, "}}"@);
            let n3 = escape(content).len() as int + 1;
            let rem4 = rem3.subrange(n3, rem3.len() as int);
            assert(rem4 =~= "}}"@);
        },
        Envelope::Command { name, args } => {
            let enc = spec_encode(e);
            assert(enc[2] == 'C' && enc[3] == 'o');
            assert(!starts_with(enc, chat_prefix())) by {
                if starts_with(enc, chat_prefix()) {
                    assert(enc.subrange(0, 26)[3] == enc[3]);
                }
            }
            assert(enc.subrange(0, cmd_prefix().len() as int) =~= cmd_prefix());
            assert(starts_with(enc, cmd_prefix()));
            let rem1 = enc.subrange(cmd_prefix().len() as int, enc.len() as int);
            let t1 = cmd_mid() + args_body(args) + seq![']'] + "}}"@;
            assert(rem1 =~= escape(name) + seq!['"'] + t1);
            lemma_scan_escape(name, t1);
            let n1 = escape(name).len() as int + 1;
            let rem2 = rem1.subrange(n1, rem1.len() as int);
            assert(rem2 =~= t1);
            assert(rem2.subrange(0, cmd_mid().len() as int) =~= cmd_mid());
            assert(starts_with(rem2, cmd_mid()));
            let rem3 = rem2.subrange(cmd_mid().len() as int, rem2.len() as int);
            assert(rem3 =~= args_body(args) + seq![']'] + "}}"@);
            lemma_parse_args_roundtrip(args, "}}"@);
            let m = args_body(args).len() as int + 1;
            assert(rem3.subrange(m as int, rem3.len() as int) =~= "}}"@);
        },
        Envelope::SystemMessage { text } => {
            let enc = spec_encode(e);
            assert(enc[2] == 'S');
            assert(!starts_with(enc, chat_prefix())) by {
                if starts_with(enc, chat_prefix()) {
                    assert(enc.subrange(0, 26)[2] == enc[2]);
                }
            }
            assert(!starts_with(enc, cmd_prefix())) by {
                if starts_with(enc, cmd_prefix()) {
                    assert(enc.subrange(0, 20)[2] == enc[2]);
                }
            }
            assert(enc.subrange(0, sys_prefix().len() as int) =~= sys_prefix());
            assert(starts_with(enc, sys_prefix()));
            let rem1 = enc.subrange(sys_prefix().len() as int, enc.len() as int);
            assert(rem1 =~= escape(text) + seq!['"'] + "}"@);
            lemma_scan_escape(text, "}"@);
            let n1 = escape(text).len() as int + 1;
            let rem2 = rem1.subrange(n1, rem1.len() as int);
            assert(rem2 =~= "}"@);
        },
    }
}

} // verus!
