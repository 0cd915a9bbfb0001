//! Text wrapping for the terminal view: greedy word wrap at a maximum
//! width, with explicit line breaks honoured.

use vstd::prelude::*;
use vstd::string::*;

use crate::text::push_char;

verus! {

/// Word separators inside a line; a line feed ends the line itself.
pub open spec fn is_space(c: char) -> bool {
    c == ' ' || c == '\t' || c == '\r'
}

/// Wrapping state: finished lines, the line being filled, and the word
/// being read.
pub struct WrapState {
    pub lines: Seq<Seq<char>>,
    pub cur: Seq<char>,
    pub word: Seq<char>,
}

pub open spec fn wrap_init() -> WrapState {
    WrapState { lines: Seq::empty(), cur: Seq::empty(), word: Seq::empty() }
}

/// Moves the pending word onto the current line: appended after a space
/// when it fits, or onto a fresh line when the widths together overflow.
pub open spec fn wrap_flush_word(st: WrapState, width: int) -> WrapState {
    if st.word.len() == 0 {
        st
    } else if st.cur.len() + st.word.len() > width {
        WrapState { lines: st.lines.push(st.cur), cur: st.word, word: Seq::empty() }
    } else if st.cur.len() == 0 {
        WrapState { lines: st.lines, cur: st.word, word: Seq::empty() }
    } else {
        WrapState { lines: st.lines, cur: st.cur + seq![' '] + st.word, word: Seq::empty() }
    }
}

/// One character of input.
pub open spec fn wrap_step(st: WrapState, c: char, width: int) -> WrapState {
    if c == '\n' {
        let f = wrap_flush_word(st, width);
        WrapState { lines: f.lines.push(f.cur), cur: Seq::empty(), word: Seq::empty() }
    } else if is_space(c) {
        wrap_flush_word(st, width)
    } else {
        WrapState { lines: st.lines, cur: st.cur, word: st.word.push(c) }
    }
}

pub open spec fn wrap_fold(s: Seq<char>, width: int) -> WrapState
    decreases s.len(),
{
    if s.len() == 0 {
        wrap_init()
    } else {
        wrap_step(wrap_fold(s.drop_last(), width), s.last(), width)
    }
}

/// The wrapped lines of a whole text: fold every character, flush the
/// last word, close the last line.
pub open spec fn spec_wrap(s: Seq<char>, width: int) -> Seq<Seq<char>> {
    let f = wrap_flush_word(wrap_fold(s, width), width);
    f.lines.push(f.cur)
}

/// Appends one line to the vector, tracking the deep view.
fn push_string_line(lines: &mut Vec<String>, s: String)
    ensures
        final(lines).deep_view() == old(lines).deep_view().push(s@),
{
    let ghost pre = lines@;
    let ghost pre_dv = lines.deep_view();
    let ghost sval = s;
    lines.push(s);
    proof {
        assert(lines@ == pre.push(sval));
        assert forall|m: int|
            0 <= m < lines@.len() implies lines.deep_view()[m] == pre_dv.push(sval@)[m] by {
            if m < pre.len() {
                assert(lines@[m] == pre[m]);
                assert(pre_dv[m] == pre[m]@);
            } else {
                assert(lines@[m] == sval);
            }
        }
        assert(lines.deep_view() =~= pre_dv.push(sval@));
    }
}

/// Applies [`wrap_flush_word`] to the executable state; gives back the
/// new current line and pending word.
fn flush_word(lines: &mut Vec<String>, cur: String, word: String, width: usize) -> (r: (
    String,
    String,
))
    ensures
        ({
            let st = WrapState { lines: old(lines).deep_view(), cur: cur@, word: word@ };
            let f = wrap_flush_word(st, width as int);
            final(lines).deep_view() == f.lines && r.0@ == f.cur && r.1@ == f.word
        }),
{
    let ghost st = WrapState { lines: lines.deep_view(), cur: cur@, word: word@ };
    if word.as_str().unicode_len() == 0 {
        proof {
            assert(word@.len() == 0);
        }
        return (cur, word);
    }
    let clen = cur.as_str().unicode_len();
    let wlen = word.as_str().unicode_len();
    let over = if clen > width {
        true
    } else {
        wlen > width - clen
    };
    if over {
        push_string_line(lines, cur);
        (word, String::new())
    } else if clen == 0 {
        (word, String::new())
    } else {
        let mut joined = cur;
        push_char(&mut joined, ' ');
        joined.append(word.as_str());
        proof {
            assert(joined@ =~= st.cur + seq![' '] + st.word);
        }
        (joined, String::new())
    }
}

/// Runs the wrap fold over the text and materializes the lines.
fn wrap_chars(text: &str, width: usize) -> (r: Vec<String>)
    ensures
        r.deep_view() == spec_wrap(text@, width as int),
{
    let n = text.unicode_len();
    let mut lines: Vec<String> = Vec::new();
    let mut cur = String::new();
    let mut word = String::new();
    let mut i: usize = 0;
    proof {
        assert(lines.deep_view() =~= Seq::<Seq<char>>::empty());
        assert(text@.subrange(0, 0) =~= Seq::<char>::empty());
    }
    while i < n
        invariant
            n == text@.len(),
            i <= n,
            lines.deep_view() == wrap_fold(text@.subrange(0, i as int), width as int).lines,
            cur@ == wrap_fold(text@.subrange(0, i as int), width as int).cur,
            word@ == wrap_fold(text@.subrange(0, i as int), width as int).word,
        decreases n - i,
    {
        let ghost pre = text@.subrange(0, i as int);
        let c = text.get_char(i);
        if c == '\n' {
            let pair = flush_word(&mut lines, cur, word, width);
            push_string_line(&mut lines, pair.0);
            cur = String::new();
            word = pair.1;
        } else if c == ' ' || c == '\t' || c == '\r' {
            let pair = flush_word(&mut lines, cur, word, width);
            cur = pair.0;
            word = pair.1;
        } else {
            push_char(&mut word, c);
        }
        i += 1;
        proof {
            let cur_s = text@.subrange(0, i as int);
            assert(cur_s.drop_last() =~= pre);
            assert(cur_s.last() == c);
        }
    }
    proof {
        assert(text@.subrange(0, n as int) =~= text@);
    }
    let pair = flush_word(&mut lines, cur, word, width);
    push_string_line(&mut lines, pair.0);
    lines
}

/// Wraps text into lines no wider than `max_width` characters, breaking
/// greedily between words; a word longer than the width stands on a line
/// of its own, and every line feed in the input ends a line.
pub fn wrap_text(text: &str, max_width: usize) -> (r: Vec<String>)
    ensures
        r.deep_view() == spec_wrap(text@, max_width as int),
{
    wrap_chars(text, max_width)
}

/// Like [`wrap_text`], with the width clamped to at least ten columns.
pub fn wrap_single_line(line: &str, max_width: usize) -> (r: Vec<String>)
    ensures
        r.deep_view() == spec_wrap(
            line@,
            (if max_width >= 10 {
                max_width as int
            } else {
                10
            }),
        ),
{
    let w = if max_width >= 10 {
        max_width
    } else {
        10
    };
    wrap_chars(line, w)
}

} // verus!
