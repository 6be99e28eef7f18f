//! A configuration file as text and as a sequence of lines.
//!
//! A line ends at a line feed; a carriage return that stands directly before
//! that line feed belongs to the line ending. The last line needs no line
//! feed. Written back, each line is followed by one line feed.

use crate::text::{chars_of, string_of, string_views};
use vstd::prelude::*;
use vstd::string::StringExecFns;

verus! {

/// The place of the first line feed of `s`, or the length of `s` where it
/// holds none.
pub open spec fn newline_at(s: Seq<char>) -> int
    decreases s.len(),
{
    if s.len() == 0 || s.first() == '\n' {
        0
    } else {
        1 + newline_at(s.drop_first())
    }
}

/// `s` without the carriage return at its end, if it has one.
pub open spec fn strip_cr(s: Seq<char>) -> Seq<char> {
    if s.len() > 0 && s.last() == '\r' {
        s.drop_last()
    } else {
        s
    }
}

/// The lines of `text`.
pub open spec fn lines_of(text: Seq<char>) -> Seq<Seq<char>>
    decreases text.len(),
{
    if text.len() == 0 {
        Seq::empty()
    } else {
        let k = newline_at(text);
        if 0 <= k < text.len() {
            seq![strip_cr(text.take(k))] + lines_of(text.skip(k + 1))
        } else {
            seq![text]
        }
    }
}

/// The text that holds `lines`, each followed by a line feed.
pub open spec fn text_of(lines: Seq<Seq<char>>) -> Seq<char>
    decreases lines.len(),
{
    if lines.len() == 0 {
        Seq::empty()
    } else {
        text_of(lines.drop_last()) + lines.last() + seq!['\n']
    }
}

/// `newline_at` is the one place before which no line feed stands and at
/// which one does, or the end.
pub proof fn lemma_newline_at(s: Seq<char>, k: int)
    requires
        0 <= k <= s.len(),
        forall|j: int| 0 <= j < k ==> #[trigger] s[j] != '\n',
        k < s.len() ==> s[k] == '\n',
    ensures
        newline_at(s) == k,
    decreases s.len(),
{
    if k > 0 {
        let t = s.drop_first();
        assert(s[0] != '\n');
        assert forall|j: int| 0 <= j < k - 1 implies #[trigger] t[j] != '\n' by {
            assert(t[j] == s[j + 1]);
        }
        lemma_newline_at(t, k - 1);
    }
}

/// Follows from the definition: `newline_at` lies within the text, with no
/// line feed before it and one at it unless it is the end.
pub proof fn lemma_newline_at_bounds(s: Seq<char>)
    ensures
        0 <= newline_at(s) <= s.len(),
        forall|j: int| 0 <= j < newline_at(s) ==> #[trigger] s[j] != '\n',
        newline_at(s) < s.len() ==> s[newline_at(s)] == '\n',
    decreases s.len(),
{
    if s.len() == 0 || s.first() == '\n' {
    } else {
        let t = s.drop_first();
        lemma_newline_at_bounds(t);
        assert forall|j: int| 0 <= j < newline_at(s) implies #[trigger] s[j] != '\n' by {
            if j > 0 {
                assert(s[j] == t[j - 1]);
            }
        }
    }
}

/// No line feed stands in `s`.
pub open spec fn no_newline(s: Seq<char>) -> bool {
    forall|i: int| 0 <= i < s.len() ==> #[trigger] s[i] != '\n'
}

/// No line feed stands in any of `lines`.
pub open spec fn all_no_newline(lines: Seq<Seq<char>>) -> bool {
    forall|i: int| 0 <= i < lines.len() ==> no_newline(#[trigger] lines[i])
}

/// `lines`, each without the carriage return at its end, if it has one.
pub open spec fn stripped(lines: Seq<Seq<char>>) -> Seq<Seq<char>> {
    Seq::new(lines.len(), |i: int| strip_cr(lines[i]))
}

/// A text that begins with a line `a` and its line feed has `a` as its
/// first line, and the lines of the rest after it.
pub proof fn lemma_lines_of_first(a: Seq<char>, rest: Seq<char>)
    requires
        no_newline(a),
    ensures
        lines_of(a + seq!['\n'] + rest) == seq![strip_cr(a)] + lines_of(rest),
{
    let text = a + seq!['\n'] + rest;
    assert forall|j: int| 0 <= j < a.len() implies #[trigger] text[j] != '\n' by {
        assert(text[j] == a[j]);
    }
    assert(text[a.len() as int] == '\n');
    lemma_newline_at(text, a.len() as int);
    assert(text.take(a.len() as int) == a);
    assert(text.skip(a.len() as int + 1) == rest);
}

/// No line of a text holds a line feed.
pub proof fn lemma_lines_of_no_newline(text: Seq<char>)
    ensures
        all_no_newline(lines_of(text)),
    decreases text.len(),
{
    if text.len() > 0 {
        let k = newline_at(text);
        lemma_newline_at_bounds(text);
        if k < text.len() {
            let rest = text.skip(k + 1);
            lemma_lines_of_no_newline(rest);
            let first = strip_cr(text.take(k));
            assert forall|j: int| 0 <= j < first.len() implies #[trigger] first[j] != '\n' by {
                assert(first[j] == text[j]);
            }
            let all = lines_of(text);
            assert forall|i: int| 0 <= i < all.len() implies no_newline(#[trigger] all[i]) by {
                if i > 0 {
                    assert(all[i] == lines_of(rest)[i - 1]);
                }
            }
        }
    }
}

/// The text of lines begins with the first line and its line feed.
pub proof fn lemma_text_of_first(a: Seq<char>, lines: Seq<Seq<char>>)
    ensures
        text_of(seq![a] + lines) == a + seq!['\n'] + text_of(lines),
    decreases lines.len(),
{
    let all = seq![a] + lines;
    if lines.len() == 0 {
        assert(all.drop_last() == Seq::<Seq<char>>::empty());
        assert(text_of(all.drop_last()) == Seq::<char>::empty());
        assert(text_of(all) =~= a + seq!['\n'] + text_of(lines));
    } else {
        lemma_text_of_first(a, lines.drop_last());
        assert(all.drop_last() == seq![a] + lines.drop_last());
        assert(all.last() == lines.last());
        assert(text_of(all) =~= a + seq!['\n'] + text_of(lines));
    }
}

/// Lines that are written, with more text behind them, are read as they
/// were, but for a carriage return at the end of a line, which the reading
/// takes for part of the line ending; the lines of the text behind follow.
pub proof fn lemma_lines_of_text_of_then(lines: Seq<Seq<char>>, rest: Seq<char>)
    requires
        all_no_newline(lines),
    ensures
        lines_of(text_of(lines) + rest) == stripped(lines) + lines_of(rest),
    decreases lines.len(),
{
    if lines.len() == 0 {
        assert(stripped(lines) =~= Seq::<Seq<char>>::empty());
        assert(text_of(lines) + rest =~= rest);
        assert(stripped(lines) + lines_of(rest) =~= lines_of(rest));
    } else {
        let a = lines[0];
        let tail = lines.skip(1);
        assert(lines == seq![a] + tail);
        assert forall|i: int| 0 <= i < tail.len() implies no_newline(#[trigger] tail[i]) by {
            assert(tail[i] == lines[i + 1]);
        }
        lemma_lines_of_text_of_then(tail, rest);
        lemma_text_of_first(a, tail);
        assert(text_of(lines) + rest =~= a + seq!['\n'] + (text_of(tail) + rest));
        lemma_lines_of_first(a, text_of(tail) + rest);
        assert(stripped(lines) =~= seq![strip_cr(a)] + stripped(tail));
        assert(stripped(lines) + lines_of(rest) =~= seq![strip_cr(a)] + (stripped(tail) + lines_of(
            rest,
        )));
    }
}

/// Written and read again, lines come back as they were, but for a
/// carriage return at the end of a line.
pub proof fn lemma_lines_of_text_of(lines: Seq<Seq<char>>)
    requires
        all_no_newline(lines),
    ensures
        lines_of(text_of(lines)) == stripped(lines),
{
    lemma_lines_of_text_of_then(lines, Seq::empty());
    assert(text_of(lines) + Seq::<char>::empty() =~= text_of(lines));
    assert(lines_of(Seq::<char>::empty()) == Seq::<Seq<char>>::empty());
    assert(stripped(lines) + Seq::<Seq<char>>::empty() =~= stripped(lines));
}

/// The lines of a text that is followed by a line feed and more text: the
/// lines of the text with that line feed, then the lines of the rest.
pub proof fn lemma_lines_of_concat(text: Seq<char>, rest: Seq<char>)
    ensures
        lines_of(text + seq!['\n'] + rest) == lines_of(text + seq!['\n']) + lines_of(rest),
    decreases text.len(),
{
    let k = newline_at(text);
    lemma_newline_at_bounds(text);
    let nl = seq!['\n'];
    if k < text.len() {
        let a = text.take(k);
        let tail = text.skip(k + 1);
        assert(no_newline(a)) by {
            assert forall|j: int| 0 <= j < a.len() implies #[trigger] a[j] != '\n' by {
                assert(a[j] == text[j]);
            }
        }
        assert(text + nl + rest =~= a + nl + (tail + nl + rest));
        assert(text + nl =~= a + nl + (tail + nl));
        lemma_lines_of_first(a, tail + nl + rest);
        lemma_lines_of_first(a, tail + nl);
        lemma_lines_of_concat(tail, rest);
    } else {
        assert(no_newline(text));
        lemma_lines_of_first(text, rest);
        lemma_lines_of_first(text, Seq::<char>::empty());
        assert(text + nl + Seq::<char>::empty() =~= text + nl);
        assert(lines_of(Seq::<char>::empty()) == Seq::<Seq<char>>::empty());
    }
}

/// The lines of `text`: cut at each line feed, a carriage return before it
/// dropped with it.
pub fn split_lines(text: &str) -> (lines: Vec<String>)
    ensures
        string_views(lines@) == lines_of(text@),
{
    let v = chars_of(text);
    let mut lines: Vec<String> = Vec::new();
    let mut start: usize = 0;
    let mut i: usize = 0;
    proof {
        assert(v@.skip(0) == v@);
        assert(string_views(lines@) + lines_of(v@.skip(0)) == lines_of(v@));
    }
    while i < v.len()
        invariant
            start <= i <= v.len(),
            v@ == text@,
            forall|j: int| start <= j < i ==> #[trigger] v@[j] != '\n',
            string_views(lines@) + lines_of(v@.skip(start as int)) == lines_of(v@),
        decreases v.len() - i,
    {
        if v[i] == '\n' {
            let end: usize = if i > start && v[i - 1] == '\r' {
                i - 1
            } else {
                i
            };
            let line = string_of(&v, start, end);
            proof {
                let rest = v@.skip(start as int);
                assert forall|j: int| 0 <= j < i - start implies #[trigger] rest[j] != '\n' by {
                    assert(rest[j] == v@[start + j]);
                }
                lemma_newline_at(rest, i - start);
                assert(rest.take(i - start) == v@.subrange(start as int, i as int));
                assert(strip_cr(rest.take(i - start)) == line@) by {
                    let l = v@.subrange(start as int, i as int);
                    if i > start {
                        assert(l.last() == v@[i - 1]);
                        assert(l.drop_last() == v@.subrange(start as int, i - 1));
                    }
                }
                assert(rest.skip(i - start + 1) == v@.skip(i + 1));
                assert(string_views(lines@.push(line)) == string_views(lines@) + seq![line@]);
            }
            lines.push(line);
            start = i + 1;
        }
        i += 1;
    }
    if start < v.len() {
        let line = string_of(&v, start, v.len());
        proof {
            let rest = v@.skip(start as int);
            assert forall|j: int| 0 <= j < rest.len() implies #[trigger] rest[j] != '\n' by {
                assert(rest[j] == v@[start + j]);
            }
            lemma_newline_at(rest, rest.len() as int);
            assert(rest == v@.subrange(start as int, v.len() as int));
            assert(string_views(lines@.push(line)) == string_views(lines@) + seq![line@]);
        }
        lines.push(line);
    } else {
        proof {
            assert(lines_of(v@.skip(start as int)) == Seq::<Seq<char>>::empty());
        }
    }
    lines
}

/// The text that holds `lines`, each followed by a line feed.
pub fn join_lines(lines: &Vec<String>) -> (text: String)
    ensures
        text@ == text_of(string_views(lines@)),
{
    let mut text = String::new();
    let mut i: usize = 0;
    while i < lines.len()
        invariant
            i <= lines.len(),
            text@ == text_of(string_views(lines@).take(i as int)),
        decreases lines.len() - i,
    {
        proof {
            let all = string_views(lines@);
            assert(all.take(i + 1).drop_last() == all.take(i as int));
            assert(all.take(i + 1).last() == lines@[i as int]@);
            reveal_strlit("\n");
            assert("\n"@ == seq!['\n']);
        }
        text.append(lines[i].as_str());
        text.append("\n");
        i += 1;
    }
    proof {
        let all = string_views(lines@);
        assert(all.take(lines.len() as int) == all);
    }
    text
}

} // verus!
