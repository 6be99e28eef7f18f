//! What holds of the operations taken together: of what the parser reads
//! after the cleanup pass, after a block is added, and after one is removed.

use crate::append::{appended, block_text};
use crate::cleanup::{cleaned, collapsed, lemma_collapsed_no_blank_runs, no_blank_runs};
use crate::entry::{is_word, HostEntry};
use crate::lines::{
    all_no_newline, lemma_lines_of_concat, lemma_lines_of_first, lemma_lines_of_no_newline,
    lemma_lines_of_text_of, lemma_newline_at_bounds, lines_of, newline_at, no_newline, strip_cr,
    stripped, text_of,
};
use crate::parser::{
    directive, entries, host_key, hostname_key, identity_key, is_key, last_host,
    lemma_entries_finish, lemma_ignored_is_no_directive, lemma_keys, lemma_keys_exclusive,
    lemma_last_host, lemma_scan_push, scan, step, user_key, Scan,
};
use crate::remove::{
    lemma_without_block_absent, lemma_without_block_no_host, names_host, no_host_named, removed,
    without_block,
};
use crate::text::{
    is_blank, is_space, lemma_trim, lemma_trim_idempotent, lemma_trim_is, lemma_trim_of_trimmed,
    trim,
};
use vstd::prelude::*;

verus! {

/// The lines that carry something, each trimmed: what the parser goes by.
pub open spec fn trimmed_lines(lines: Seq<Seq<char>>) -> Seq<Seq<char>>
    decreases lines.len(),
{
    if lines.len() == 0 {
        lines
    } else if is_blank(lines.last()) {
        trimmed_lines(lines.drop_last())
    } else {
        trimmed_lines(lines.drop_last()).push(trim(lines.last()))
    }
}

/// A carriage return at the end of a line is white space: with or without
/// it the line trims to the same.
pub proof fn lemma_trim_strip_cr(line: Seq<char>)
    ensures
        trim(strip_cr(line)) == trim(line),
{
    if line.len() > 0 && line.last() == '\r' {
        let t = line.drop_last();
        lemma_trim(t);
        let (a, b) = choose|a: int, b: int|
            0 <= a <= b <= t.len() && #[trigger] t.subrange(a, b) == trim(t) && (forall|i: int|
                0 <= i < a ==> is_space(#[trigger] t[i])) && (forall|i: int|
                b <= i < t.len() ==> is_space(#[trigger] t[i]));
        assert(line.subrange(a, b) == t.subrange(a, b));
        assert forall|i: int| 0 <= i < a implies is_space(#[trigger] line[i]) by {
            assert(line[i] == t[i]);
        }
        assert forall|i: int| b <= i < line.len() implies is_space(#[trigger] line[i]) by {
            if i < t.len() {
                assert(line[i] == t[i]);
            }
        }
        lemma_trim_is(line, a, b);
    }
}

/// What two runs of lines carry is what the first carries, then what the
/// second carries.
pub(crate) proof fn lemma_trimmed_lines_add(a: Seq<Seq<char>>, b: Seq<Seq<char>>)
    ensures
        trimmed_lines(a + b) == trimmed_lines(a) + trimmed_lines(b),
    decreases b.len(),
{
    if b.len() == 0 {
        assert(a + b == a);
        assert(trimmed_lines(a) + trimmed_lines(b) == trimmed_lines(a));
    } else {
        lemma_trimmed_lines_add(a, b.drop_last());
        assert((a + b).drop_last() == a + b.drop_last());
        assert((a + b).last() == b.last());
        if !is_blank(b.last()) {
            assert((trimmed_lines(a) + trimmed_lines(b.drop_last())).push(trim(b.last()))
                == trimmed_lines(a) + trimmed_lines(b.drop_last()).push(trim(b.last())));
        }
    }
}

/// A single line carries itself, trimmed, or nothing where it is blank.
proof fn lemma_trimmed_lines_one(line: Seq<char>)
    ensures
        trimmed_lines(seq![line]) == if is_blank(line) {
            Seq::<Seq<char>>::empty()
        } else {
            seq![trim(line)]
        },
{
    let one = seq![line];
    assert(one.drop_last() == Seq::<Seq<char>>::empty());
    assert(trimmed_lines(one.drop_last()) == Seq::<Seq<char>>::empty());
    assert(one.last() == line);
    if !is_blank(line) {
        assert(Seq::<Seq<char>>::empty().push(trim(line)) == seq![trim(line)]);
    }
}

/// Carriage returns at the ends of lines change nothing that the lines
/// carry.
pub(crate) proof fn lemma_trimmed_lines_stripped(lines: Seq<Seq<char>>)
    ensures
        trimmed_lines(stripped(lines)) == trimmed_lines(lines),
    decreases lines.len(),
{
    if lines.len() == 0 {
        assert(stripped(lines) == lines);
    } else {
        lemma_trimmed_lines_stripped(lines.drop_last());
        assert(stripped(lines).drop_last() == stripped(lines.drop_last()));
        lemma_trim_strip_cr(lines.last());
    }
}

/// The cleanup pass changes nothing that the lines carry.
proof fn lemma_trimmed_lines_collapsed(lines: Seq<Seq<char>>)
    ensures
        trimmed_lines(collapsed(lines)) == trimmed_lines(lines),
    decreases lines.len(),
{
    if lines.len() > 0 {
        let init = lines.drop_last();
        lemma_trimmed_lines_collapsed(init);
        if !(is_blank(lines.last()) && init.len() > 0 && is_blank(init.last())) {
            assert(collapsed(init).push(lines.last()).drop_last() == collapsed(init));
        }
    }
}

/// Each line that the cleanup pass leaves is a line of its input.
pub proof fn lemma_collapsed_members(lines: Seq<Seq<char>>)
    ensures
        forall|i: int|
            0 <= i < collapsed(lines).len() ==> lines.contains(#[trigger] collapsed(lines)[i]),
    decreases lines.len(),
{
    if lines.len() > 0 {
        let init = lines.drop_last();
        lemma_collapsed_members(init);
        let out = collapsed(lines);
        assert forall|i: int| 0 <= i < out.len() implies lines.contains(#[trigger] out[i]) by {
            if i < collapsed(init).len() {
                assert(out[i] == collapsed(init)[i]);
                let j = choose|j: int| 0 <= j < init.len() && init[j] == collapsed(init)[i];
                assert(lines[j] == out[i]);
            } else {
                assert(out[i] == lines[lines.len() - 1]);
            }
        }
    }
}

/// Lines taken from among lines without a line feed hold none either.
proof fn lemma_members_no_newline(lines: Seq<Seq<char>>, part: Seq<Seq<char>>)
    requires
        all_no_newline(lines),
        forall|i: int| 0 <= i < part.len() ==> lines.contains(#[trigger] part[i]),
    ensures
        all_no_newline(part),
{
    assert forall|i: int| 0 <= i < part.len() implies no_newline(#[trigger] part[i]) by {
        let j = choose|j: int| 0 <= j < lines.len() && lines[j] == part[i];
        assert(no_newline(lines[j]));
    }
}

/// The cleanup pass brings no line feed into a line.
pub(crate) proof fn lemma_all_no_newline_collapsed(lines: Seq<Seq<char>>)
    requires
        all_no_newline(lines),
    ensures
        all_no_newline(collapsed(lines)),
{
    lemma_collapsed_members(lines);
    lemma_members_no_newline(lines, collapsed(lines));
}

/// The removal brings no line feed into a line.
pub(crate) proof fn lemma_all_no_newline_without_block(lines: Seq<Seq<char>>, name: Seq<char>)
    requires
        all_no_newline(lines),
    ensures
        all_no_newline(without_block(lines, name)),
{
    lemma_without_block_members(lines, name);
    lemma_members_no_newline(lines, without_block(lines, name));
}

/// A line that gives nothing leaves the pass where it stands.
proof fn lemma_step_ignored(s: Scan, line: Seq<char>)
    requires
        is_blank(line),
    ensures
        step(s, line) == s,
{
    lemma_ignored_is_no_directive(line);
}

/// The pass goes by the trimmed line alone.
proof fn lemma_step_trim(s: Scan, line: Seq<char>)
    ensures
        step(s, trim(line)) == step(s, line),
{
    lemma_trim_idempotent(line);
}

/// The pass holds the same after the lines as after those of them that
/// carry something, trimmed.
proof fn lemma_scan_trimmed_lines(lines: Seq<Seq<char>>)
    ensures
        scan(trimmed_lines(lines)) == scan(lines),
    decreases lines.len(),
{
    if lines.len() > 0 {
        let init = lines.drop_last();
        let line = lines.last();
        lemma_scan_trimmed_lines(init);
        assert(init.push(line) == lines);
        lemma_scan_push(init, line);
        if is_blank(line) {
            lemma_step_ignored(scan(init), line);
        } else {
            lemma_scan_push(trimmed_lines(init), trim(line));
            lemma_step_trim(scan(init), line);
        }
    }
}

/// The parser reads the same from two files whose lines that carry
/// something are the same once trimmed.
pub proof fn lemma_entries_by_trimmed_lines(a: Seq<Seq<char>>, b: Seq<Seq<char>>)
    requires
        trimmed_lines(a) == trimmed_lines(b),
    ensures
        entries(a) == entries(b),
{
    lemma_scan_trimmed_lines(a);
    lemma_scan_trimmed_lines(b);
    lemma_entries_finish(a);
    lemma_entries_finish(b);
}

/// The cleanup pass does not change what the parser reads from the lines.
pub proof fn lemma_collapsed_keeps_entries(lines: Seq<Seq<char>>)
    ensures
        entries(collapsed(lines)) == entries(lines),
{
    lemma_trimmed_lines_collapsed(lines);
    lemma_entries_by_trimmed_lines(collapsed(lines), lines);
}

/// The lines of a file after the cleanup pass carry what its lines carried
/// before.
proof fn lemma_trimmed_lines_cleaned(text: Seq<char>)
    ensures
        trimmed_lines(lines_of(cleaned(text))) == trimmed_lines(lines_of(text)),
{
    let kept = collapsed(lines_of(text));
    lemma_lines_of_no_newline(text);
    lemma_all_no_newline_collapsed(lines_of(text));
    lemma_lines_of_text_of(kept);
    lemma_trimmed_lines_stripped(kept);
    lemma_trimmed_lines_collapsed(lines_of(text));
}

/// The cleanup pass does not change what the parser reads from the file.
pub proof fn lemma_cleaned_keeps_entries(text: Seq<char>)
    ensures
        entries(lines_of(cleaned(text))) == entries(lines_of(text)),
{
    lemma_trimmed_lines_cleaned(text);
    lemma_entries_by_trimmed_lines(lines_of(cleaned(text)), lines_of(text));
}

/// Lines without two blank lines together stay so when the carriage
/// returns at their ends go.
proof fn lemma_no_blank_runs_stripped(lines: Seq<Seq<char>>)
    requires
        no_blank_runs(lines),
    ensures
        no_blank_runs(stripped(lines)),
{
    let out = stripped(lines);
    assert forall|i: int| 0 < i < out.len() implies !(is_blank(out[i - 1]) && is_blank(
        #[trigger] out[i],
    )) by {
        lemma_trim_strip_cr(lines[i]);
        lemma_trim_strip_cr(lines[i - 1]);
        assert(!(is_blank(lines[i - 1]) && is_blank(lines[i])));
    }
}

/// After the cleanup pass no two blank lines of the file stand next to
/// each other.
pub proof fn lemma_cleaned_no_blank_runs(text: Seq<char>)
    ensures
        no_blank_runs(lines_of(cleaned(text))),
{
    let kept = collapsed(lines_of(text));
    lemma_lines_of_no_newline(text);
    lemma_all_no_newline_collapsed(lines_of(text));
    lemma_lines_of_text_of(kept);
    lemma_collapsed_no_blank_runs(lines_of(text));
    lemma_no_blank_runs_stripped(kept);
}

/// A value that the parser gives back as it was written: it is not empty,
/// neither begins nor ends with white space, and holds no line feed.
pub open spec fn is_value(s: Seq<char>) -> bool {
    is_word(s) && no_newline(s)
}

/// The entry that a block with these four values stands for.
pub open spec fn entry_of(
    name: Seq<char>,
    hostname: Seq<char>,
    user: Seq<char>,
    identity: Seq<char>,
) -> HostEntry {
    HostEntry { name, hostname, user, identity_file: Some(identity) }
}

/// The lines of a block as they stand in the file: the empty line before
/// it, the `Host` line, and the three directives.
pub open spec fn block_lines(
    name: Seq<char>,
    hostname: Seq<char>,
    user: Seq<char>,
    identity: Seq<char>,
) -> Seq<Seq<char>> {
    seq![
        Seq::empty(),
        "Host "@ + name,
        "  HostName "@ + hostname,
        "  User "@ + user,
        "  IdentityFile "@ + identity,
    ]
}

/// A line feed at the end of a file adds nothing that the parser goes by.
proof fn lemma_trimmed_lines_terminated(text: Seq<char>)
    ensures
        trimmed_lines(lines_of(text + seq!['\n'])) == trimmed_lines(lines_of(text)),
    decreases text.len(),
{
    let nl = seq!['\n'];
    let none = Seq::<char>::empty();
    let k = newline_at(text);
    lemma_newline_at_bounds(text);
    if text.len() == 0 {
        assert(text + nl =~= none + nl + none);
        lemma_lines_of_first(none, none);
        assert(lines_of(none) == Seq::<Seq<char>>::empty());
        assert(seq![strip_cr(none)] + lines_of(none) == seq![none]);
        lemma_trimmed_lines_one(none);
    } else if k < text.len() {
        let a = text.take(k);
        let tail = text.skip(k + 1);
        assert(no_newline(a)) by {
            assert forall|j: int| 0 <= j < a.len() implies #[trigger] a[j] != '\n' by {
                assert(a[j] == text[j]);
            }
        }
        assert(text + nl =~= a + nl + (tail + nl));
        assert(text =~= a + nl + tail);
        lemma_lines_of_first(a, tail + nl);
        lemma_lines_of_first(a, tail);
        lemma_trimmed_lines_terminated(tail);
        lemma_trimmed_lines_add(seq![strip_cr(a)], lines_of(tail + nl));
        lemma_trimmed_lines_add(seq![strip_cr(a)], lines_of(tail));
    } else {
        assert(no_newline(text));
        assert(text + nl =~= text + nl + none);
        lemma_lines_of_first(text, none);
        assert(lines_of(none) == Seq::<Seq<char>>::empty());
        assert(seq![strip_cr(text)] + lines_of(none) == seq![strip_cr(text)]);
        assert(lines_of(text) == seq![text]);
        lemma_trimmed_lines_one(text);
        lemma_trimmed_lines_one(strip_cr(text));
        lemma_trim_strip_cr(text);
    }
}

/// A line made of white space, a keyword and a value is a directive of
/// that keyword and gives that value.
proof fn lemma_directive_line(indent: Seq<char>, key: Seq<char>, value: Seq<char>)
    requires
        forall|i: int| 0 <= i < indent.len() ==> is_space(#[trigger] indent[i]),
        key.len() > 0,
        !is_space(key.first()),
        is_value(value),
    ensures
        trim(indent + key + value) == key + value,
        directive(indent + key + value, key) == Some(value),
{
    let line = indent + key + value;
    let n = indent.len() as int;
    let t = key + value;
    assert(line.subrange(n, line.len() as int) == t);
    assert(t.first() == key.first());
    assert(t.last() == value.last());
    assert forall|i: int| 0 <= i < n implies is_space(#[trigger] line[i]) by {
        assert(line[i] == indent[i]);
    }
    lemma_trim_is(line, n, line.len() as int);
    assert(t.subrange(0, key.len() as int) == key);
    assert(t.skip(key.len() as int) == value);
    lemma_trim_of_trimmed(value);
}

/// What `key` with `value` behind it gives where `wanted` is asked for.
pub open spec fn given(key: Seq<char>, value: Seq<char>, wanted: Seq<char>) -> Option<Seq<char>> {
    if key == wanted {
        Some(value)
    } else {
        None
    }
}

/// A line made of white space, a keyword and a value carries something,
/// gives the value for its keyword, and gives nothing for the other
/// keywords.
proof fn lemma_key_line(indent: Seq<char>, key: Seq<char>, value: Seq<char>)
    requires
        forall|i: int| 0 <= i < indent.len() ==> is_space(#[trigger] indent[i]),
        is_key(key),
        is_value(value),
    ensures
        !is_blank(indent + key + value),
        directive(indent + key + value, host_key()) == given(key, value, host_key()),
        directive(indent + key + value, hostname_key()) == given(key, value, hostname_key()),
        directive(indent + key + value, user_key()) == given(key, value, user_key()),
        directive(indent + key + value, identity_key()) == given(key, value, identity_key()),
{
    lemma_keys();
    lemma_directive_line(indent, key, value);
    let t = trim(indent + key + value);
    lemma_keys_exclusive(t);
    assert(key.is_prefix_of(t)) by {
        assert((key + value).subrange(0, key.len() as int) == key);
    }
}

/// What the five lines of a block give: the first nothing, each of the
/// others the value of its keyword and nothing else.
pub(crate) proof fn lemma_block_directives(
    name: Seq<char>,
    hostname: Seq<char>,
    user: Seq<char>,
    identity: Seq<char>,
)
    requires
        is_value(name),
        is_value(hostname),
        is_value(user),
        is_value(identity),
    ensures
        ({
            let l = block_lines(name, hostname, user, identity);
            &&& l.len() == 5
            &&& l[0] == Seq::<char>::empty()
            &&& is_blank(l[0])
            &&& !is_blank(l[1]) && !is_blank(l[2]) && !is_blank(l[3]) && !is_blank(l[4])
            &&& directive(l[0], host_key()) is None
            &&& directive(l[1], host_key()) == Some(name)
            &&& directive(l[2], host_key()) is None
            &&& directive(l[3], host_key()) is None
            &&& directive(l[4], host_key()) is None
            &&& directive(l[2], hostname_key()) == Some(hostname)
            &&& directive(l[3], hostname_key()) is None
            &&& directive(l[4], hostname_key()) is None
            &&& directive(l[2], user_key()) is None
            &&& directive(l[3], user_key()) == Some(user)
            &&& directive(l[4], user_key()) is None
            &&& directive(l[2], identity_key()) is None
            &&& directive(l[3], identity_key()) is None
            &&& directive(l[4], identity_key()) == Some(identity)
        }),
{
    let none = Seq::<char>::empty();
    let two = seq![' ', ' '];
    lemma_keys();
    reveal_strlit("  HostName ");
    reveal_strlit("  User ");
    reveal_strlit("  IdentityFile ");
    assert("Host "@ + name == none + host_key() + name);
    assert("  HostName "@ + hostname =~= two + hostname_key() + hostname);
    assert("  User "@ + user =~= two + user_key() + user);
    assert("  IdentityFile "@ + identity =~= two + identity_key() + identity);
    lemma_key_line(none, host_key(), name);
    lemma_key_line(two, hostname_key(), hostname);
    lemma_key_line(two, user_key(), user);
    lemma_key_line(two, identity_key(), identity);
    assert(trim(none) == none);
    lemma_ignored_is_no_directive(none);
}

/// The five lines of a block, read after any lines, add the entry of the
/// block to what the parser reads, and change nothing before it.
pub proof fn lemma_block_lines_add_entry(
    lines: Seq<Seq<char>>,
    name: Seq<char>,
    hostname: Seq<char>,
    user: Seq<char>,
    identity: Seq<char>,
)
    requires
        is_value(name),
        is_value(hostname),
        is_value(user),
        is_value(identity),
    ensures
        entries(lines + block_lines(name, hostname, user, identity)) == entries(lines).push(
            entry_of(name, hostname, user, identity),
        ),
{
    let l = block_lines(name, hostname, user, identity);
    lemma_block_directives(name, hostname, user, identity);
    let a0 = lines.push(l[0]);
    let a1 = a0.push(l[1]);
    let a2 = a1.push(l[2]);
    let a3 = a2.push(l[3]);
    let a4 = a3.push(l[4]);
    assert(a4 =~= lines + l);
    lemma_scan_push(lines, l[0]);
    lemma_step_ignored(scan(lines), l[0]);
    lemma_scan_push(a0, l[1]);
    lemma_scan_push(a1, l[2]);
    lemma_scan_push(a2, l[3]);
    lemma_scan_push(a3, l[4]);
    lemma_entries_finish(lines);
    lemma_entries_finish(a4);
}

/// A fixed text with a value behind it holds no line feed and ends with
/// no carriage return.
proof fn lemma_keyword_line_plain(head: Seq<char>, value: Seq<char>)
    requires
        no_newline(head),
        is_value(value),
    ensures
        no_newline(head + value),
        strip_cr(head + value) == head + value,
{
    let line = head + value;
    assert forall|j: int| 0 <= j < line.len() implies #[trigger] line[j] != '\n' by {
        if j < head.len() {
            assert(line[j] == head[j]);
        } else {
            assert(line[j] == value[j - head.len()]);
        }
    }
    assert(line.last() == value.last());
}

/// None of the five lines of a block holds a line feed or ends with a
/// carriage return.
pub(crate) proof fn lemma_block_lines_plain(
    name: Seq<char>,
    hostname: Seq<char>,
    user: Seq<char>,
    identity: Seq<char>,
)
    requires
        is_value(name),
        is_value(hostname),
        is_value(user),
        is_value(identity),
    ensures
        block_lines(name, hostname, user, identity).len() == 5,
        forall|i: int|
            0 <= i < 5 ==> no_newline(#[trigger] block_lines(name, hostname, user, identity)[i])
                && strip_cr(block_lines(name, hostname, user, identity)[i]) == block_lines(
                name,
                hostname,
                user,
                identity,
            )[i],
{
    reveal_strlit("Host ");
    reveal_strlit("  HostName ");
    reveal_strlit("  User ");
    reveal_strlit("  IdentityFile ");
    lemma_keyword_line_plain("Host "@, name);
    lemma_keyword_line_plain("  HostName "@, hostname);
    lemma_keyword_line_plain("  User "@, user);
    lemma_keyword_line_plain("  IdentityFile "@, identity);
}

/// The text of the lines of a block, each closed by a line feed, but
/// without the line feed that stands before the block.
pub open spec fn block_tail(
    name: Seq<char>,
    hostname: Seq<char>,
    user: Seq<char>,
    identity: Seq<char>,
) -> Seq<char> {
    let l = block_lines(name, hostname, user, identity);
    let nl = seq!['\n'];
    l[0] + nl + (l[1] + nl + (l[2] + nl + (l[3] + nl + (l[4] + nl + Seq::<char>::empty()))))
}

/// The text of a block is a line feed and the lines of the block, each
/// closed by a line feed.
proof fn lemma_block_text_parts(
    name: Seq<char>,
    hostname: Seq<char>,
    user: Seq<char>,
    identity: Seq<char>,
)
    ensures
        block_text(name, hostname, user, identity) == seq!['\n'] + block_tail(
            name,
            hostname,
            user,
            identity,
        ),
{
    let nl = seq!['\n'];
    reveal_strlit("\n\nHost ");
    reveal_strlit("\n  HostName ");
    reveal_strlit("\n  User ");
    reveal_strlit("\n  IdentityFile ");
    reveal_strlit("\n");
    reveal_strlit("Host ");
    reveal_strlit("  HostName ");
    reveal_strlit("  User ");
    reveal_strlit("  IdentityFile ");
    assert("\n\nHost "@ =~= nl + nl + "Host "@);
    assert("\n  HostName "@ =~= nl + "  HostName "@);
    assert("\n  User "@ =~= nl + "  User "@);
    assert("\n  IdentityFile "@ =~= nl + "  IdentityFile "@);
    assert("\n"@ =~= nl);
    assert(block_text(name, hostname, user, identity) =~= nl + block_tail(
        name,
        hostname,
        user,
        identity,
    ));
}

/// The lines of the text of a block, without the line feed before it, are
/// the lines of the block.
proof fn lemma_lines_of_block_tail(
    name: Seq<char>,
    hostname: Seq<char>,
    user: Seq<char>,
    identity: Seq<char>,
)
    requires
        is_value(name),
        is_value(hostname),
        is_value(user),
        is_value(identity),
    ensures
        lines_of(block_tail(name, hostname, user, identity)) == block_lines(
            name,
            hostname,
            user,
            identity,
        ),
{
    let l = block_lines(name, hostname, user, identity);
    let nl = seq!['\n'];
    let none = Seq::<char>::empty();
    let r4 = l[4] + nl + none;
    let r3 = l[3] + nl + r4;
    let r2 = l[2] + nl + r3;
    let r1 = l[1] + nl + r2;
    lemma_block_lines_plain(name, hostname, user, identity);
    lemma_lines_of_first(l[0], r1);
    lemma_lines_of_first(l[1], r2);
    lemma_lines_of_first(l[2], r3);
    lemma_lines_of_first(l[3], r4);
    lemma_lines_of_first(l[4], none);
    assert(lines_of(none) == Seq::<Seq<char>>::empty());
    assert(lines_of(r4) =~= seq![l[4]]);
    assert(lines_of(r3) =~= seq![l[3], l[4]]);
    assert(lines_of(r2) =~= seq![l[2], l[3], l[4]]);
    assert(lines_of(r1) =~= seq![l[1], l[2], l[3], l[4]]);
    assert(lines_of(block_tail(name, hostname, user, identity)) =~= l);
}

/// The text of a block, read after any text, gives the lines of that text,
/// closed by a line feed, and the five lines of the block.
pub(crate) proof fn lemma_lines_of_block(
    text: Seq<char>,
    name: Seq<char>,
    hostname: Seq<char>,
    user: Seq<char>,
    identity: Seq<char>,
)
    requires
        is_value(name),
        is_value(hostname),
        is_value(user),
        is_value(identity),
    ensures
        lines_of(text + block_text(name, hostname, user, identity)) == lines_of(
            text + seq!['\n'],
        ) + block_lines(name, hostname, user, identity),
{
    let tail = block_tail(name, hostname, user, identity);
    lemma_block_text_parts(name, hostname, user, identity);
    assert(text + (seq!['\n'] + tail) =~= text + seq!['\n'] + tail);
    lemma_lines_of_concat(text, tail);
    lemma_lines_of_block_tail(name, hostname, user, identity);
}

/// A block that is added shows in what the parser reads as one more entry,
/// the last, with the four values as they were given; the entries before it
/// stay as they were. This holds for values that are not empty, neither
/// begin nor end with white space, and hold no line feed.
pub proof fn lemma_append_adds_entry(
    text: Seq<char>,
    name: Seq<char>,
    hostname: Seq<char>,
    user: Seq<char>,
    identity: Seq<char>,
)
    requires
        is_value(name),
        is_value(hostname),
        is_value(user),
        is_value(identity),
    ensures
        entries(lines_of(appended(text, name, hostname, user, identity))) == entries(
            lines_of(text),
        ).push(entry_of(name, hostname, user, identity)),
{
    let block = block_text(name, hostname, user, identity);
    lemma_cleaned_keeps_entries(text + block);
    lemma_lines_of_block(text, name, hostname, user, identity);
    lemma_block_lines_add_entry(lines_of(text + seq!['\n']), name, hostname, user, identity);
    lemma_trimmed_lines_terminated(text);
    lemma_entries_by_trimmed_lines(lines_of(text + seq!['\n']), lines_of(text));
}

/// A block added to an empty file, or where there is no file yet, is the
/// one entry that the parser then reads.
pub proof fn lemma_first_append(
    name: Seq<char>,
    hostname: Seq<char>,
    user: Seq<char>,
    identity: Seq<char>,
)
    requires
        is_value(name),
        is_value(hostname),
        is_value(user),
        is_value(identity),
    ensures
        entries(lines_of(appended(Seq::empty(), name, hostname, user, identity))) == seq![
            entry_of(name, hostname, user, identity),
        ],
{
    lemma_append_adds_entry(Seq::empty(), name, hostname, user, identity);
    assert(lines_of(Seq::<char>::empty()) == Seq::<Seq<char>>::empty());
    assert(entries(Seq::<Seq<char>>::empty()) == Seq::<HostEntry>::empty());
    assert(Seq::<HostEntry>::empty().push(entry_of(name, hostname, user, identity)) == seq![
        entry_of(name, hostname, user, identity),
    ]);
}

/// However often a block is added, no two blank lines of the file come to
/// stand next to each other: it holds after every single addition, whatever
/// the file held before.
pub proof fn lemma_appended_no_blank_runs(
    text: Seq<char>,
    name: Seq<char>,
    hostname: Seq<char>,
    user: Seq<char>,
    identity: Seq<char>,
)
    ensures
        no_blank_runs(lines_of(appended(text, name, hostname, user, identity))),
{
    lemma_cleaned_no_blank_runs(text + block_text(name, hostname, user, identity));
}

/// Each entry bears the name of a `Host` line of the file.
pub proof fn lemma_entry_names(lines: Seq<Seq<char>>)
    ensures
        forall|i: int|
            0 <= i < entries(lines).len() ==> exists|j: int|
                0 <= j < lines.len() && names_host(lines[j], (#[trigger] entries(lines)[i]).name),
    decreases lines.len(),
{
    let k = last_host(lines);
    lemma_last_host(lines);
    if 0 <= k < lines.len() {
        let before = lines.take(k);
        lemma_entry_names(before);
        let out = entries(lines);
        assert forall|i: int| 0 <= i < out.len() implies exists|j: int|
            0 <= j < lines.len() && names_host(lines[j], (#[trigger] out[i]).name) by {
            if i < entries(before).len() {
                assert(out[i] == entries(before)[i]);
                let j = choose|j: int|
                    0 <= j < before.len() && names_host(before[j], entries(before)[i].name);
                assert(lines[j] == before[j]);
            } else {
                assert(names_host(lines[k], out[i].name));
            }
        }
    }
}

/// Lines without a `Host` line of a name stay so when the carriage returns
/// at their ends go.
proof fn lemma_no_host_named_stripped(lines: Seq<Seq<char>>, name: Seq<char>)
    requires
        no_host_named(lines, name),
    ensures
        no_host_named(stripped(lines), name),
{
    let out = stripped(lines);
    assert forall|i: int| 0 <= i < out.len() implies !names_host(#[trigger] out[i], name) by {
        lemma_trim_strip_cr(lines[i]);
        assert(!names_host(lines[i], name));
    }
}

/// The cleanup pass brings in no `Host` line.
proof fn lemma_no_host_named_collapsed(lines: Seq<Seq<char>>, name: Seq<char>)
    requires
        no_host_named(lines, name),
    ensures
        no_host_named(collapsed(lines), name),
{
    lemma_collapsed_members(lines);
    let out = collapsed(lines);
    assert forall|i: int| 0 <= i < out.len() implies !names_host(#[trigger] out[i], name) by {
        let j = choose|j: int| 0 <= j < lines.len() && lines[j] == out[i];
        assert(!names_host(lines[j], name));
    }
}

/// After the removal of a name, no `Host` line of the file bears it, and
/// the parser reads no entry of that name.
pub proof fn lemma_removed_name_is_gone(text: Seq<char>, name: Seq<char>)
    ensures
        no_host_named(lines_of(removed(text, name)), name),
        forall|i: int|
            0 <= i < entries(lines_of(removed(text, name))).len() ==> (#[trigger] entries(
                lines_of(removed(text, name)),
            )[i]).name != name,
{
    let kept = without_block(lines_of(text), name);
    lemma_without_block_no_host(lines_of(text), name);
    assert(no_host_named(kept, name));
    lemma_lines_of_no_newline(text);
    lemma_all_no_newline_without_block(lines_of(text), name);
    lemma_lines_of_text_of(kept);
    lemma_no_host_named_stripped(kept, name);
    let written = text_of(kept);
    let tidy = collapsed(lines_of(written));
    lemma_no_host_named_collapsed(lines_of(written), name);
    lemma_lines_of_no_newline(written);
    lemma_all_no_newline_collapsed(lines_of(written));
    lemma_lines_of_text_of(tidy);
    lemma_no_host_named_stripped(tidy, name);
    let last = lines_of(removed(text, name));
    lemma_entry_names(last);
    assert forall|i: int| 0 <= i < entries(last).len() implies (#[trigger] entries(last)[i]).name
        != name by {
        let j = choose|j: int| 0 <= j < last.len() && names_host(last[j], entries(last)[i].name);
        assert(!names_host(last[j], name));
    }
}

/// Each line that the removal leaves is a line of its input.
pub proof fn lemma_without_block_members(lines: Seq<Seq<char>>, name: Seq<char>)
    ensures
        forall|i: int|
            0 <= i < without_block(lines, name).len() ==> lines.contains(
                #[trigger] without_block(lines, name)[i],
            ),
    decreases lines.len(),
{
    if lines.len() > 0 {
        let init = lines.drop_last();
        lemma_without_block_members(init, name);
        let out = without_block(lines, name);
        let kept = without_block(init, name);
        assert forall|i: int| 0 <= i < out.len() implies lines.contains(#[trigger] out[i]) by {
            if i < kept.len() {
                assert(out[i] == kept[i]);
                let j = choose|j: int| 0 <= j < init.len() && init[j] == kept[i];
                assert(lines[j] == out[i]);
            } else {
                assert(out[i] == lines[lines.len() - 1]);
            }
        }
    }
}

/// The removal of a name that no `Host` line bears does not change what
/// the parser reads.
pub proof fn lemma_remove_absent(text: Seq<char>, name: Seq<char>)
    requires
        no_host_named(lines_of(text), name),
    ensures
        entries(lines_of(removed(text, name))) == entries(lines_of(text)),
{
    let lines = lines_of(text);
    lemma_without_block_absent(lines, name);
    lemma_lines_of_no_newline(text);
    lemma_lines_of_text_of(lines);
    lemma_cleaned_keeps_entries(text_of(lines));
    lemma_trimmed_lines_stripped(lines);
    lemma_entries_by_trimmed_lines(stripped(lines), lines);
}

} // verus!
