//! Files that hold nothing but blocks that were added: what such a file
//! looks like, what the parser reads from it, and what the removal of a
//! name leaves of it.

use crate::append::{appended, block_text};
use crate::cleanup::{collapsed, lemma_collapsed_fixed, no_blank_runs};
use crate::entry::HostEntry;
use crate::laws::{
    block_lines, entry_of, is_value, lemma_all_no_newline_collapsed,
    lemma_all_no_newline_without_block, lemma_appended_no_blank_runs, lemma_block_directives,
    lemma_block_lines_add_entry, lemma_block_lines_plain, lemma_cleaned_keeps_entries,
    lemma_collapsed_members, lemma_entries_by_trimmed_lines, lemma_lines_of_block,
    lemma_trimmed_lines_add, lemma_trimmed_lines_stripped, trimmed_lines,
};
use crate::lines::{
    all_no_newline, lemma_lines_of_first, lemma_lines_of_no_newline, lemma_lines_of_text_of,
    lemma_lines_of_text_of_then, lemma_newline_at_bounds, lines_of, newline_at, no_newline,
    strip_cr, stripped, text_of,
};
use crate::parser::{directive, entries, host_key};
use crate::remove::{in_removed_block, removed, without_block};
use crate::text::{is_blank, trim};
use vstd::prelude::*;

verus! {

/// The four values of a block that is added.
pub ghost struct Block {
    pub name: Seq<char>,
    pub hostname: Seq<char>,
    pub user: Seq<char>,
    pub identity: Seq<char>,
}

impl Block {
    /// The values are such that the parser gives them back as written.
    pub open spec fn is_plain(self) -> bool {
        is_value(self.name) && is_value(self.hostname) && is_value(self.user) && is_value(
            self.identity,
        )
    }

    /// The entry that the block stands for.
    pub open spec fn entry(self) -> HostEntry {
        entry_of(self.name, self.hostname, self.user, self.identity)
    }

    /// The lines of the block in the file.
    pub open spec fn lines(self) -> Seq<Seq<char>> {
        block_lines(self.name, self.hostname, self.user, self.identity)
    }
}

/// Each of the blocks has values that the parser gives back as written.
pub open spec fn all_plain(blocks: Seq<Block>) -> bool {
    forall|i: int| 0 <= i < blocks.len() ==> (#[trigger] blocks[i]).is_plain()
}

/// The entries that the blocks stand for.
pub open spec fn block_entries(blocks: Seq<Block>) -> Seq<HostEntry> {
    Seq::new(blocks.len(), |i: int| blocks[i].entry())
}

/// What a file holds after the blocks were added one after the other,
/// beginning with no file.
pub open spec fn built(blocks: Seq<Block>) -> Seq<char>
    decreases blocks.len(),
{
    if blocks.len() == 0 {
        Seq::empty()
    } else {
        let b = blocks.last();
        appended(built(blocks.drop_last()), b.name, b.hostname, b.user, b.identity)
    }
}

/// The lines of the blocks, block after block.
pub open spec fn blocks_lines(blocks: Seq<Block>) -> Seq<Seq<char>>
    decreases blocks.len(),
{
    if blocks.len() == 0 {
        Seq::empty()
    } else {
        blocks_lines(blocks.drop_last()) + blocks.last().lines()
    }
}

/// The blocks but those of the name `name`.
pub open spec fn without_name(blocks: Seq<Block>, name: Seq<char>) -> Seq<Block>
    decreases blocks.len(),
{
    if blocks.len() == 0 {
        blocks
    } else if blocks.last().name == name {
        without_name(blocks.drop_last(), name)
    } else {
        without_name(blocks.drop_last(), name).push(blocks.last())
    }
}

/// The five lines of a block: the first is empty, the others carry
/// something; none holds a line feed or ends with a carriage return; the
/// second is the `Host` line, and no other is one.
proof fn lemma_block_shape(b: Block)
    requires
        b.is_plain(),
    ensures
        b.lines().len() == 5,
        b.lines()[0] == Seq::<char>::empty(),
        is_blank(b.lines()[0]),
        forall|i: int| 1 <= i < 5 ==> !is_blank(#[trigger] b.lines()[i]),
        forall|i: int| 0 <= i < 5 ==> no_newline(#[trigger] b.lines()[i]),
        forall|i: int| 0 <= i < 5 ==> strip_cr(#[trigger] b.lines()[i]) == b.lines()[i],
        directive(b.lines()[1], host_key()) == Some(b.name),
        forall|i: int| 0 <= i < 5 && i != 1 ==> directive(#[trigger] b.lines()[i], host_key())
            is None,
{
    lemma_block_directives(b.name, b.hostname, b.user, b.identity);
    lemma_block_lines_plain(b.name, b.hostname, b.user, b.identity);
}

/// The lines of the blocks hold no line feed and end with no carriage
/// return; no two blank lines stand next to each other; the last line is
/// not blank.
proof fn lemma_blocks_lines_shape(blocks: Seq<Block>)
    requires
        all_plain(blocks),
    ensures
        all_no_newline(blocks_lines(blocks)),
        stripped(blocks_lines(blocks)) == blocks_lines(blocks),
        no_blank_runs(blocks_lines(blocks)),
        blocks_lines(blocks).len() == 5 * blocks.len(),
        blocks.len() > 0 ==> !is_blank(blocks_lines(blocks).last()),
    decreases blocks.len(),
{
    let all = blocks_lines(blocks);
    if blocks.len() == 0 {
        assert(stripped(all) =~= all);
    } else {
        let init = blocks.drop_last();
        let b = blocks.last();
        let y = blocks_lines(init);
        let l = b.lines();
        lemma_all_plain_init(blocks);
        lemma_blocks_lines_shape(init);
        lemma_block_shape(b);
        assert forall|i: int| 0 <= i < all.len() implies no_newline(#[trigger] all[i])
            && strip_cr(all[i]) == all[i] by {
            if i < y.len() {
                assert(all[i] == y[i]);
                assert(stripped(y)[i] == strip_cr(y[i]));
            } else {
                assert(all[i] == l[i - y.len()]);
            }
        }
        assert(stripped(all) =~= all);
        assert forall|i: int| 0 < i < all.len() implies !(is_blank(all[i - 1]) && is_blank(
            #[trigger] all[i],
        )) by {
            if i < y.len() {
                assert(all[i] == y[i]);
                assert(all[i - 1] == y[i - 1]);
            } else if i == y.len() {
                assert(all[i - 1] == y.last());
            } else {
                assert(all[i] == l[i - y.len()]);
            }
        }
        assert(all.last() == l[4]);
    }
}

/// What one more line does to the cleanup pass.
proof fn lemma_collapsed_push(lines: Seq<Seq<char>>, line: Seq<char>)
    ensures
        collapsed(lines.push(line)) == if is_blank(line) && lines.len() > 0 && is_blank(
            lines.last(),
        ) {
            collapsed(lines)
        } else {
            collapsed(lines).push(line)
        },
{
    assert(lines.push(line).drop_last() == lines);
}

/// What one more line does to the removal.
proof fn lemma_without_block_push(lines: Seq<Seq<char>>, line: Seq<char>, name: Seq<char>)
    ensures
        in_removed_block(lines.push(line), name) == match directive(line, host_key()) {
            Some(x) => x == name,
            None => in_removed_block(lines, name) && !is_blank(line),
        },
        without_block(lines.push(line), name) == if in_removed_block(lines.push(line), name) {
            without_block(lines, name)
        } else {
            without_block(lines, name).push(line)
        },
{
    assert(lines.push(line).drop_last() == lines);
}

/// The lines of a built file, closed by one more line feed, are left
/// alone by the cleanup pass.
proof fn lemma_blocks_lines_then_blank(blocks: Seq<Block>)
    requires
        all_plain(blocks),
    ensures
        collapsed(blocks_lines(blocks).push(Seq::empty())) == blocks_lines(blocks).push(
            Seq::empty(),
        ),
{
    let y = blocks_lines(blocks);
    let z = y.push(Seq::<char>::empty());
    lemma_blocks_lines_shape(blocks);
    assert forall|i: int| 0 < i < z.len() implies !(is_blank(z[i - 1]) && is_blank(
        #[trigger] z[i],
    )) by {
        if i < y.len() {
            assert(z[i] == y[i]);
            assert(z[i - 1] == y[i - 1]);
        } else {
            assert(z[i - 1] == y.last());
        }
    }
    lemma_collapsed_fixed(z);
}

/// The lines of a text of lines with one more line feed behind it.
proof fn lemma_lines_of_text_then_newline(y: Seq<Seq<char>>)
    requires
        all_no_newline(y),
        stripped(y) == y,
    ensures
        lines_of(text_of(y) + seq!['\n']) == y.push(Seq::empty()),
{
    let none = Seq::<char>::empty();
    let nl = seq!['\n'];
    lemma_lines_of_text_of_then(y, nl);
    assert(nl =~= none + nl + none);
    lemma_lines_of_first(none, none);
    assert(lines_of(none) == Seq::<Seq<char>>::empty());
    assert(lines_of(nl) =~= seq![none]);
    assert(y + seq![none] =~= y.push(none));
}

/// The file that the additions build holds the lines of the blocks, block
/// after block, each line closed by a line feed.
pub proof fn lemma_built_text(blocks: Seq<Block>)
    requires
        all_plain(blocks),
    ensures
        built(blocks) == text_of(blocks_lines(blocks)),
        lines_of(built(blocks)) == blocks_lines(blocks),
    decreases blocks.len(),
{
    let none = Seq::<char>::empty();
    if blocks.len() > 0 {
        let init = blocks.drop_last();
        let b = blocks.last();
        let y = blocks_lines(init);
        let l = b.lines();
        let t = built(init);
        lemma_all_plain_init(blocks);
        lemma_built_text(init);
        lemma_blocks_lines_shape(init);
        lemma_lines_of_block(t, b.name, b.hostname, b.user, b.identity);
        lemma_lines_of_text_then_newline(y);
        let z = y.push(none);
        lemma_blocks_lines_then_blank(init);
        lemma_collapsed_before_block(y, b);
        lemma_block_shape(b);
        assert(z + l.skip(1) =~= y + l);
        lemma_blocks_lines_shape(blocks);
        lemma_lines_of_text_of(blocks_lines(blocks));
    } else {
        assert(lines_of(none) == Seq::<Seq<char>>::empty());
    }
}

/// From the lines of the blocks the parser reads their entries, one for
/// each block, in their order.
proof fn lemma_blocks_lines_entries(blocks: Seq<Block>)
    requires
        all_plain(blocks),
    ensures
        entries(blocks_lines(blocks)) == block_entries(blocks),
    decreases blocks.len(),
{
    if blocks.len() == 0 {
        assert(entries(Seq::<Seq<char>>::empty()) =~= block_entries(blocks));
    } else {
        let init = blocks.drop_last();
        let b = blocks.last();
        lemma_all_plain_init(blocks);
        lemma_blocks_lines_entries(init);
        lemma_block_lines_add_entry(blocks_lines(init), b.name, b.hostname, b.user, b.identity);
        assert(block_entries(init).push(b.entry()) =~= block_entries(blocks));
    }
}

/// The blocks that stay when a name is removed are blocks of the input.
proof fn lemma_without_name_plain(blocks: Seq<Block>, name: Seq<char>)
    requires
        all_plain(blocks),
    ensures
        all_plain(without_name(blocks, name)),
    decreases blocks.len(),
{
    if blocks.len() > 0 {
        let init = blocks.drop_last();
        lemma_all_plain_init(blocks);
        lemma_without_name_plain(init, name);
        let out = without_name(blocks, name);
        assert forall|i: int| 0 <= i < out.len() implies (#[trigger] out[i]).is_plain() by {
            if i < without_name(init, name).len() {
                assert(out[i] == without_name(init, name)[i]);
            } else {
                assert(out[i] == blocks[blocks.len() - 1]);
            }
        }
    }
}

/// What the removal does to a block behind any lines: a block of the name
/// goes but for its empty line, a block of another name stays whole.
proof fn lemma_without_block_of_block(y: Seq<Seq<char>>, b: Block, name: Seq<char>)
    requires
        b.is_plain(),
    ensures
        without_block(y + b.lines(), name) == if b.name == name {
            without_block(y, name).push(Seq::empty())
        } else {
            without_block(y, name) + b.lines()
        },
{
    let l = b.lines();
    let w = without_block(y, name);
    lemma_block_shape(b);
    let x0 = y.push(l[0]);
    let x1 = x0.push(l[1]);
    let x2 = x1.push(l[2]);
    let x3 = x2.push(l[3]);
    let x4 = x3.push(l[4]);
    assert(x4 =~= y + l);
    lemma_without_block_push(y, l[0], name);
    lemma_without_block_push(x0, l[1], name);
    lemma_without_block_push(x1, l[2], name);
    lemma_without_block_push(x2, l[3], name);
    lemma_without_block_push(x3, l[4], name);
    assert(without_block(x0, name) == w.push(l[0]));
    if b.name == name {
        assert(without_block(x1, name) == w.push(l[0]));
        assert(without_block(x2, name) == w.push(l[0]));
        assert(without_block(x3, name) == w.push(l[0]));
        assert(without_block(x4, name) == w.push(l[0]));
    } else {
        assert(without_block(x1, name) == w.push(l[0]).push(l[1]));
        assert(without_block(x2, name) == w.push(l[0]).push(l[1]).push(l[2]));
        assert(without_block(x3, name) == w.push(l[0]).push(l[1]).push(l[2]).push(l[3]));
        assert(without_block(x4, name) =~= w + l);
    }
}

/// What the removal of a name leaves of the lines of the blocks carries
/// what the lines of the other blocks carry.
proof fn lemma_without_block_of_blocks(blocks: Seq<Block>, name: Seq<char>)
    requires
        all_plain(blocks),
    ensures
        trimmed_lines(without_block(blocks_lines(blocks), name)) == trimmed_lines(
            blocks_lines(without_name(blocks, name)),
        ),
    decreases blocks.len(),
{
    if blocks.len() > 0 {
        let init = blocks.drop_last();
        let b = blocks.last();
        let y = blocks_lines(init);
        let l = b.lines();
        let w = without_block(y, name);
        lemma_all_plain_init(blocks);
        lemma_without_block_of_blocks(init, name);
        lemma_without_block_of_block(y, b, name);
        if b.name == name {
            let w0 = w.push(Seq::empty());
            assert(w0.drop_last() == w);
            assert(is_blank(w0.last())) by {
                assert(trim(Seq::<char>::empty()) == Seq::<char>::empty());
            }
        } else {
            lemma_trimmed_lines_add(w, l);
            let others = without_name(init, name);
            lemma_trimmed_lines_add(blocks_lines(others), l);
            assert(others.push(b).drop_last() == others);
        }
    }
}

/// Blocks that are plain stay so without the last of them.
proof fn lemma_all_plain_init(blocks: Seq<Block>)
    requires
        all_plain(blocks),
        blocks.len() > 0,
    ensures
        all_plain(blocks.drop_last()),
        blocks.last().is_plain(),
{
    let init = blocks.drop_last();
    assert forall|i: int| 0 <= i < init.len() implies (#[trigger] init[i]).is_plain() by {
        assert(init[i] == blocks[i]);
    }
}

/// No line ends with a carriage return.
pub open spec fn no_trailing_cr(lines: Seq<Seq<char>>) -> bool {
    forall|i: int| 0 <= i < lines.len() ==> strip_cr(#[trigger] lines[i]) == lines[i]
}

/// The lines of a text with one more line feed behind it are the lines of
/// the text and an empty line, or the lines of the text, the last without
/// the carriage return at its end.
proof fn lemma_lines_of_terminated(text: Seq<char>)
    ensures
        ({
            let l = lines_of(text);
            let t = lines_of(text + seq!['\n']);
            t == l.push(Seq::empty()) || (l.len() > 0 && t == l.drop_last().push(
                strip_cr(l.last()),
            ))
        }),
    decreases text.len(),
{
    let nl = seq!['\n'];
    let none = Seq::<char>::empty();
    let l = lines_of(text);
    let t = lines_of(text + nl);
    let k = newline_at(text);
    lemma_newline_at_bounds(text);
    if text.len() == 0 {
        assert(text + nl =~= none + nl + none);
        lemma_lines_of_first(none, none);
        assert(lines_of(none) == Seq::<Seq<char>>::empty());
        assert(t =~= l.push(none));
    } else if k < text.len() {
        let a = text.take(k);
        let tail = text.skip(k + 1);
        assert(no_newline(a)) by {
            assert forall|j: int| 0 <= j < a.len() implies #[trigger] a[j] != '\n' by {
                assert(a[j] == text[j]);
            }
        }
        assert(text + nl =~= a + nl + (tail + nl));
        assert(text =~= a + nl + tail);
        lemma_lines_of_first(a, tail + nl);
        lemma_lines_of_first(a, tail);
        lemma_lines_of_terminated(tail);
        let lt = lines_of(tail);
        let tt = lines_of(tail + nl);
        let first = seq![strip_cr(a)];
        if tt == lt.push(none) {
            assert(first + lt.push(none) =~= (first + lt).push(none));
        } else {
            assert(l.drop_last() =~= first + lt.drop_last());
            assert(l.last() == lt.last());
            assert(first + lt.drop_last().push(strip_cr(lt.last())) =~= l.drop_last().push(
                strip_cr(l.last()),
            ));
        }
    } else {
        assert(no_newline(text));
        assert(text + nl =~= text + nl + none);
        lemma_lines_of_first(text, none);
        assert(lines_of(none) == Seq::<Seq<char>>::empty());
        assert(l == seq![text]);
        assert(t =~= l.drop_last().push(strip_cr(l.last())));
    }
}

/// The cleanup pass over lines with a block behind them leaves what it
/// leaves of the lines with an empty line behind them, and the four lines
/// of the block that carry something. One more empty line before the
/// block changes nothing.
proof fn lemma_collapsed_before_block(lines: Seq<Seq<char>>, b: Block)
    requires
        b.is_plain(),
    ensures
        collapsed(lines + b.lines()) == collapsed(lines.push(Seq::empty())) + b.lines().skip(1),
        collapsed(lines.push(Seq::empty()) + b.lines()) == collapsed(lines + b.lines()),
{
    let l = b.lines();
    let z = lines.push(Seq::<char>::empty());
    lemma_block_shape(b);
    let x1 = z.push(l[1]);
    let x2 = x1.push(l[2]);
    let x3 = x2.push(l[3]);
    let x4 = x3.push(l[4]);
    assert(x4 =~= lines + l);
    lemma_collapsed_push(z, l[1]);
    lemma_collapsed_push(x1, l[2]);
    lemma_collapsed_push(x2, l[3]);
    lemma_collapsed_push(x3, l[4]);
    let c = collapsed(z);
    assert(collapsed(x1) == c.push(l[1]));
    assert(collapsed(x2) == c.push(l[1]).push(l[2]));
    assert(collapsed(x3) == c.push(l[1]).push(l[2]).push(l[3]));
    assert(collapsed(x4) =~= c + l.skip(1));
    let y0 = z.push(l[0]);
    let y1 = y0.push(l[1]);
    let y2 = y1.push(l[2]);
    let y3 = y2.push(l[3]);
    let y4 = y3.push(l[4]);
    assert(y4 =~= z + l);
    lemma_collapsed_push(z, l[0]);
    lemma_collapsed_push(y0, l[1]);
    lemma_collapsed_push(y1, l[2]);
    lemma_collapsed_push(y2, l[3]);
    lemma_collapsed_push(y3, l[4]);
    assert(collapsed(y0) == c);
    assert(collapsed(y1) == c.push(l[1]));
    assert(collapsed(y2) == c.push(l[1]).push(l[2]));
    assert(collapsed(y3) == c.push(l[1]).push(l[2]).push(l[3]));
    assert(collapsed(y4) =~= c + l.skip(1));
}

/// The cleanup pass brings no carriage return to the end of a line.
proof fn lemma_no_trailing_cr_collapsed(lines: Seq<Seq<char>>)
    requires
        no_trailing_cr(lines),
    ensures
        no_trailing_cr(collapsed(lines)),
        stripped(collapsed(lines)) == collapsed(lines),
{
    lemma_collapsed_members(lines);
    let out = collapsed(lines);
    assert forall|i: int| 0 <= i < out.len() implies strip_cr(#[trigger] out[i]) == out[i] by {
        let j = choose|j: int| 0 <= j < lines.len() && lines[j] == out[i];
        assert(strip_cr(lines[j]) == lines[j]);
    }
    assert(stripped(out) =~= out);
}

/// After an addition the lines of the file are what the cleanup pass
/// leaves of the old lines with the five lines of the block behind them:
/// the old lines but for runs of blank lines, an empty line, the `Host`
/// line, and the three directives with the values as they were given.
/// This holds for values that the parser gives back as written, and for a
/// file of which no line ends with a carriage return.
pub proof fn lemma_appended_lines(text: Seq<char>, b: Block)
    requires
        b.is_plain(),
        no_trailing_cr(lines_of(text)),
    ensures
        lines_of(appended(text, b.name, b.hostname, b.user, b.identity)) == collapsed(
            lines_of(text) + b.lines(),
        ),
{
    let old = lines_of(text);
    let closed = lines_of(text + seq!['\n']);
    let whole = text + block_text(b.name, b.hostname, b.user, b.identity);
    lemma_lines_of_block(text, b.name, b.hostname, b.user, b.identity);
    lemma_lines_of_terminated(text);
    if closed == old.push(Seq::empty()) {
        lemma_collapsed_before_block(old, b);
    } else {
        assert(old.drop_last().push(strip_cr(old.last())) =~= old);
    }
    assert(collapsed(lines_of(whole)) == collapsed(old + b.lines()));
    lemma_block_shape(b);
    assert(no_trailing_cr(old + b.lines())) by {
        let all = old + b.lines();
        assert forall|i: int| 0 <= i < all.len() implies strip_cr(#[trigger] all[i]) == all[i] by {
            if i < old.len() {
                assert(all[i] == old[i]);
            } else {
                assert(all[i] == b.lines()[i - old.len()]);
            }
        }
    }
    lemma_no_trailing_cr_collapsed(old + b.lines());
    lemma_lines_of_no_newline(whole);
    lemma_all_no_newline_collapsed(lines_of(whole));
    lemma_lines_of_text_of(collapsed(lines_of(whole)));
}

/// After any number of additions, beginning with no file, the parser
/// reads exactly the blocks that were added, in the order in which they
/// were added, blocks of one name side by side.
pub proof fn lemma_built_entries(blocks: Seq<Block>)
    requires
        all_plain(blocks),
    ensures
        entries(lines_of(built(blocks))) == block_entries(blocks),
{
    lemma_built_text(blocks);
    lemma_blocks_lines_entries(blocks);
}

/// After any number of additions, beginning with no file, no two blank
/// lines of the file stand next to each other, whatever the values are.
pub proof fn lemma_built_no_blank_runs(blocks: Seq<Block>)
    ensures
        no_blank_runs(lines_of(built(blocks))),
{
    if blocks.len() == 0 {
        assert(lines_of(Seq::<char>::empty()) == Seq::<Seq<char>>::empty());
    } else {
        let b = blocks.last();
        lemma_appended_no_blank_runs(
            built(blocks.drop_last()),
            b.name,
            b.hostname,
            b.user,
            b.identity,
        );
    }
}

/// Where a file was built by additions and a name is then removed, the
/// parser reads the blocks of every other name, in their order, and none of
/// that name.
pub proof fn lemma_remove_from_built(blocks: Seq<Block>, name: Seq<char>)
    requires
        all_plain(blocks),
    ensures
        entries(lines_of(removed(built(blocks), name))) == block_entries(
            without_name(blocks, name),
        ),
{
    let y = blocks_lines(blocks);
    let w = without_block(y, name);
    lemma_built_text(blocks);
    lemma_blocks_lines_shape(blocks);
    lemma_all_no_newline_without_block(y, name);
    lemma_cleaned_keeps_entries(text_of(w));
    lemma_lines_of_text_of(w);
    lemma_trimmed_lines_stripped(w);
    lemma_without_block_of_blocks(blocks, name);
    let others = without_name(blocks, name);
    lemma_entries_by_trimmed_lines(stripped(w), blocks_lines(others));
    lemma_without_name_plain(blocks, name);
    lemma_blocks_lines_entries(others);
}

} // verus!
