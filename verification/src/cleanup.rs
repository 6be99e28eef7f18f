//! The cleanup pass: runs of blank lines shrink to their first line.

use crate::laws::{lemma_cleaned_keeps_entries, lemma_cleaned_no_blank_runs};
use crate::lines::{join_lines, lines_of, split_lines, text_of};
use crate::parser::entries;
use crate::text::{is_blank, is_blank_line, string_views};
use vstd::prelude::*;

verus! {

/// `lines` without each blank line that directly follows a blank line.
pub open spec fn collapsed(lines: Seq<Seq<char>>) -> Seq<Seq<char>>
    decreases lines.len(),
{
    if lines.len() == 0 {
        lines
    } else {
        let init = lines.drop_last();
        if is_blank(lines.last()) && init.len() > 0 && is_blank(init.last()) {
            collapsed(init)
        } else {
            collapsed(init).push(lines.last())
        }
    }
}

/// No two blank lines of `lines` stand next to each other.
pub open spec fn no_blank_runs(lines: Seq<Seq<char>>) -> bool {
    forall|i: int| 0 < i < lines.len() ==> !(is_blank(lines[i - 1]) && is_blank(#[trigger] lines[i]))
}

/// The text of a file after the cleanup pass.
pub open spec fn cleaned(text: Seq<char>) -> Seq<char> {
    text_of(collapsed(lines_of(text)))
}

/// The pass keeps the last line, or a blank line in its place: what is
/// left ends as the input ends.
pub proof fn lemma_collapsed_last(lines: Seq<Seq<char>>)
    requires
        lines.len() > 0,
    ensures
        collapsed(lines).len() > 0,
        collapsed(lines).len() <= lines.len(),
        is_blank(collapsed(lines).last()) == is_blank(lines.last()),
        !is_blank(lines.last()) ==> collapsed(lines).last() == lines.last(),
    decreases lines.len(),
{
    let init = lines.drop_last();
    if init.len() > 0 {
        lemma_collapsed_last(init);
    } else {
        assert(collapsed(init).len() == 0);
    }
}

/// The pass leaves no two blank lines next to each other.
pub proof fn lemma_collapsed_no_blank_runs(lines: Seq<Seq<char>>)
    ensures
        no_blank_runs(collapsed(lines)),
    decreases lines.len(),
{
    if lines.len() > 0 {
        let init = lines.drop_last();
        lemma_collapsed_no_blank_runs(init);
        if init.len() > 0 {
            lemma_collapsed_last(init);
        }
        let out = collapsed(lines);
        assert forall|i: int| 0 < i < out.len() implies !(is_blank(out[i - 1]) && is_blank(
            #[trigger] out[i],
        )) by {
            let c = collapsed(init);
            if i < c.len() {
                assert(out[i] == c[i]);
                assert(out[i - 1] == c[i - 1]);
            }
        }
    }
}

/// The pass changes nothing where no two blank lines stand next to each
/// other.
pub proof fn lemma_collapsed_fixed(lines: Seq<Seq<char>>)
    requires
        no_blank_runs(lines),
    ensures
        collapsed(lines) == lines,
    decreases lines.len(),
{
    if lines.len() > 0 {
        let init = lines.drop_last();
        assert forall|i: int| 0 < i < init.len() implies !(is_blank(init[i - 1]) && is_blank(
            #[trigger] init[i],
        )) by {
            assert(init[i] == lines[i]);
            assert(init[i - 1] == lines[i - 1]);
        }
        lemma_collapsed_fixed(init);
        if init.len() > 0 {
            assert(init.last() == lines[lines.len() - 2]);
            assert(!(is_blank(lines[lines.len() - 2]) && is_blank(lines[lines.len() - 1])));
        }
        assert(init.push(lines.last()) == lines);
    }
}

/// The cleanup pass is idempotent: a second pass changes nothing.
pub proof fn lemma_collapsed_idempotent(lines: Seq<Seq<char>>)
    ensures
        collapsed(collapsed(lines)) == collapsed(lines),
{
    lemma_collapsed_no_blank_runs(lines);
    lemma_collapsed_fixed(collapsed(lines));
}

/// `lines` without each blank line that directly follows a blank line. All
/// other lines stay as they are, in their order.
pub fn collapse_blank_runs(lines: &Vec<String>) -> (out: Vec<String>)
    ensures
        string_views(out@) == collapsed(string_views(lines@)),
        no_blank_runs(string_views(out@)),
{
    let mut out: Vec<String> = Vec::new();
    let mut prev_empty = false;
    let ghost all = string_views(lines@);
    let mut i: usize = 0;
    proof {
        assert(all.take(0) == Seq::<Seq<char>>::empty());
        assert(string_views(out@) == collapsed(all.take(0)));
    }
    while i < lines.len()
        invariant
            i <= lines.len(),
            all == string_views(lines@),
            string_views(out@) == collapsed(all.take(i as int)),
            prev_empty == (i > 0 && is_blank(all[i - 1])),
        decreases lines.len() - i,
    {
        let is_empty = is_blank_line(lines[i].as_str());
        proof {
            let after = all.take(i + 1);
            assert(after.drop_last() == all.take(i as int));
            assert(after.last() == lines@[i as int]@);
            if i > 0 {
                assert(all.take(i as int).last() == all[i - 1]);
            }
        }
        if !(is_empty && prev_empty) {
            let line = lines[i].clone();
            proof {
                assert(string_views(out@.push(line)) == string_views(out@).push(line@));
            }
            out.push(line);
        }
        prev_empty = is_empty;
        i += 1;
    }
    proof {
        assert(all.take(lines.len() as int) == all);
        lemma_collapsed_no_blank_runs(all);
    }
    out
}

/// What a configuration file holds after the cleanup pass, given what it
/// holds before.
pub fn clean_config_file(content: &str) -> (cleaned_content: String)
    ensures
        cleaned_content@ == cleaned(content@),
        no_blank_runs(lines_of(cleaned_content@)),
        entries(lines_of(cleaned_content@)) == entries(lines_of(content@)),
{
    let lines = split_lines(content);
    let kept = collapse_blank_runs(&lines);
    proof {
        lemma_cleaned_no_blank_runs(content@);
        lemma_cleaned_keeps_entries(content@);
    }
    join_lines(&kept)
}

} // verus!
