//! Removal of a `Host` block by name.
//!
//! The scan drops the `Host` line of that name and the lines after it, up to
//! the first blank line, which it keeps. A block that no blank line closes
//! takes every line after it along, up to the next `Host` line of another
//! name.

use crate::cleanup::{clean_config_file, cleaned, no_blank_runs};
use crate::laws::{lemma_remove_absent, lemma_removed_name_is_gone};
use crate::entry::ConfigError;
use crate::lines::{join_lines, lines_of, split_lines, text_of};
use crate::parser::{directive, entries, host_key, lemma_keys, read_argument};
use crate::text::{chars_of, is_blank, string_views, trim_range};
use vstd::prelude::*;

verus! {

/// Whether `line` opens a block of the name `name`.
pub open spec fn names_host(line: Seq<char>, name: Seq<char>) -> bool {
    directive(line, host_key()) == Some(name)
}

/// No `Host` line of `lines` bears the name `name`.
pub open spec fn no_host_named(lines: Seq<Seq<char>>, name: Seq<char>) -> bool {
    forall|i: int| 0 <= i < lines.len() ==> !names_host(#[trigger] lines[i], name)
}

/// Whether the scan, having read `lines`, stands inside a block that it
/// removes: the last `Host` line bears the name, and no blank line has
/// come since.
pub open spec fn in_removed_block(lines: Seq<Seq<char>>, name: Seq<char>) -> bool
    decreases lines.len(),
{
    if lines.len() == 0 {
        false
    } else {
        match directive(lines.last(), host_key()) {
            Some(x) => x == name,
            None => in_removed_block(lines.drop_last(), name) && !is_blank(lines.last()),
        }
    }
}

/// `lines` without the blocks of the name `name`: a line goes exactly when
/// the scan stands inside such a block after it.
pub open spec fn without_block(lines: Seq<Seq<char>>, name: Seq<char>) -> Seq<Seq<char>>
    decreases lines.len(),
{
    if lines.len() == 0 {
        lines
    } else if in_removed_block(lines, name) {
        without_block(lines.drop_last(), name)
    } else {
        without_block(lines.drop_last(), name).push(lines.last())
    }
}

/// What a file holds after the removal of the blocks of the name `name`:
/// the lines that stay are written back, and the cleanup pass follows.
pub open spec fn removed(text: Seq<char>, name: Seq<char>) -> Seq<char> {
    cleaned(text_of(without_block(lines_of(text), name)))
}

/// After the removal no `Host` line of that name is left.
pub proof fn lemma_without_block_no_host(lines: Seq<Seq<char>>, name: Seq<char>)
    ensures
        no_host_named(without_block(lines, name), name),
    decreases lines.len(),
{
    if lines.len() > 0 {
        let init = lines.drop_last();
        lemma_without_block_no_host(init, name);
        let out = without_block(lines, name);
        assert forall|i: int| 0 <= i < out.len() implies !names_host(#[trigger] out[i], name) by {
            let kept = without_block(init, name);
            if i < kept.len() {
                assert(out[i] == kept[i]);
            }
        }
    }
}

/// Where no `Host` line bears the name, the removal leaves every line in
/// its place.
pub proof fn lemma_without_block_absent(lines: Seq<Seq<char>>, name: Seq<char>)
    requires
        no_host_named(lines, name),
    ensures
        !in_removed_block(lines, name),
        without_block(lines, name) == lines,
    decreases lines.len(),
{
    if lines.len() > 0 {
        let init = lines.drop_last();
        assert forall|i: int| 0 <= i < init.len() implies !names_host(#[trigger] init[i], name) by {
            assert(init[i] == lines[i]);
        }
        lemma_without_block_absent(init, name);
        assert(!names_host(lines[lines.len() - 1], name));
        assert(init.push(lines.last()) == lines);
    }
}

/// `lines` without the blocks of the name `server_name`.
pub fn remove_block(lines: &Vec<String>, server_name: &str) -> (out: Vec<String>)
    ensures
        string_views(out@) == without_block(string_views(lines@), server_name@),
        no_host_named(string_views(out@), server_name@),
        no_host_named(string_views(lines@), server_name@) ==> string_views(out@) == string_views(lines@),
{
    let wanted = server_name.to_owned();
    let mut out: Vec<String> = Vec::new();
    let mut skip_block = false;
    let ghost all = string_views(lines@);
    let mut i: usize = 0;
    proof {
        assert(all.take(0) == Seq::<Seq<char>>::empty());
        assert(string_views(out@) == without_block(all.take(0), server_name@));
    }
    while i < lines.len()
        invariant
            i <= lines.len(),
            all == string_views(lines@),
            wanted@ == server_name@,
            string_views(out@) == without_block(all.take(i as int), server_name@),
            skip_block == in_removed_block(all.take(i as int), server_name@),
        decreases lines.len() - i,
    {
        let v = chars_of(lines[i].as_str());
        let (a, b) = trim_range(&v, 0, v.len());
        proof {
            let after = all.take(i + 1);
            assert(v@.subrange(0, v.len() as int) == v@);
            assert(after.drop_last() == all.take(i as int));
            assert(after.last() == v@);
        }
        match read_argument(&v, a, b, "Host ") {
            Some(host_name) => {
                proof {
                    lemma_keys();
                }
                skip_block = host_name == wanted;
            },
            None => {},
        }
        if skip_block && a == b {
            skip_block = false;
        }
        if !skip_block {
            let line = lines[i].clone();
            proof {
                assert(string_views(out@.push(line)) == string_views(out@).push(line@));
            }
            out.push(line);
        }
        i += 1;
    }
    proof {
        assert(all.take(lines.len() as int) == all);
        lemma_without_block_no_host(all, server_name@);
        if no_host_named(all, server_name@) {
            lemma_without_block_absent(all, server_name@);
        }
    }
    out
}

/// What a configuration file holds once the blocks of the name
/// `server_name` are removed from it, given what the file holds, or `None`
/// where there is no such file: then the removal fails with `NotFound`. A
/// name that no block bears is no failure.
pub fn remove_ssh_config(content: Option<&str>, server_name: &str) -> (r: Result<
    String,
    ConfigError,
>)
    ensures
        match content {
            Some(text) => r matches Ok(new_content) && new_content@ == removed(
                text@,
                server_name@,
            ) && no_blank_runs(lines_of(new_content@)) && no_host_named(
                lines_of(new_content@),
                server_name@,
            ) && (no_host_named(lines_of(text@), server_name@) ==> entries(
                lines_of(new_content@),
            ) == entries(lines_of(text@))),
            None => r == Err::<String, ConfigError>(ConfigError::NotFound),
        },
{
    match content {
        Some(text) => {
            let lines = split_lines(text);
            let kept = remove_block(&lines, server_name);
            let written = join_lines(&kept);
            proof {
                lemma_removed_name_is_gone(text@, server_name@);
                if no_host_named(lines_of(text@), server_name@) {
                    lemma_remove_absent(text@, server_name@);
                }
            }
            Ok(clean_config_file(written.as_str()))
        },
        None => Err(ConfigError::NotFound),
    }
}

} // verus!
