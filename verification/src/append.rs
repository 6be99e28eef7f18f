//! Addition of a `Host` block at the end of the configuration file.

use crate::blocks::{lemma_appended_lines, no_trailing_cr, Block};
use crate::cleanup::{clean_config_file, cleaned, collapsed, no_blank_runs};
use crate::entry::{opt_str_view, HostEntry};
use crate::laws::{block_lines, entry_of, is_value, lemma_append_adds_entry};
use crate::lines::lines_of;
use crate::parser::{entries, file_entries};
use vstd::prelude::*;
use vstd::string::StringExecFns;

verus! {

/// The text of a block as it is written behind what the file holds: an
/// empty line to part it from what stands before, the `Host` line, and the
/// three directives, each indented by two spaces.
pub open spec fn block_text(
    name: Seq<char>,
    hostname: Seq<char>,
    user: Seq<char>,
    identity: Seq<char>,
) -> Seq<char> {
    "\n\nHost "@ + name + "\n  HostName "@ + hostname + "\n  User "@ + user + "\n  IdentityFile "@
        + identity + "\n"@
}

/// What a file holds after a block is added: the block is written behind
/// the old text, and the cleanup pass follows.
pub open spec fn appended(
    text: Seq<char>,
    name: Seq<char>,
    hostname: Seq<char>,
    user: Seq<char>,
    identity: Seq<char>,
) -> Seq<char> {
    cleaned(text + block_text(name, hostname, user, identity))
}

/// What a file holds: nothing where there is no file.
pub open spec fn text_of_file(content: Option<Seq<char>>) -> Seq<char> {
    match content {
        Some(text) => text,
        None => Seq::empty(),
    }
}

/// The text of a block for the host `server_name`, the four values
/// written as they are given.
pub fn host_block(server_name: &str, hostname: &str, username: &str, identity_path: &str) -> (block:
    String)
    ensures
        block@ == block_text(server_name@, hostname@, username@, identity_path@),
{
    let mut block = String::new();
    proof {
        assert(Seq::<char>::empty() + "\n\nHost "@ == "\n\nHost "@);
    }
    block.append("\n\nHost ");
    block.append(server_name);
    block.append("\n  HostName ");
    block.append(hostname);
    block.append("\n  User ");
    block.append(username);
    block.append("\n  IdentityFile ");
    block.append(identity_path);
    block.append("\n");
    block
}

/// What the configuration file holds once a block for `server_name` is
/// added, given what the file holds, or `None` where there is no file yet.
/// The four values are written as they are given. No name is refused: a
/// second block of a name stands beside the first. Where the four values
/// are such that the parser gives them back as written, the parser then
/// reads one more entry, the last, with these values; and where no line of
/// the file ends with a carriage return, the lines are then the old lines
/// but for runs of blank lines, an empty line, and the four lines of the
/// block.
pub fn add_ssh_config(
    content: Option<&str>,
    server_name: &str,
    hostname: &str,
    username: &str,
    identity_path: &str,
) -> (new_content: String)
    ensures
        new_content@ == appended(
            text_of_file(opt_str_view(content)),
            server_name@,
            hostname@,
            username@,
            identity_path@,
        ),
        no_blank_runs(lines_of(new_content@)),
        is_value(server_name@) && is_value(hostname@) && is_value(username@) && is_value(
            identity_path@,
        ) ==> entries(lines_of(new_content@)) == file_entries(opt_str_view(content)).push(
            entry_of(server_name@, hostname@, username@, identity_path@),
        ),
        is_value(server_name@) && is_value(hostname@) && is_value(username@) && is_value(
            identity_path@,
        ) && no_trailing_cr(lines_of(text_of_file(opt_str_view(content)))) ==> lines_of(
            new_content@,
        ) == collapsed(
            lines_of(text_of_file(opt_str_view(content))) + block_lines(
                server_name@,
                hostname@,
                username@,
                identity_path@,
            ),
        ),
{
    proof {
        let old_text = text_of_file(opt_str_view(content));
        if content is None {
            assert(lines_of(old_text) == Seq::<Seq<char>>::empty());
            assert(entries(lines_of(old_text)) == Seq::<HostEntry>::empty());
        }
        if is_value(server_name@) && is_value(hostname@) && is_value(username@) && is_value(
            identity_path@,
        ) {
            lemma_append_adds_entry(old_text, server_name@, hostname@, username@, identity_path@);
            if no_trailing_cr(lines_of(old_text)) {
                lemma_appended_lines(
                    old_text,
                    Block {
                        name: server_name@,
                        hostname: hostname@,
                        user: username@,
                        identity: identity_path@,
                    },
                );
            }
        }
    }
    let block = host_block(server_name, hostname, username, identity_path);
    let mut text = match content {
        Some(old) => old.to_owned(),
        None => String::new(),
    };
    text.append(block.as_str());
    clean_config_file(text.as_str())
}

} // verus!
