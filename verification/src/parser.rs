//! The parser: from the lines of a configuration file to its host entries.
//!
//! A `Host` line opens a block, which runs up to the next `Host` line or the
//! end of the file. Within a block the last `HostName`, `User` and
//! `IdentityFile` directives count. A block gives an entry only where it
//! names both a host name and a user. Everything else is passed over.

use crate::entry::{entry_views, is_word, opt_str_view, opt_view, HostEntry, SSHServer};
use crate::lines::{lines_of, split_lines};
use crate::text::{
    chars_of, has_prefix, is_blank, is_space, lemma_trim, lemma_trim_start, string_of,
    string_views, trim, trim_range, trim_start,
};
use vstd::prelude::*;
use vstd::string::StrSliceExecFns;

verus! {

/// The keyword that opens a block, with the space that must follow it.
pub open spec fn host_key() -> Seq<char> {
    "Host "@
}

/// The keyword of the directive that gives the address.
pub open spec fn hostname_key() -> Seq<char> {
    "HostName "@
}

/// The keyword of the directive that gives the login name.
pub open spec fn user_key() -> Seq<char> {
    "User "@
}

/// The keyword of the directive that gives the private key.
pub open spec fn identity_key() -> Seq<char> {
    "IdentityFile "@
}

/// Whether `key` is one of the four keywords.
pub open spec fn is_key(key: Seq<char>) -> bool {
    key == host_key() || key == hostname_key() || key == user_key() || key == identity_key()
}

/// What stands behind `key` on the trimmed line `t`, itself trimmed, if `t`
/// begins with `key`.
pub open spec fn argument(t: Seq<char>, key: Seq<char>) -> Option<Seq<char>> {
    if key.is_prefix_of(t) {
        Some(trim(t.skip(key.len() as int)))
    } else {
        None
    }
}

/// The value that `line` gives for `key`, if it is a directive of that
/// keyword.
pub open spec fn directive(line: Seq<char>, key: Seq<char>) -> Option<Seq<char>> {
    argument(trim(line), key)
}

/// Whether `line` opens a block.
pub open spec fn is_host_line(line: Seq<char>) -> bool {
    directive(line, host_key()) is Some
}

/// Whether the parser passes over `line` unread: it is blank, or a comment.
pub open spec fn is_ignored(line: Seq<char>) -> bool {
    is_blank(line) || trim(line).first() == '#'
}

/// The value of the last directive of `key` among `body`.
pub open spec fn last_value(body: Seq<Seq<char>>, key: Seq<char>) -> Option<Seq<char>>
    decreases body.len(),
{
    if body.len() == 0 {
        None
    } else {
        match directive(body.last(), key) {
            Some(v) => Some(v),
            None => last_value(body.drop_last(), key),
        }
    }
}

/// The entry of the block that `host_line` opens and `body` fills, if the
/// block is complete.
pub open spec fn block_entry(host_line: Seq<char>, body: Seq<Seq<char>>) -> Option<HostEntry> {
    match (
        directive(host_line, host_key()),
        last_value(body, hostname_key()),
        last_value(body, user_key()),
    ) {
        (Some(name), Some(hostname), Some(user)) => Some(
            HostEntry { name, hostname, user, identity_file: last_value(body, identity_key()) },
        ),
        _ => None,
    }
}

/// The place of the last `Host` line of `lines`, or -1 where there is none.
pub open spec fn last_host(lines: Seq<Seq<char>>) -> int
    decreases lines.len(),
{
    if lines.len() == 0 {
        -1
    } else if is_host_line(lines.last()) {
        lines.len() - 1
    } else {
        last_host(lines.drop_last())
    }
}

/// The entries of `lines`: those of the complete blocks, in the order of
/// their `Host` lines.
pub open spec fn entries(lines: Seq<Seq<char>>) -> Seq<HostEntry>
    decreases lines.len(),
{
    let k = last_host(lines);
    if 0 <= k < lines.len() {
        let earlier = entries(lines.take(k));
        match block_entry(lines[k], lines.skip(k + 1)) {
            Some(e) => earlier.push(e),
            None => earlier,
        }
    } else {
        Seq::empty()
    }
}

/// The entries of a file: none where there is no file.
pub open spec fn file_entries(content: Option<Seq<char>>) -> Seq<HostEntry> {
    match content {
        Some(text) => entries(lines_of(text)),
        None => Seq::empty(),
    }
}

/// The last `Host` line is a `Host` line, and none follows it.
pub proof fn lemma_last_host(lines: Seq<Seq<char>>)
    ensures
        -1 <= last_host(lines) < lines.len(),
        last_host(lines) >= 0 ==> is_host_line(lines[last_host(lines)]),
        forall|j: int| last_host(lines) < j < lines.len() ==> !is_host_line(#[trigger] lines[j]),
    decreases lines.len(),
{
    if lines.len() > 0 && !is_host_line(lines.last()) {
        let init = lines.drop_last();
        lemma_last_host(init);
        assert forall|j: int| last_host(lines) < j < lines.len() implies !is_host_line(
            #[trigger] lines[j],
        ) by {
            if j < init.len() {
                assert(lines[j] == init[j]);
            }
        }
    }
}

/// The four keywords, character by character.
pub proof fn lemma_keys()
    ensures
        host_key() == seq!['H', 'o', 's', 't', ' '],
        hostname_key() == seq!['H', 'o', 's', 't', 'N', 'a', 'm', 'e', ' '],
        user_key() == seq!['U', 's', 'e', 'r', ' '],
        identity_key() == seq![
            'I',
            'd',
            'e',
            'n',
            't',
            'i',
            't',
            'y',
            'F',
            'i',
            'l',
            'e',
            ' ',
        ],
{
    reveal_strlit("Host ");
    reveal_strlit("HostName ");
    reveal_strlit("User ");
    reveal_strlit("IdentityFile ");
    assert(host_key() =~= seq!['H', 'o', 's', 't', ' ']);
    assert(hostname_key() =~= seq!['H', 'o', 's', 't', 'N', 'a', 'm', 'e', ' ']);
    assert(user_key() =~= seq!['U', 's', 'e', 'r', ' ']);
    assert(identity_key() =~= seq![
        'I',
        'd',
        'e',
        'n',
        't',
        'i',
        't',
        'y',
        'F',
        'i',
        'l',
        'e',
        ' ',
    ]);
}

/// A trimmed line begins with at most one of the four keywords.
pub proof fn lemma_keys_exclusive(t: Seq<char>)
    ensures
        host_key().is_prefix_of(t) ==> !hostname_key().is_prefix_of(t) && !user_key().is_prefix_of(
            t,
        ) && !identity_key().is_prefix_of(t),
        hostname_key().is_prefix_of(t) ==> !user_key().is_prefix_of(t)
            && !identity_key().is_prefix_of(t),
        user_key().is_prefix_of(t) ==> !identity_key().is_prefix_of(t),
{
    lemma_keys();
    lemma_key_start(t, host_key());
    lemma_key_start(t, hostname_key());
    lemma_key_start(t, user_key());
    lemma_key_start(t, identity_key());
}

/// A line that begins with a keyword of five characters or more has the
/// keyword's first and fifth characters.
proof fn lemma_key_start(t: Seq<char>, key: Seq<char>)
    requires
        key.len() >= 5,
    ensures
        key.is_prefix_of(t) ==> t.len() >= key.len() && t[0] == key[0] && t[4] == key[4],
{
    if key.is_prefix_of(t) {
        let p = t.subrange(0, key.len() as int);
        assert(p[0] == t[0]);
        assert(p[4] == t[4]);
    }
}

/// A blank line and a comment are no directives, of whatever keyword.
pub proof fn lemma_ignored_is_no_directive(line: Seq<char>)
    requires
        is_ignored(line),
    ensures
        directive(line, host_key()) is None,
        directive(line, hostname_key()) is None,
        directive(line, user_key()) is None,
        directive(line, identity_key()) is None,
{
    lemma_keys();
    let t = trim(line);
    lemma_key_start(t, host_key());
    lemma_key_start(t, hostname_key());
    lemma_key_start(t, user_key());
    lemma_key_start(t, identity_key());
}

/// What one more line does to the last `Host` line.
pub proof fn lemma_last_host_push(lines: Seq<Seq<char>>, line: Seq<char>)
    ensures
        last_host(lines.push(line)) == if is_host_line(line) {
            lines.len() as int
        } else {
            last_host(lines)
        },
{
    assert(lines.push(line).drop_last() == lines);
}

/// What one more line does to the value of a keyword.
pub proof fn lemma_last_value_push(body: Seq<Seq<char>>, line: Seq<char>, key: Seq<char>)
    ensures
        last_value(body.push(line), key) == match directive(line, key) {
            Some(v) => Some(v),
            None => last_value(body, key),
        },
{
    assert(body.push(line).drop_last() == body);
}

/// The value of a directive is never empty, and is trimmed.
pub proof fn lemma_directive_is_word(line: Seq<char>, key: Seq<char>)
    requires
        is_key(key),
    ensures
        directive(line, key) matches Some(value) ==> is_word(value),
{
    lemma_keys();
    let t = trim(line);
    lemma_trim(line);
    if key.is_prefix_of(t) {
        let n = key.len() as int;
        let rest = t.skip(n);
        assert(t.subrange(0, n)[n - 1] == key[n - 1]);
        assert(is_space(key[n - 1]));
        assert(t.len() > n);
        assert(rest.last() == t.last());
        lemma_trim_start(rest);
        let front = trim_start(rest);
        let d = rest.len() - front.len();
        if d == rest.len() {
            assert(is_space(rest[rest.len() - 1]));
        }
        assert(front.last() == rest.last());
        lemma_trim(rest);
    }
}

/// Each entry that the parser reads is complete.
pub proof fn lemma_entries_complete(lines: Seq<Seq<char>>)
    ensures
        forall|i: int| 0 <= i < entries(lines).len() ==> (#[trigger] entries(lines)[i]).is_complete(),
    decreases lines.len(),
{
    let k = last_host(lines);
    lemma_last_host(lines);
    if 0 <= k < lines.len() {
        let before = lines.take(k);
        let body = lines.skip(k + 1);
        lemma_entries_complete(before);
        lemma_directive_is_word(lines[k], host_key());
        lemma_last_value_is_word(body, hostname_key());
        lemma_last_value_is_word(body, user_key());
        lemma_last_value_is_word(body, identity_key());
        let out = entries(lines);
        assert forall|i: int| 0 <= i < out.len() implies (#[trigger] out[i]).is_complete() by {
            if i < entries(before).len() {
                assert(out[i] == entries(before)[i]);
            }
        }
    }
}

/// The value of a keyword in a block is never empty, and is trimmed.
proof fn lemma_last_value_is_word(body: Seq<Seq<char>>, key: Seq<char>)
    requires
        is_key(key),
    ensures
        last_value(body, key) matches Some(value) ==> is_word(value),
    decreases body.len(),
{
    if body.len() > 0 {
        lemma_directive_is_word(body.last(), key);
        lemma_last_value_is_word(body.drop_last(), key);
    }
}

/// What a single pass over the lines holds at each point: the entries of
/// the blocks that are closed, and of the open block its name and the
/// values read so far.
pub ghost struct Scan {
    pub closed: Seq<HostEntry>,
    pub host: Option<Seq<char>>,
    pub hostname: Option<Seq<char>>,
    pub user: Option<Seq<char>>,
    pub identity: Option<Seq<char>>,
}

/// What the pass holds after `lines`.
pub open spec fn scan(lines: Seq<Seq<char>>) -> Scan {
    let k = last_host(lines);
    if 0 <= k < lines.len() {
        Scan {
            closed: entries(lines.take(k)),
            host: directive(lines[k], host_key()),
            hostname: last_value(lines.skip(k + 1), hostname_key()),
            user: last_value(lines.skip(k + 1), user_key()),
            identity: last_value(lines.skip(k + 1), identity_key()),
        }
    } else {
        Scan { closed: Seq::empty(), host: None, hostname: None, user: None, identity: None }
    }
}

/// The entries once the open block is closed: it gives one if it is
/// complete.
pub open spec fn finish(s: Scan) -> Seq<HostEntry> {
    match (s.host, s.hostname, s.user) {
        (Some(name), Some(hostname), Some(user)) => s.closed.push(
            HostEntry { name, hostname, user, identity_file: s.identity },
        ),
        _ => s.closed,
    }
}

/// `fresh`, or `held` where `fresh` is nothing.
pub open spec fn newer(fresh: Option<Seq<char>>, held: Option<Seq<char>>) -> Option<Seq<char>> {
    match fresh {
        Some(v) => Some(v),
        None => held,
    }
}

/// What the pass holds after one more line. A `Host` line closes the open
/// block and opens the next; a directive inside a block sets its value;
/// any other line changes nothing.
pub open spec fn step(s: Scan, line: Seq<char>) -> Scan {
    match directive(line, host_key()) {
        Some(name) => Scan {
            closed: finish(s),
            host: Some(name),
            hostname: None,
            user: None,
            identity: None,
        },
        None => if s.host is Some {
            Scan {
                closed: s.closed,
                host: s.host,
                hostname: newer(directive(line, hostname_key()), s.hostname),
                user: newer(directive(line, user_key()), s.user),
                identity: newer(directive(line, identity_key()), s.identity),
            }
        } else {
            s
        },
    }
}

/// The entries are what a single pass from the first line to the last
/// gives: the pass goes on line by line.
pub proof fn lemma_scan_push(lines: Seq<Seq<char>>, line: Seq<char>)
    ensures
        scan(lines.push(line)) == step(scan(lines), line),
{
    let after = lines.push(line);
    let k = last_host(lines);
    lemma_last_host(lines);
    lemma_last_host_push(lines, line);
    if is_host_line(line) {
        assert(after.take(lines.len() as int) == lines);
        assert(after.skip(lines.len() as int + 1) == Seq::<Seq<char>>::empty());
    } else if k >= 0 {
        assert(after[k] == lines[k]);
        assert(after.skip(k + 1) == lines.skip(k + 1).push(line));
        assert(after.take(k) == lines.take(k));
        lemma_last_value_push(lines.skip(k + 1), line, hostname_key());
        lemma_last_value_push(lines.skip(k + 1), line, user_key());
        lemma_last_value_push(lines.skip(k + 1), line, identity_key());
    }
}

/// The entries are what the pass holds at the end, the open block closed.
pub proof fn lemma_entries_finish(lines: Seq<Seq<char>>)
    ensures
        entries(lines) == finish(scan(lines)),
{
    lemma_last_host(lines);
}

/// The value of `key` that `v[a..b]`, a trimmed line, gives.
pub(crate) fn read_argument(v: &Vec<char>, a: usize, b: usize, key: &str) -> (r: Option<String>)
    requires
        a <= b <= v.len(),
    ensures
        opt_view(r) == argument(v@.subrange(a as int, b as int), key@),
{
    if has_prefix(v, a, b, key) {
        let n = key.unicode_len();
        let (c, d) = trim_range(v, a + n, b);
        proof {
            assert(v@.subrange(a as int, b as int).skip(n as int) == v@.subrange(a + n, b as int));
        }
        Some(string_of(v, c, d))
    } else {
        None
    }
}

/// The entry of the open block, if it is complete, joins `servers`.
fn close_block(
    servers: &mut Vec<SSHServer>,
    host: Option<String>,
    hostname: Option<String>,
    user: Option<String>,
    identity: Option<String>,
)
    ensures
        entry_views(final(servers)@) == match (opt_view(host), opt_view(hostname), opt_view(user)) {
            (Some(n), Some(h), Some(u)) => entry_views(old(servers)@).push(
                HostEntry { name: n, hostname: h, user: u, identity_file: opt_view(identity) },
            ),
            _ => entry_views(old(servers)@),
        },
{
    match (host, hostname, user) {
        (Some(name), Some(hostname), Some(user)) => {
            let server = SSHServer { name, hostname, user, identity_file: identity };
            proof {
                assert(entry_views(servers@.push(server)) == entry_views(servers@).push(server@));
            }
            servers.push(server);
        },
        _ => {},
    }
}

/// The host entries of `lines`.
pub fn parse_lines(lines: &Vec<String>) -> (servers: Vec<SSHServer>)
    ensures
        entry_views(servers@) == entries(string_views(lines@)),
        forall|i: int| 0 <= i < servers.len() ==> (#[trigger] servers[i])@.is_complete(),
{
    let mut servers: Vec<SSHServer> = Vec::new();
    let mut current_host: Option<String> = None;
    let mut current_hostname: Option<String> = None;
    let mut current_user: Option<String> = None;
    let mut current_identity: Option<String> = None;
    let ghost all = string_views(lines@);
    let mut i: usize = 0;
    proof {
        assert(all.take(0) == Seq::<Seq<char>>::empty());
        assert(entry_views(servers@) == Seq::<HostEntry>::empty());
    }
    while i < lines.len()
        invariant
            i <= lines.len(),
            all == string_views(lines@),
            entry_views(servers@) == scan(all.take(i as int)).closed,
            opt_view(current_host) == scan(all.take(i as int)).host,
            opt_view(current_hostname) == scan(all.take(i as int)).hostname,
            opt_view(current_user) == scan(all.take(i as int)).user,
            opt_view(current_identity) == scan(all.take(i as int)).identity,
        decreases lines.len() - i,
    {
        let ghost line = all[i as int];
        let v = chars_of(lines[i].as_str());
        let (a, b) = trim_range(&v, 0, v.len());
        proof {
            assert(v@.subrange(0, v.len() as int) == v@);
            assert(v@ == line);
            assert(all.take(i + 1) == all.take(i as int).push(line));
            lemma_scan_push(all.take(i as int), line);
            lemma_keys_exclusive(trim(line));
            if a < b {
                assert(trim(line).first() == v@[a as int]);
            }
            if a == b || v@[a as int] == '#' {
                lemma_ignored_is_no_directive(line);
            }
        }
        if a == b || v[a] == '#' {
        } else {
            let host = read_argument(&v, a, b, "Host ");
            if host.is_some() {
                close_block(
                    &mut servers,
                    current_host,
                    current_hostname,
                    current_user,
                    current_identity,
                );
                current_host = host;
                current_hostname = None;
                current_user = None;
                current_identity = None;
            } else if current_host.is_some() {
                let hostname = read_argument(&v, a, b, "HostName ");
                if hostname.is_some() {
                    current_hostname = hostname;
                } else {
                    let user = read_argument(&v, a, b, "User ");
                    if user.is_some() {
                        current_user = user;
                    } else {
                        let identity = read_argument(&v, a, b, "IdentityFile ");
                        if identity.is_some() {
                            current_identity = identity;
                        }
                    }
                }
            }
        }
        i += 1;
    }
    proof {
        assert(all.take(lines.len() as int) == all);
        lemma_entries_finish(all);
    }
    close_block(&mut servers, current_host, current_hostname, current_user, current_identity);
    proof {
        lemma_entries_complete(all);
        assert forall|i: int| 0 <= i < servers.len() implies (#[trigger] servers[i])@.is_complete() by {
            assert(entry_views(servers@)[i] == servers[i]@);
        }
    }
    servers
}

/// The host entries of a configuration file, given what the file holds, or
/// `None` where there is no such file: then there are no entries.
pub fn parse_ssh_config(content: Option<&str>) -> (servers: Vec<SSHServer>)
    ensures
        entry_views(servers@) == file_entries(opt_str_view(content)),
        content is None ==> servers@.len() == 0,
        forall|i: int| 0 <= i < servers.len() ==> (#[trigger] servers[i])@.is_complete(),
{
    match content {
        Some(text) => {
            let lines = split_lines(text);
            parse_lines(&lines)
        },
        None => Vec::new(),
    }
}

} // verus!
