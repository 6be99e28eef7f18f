use ssh_commander::append::{add_ssh_config, host_block};
use ssh_commander::entry::SSHServer;
use ssh_commander::lines::split_lines;
use ssh_commander::parser::parse_ssh_config;
use ssh_commander::paths::private_key_path;
use ssh_commander::text::is_blank_line;

fn entry(name: &str, hostname: &str, user: &str, identity: &str) -> SSHServer {
    SSHServer {
        name: name.to_string(),
        hostname: hostname.to_string(),
        user: user.to_string(),
        identity_file: Some(identity.to_string()),
    }
}

fn has_blank_run(text: &str) -> bool {
    let lines = split_lines(text);
    let mut i = 1;
    while i < lines.len() {
        if is_blank_line(&lines[i - 1]) && is_blank_line(&lines[i]) {
            return true;
        }
        i += 1;
    }
    false
}

#[test]
fn block_has_the_fixed_form() {
    assert_eq!(
        host_block("web", "example.org", "alice", "/home/a/.ssh/id_rsa"),
        "\n\nHost web\n  HostName example.org\n  User alice\n  IdentityFile /home/a/.ssh/id_rsa\n"
    );
}

#[test]
fn append_to_no_file_then_parse_gives_the_entry() {
    let content = add_ssh_config(None, "N", "H", "U", "I");
    assert_eq!(content, "\nHost N\n  HostName H\n  User U\n  IdentityFile I\n");
    assert_eq!(parse_ssh_config(Some(&content)), vec![entry("N", "H", "U", "I")]);
}

#[test]
fn append_to_an_empty_file_is_append_to_no_file() {
    assert_eq!(
        add_ssh_config(Some(""), "N", "H", "U", "I"),
        add_ssh_config(None, "N", "H", "U", "I")
    );
}

#[test]
fn the_identity_path_is_written_as_given() {
    let content = add_ssh_config(None, "web", "h", "u", "/k/id_rsa.pub");
    assert_eq!(content, "\nHost web\n  HostName h\n  User u\n  IdentityFile /k/id_rsa.pub\n");
    assert_eq!(split_lines(&content).last().unwrap(), "  IdentityFile /k/id_rsa.pub");
    assert_eq!(
        parse_ssh_config(Some(&content)),
        vec![entry("web", "h", "u", "/k/id_rsa.pub")]
    );
}

#[test]
fn the_caller_names_the_private_key_of_a_public_key() {
    let private_key = private_key_path("/k/id_ed25519.pub");
    let content = add_ssh_config(None, "web", "h", "u", &private_key);
    assert_eq!(
        parse_ssh_config(Some(&content)),
        vec![entry("web", "h", "u", "/k/id_ed25519")]
    );
}

#[test]
fn the_lines_after_an_append_are_the_cleaned_old_lines_and_the_block() {
    let before = "a\n\n\nb";
    let content = add_ssh_config(Some(before), "N", "H", "U", "I.pub");
    let expected: Vec<String> =
        ["a", "", "b", "", "Host N", "  HostName H", "  User U", "  IdentityFile I.pub"]
            .iter()
            .map(|s| s.to_string())
            .collect();
    assert_eq!(split_lines(&content), expected);
}

#[test]
fn append_leaves_what_stands_before_untouched() {
    let before = "# my hosts\nHost old\n  HostName o\n  User me\n  Port 22   \n# end";
    let content = add_ssh_config(Some(before), "new", "n", "u", "k");
    assert_eq!(
        content,
        "# my hosts\nHost old\n  HostName o\n  User me\n  Port 22   \n# end\n\nHost new\n  HostName n\n  User u\n  IdentityFile k\n"
    );
    assert_eq!(
        parse_ssh_config(Some(&content)),
        vec![
            SSHServer {
                name: "old".to_string(),
                hostname: "o".to_string(),
                user: "me".to_string(),
                identity_file: None,
            },
            entry("new", "n", "u", "k"),
        ]
    );
}

#[test]
fn repeated_appends_never_leave_two_blank_lines_together() {
    let mut content = add_ssh_config(None, "h0", "a0", "u0", "k0");
    assert!(!has_blank_run(&content));
    let mut n = 1;
    while n < 12 {
        let name = format!("h{}", n);
        content = add_ssh_config(Some(&content), &name, "addr", "user", "key.pub");
        assert!(!has_blank_run(&content), "after {} appends", n + 1);
        assert!(!content.contains("\n\n\n"));
        n += 1;
    }
    let servers = parse_ssh_config(Some(&content));
    assert_eq!(servers.len(), 12);
    assert_eq!(servers[0], entry("h0", "a0", "u0", "k0"));
    assert_eq!(servers[11], entry("h11", "addr", "user", "key.pub"));
}

#[test]
fn blocks_are_parted_by_one_blank_line() {
    let one = add_ssh_config(None, "A", "a", "u", "k");
    let two = add_ssh_config(Some(&one), "B", "b", "u", "k");
    assert_eq!(
        two,
        "\nHost A\n  HostName a\n  User u\n  IdentityFile k\n\nHost B\n  HostName b\n  User u\n  IdentityFile k\n"
    );
}

#[test]
fn duplicate_names_give_two_entries_in_append_order() {
    let one = add_ssh_config(None, "A", "first.example", "u", "k");
    let two = add_ssh_config(Some(&one), "A", "second.example", "u", "k");
    assert_eq!(
        parse_ssh_config(Some(&two)),
        vec![entry("A", "first.example", "u", "k"), entry("A", "second.example", "u", "k")]
    );
}

#[test]
fn append_cleans_blank_runs_of_the_whole_file() {
    let before = "a\n\n\n\nb\n\n\n";
    let content = add_ssh_config(Some(before), "N", "H", "U", "I");
    assert_eq!(content, "a\n\nb\n\nHost N\n  HostName H\n  User U\n  IdentityFile I\n");
}

#[test]
fn values_that_are_not_plain_are_written_as_they_are() {
    let content = add_ssh_config(None, " A ", "H", "U", "I");
    assert_eq!(content, "\nHost  A \n  HostName H\n  User U\n  IdentityFile I\n");
    assert_eq!(parse_ssh_config(Some(&content)), vec![entry("A", "H", "U", "I")]);
    let nameless = add_ssh_config(None, "", "H", "U", "I");
    assert_eq!(parse_ssh_config(Some(&nameless)), vec![]);
}
