use ssh_commander::entry::SSHServer;
use ssh_commander::parser::{parse_lines, parse_ssh_config};

fn server(name: &str, hostname: &str, user: &str, identity: Option<&str>) -> SSHServer {
    SSHServer {
        name: name.to_string(),
        hostname: hostname.to_string(),
        user: user.to_string(),
        identity_file: identity.map(|s| s.to_string()),
    }
}

fn config_lines(lines: &[&str]) -> Vec<String> {
    lines.iter().map(|s| s.to_string()).collect()
}

#[test]
fn parses_one_block() {
    let text = "Host web\n  HostName example.org\n  User alice\n  IdentityFile ~/.ssh/id_rsa\n";
    assert_eq!(
        parse_ssh_config(Some(text)),
        vec![server("web", "example.org", "alice", Some("~/.ssh/id_rsa"))]
    );
}

#[test]
fn identity_file_is_optional() {
    let text = "Host web\nHostName example.org\nUser alice\n";
    assert_eq!(
        parse_ssh_config(Some(text)),
        vec![server("web", "example.org", "alice", None)]
    );
}

#[test]
fn partial_entry_is_omitted() {
    assert_eq!(parse_ssh_config(Some("Host X\n  HostName h\n")), vec![]);
}

#[test]
fn entry_without_hostname_is_omitted() {
    assert_eq!(parse_ssh_config(Some("Host X\n  User u\n")), vec![]);
    assert_eq!(
        parse_ssh_config(Some("Host X\n  User u\nHost Y\n  HostName h\n  User v\n")),
        vec![server("Y", "h", "v", None)]
    );
}

#[test]
fn missing_file_parses_to_nothing() {
    assert_eq!(parse_ssh_config(None), vec![]);
}

#[test]
fn empty_file_parses_to_nothing() {
    assert_eq!(parse_ssh_config(Some("")), vec![]);
    assert_eq!(parse_ssh_config(Some("\n\n# nothing here\n")), vec![]);
}

#[test]
fn parse_lines_keeps_order_and_duplicates() {
    let lines = config_lines(&[
        "# managed hosts",
        "Host A",
        "HostName one",
        "User u",
        "",
        "Host B",
        "  User only",
        "Host A",
        "\tUser v",
        "\tHostName two",
        "\tPort 22",
    ]);
    assert_eq!(
        parse_lines(&lines),
        vec![server("A", "one", "u", None), server("A", "two", "v", None)]
    );
}

#[test]
fn comments_and_unknown_directives_are_passed_over() {
    let lines = config_lines(&[
        "Host a",
        "  # HostName commented.out",
        "  HostName real",
        "  Port 2222",
        "  ForwardAgent yes",
        "#User nobody",
        "  User u",
    ]);
    assert_eq!(parse_lines(&lines), vec![server("a", "real", "u", None)]);
}

#[test]
fn directives_before_the_first_host_line_are_passed_over() {
    let lines = config_lines(&["HostName stray", "User stray", "Host a", "HostName h", "User u"]);
    assert_eq!(parse_lines(&lines), vec![server("a", "h", "u", None)]);
}

#[test]
fn the_last_directive_of_a_keyword_counts() {
    let lines = config_lines(&[
        "Host a",
        "HostName first",
        "User u1",
        "IdentityFile k1",
        "HostName second",
        "IdentityFile k2",
    ]);
    assert_eq!(parse_lines(&lines), vec![server("a", "second", "u1", Some("k2"))]);
}

#[test]
fn values_are_trimmed_and_taken_whole() {
    let lines = config_lines(&[
        "   Host    my server  ",
        "\tHostName \t 10.0.0.1 \t",
        "  User   a b  ",
        "  IdentityFile   C:\\Users\\me\\.ssh\\id rsa  ",
    ]);
    assert_eq!(
        parse_lines(&lines),
        vec![server("my server", "10.0.0.1", "a b", Some("C:\\Users\\me\\.ssh\\id rsa"))]
    );
}

#[test]
fn keywords_are_matched_by_case_and_need_a_space() {
    let lines = config_lines(&[
        "host a",
        "HostName h",
        "User u",
        "Host",
        "Host\tb",
        "Hostname c",
        "Host d",
        "Hostname h",
        "USER u",
        "HostName",
        "User",
    ]);
    assert_eq!(parse_lines(&lines), vec![]);
}

#[test]
fn a_blank_line_does_not_close_a_block() {
    let lines = config_lines(&["Host a", "HostName h", "", "   ", "User u"]);
    assert_eq!(parse_lines(&lines), vec![server("a", "h", "u", None)]);
}

#[test]
fn files_with_carriage_returns_parse_alike() {
    let text = "Host a\r\n  HostName h\r\n  User u\r\n";
    assert_eq!(parse_ssh_config(Some(text)), vec![server("a", "h", "u", None)]);
}

#[test]
fn glob_characters_in_a_name_are_kept() {
    let text = "Host *.example.org !bad\nHostName h\nUser u\n";
    assert_eq!(
        parse_ssh_config(Some(text)),
        vec![server("*.example.org !bad", "h", "u", None)]
    );
}
