use ssh_commander::append::add_ssh_config;
use ssh_commander::entry::{ConfigError, SSHServer};
use ssh_commander::lines::split_lines;
use ssh_commander::parser::parse_ssh_config;
use ssh_commander::remove::{remove_block, remove_ssh_config};

fn host(name: &str, hostname: &str) -> SSHServer {
    SSHServer {
        name: name.to_string(),
        hostname: hostname.to_string(),
        user: "u".to_string(),
        identity_file: Some("k".to_string()),
    }
}

fn file_lines(lines: &[&str]) -> Vec<String> {
    lines.iter().map(|s| s.to_string()).collect()
}

fn two_hosts() -> String {
    let one = add_ssh_config(None, "A", "a.example", "u", "k");
    add_ssh_config(Some(&one), "B", "b.example", "u", "k")
}

#[test]
fn remove_then_parse_leaves_the_other_host() {
    let content = remove_ssh_config(Some(&two_hosts()), "A").unwrap();
    assert_eq!(parse_ssh_config(Some(&content)), vec![host("B", "b.example")]);
    for line in split_lines(&content) {
        assert_ne!(line.trim(), "Host A");
    }
    assert!(!content.contains("Host A"));
    assert_eq!(content, "\nHost B\n  HostName b.example\n  User u\n  IdentityFile k\n");
}

#[test]
fn remove_of_the_last_host_leaves_the_first() {
    let content = remove_ssh_config(Some(&two_hosts()), "B").unwrap();
    assert_eq!(parse_ssh_config(Some(&content)), vec![host("A", "a.example")]);
    assert_eq!(content, "\nHost A\n  HostName a.example\n  User u\n  IdentityFile k\n\n");
}

#[test]
fn remove_of_an_absent_host_changes_nothing_that_is_parsed() {
    let before = add_ssh_config(None, "A", "a.example", "u", "k");
    let after = remove_ssh_config(Some(&before), "Z");
    assert!(after.is_ok());
    let content = after.unwrap();
    assert_eq!(parse_ssh_config(Some(&content)), vec![host("A", "a.example")]);
    assert_eq!(content, before);
}

#[test]
fn remove_from_a_missing_file_is_not_found() {
    assert_eq!(remove_ssh_config(None, "A"), Err(ConfigError::NotFound));
    assert_eq!(parse_ssh_config(None), vec![]);
}

#[test]
fn remove_from_an_empty_file_succeeds() {
    assert_eq!(remove_ssh_config(Some(""), "A"), Ok(String::new()));
}

#[test]
fn remove_takes_every_block_of_the_name() {
    let mut content = two_hosts();
    content = add_ssh_config(Some(&content), "A", "again.example", "u", "k");
    let left = remove_ssh_config(Some(&content), "A").unwrap();
    assert_eq!(parse_ssh_config(Some(&left)), vec![host("B", "b.example")]);
}

#[test]
fn the_blank_line_that_ends_a_block_is_kept() {
    let lines = file_lines(&["# top", "Host A", "  HostName a", "  User u", "", "Host B", "  User v"]);
    assert_eq!(
        remove_block(&lines, "A"),
        file_lines(&["# top", "", "Host B", "  User v"])
    );
}

#[test]
fn a_block_ends_at_the_first_blank_line() {
    let lines = file_lines(&["Host A", "  HostName a", "   ", "  User u", "Port 1", "Host B"]);
    assert_eq!(
        remove_block(&lines, "A"),
        file_lines(&["   ", "  User u", "Port 1", "Host B"])
    );
}

#[test]
fn a_block_without_a_blank_line_takes_the_lines_after_it() {
    let lines = file_lines(&["Host B", "  User v", "Host A", "  HostName a", "# tail", "Port 1"]);
    assert_eq!(remove_block(&lines, "A"), file_lines(&["Host B", "  User v"]));
}

#[test]
fn a_host_line_of_another_name_ends_the_removal() {
    let lines = file_lines(&["Host A", "  HostName a", "Host B", "  HostName b", "  User v"]);
    assert_eq!(
        remove_block(&lines, "A"),
        file_lines(&["Host B", "  HostName b", "  User v"])
    );
}

#[test]
fn names_are_compared_whole_and_by_case() {
    let lines = file_lines(&["Host web", "  User u", "", "Host Web2", "  User v"]);
    assert_eq!(remove_block(&lines, "Web"), lines);
    assert_eq!(remove_block(&lines, "we"), lines);
    assert_eq!(remove_block(&lines, "web "), lines);
    assert_eq!(remove_block(&lines, "web"), file_lines(&["", "Host Web2", "  User v"]));
}

#[test]
fn the_host_line_is_read_trimmed() {
    let lines = file_lines(&["\t Host   A  ", "  User u", "", "x"]);
    assert_eq!(remove_block(&lines, "A"), file_lines(&["", "x"]));
}

#[test]
fn remove_is_followed_by_the_cleanup_pass() {
    let before = "x\n\n\n\nHost A\n  User u\n\n\ny\n";
    assert_eq!(remove_ssh_config(Some(before), "A"), Ok("x\n\ny\n".to_string()));
    assert_eq!(remove_ssh_config(Some(before), "none"), Ok("x\n\nHost A\n  User u\n\ny\n".to_string()));
}

#[test]
fn failures_have_a_message() {
    assert_eq!(ConfigError::NotFound.message(), "Файл конфигурации не найден");
    assert_eq!(
        ConfigError::IoError("Не удалось открыть файл: denied".to_string()).message(),
        "Не удалось открыть файл: denied"
    );
}
