use ssh_commander::lines::{join_lines, split_lines};

fn owned_lines(lines: &[&str]) -> Vec<String> {
    lines.iter().map(|s| s.to_string()).collect()
}

#[test]
fn split_cuts_at_line_feeds() {
    assert_eq!(split_lines(""), Vec::<String>::new());
    assert_eq!(split_lines("abc"), owned_lines(&["abc"]));
    assert_eq!(split_lines("abc\n"), owned_lines(&["abc"]));
    assert_eq!(split_lines("abc\n\n"), owned_lines(&["abc", ""]));
    assert_eq!(split_lines("\n"), owned_lines(&[""]));
    assert_eq!(split_lines("a\nb\nc"), owned_lines(&["a", "b", "c"]));
}

#[test]
fn split_takes_a_carriage_return_for_part_of_the_line_ending() {
    assert_eq!(split_lines("a\r\nb\r\n"), owned_lines(&["a", "b"]));
    assert_eq!(split_lines("a\r\r\nb"), owned_lines(&["a\r", "b"]));
    assert_eq!(split_lines("a\rb\n"), owned_lines(&["a\rb"]));
    assert_eq!(split_lines("a\r"), owned_lines(&["a\r"]));
    assert_eq!(split_lines("\r\n"), owned_lines(&[""]));
}

#[test]
fn split_agrees_with_std_lines() {
    let samples = [
        "",
        "\n",
        "\n\n",
        "Host a\n  HostName h\n",
        "Host a\r\n  HostName h\r\n\r\n",
        "no newline at end",
        "x\r",
        "x\r\r\n",
        "один\nдва\n",
        "\r\n\r\nz",
    ];
    for text in samples.iter() {
        let expected: Vec<String> = text.lines().map(|s| s.to_string()).collect();
        assert_eq!(split_lines(text), expected, "{:?}", text);
    }
}

#[test]
fn join_closes_each_line_with_a_line_feed() {
    assert_eq!(join_lines(&owned_lines(&[])), "");
    assert_eq!(join_lines(&owned_lines(&[""])), "\n");
    assert_eq!(join_lines(&owned_lines(&["a", "", "b"])), "a\n\nb\n");
}

#[test]
fn split_after_join_gives_the_lines_back() {
    let lines = owned_lines(&["", "Host a", "  HostName h", "", "# note"]);
    assert_eq!(split_lines(&join_lines(&lines)), lines);
}
