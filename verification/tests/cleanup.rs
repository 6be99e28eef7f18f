use ssh_commander::cleanup::{clean_config_file, collapse_blank_runs};

fn text_lines(lines: &[&str]) -> Vec<String> {
    lines.iter().map(|s| s.to_string()).collect()
}

#[test]
fn runs_of_blank_lines_shrink_to_one() {
    let lines = text_lines(&["a", "", "", "", "b", "", "c", "", ""]);
    assert_eq!(collapse_blank_runs(&lines), text_lines(&["a", "", "b", "", "c", ""]));
}

#[test]
fn the_first_line_of_a_run_is_the_one_that_stays() {
    let lines = text_lines(&["a", "  ", "", "\t", "b"]);
    assert_eq!(collapse_blank_runs(&lines), text_lines(&["a", "  ", "b"]));
}

#[test]
fn other_lines_are_kept_as_they_are() {
    let lines = text_lines(&["  Host a  ", "#  comment ", "\tUser u\t", "x"]);
    assert_eq!(collapse_blank_runs(&lines), lines);
}

#[test]
fn leading_blank_lines_shrink_too() {
    let lines = text_lines(&["", "", "a"]);
    assert_eq!(collapse_blank_runs(&lines), text_lines(&["", "a"]));
    assert_eq!(collapse_blank_runs(&text_lines(&[])), text_lines(&[]));
    assert_eq!(collapse_blank_runs(&text_lines(&["", "", ""])), text_lines(&[""]));
}

#[test]
fn collapse_is_idempotent() {
    let samples = [
        text_lines(&[]),
        text_lines(&["", "", "", "a", "", "", "b", " ", "\t", "", "c"]),
        text_lines(&["a", "b", "c"]),
        text_lines(&["", " ", "", " "]),
    ];
    for lines in samples.iter() {
        let once = collapse_blank_runs(lines);
        let twice = collapse_blank_runs(&once);
        assert_eq!(twice, once);
    }
}

#[test]
fn clean_rewrites_the_whole_file() {
    assert_eq!(clean_config_file(""), "");
    assert_eq!(clean_config_file("a\n\n\n\nb"), "a\n\nb\n");
    assert_eq!(clean_config_file("\n\n\nHost a\r\n\r\n\r\n  User u"), "\nHost a\n\n  User u\n");
}
