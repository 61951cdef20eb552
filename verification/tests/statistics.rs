use repo_correlator::stats::count_comment_lines;
use repo_correlator::stats::is_hidden_name;
use repo_correlator::stats::is_python_extension;
use repo_correlator::stats::parse_collected_count;

#[test]
fn comment_lines_are_counted_by_their_first_nonblank_characters() {
    let content = "# top\nx = 1\n  # indented\n\"\"\"docstring\n''' other\n\t#tabbed";
    assert_eq!(count_comment_lines(content), 5);
}

#[test]
fn empty_and_blank_contents_have_no_comment_lines() {
    assert_eq!(count_comment_lines(""), 0);
    assert_eq!(count_comment_lines("\n"), 0);
    assert_eq!(count_comment_lines("   \n\t\n"), 0);
}

#[test]
fn carriage_returns_do_not_affect_the_count() {
    assert_eq!(count_comment_lines("  #x\r\nplain\r\n# y\r\n"), 2);
}

#[test]
fn two_quotes_are_not_a_comment_marker() {
    assert_eq!(count_comment_lines("\"\" not a docstring\n'' neither"), 0);
}

#[test]
fn hidden_names_begin_with_a_dot() {
    assert!(is_hidden_name(".git"));
    assert!(is_hidden_name(".venv"));
    assert!(!is_hidden_name("src"));
    assert!(!is_hidden_name(""));
}

#[test]
fn python_extension_is_exactly_py() {
    assert!(is_python_extension("py"));
    assert!(!is_python_extension("pyc"));
    assert!(!is_python_extension("rs"));
    assert!(!is_python_extension(""));
}

#[test]
fn collection_report_count_is_read_from_the_collected_line() {
    let output = "===== test session starts =====\nrootdir: /tmp\ncollected 12 items\n";
    assert_eq!(parse_collected_count(output), Some(12));
}

#[test]
fn first_collected_line_wins_and_second_token_is_the_count() {
    let output = "plugins: count\ncollected 3 items\ncollected 99 items\n";
    assert_eq!(parse_collected_count(output), Some(3));
}

#[test]
fn report_without_a_collected_line_has_no_count() {
    assert_eq!(parse_collected_count("no tests ran\n"), None);
    assert_eq!(parse_collected_count(""), None);
}

#[test]
fn collected_line_with_a_nonnumeric_token_has_no_count() {
    assert_eq!(parse_collected_count("collected some items\n"), None);
    assert_eq!(parse_collected_count("collected\n"), None);
    assert_eq!(parse_collected_count("collected 18446744073709551616 items\n"), None);
}

#[test]
fn count_token_may_carry_a_plus_sign() {
    assert_eq!(parse_collected_count("collected +4 items\n"), Some(4));
}
