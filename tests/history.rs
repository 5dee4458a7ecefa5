use git_history::entry::Entry;
use git_history::git::GitProvider;
use git_history::log::{parse_log, parse_record};
use git_history::text::{is_white_space_char, split_str, trim_str};

fn entry(id: &str, subject: &str, timestamp: &str) -> Entry {
    Entry {
        id: String::from(id),
        subject: String::from(subject),
        timestamp: String::from(timestamp),
    }
}

#[test]
fn log_lines_come_back_oldest_first() {
    let raw = "a1b2c3||Fix bug||2023-01-01 10:00:00 +0000\nd4e5f6||Add feature||2023-01-02 11:00:00 +0000\n";
    let entries = GitProvider::new().get_commits(raw);
    assert_eq!(
        entries,
        vec![
            entry("d4e5f6", "Add feature", "2023-01-02 11:00:00 +0000"),
            entry("a1b2c3", "Fix bug", "2023-01-01 10:00:00 +0000"),
        ]
    );
}

#[test]
fn empty_subject_drops_the_line() {
    assert_eq!(GitProvider::new().get_commits("abc123||"), vec![]);
    assert_eq!(parse_record("abc123||"), None);
}

#[test]
fn missing_timestamp_is_empty() {
    assert_eq!(
        GitProvider::new().get_commits("abc123||Only subject"),
        vec![entry("abc123", "Only subject", "")]
    );
}

#[test]
fn report_joins_diffs_without_separator() {
    let diffs = vec![String::from("AAA"), String::from("BBB")];
    assert_eq!(GitProvider::new().assemble_report(&diffs), "AAABBB");
}

#[test]
fn report_follows_the_given_order() {
    let diffs = vec![String::from("second\n"), String::from("first\n"), String::from("second\n")];
    assert_eq!(GitProvider::new().assemble_report(&diffs), "second\nfirst\nsecond\n");
    assert_eq!(GitProvider::new().assemble_report(&vec![]), "");
}

#[test]
fn empty_identifier_drops_the_line() {
    assert_eq!(parse_record("||Subject||2023-01-01"), None);
    assert_eq!(parse_record("   ||Subject||2023-01-01"), None);
    assert_eq!(parse_record("abc|| \t ||2023-01-01"), None);
    assert_eq!(parse_record(""), None);
    assert_eq!(parse_record("no separator at all"), None);
}

#[test]
fn malformed_lines_between_good_ones_are_skipped() {
    let raw = "c3||Third||t3\n||no id||t\nb2||  ||t\n\na1||First||t1";
    assert_eq!(
        parse_log(raw),
        vec![entry("a1", "First", "t1"), entry("c3", "Third", "t3")]
    );
}

#[test]
fn fields_are_trimmed() {
    assert_eq!(
        parse_record("  abc123 \t||  Fix  the bug \r||  2023-01-01 10:00:00 +0000  "),
        Some(entry("abc123", "Fix  the bug", "2023-01-01 10:00:00 +0000"))
    );
    assert_eq!(
        parse_record("\u{3000}abc\u{a0}||\u{2003}subject\u{85}||\u{2028}"),
        Some(entry("abc", "subject", ""))
    );
}

#[test]
fn reading_twice_gives_the_same_entries() {
    let raw = "b2||Second||t2\na1||First||t1\n";
    let provider = GitProvider::new();
    let first = provider.get_commits(raw);
    let second = provider.get_commits(raw);
    assert_eq!(first, second);
    assert_eq!(first.len(), 2);
    assert_eq!(first[0].id, "a1");
}

#[test]
fn empty_output_gives_no_entries() {
    assert_eq!(parse_log(""), vec![]);
    assert_eq!(parse_log("\n\n"), vec![]);
}

#[test]
fn single_pipes_stay_in_the_subject() {
    assert_eq!(
        parse_record("abc||a | b||t"),
        Some(entry("abc", "a | b", "t"))
    );
    assert_eq!(parse_record("abc|||b||t"), Some(entry("abc", "|b", "t")));
}

#[test]
fn extra_fields_are_ignored() {
    assert_eq!(
        parse_record("abc||subject||time||extra"),
        Some(entry("abc", "subject", "time"))
    );
}

#[test]
fn own_name_is_trimmed() {
    assert_eq!(GitProvider::new().get_own_name("me@example.org\n"), "me@example.org");
    assert_eq!(GitProvider::new().get_own_name(""), "");
}

#[test]
fn log_arguments_filter_by_author() {
    let args = GitProvider::new().log_args("me@example.org");
    assert_eq!(args, vec!["log", "--author=me@example.org", "--format=%h||%s||%ai"]);
}

#[test]
fn diff_arguments_name_the_parent() {
    let args = GitProvider::new().diff_args(&entry("abc123", "s", "t"));
    assert_eq!(args, vec!["diff", "abc123^", "abc123"]);
}

#[test]
fn trim_removes_unicode_white_space() {
    assert_eq!(trim_str("  a b  "), "a b");
    assert_eq!(trim_str("\t\n"), "");
    assert_eq!(trim_str("\u{1680}x\u{205f}"), "x");
    assert_eq!(trim_str("x"), "x");
    for c in ['\t', '\n', '\u{b}', '\u{c}', '\r', ' ', '\u{85}', '\u{a0}', '\u{2000}', '\u{200a}', '\u{202f}', '\u{3000}', 'a', '\u{200b}', '\u{180e}'] {
        assert_eq!(is_white_space_char(c), c.is_whitespace());
    }
}

#[test]
fn split_keeps_empty_pieces() {
    assert_eq!(split_str("a||b||", "||"), vec!["a", "b", ""]);
    assert_eq!(split_str("", "\n"), vec![""]);
    assert_eq!(split_str("a|||b", "||"), vec!["a", "|b"]);
    assert_eq!(split_str("x\ny\n", "\n"), vec!["x", "y", ""]);
    assert_eq!(split_str("日本||語", "||"), vec!["日本", "語"]);
}
