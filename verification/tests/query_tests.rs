use pscols::find_matching_pids;
use pscols::line_matches;
use pscols::query::contains_substr;
use pscols::query::first_token_of;

fn lines(v: &[&str]) -> Vec<String> {
    v.iter().map(|s| s.to_string()).collect()
}

#[test]
fn first_token_skips_leading_whitespace() {
    assert_eq!(first_token_of("  123 /bin/foo"), Some("123".to_string()));
    assert_eq!(first_token_of("\t 42\tbar"), Some("42".to_string()));
    assert_eq!(first_token_of("abc"), Some("abc".to_string()));
}

#[test]
fn first_token_of_blank_line_is_none() {
    assert_eq!(first_token_of(""), None);
    assert_eq!(first_token_of("   \t  "), None);
}

#[test]
fn line_matches_compares_first_token() {
    let pids = lines(&["123", "77"]);
    assert!(line_matches("  123 /bin/foo", &pids));
    assert!(line_matches("77 bash", &pids));
    assert!(!line_matches(" 1234 /bin/foo", &pids));
    assert!(!line_matches("12 /bin/foo 123", &pids));
    assert!(!line_matches("", &pids));
    assert!(!line_matches("  123", &lines(&[])));
}

#[test]
fn contains_substr_basics() {
    assert!(contains_substr("  10 /sbin/init", "init"));
    assert!(contains_substr("abc", ""));
    assert!(contains_substr("", ""));
    assert!(!contains_substr("", "a"));
    assert!(!contains_substr("abc", "abcd"));
    assert!(contains_substr("abcd", "bc"));
    assert!(!contains_substr("abcd", "bd"));
}

#[test]
fn contains_substr_counts_characters() {
    assert!(contains_substr("na\u{ef}ve", "\u{ef}v"));
    assert!(!contains_substr("na\u{ef}ve", "iv"));
}

#[test]
fn find_matching_pids_picks_pid_of_matching_lines() {
    let table = lines(&["  10 /sbin/init", "  20 emacs foo", "  30 bash", " 200 emacs bar"]);
    assert_eq!(find_matching_pids(&table, "emacs"), lines(&["20", "200"]));
    assert_eq!(find_matching_pids(&table, "bash"), lines(&["30"]));
}

#[test]
fn find_matching_pids_no_match_is_empty() {
    let table = lines(&["  10 /sbin/init", "  20 emacs foo"]);
    assert_eq!(find_matching_pids(&table, "zzz"), Vec::<String>::new());
}

#[test]
fn find_matching_pids_empty_needle_matches_all() {
    let table = lines(&["10 a", "20 b"]);
    assert_eq!(find_matching_pids(&table, ""), lines(&["10", "20"]));
}

#[test]
fn find_matching_pids_skips_tokenless_lines() {
    // A line of pure whitespace can match a whitespace query but has no
    // token to report.
    let table = lines(&["   ", " 55 sleep 1"]);
    assert_eq!(find_matching_pids(&table, " "), lines(&["55"]));
}
