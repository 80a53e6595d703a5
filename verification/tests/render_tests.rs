use pscols::render_line;
use pscols::summary_line;
use pscols::truncate_line;
use pscols::u64_to_string;

fn pids(v: &[&str]) -> Vec<String> {
    v.iter().map(|s| s.to_string()).collect()
}

#[test]
fn truncates_at_character_boundary() {
    assert_eq!(truncate_line("abcdef", 3), "abc");
    assert_eq!(truncate_line("abcdef", 6), "abcdef");
    assert_eq!(truncate_line("abcdef", 7), "abcdef");
    assert_eq!(truncate_line("abc", 0), "");
}

#[test]
fn truncates_characters_not_bytes() {
    // Each of these characters takes two bytes; the cut falls exactly at
    // the character with index `width`, never inside one.
    assert_eq!(truncate_line("\u{3b1}\u{3b1}\u{3b2}\u{3b2}", 3), "\u{3b1}\u{3b1}\u{3b2}");
    assert_eq!(truncate_line("\u{3b1}\u{3b2}", 2), "\u{3b1}\u{3b2}");
}

#[test]
fn render_highlights_matched_line() {
    let line = " 123 /bin/foo";
    assert_eq!(
        render_line(line, 80, &pids(&["123"])),
        "\x1b[01;31m 123 /bin/foo\x1b[0m"
    );
    assert_eq!(render_line(line, 80, &pids(&["99"])), " 123 /bin/foo");
    assert_eq!(render_line(line, 80, &pids(&[])), " 123 /bin/foo");
}

#[test]
fn render_truncates_before_matching() {
    // The width cuts the line before matching, exactly as it is printed.
    assert_eq!(
        render_line(" 123 /bin/foo", 4, &pids(&["123"])),
        "\x1b[01;31m 123\x1b[0m"
    );
}

#[test]
fn summary_no_matches() {
    assert_eq!(summary_line(&pids(&[])), "No matching processes.");
}

#[test]
fn summary_one_match() {
    assert_eq!(summary_line(&pids(&["42"])), "One matching process: 42");
}

#[test]
fn summary_many_matches() {
    assert_eq!(summary_line(&pids(&["1", "2", "3"])), "3 matching processes: 1 2 3");
    assert_eq!(summary_line(&pids(&["10", "10"])), "2 matching processes: 10 10");
}

#[test]
fn decimal_formatting() {
    assert_eq!(u64_to_string(0), "0");
    assert_eq!(u64_to_string(7), "7");
    assert_eq!(u64_to_string(10), "10");
    assert_eq!(u64_to_string(12345), "12345");
    assert_eq!(u64_to_string(u64::MAX), "18446744073709551615");
}
