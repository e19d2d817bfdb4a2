use aitoolgrep::files::SkipReason;
use aitoolgrep::stats::{stats_for_file, summarize_stats, StatsOptions};

#[test]
fn stats_of_a_text_file() {
    let s = stats_for_file("f", Ok("a\nb\r\nç".to_string()));
    assert_eq!(s.line_count, 3);
    assert_eq!(s.byte_count, 7);
    assert!(s.skip_reason.is_none());
}

#[test]
fn trailing_newline_does_not_add_a_line() {
    assert_eq!(stats_for_file("f", Ok("a\nb\n".to_string())).line_count, 2);
    assert_eq!(stats_for_file("f", Ok("".to_string())).line_count, 0);
    assert_eq!(stats_for_file("f", Ok("\n".to_string())).line_count, 1);
}

#[test]
fn stats_skip_binary_files() {
    let results = vec![
        stats_for_file("a", Ok("one\ntwo\n".to_string())),
        stats_for_file("b", Err(SkipReason::Binary)),
        stats_for_file("c", Ok("x".to_string())),
        stats_for_file("d", Err(SkipReason::Unreadable("gone".to_string()))),
    ];
    let report = summarize_stats(&StatsOptions { path: ".".to_string() }, results, 3, Vec::new());
    assert_eq!(report.command, "stats");
    assert_eq!(report.root, ".");
    let s = &report.stats;
    assert_eq!(s.total_files, 4);
    assert_eq!(s.scanned_files, 2);
    assert_eq!(s.skipped_files, 2);
    assert_eq!(s.binary_files, 1);
    assert_eq!(s.unreadable_files, 1);
    assert_eq!(s.non_utf8_files, 0);
    assert_eq!(s.skipped_directories, 3);
    assert_eq!(s.total_lines, 3);
    assert_eq!(s.total_bytes, 9);
    assert_eq!(report.errors, vec!["Could not read d: gone".to_string()]);
}
