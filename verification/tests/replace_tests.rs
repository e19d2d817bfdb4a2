use aitoolgrep::error::ToolError;
use aitoolgrep::files::SkipReason;
use aitoolgrep::replace::{
    failed_result, next_write_action, replace_file, replace_lines, skipped_result, summarize_replace,
    validate_options, FileAction, FileReplaceResult, FileStep, ReplaceOptions, ReplacementChange,
};

fn options(old: &str, new: &str, dry_run: bool, backup: bool) -> ReplaceOptions {
    ReplaceOptions {
        old_text: old.to_string(),
        new_text: new.to_string(),
        path: ".".to_string(),
        dry_run,
        backup,
    }
}

fn change(path: &str, n: usize, old: &str, new: &str, count: usize) -> ReplacementChange {
    ReplacementChange {
        path: path.to_string(),
        line_number: n,
        old_line: old.to_string(),
        new_line: new.to_string(),
        replacements: count,
    }
}

#[test]
fn replace_lines_keeps_line_endings() {
    let (content, changes, total) =
        replace_lines("m.rs", "let oldName = load();\r\nkeep\noldName oldName\nend", "oldName", "newName");
    assert_eq!(content, "let newName = load();\r\nkeep\nnewName newName\nend");
    assert_eq!(total, 3);
    assert_eq!(
        changes,
        vec![
            change("m.rs", 1, "let oldName = load();", "let newName = load();", 1),
            change("m.rs", 3, "oldName oldName", "newName newName", 2),
        ]
    );
}

#[test]
fn replace_lines_without_occurrence_is_identity() {
    let (content, changes, total) = replace_lines("f", "a\nb\r\n", "zz", "y");
    assert_eq!(content, "a\nb\r\n");
    assert!(changes.is_empty());
    assert_eq!(total, 0);
}

#[test]
fn replace_lines_is_non_overlapping_from_the_left() {
    let (content, changes, total) = replace_lines("f", "aaa", "aa", "b");
    assert_eq!(content, "ba");
    assert_eq!(total, 1);
    assert_eq!(changes, vec![change("f", 1, "aaa", "ba", 1)]);
}

#[test]
fn replace_lines_with_unicode() {
    let (content, _, total) = replace_lines("f", "Öğrenci Öğrenci\n", "Öğrenci", "Student");
    assert_eq!(content, "Student Student\n");
    assert_eq!(total, 2);
}

#[test]
fn validate_options_errors() {
    assert!(matches!(validate_options(&options("", "x", false, false)), Err(ToolError::EmptyOldText)));
    assert!(matches!(
        validate_options(&options("a\nb", "x", false, false)),
        Err(ToolError::OldTextHasLineBreak)
    ));
    assert!(matches!(
        validate_options(&options("a\rb", "x", false, false)),
        Err(ToolError::OldTextHasLineBreak)
    ));
    assert!(matches!(
        validate_options(&options("a", "x\n", false, false)),
        Err(ToolError::NewTextHasLineBreak)
    ));
    assert!(validate_options(&options("a", "", false, false)).is_ok());
}

#[test]
fn dry_run_never_writes() {
    let step = replace_file("f", Ok("Ogrenci\n".to_string()), &options("Ogrenci", "Student", true, true));
    match step {
        FileStep::Done(r) => {
            assert!(r.skip_reason.is_none());
            assert!(!r.failed);
            assert!(!r.backup_created);
            assert_eq!(r.changes.iter().map(|c| c.replacements).sum::<usize>(), 1);
            assert_eq!(r.changes, vec![change("f", 1, "Ogrenci", "Student", 1)]);
        }
        FileStep::Write(_) => panic!("a dry run must not write"),
    }
}

#[test]
fn unchanged_file_is_not_written() {
    let step = replace_file("f", Ok("nothing\n".to_string()), &options("x", "y", false, false));
    assert!(matches!(step, FileStep::Done(r) if r.skip_reason.is_none() && r.changes.is_empty()));
}

#[test]
fn unreadable_file_is_skipped() {
    let step = replace_file("f", Err(SkipReason::NonUtf8), &options("x", "y", false, false));
    assert!(matches!(step, FileStep::Done(r) if matches!(r.skip_reason, Some(SkipReason::NonUtf8))));
}

#[test]
fn backup_is_made_before_the_write() {
    let step = replace_file("src/model.rs", Ok("oldName\n".to_string()), &options("oldName", "newName", false, true));
    let pending = match step {
        FileStep::Write(w) => w,
        FileStep::Done(_) => panic!("the file should be written"),
    };
    assert_eq!(pending.new_content, "newName\n");
    let pending = match next_write_action(pending, &None, &None) {
        FileAction::CopyBackup { pending, target } => {
            assert_eq!(target, "src/model.rs.bak");
            pending
        }
        _ => panic!("the backup comes first"),
    };
    let pending = match next_write_action(pending, &Some(Ok(())), &None) {
        FileAction::WriteContent(p) => p,
        _ => panic!("the write comes after the backup"),
    };
    match next_write_action(pending, &Some(Ok(())), &Some(Ok(()))) {
        FileAction::Finish(r) => {
            assert!(r.backup_created);
            assert!(!r.failed);
            assert_eq!(r.changes.iter().map(|c| c.replacements).sum::<usize>(), 1);
            assert_eq!(r.changes.len(), 1);
        }
        _ => panic!("the file is done"),
    }
}

#[test]
fn failed_backup_stops_the_file() {
    let step = replace_file("a.txt", Ok("x\n".to_string()), &options("x", "y", false, true));
    let pending = match step {
        FileStep::Write(w) => w,
        FileStep::Done(_) => panic!("the file should be written"),
    };
    match next_write_action(pending, &Some(Err("disk full".to_string())), &None) {
        FileAction::Finish(r) => {
            assert!(r.failed);
            assert!(!r.backup_created);
            assert!(r.changes.is_empty());
            assert_eq!(r.error.unwrap(), "Could not create backup a.txt.bak for a.txt: disk full");
        }
        _ => panic!("a failed backup ends the file"),
    }
}

#[test]
fn write_without_backup() {
    let step = replace_file("a.txt", Ok("x\n".to_string()), &options("x", "y", false, false));
    let pending = match step {
        FileStep::Write(w) => w,
        FileStep::Done(_) => panic!("the file should be written"),
    };
    let pending = match next_write_action(pending, &None, &None) {
        FileAction::WriteContent(p) => p,
        _ => panic!("no backup was asked for"),
    };
    match next_write_action(pending, &None, &Some(Err("denied".to_string()))) {
        FileAction::Finish(r) => {
            assert!(r.failed);
            assert_eq!(r.error.unwrap(), "Could not write a.txt: denied");
        }
        _ => panic!("a failed write ends the file"),
    }
}

#[test]
fn result_constructors() {
    let s = skipped_result("p", SkipReason::Binary);
    assert!(s.skip_reason.is_some() && !s.failed && s.error.is_none());
    let f = failed_result("p", "e".to_string(), true);
    assert!(f.skip_reason.is_none() && f.failed && f.backup_created);
    assert_eq!(f.error.unwrap(), "e");
}

#[test]
fn summary_of_a_replacement() {
    let results = vec![
        FileReplaceResult {
            path: "a".to_string(),
            skip_reason: None,
            changes: vec![change("a", 1, "x", "y", 2), change("a", 4, "xx", "yy", 1)],
            backup_created: true,
            failed: false,
            error: None,
        },
        skipped_result("b", SkipReason::Unreadable("denied".to_string())),
        skipped_result("c", SkipReason::Binary),
        failed_result("d", "Could not write d: full".to_string(), false),
        FileReplaceResult {
            path: "e".to_string(),
            skip_reason: None,
            changes: Vec::new(),
            backup_created: false,
            failed: false,
            error: None,
        },
    ];
    let report = summarize_replace(&options("x", "y", false, true), results, 1, Vec::new());
    assert_eq!(report.command, "replace");
    let s = &report.summary;
    assert_eq!(s.total_files, 5);
    assert_eq!(s.scanned_files, 3);
    assert_eq!(s.skipped_files, 2);
    assert_eq!(s.binary_files, 1);
    assert_eq!(s.unreadable_files, 1);
    assert_eq!(s.non_utf8_files, 0);
    assert_eq!(s.skipped_directories, 1);
    assert_eq!(s.changed_files, 1);
    assert_eq!(s.changed_lines, 2);
    assert_eq!(s.replacements, 3);
    assert_eq!(s.backups_created, 1);
    assert_eq!(s.failed_files, 1);
    assert_eq!(report.changes.len(), 2);
    assert_eq!(
        report.errors,
        vec!["Could not read b: denied".to_string(), "Could not write d: full".to_string()]
    );
}

#[test]
fn line_replacement_equals_whole_text_replacement() {
    let content = "a-x\r\nx-x\nxx\r\rx\n\nx";
    let (new_content, changes, total) = replace_lines("f", content, "x", "YZ");
    assert_eq!(new_content, content.replace("x", "YZ"));
    assert_eq!(total, content.matches("x").count());
    assert_eq!(changes.iter().map(|c| c.replacements).sum::<usize>(), total);
    let numbers: Vec<usize> = changes.iter().map(|c| c.line_number).collect();
    assert_eq!(numbers, vec![1, 2, 3, 5]);
}

#[test]
fn replacing_a_text_by_itself_changes_nothing() {
    let content = "ab ab\r\nabab\nb";
    let (new_content, changes, total) = replace_lines("f", content, "ab", "ab");
    assert_eq!(new_content, content);
    assert_eq!(total, 4);
    assert_eq!(changes.len(), 2);
}

#[test]
fn line_breaks_survive_a_replacement() {
    let (content, changes, total) = replace_lines("f", "a\rb\nb\r\n\rb", "b", "");
    assert_eq!(content, "a\r\n\r\n\r");
    assert_eq!(total, 3);
    assert_eq!(changes.len(), 3);
    let kept: String = content.chars().filter(|c| *c == '\n' || *c == '\r').collect();
    assert_eq!(kept, "\r\n\r\n\r");
}

fn run_all(files: &[(&str, Result<String, SkipReason>)], opts: &ReplaceOptions) -> aitoolgrep::replace::ReplaceReport {
    let mut results = Vec::new();
    for (path, read) in files {
        let read = match read {
            Ok(c) => Ok(c.clone()),
            Err(SkipReason::Binary) => Err(SkipReason::Binary),
            Err(SkipReason::NonUtf8) => Err(SkipReason::NonUtf8),
            Err(SkipReason::Unreadable(m)) => Err(SkipReason::Unreadable(m.clone())),
        };
        let result = match replace_file(path, read, opts) {
            FileStep::Done(r) => r,
            FileStep::Write(mut pending) => {
                let mut backup = None;
                let mut written = None;
                loop {
                    match next_write_action(pending, &backup, &written) {
                        FileAction::Finish(r) => break r,
                        FileAction::CopyBackup { pending: p, .. } => {
                            backup = Some(Ok(()));
                            pending = p;
                        }
                        FileAction::WriteContent(p) => {
                            written = Some(Ok(()));
                            pending = p;
                        }
                    }
                }
            }
        };
        results.push(result);
    }
    summarize_replace(opts, results, 0, Vec::new())
}

#[test]
fn dry_run_previews_the_real_run() {
    let files = [
        ("a.rs", Ok("oldName\nkeep\noldName oldName\n".to_string())),
        ("b.bin", Err(SkipReason::Binary)),
        ("c.rs", Ok("nothing here".to_string())),
        ("d.rs", Ok("x oldName".to_string())),
    ];
    let dry = run_all(&files, &options("oldName", "newName", true, true));
    let applied = run_all(&files, &options("oldName", "newName", false, true));
    assert_eq!(dry.changes, applied.changes);
    assert_eq!(dry.changes.len(), 3);
    assert_eq!(dry.summary.replacements, 4);
    assert_eq!(applied.summary.replacements, 4);
    assert_eq!(dry.summary.changed_files, applied.summary.changed_files);
    assert_eq!(dry.summary.backups_created, 0);
    assert_eq!(applied.summary.backups_created, 2);
    assert_eq!(dry.summary.failed_files + applied.summary.failed_files, 0);
}
