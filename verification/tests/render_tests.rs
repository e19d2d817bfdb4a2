use aitoolgrep::files::SkipReason;
use aitoolgrep::gui::{
    append_errors, error_result, replace_panel_text, replace_task_result, search_panel_text, search_task_result,
    stats_panel_text, stats_task_result, TaskResult, TaskStatus,
};
use aitoolgrep::render::{replace_text, search_text, stats_text, warnings_text};
use aitoolgrep::replace::{summarize_replace, FileReplaceResult, ReplaceOptions, ReplacementChange};
use aitoolgrep::search::{summarize_search, FileSearchResult, SearchMatch, SearchOptions};
use aitoolgrep::stats::{stats_for_file, summarize_stats, StatsOptions};

fn search_report() -> aitoolgrep::search::SearchReport {
    let options = SearchOptions { pattern: "x".to_string(), path: ".".to_string(), ignore_case: false, regex: false };
    let results = vec![
        FileSearchResult {
            path: "a.rs".to_string(),
            matches: vec![SearchMatch { path: "a.rs".to_string(), line_number: 12, line: "let x = 1;".to_string() }],
            skip_reason: None,
        },
        FileSearchResult { path: "b".to_string(), matches: Vec::new(), skip_reason: Some(SkipReason::Binary) },
    ];
    summarize_search(&options, results, 7, vec!["w".to_string()])
}

fn replace_report(dry_run: bool) -> aitoolgrep::replace::ReplaceReport {
    let options = ReplaceOptions {
        old_text: "oldName".to_string(),
        new_text: "newName".to_string(),
        path: ".".to_string(),
        dry_run,
        backup: false,
    };
    let results = vec![FileReplaceResult {
        path: "m.rs".to_string(),
        skip_reason: None,
        changes: vec![ReplacementChange {
            path: "m.rs".to_string(),
            line_number: 8,
            old_line: "let oldName = load();".to_string(),
            new_line: "let newName = load();".to_string(),
            replacements: 1,
        }],
        backup_created: false,
        failed: false,
        error: None,
    }];
    summarize_replace(&options, results, 0, Vec::new())
}

#[test]
fn search_text_layout() {
    assert_eq!(
        search_text(&search_report()),
        "a.rs:12: let x = 1;\n\nMatches: 1 | Scanned files: 1 | Skipped files: 1 | Skipped directories: 7\n"
    );
}

#[test]
fn replace_text_layout() {
    assert_eq!(
        replace_text(&replace_report(true)),
        "[DRY-RUN] m.rs:8 (1 replacement(s))\n- let oldName = load();\n+ let newName = load();\n\nChanged files: 1 | Changed lines: 1 | Replacements: 1 | Backups: 0 | Failed files: 0\n"
    );
    assert!(replace_text(&replace_report(false)).starts_with("[CHANGED] m.rs:8"));
}

#[test]
fn stats_text_layout() {
    let results = vec![stats_for_file("a", Ok("1\n2\n3\n4\n5\n6\n7\n8\n9\n10\n".to_string()))];
    let report = summarize_stats(&StatsOptions { path: "root".to_string() }, results, 0, Vec::new());
    assert_eq!(
        stats_text(&report),
        "Root: root\nTotal files: 1\nScanned files: 1\nSkipped files: 0\nBinary files: 0\nNon-UTF-8 files: 0\nUnreadable files: 0\nSkipped directories: 0\nTotal lines: 10\nTotal bytes: 21\n"
    );
}

#[test]
fn warnings_layout() {
    assert_eq!(warnings_text(&vec!["a".to_string(), "b".to_string()]), "Warning: a\nWarning: b\n");
    assert_eq!(warnings_text(&Vec::new()), "");
}

#[test]
fn panel_texts() {
    assert_eq!(
        search_panel_text(&search_report()),
        "a.rs:12: let x = 1;\n\nEslesme: 1 | Taranan dosya: 1 | Atlanan dosya: 1 | Atlanan klasor: 7\nUyari: w\n"
    );
    assert_eq!(
        replace_panel_text(&replace_report(false)),
        "[DEGISTI] m.rs:8 (1 degisim)\n- let oldName = load();\n+ let newName = load();\n\nDegisen dosya: 1 | Degisen satir: 1 | Degisim: 1 | Yedek: 0 | Basarisiz: 0\n"
    );
    let report = summarize_stats(&StatsOptions { path: "k".to_string() }, Vec::new(), 0, vec!["u".to_string()]);
    assert_eq!(
        stats_panel_text(&report),
        "Kok: k\nToplam dosya: 0\nTaranan dosya: 0\nAtlanan dosya: 0\nBinary dosya: 0\nUTF-8 olmayan dosya: 0\nOkunamayan dosya: 0\nAtlanan klasor: 0\nToplam satir: 0\nToplam byte: 0\nUyari: u\n"
    );
}

#[test]
fn append_errors_lines() {
    let mut out = "x\n".to_string();
    append_errors(&mut out, &vec!["e1".to_string()]);
    assert_eq!(out, "x\nUyari: e1\n");
}

#[test]
fn error_result_fields() {
    let r = error_result("Path does not exist: q");
    assert_eq!(r.title, "Islem basarisiz");
    assert_eq!(r.output, "Hata: Path does not exist: q");
    assert!(r.failed);
}

#[test]
fn task_status_follows_the_task() {
    let mut s = TaskStatus::idle("Hazir".to_string(), String::new());
    assert!(!s.busy);
    assert!(!s.poll_task());
    let (sender, receiver) = std::sync::mpsc::channel();
    s.start_task("Arama yapiliyor...", receiver);
    assert!(s.busy);
    assert_eq!(s.output, "Arama yapiliyor...\n");
    assert!(!s.poll_task());
    assert!(s.busy);
    sender.send(TaskResult { title: "Bitti".to_string(), output: "o".to_string(), failed: true }).unwrap();
    assert!(s.poll_task());
    assert!(!s.busy);
    assert!(s.receiver.is_none());
    assert_eq!(s.status, "Bitti (uyarilar var)");
    assert_eq!(s.output, "o");
    s.finish_task(TaskResult { title: "Tamam".to_string(), output: "p".to_string(), failed: false });
    assert_eq!(s.status, "Tamam");
}

#[test]
fn a_silent_worker_leaves_the_task_busy() {
    let mut s = TaskStatus::idle("Hazir".to_string(), String::new());
    let (sender, receiver) = std::sync::mpsc::channel::<TaskResult>();
    s.start_task("Istatistikler hesaplaniyor...", receiver);
    drop(sender);
    assert!(!s.poll_task());
    assert!(!s.poll_task());
    assert!(s.busy);
    assert!(s.receiver.is_some());
}

#[test]
fn clearing_the_output() {
    let mut s = TaskStatus::idle("Hazir".to_string(), "eski".to_string());
    s.clear_output();
    assert_eq!(s.output, "");
    assert_eq!(s.status, "Sonuc alani temizlendi");
    assert!(!s.busy);
}

#[test]
fn finished_task_results() {
    let s = search_task_result("out".to_string());
    assert_eq!((s.title.as_str(), s.output.as_str(), s.failed), ("Arama tamamlandi", "out", false));
    let t = stats_task_result("st".to_string());
    assert_eq!((t.title.as_str(), t.output.as_str(), t.failed), ("Istatistikler hazir", "st", false));
    let d = replace_task_result(&replace_report(true), "r".to_string());
    assert_eq!((d.title.as_str(), d.output.as_str(), d.failed), ("Dry-run tamamlandi", "r", false));
    let w = replace_task_result(&replace_report(false), "w".to_string());
    assert_eq!((w.title.as_str(), w.failed), ("Degistirme tamamlandi", false));
    let mut failing = replace_report(false);
    failing.summary.failed_files = 2;
    let f = replace_task_result(&failing, String::new());
    assert_eq!((f.title.as_str(), f.failed), ("Degistirme tamamlandi", true));
}

#[test]
fn accepting_what_arrived() {
    let mut s = TaskStatus::idle("Hazir".to_string(), "x".to_string());
    assert!(!s.accept_arrival(None));
    assert_eq!((s.status.as_str(), s.output.as_str(), s.busy), ("Hazir", "x", false));
    let (_sender, receiver) = std::sync::mpsc::channel();
    s.start_task("Arama yapiliyor...", receiver);
    assert!(s.accept_arrival(Some(TaskResult { title: "Arama tamamlandi".to_string(), output: "o".to_string(), failed: false })));
    assert_eq!((s.status.as_str(), s.output.as_str(), s.busy), ("Arama tamamlandi", "o", false));
    assert!(s.receiver.is_none());
}
