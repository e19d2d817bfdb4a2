use aitoolgrep::error::ToolError;
use aitoolgrep::files::SkipReason;
use aitoolgrep::matcher::build_matcher;
use aitoolgrep::search::{search_file, summarize_search, FileSearchResult, SearchMatch, SearchOptions};

fn m(path: &str, n: usize, line: &str) -> SearchMatch {
    SearchMatch { path: path.to_string(), line_number: n, line: line.to_string() }
}

#[test]
fn literal_search_reports_line_numbers() {
    let matcher = build_matcher("LoginController", false, false).unwrap();
    let r = search_file(
        "src/login.rs",
        Ok("use x;\npub struct LoginController {\n}\nimpl LoginController {}\n".to_string()),
        &matcher,
    );
    assert!(r.skip_reason.is_none());
    assert_eq!(
        r.matches,
        vec![
            m("src/login.rs", 2, "pub struct LoginController {"),
            m("src/login.rs", 4, "impl LoginController {}"),
        ]
    );
}

#[test]
fn literal_search_escapes_meta_characters() {
    let matcher = build_matcher("a.c", false, false).unwrap();
    let r = search_file("f", Ok("abc\na.c\n".to_string()), &matcher);
    assert_eq!(r.matches, vec![m("f", 2, "a.c")]);
}

#[test]
fn literal_search_is_case_sensitive_by_default() {
    let matcher = build_matcher("login", false, false).unwrap();
    let r = search_file("f", Ok("Login\nlogin\n".to_string()), &matcher);
    assert_eq!(r.matches, vec![m("f", 2, "login")]);
}

#[test]
fn ignore_case_search() {
    let matcher = build_matcher("logincontroller", false, true).unwrap();
    let r = search_file("f", Ok("LoginController\nother\nLOGINCONTROLLER".to_string()), &matcher);
    assert_eq!(r.matches, vec![m("f", 1, "LoginController"), m("f", 3, "LOGINCONTROLLER")]);
}

#[test]
fn regex_search() {
    let matcher = build_matcher(r"class\s+\w+", true, false).unwrap();
    let r = search_file("f", Ok("public class Foo\nclass\n  class  Bar {\n".to_string()), &matcher);
    assert_eq!(r.matches, vec![m("f", 1, "public class Foo"), m("f", 3, "  class  Bar {")]);
}

#[test]
fn regex_alternation_search() {
    let matcher = build_matcher("TODO|FIXME", true, false).unwrap();
    let r = search_file("f", Ok("// TODO a\nok\n// FIXME b\n".to_string()), &matcher);
    assert_eq!(r.matches, vec![m("f", 1, "// TODO a"), m("f", 3, "// FIXME b")]);
}

#[test]
fn invalid_regex_is_refused() {
    let r = build_matcher("(", true, false);
    match r {
        Err(ToolError::InvalidPattern { pattern, cause }) => {
            assert_eq!(pattern, "(");
            assert_eq!(cause, regex::RegexBuilder::new("(").build().unwrap_err().to_string());
        }
        _ => panic!("expected an invalid pattern error"),
    }
}

#[test]
fn literal_parenthesis_is_not_a_regex() {
    let matcher = build_matcher("(", false, false).unwrap();
    let r = search_file("f", Ok("f(x)\ny\n".to_string()), &matcher);
    assert_eq!(r.matches, vec![m("f", 1, "f(x)")]);
}

#[test]
fn crlf_lines_are_reported_without_terminator() {
    let matcher = build_matcher("b", false, false).unwrap();
    let r = search_file("f", Ok("a\r\nb\r\nc\rb".to_string()), &matcher);
    assert_eq!(r.matches, vec![m("f", 2, "b"), m("f", 3, "c\rb")]);
}

#[test]
fn skipped_file_has_no_matches() {
    let matcher = build_matcher("x", false, false).unwrap();
    let r = search_file("bin.dat", Err(SkipReason::Binary), &matcher);
    assert!(r.matches.is_empty());
    assert!(matches!(r.skip_reason, Some(SkipReason::Binary)));
    assert_eq!(r.path, "bin.dat");
}

#[test]
fn summary_counts_each_kind() {
    let options = SearchOptions {
        pattern: "x".to_string(),
        path: "./src".to_string(),
        ignore_case: false,
        regex: false,
    };
    let results = vec![
        FileSearchResult { path: "a".to_string(), matches: vec![m("a", 1, "x"), m("a", 3, "xx")], skip_reason: None },
        FileSearchResult { path: "b".to_string(), matches: Vec::new(), skip_reason: Some(SkipReason::Binary) },
        FileSearchResult { path: "c".to_string(), matches: Vec::new(), skip_reason: Some(SkipReason::NonUtf8) },
        FileSearchResult {
            path: "d".to_string(),
            matches: Vec::new(),
            skip_reason: Some(SkipReason::Unreadable("denied".to_string())),
        },
        FileSearchResult { path: "e".to_string(), matches: vec![m("e", 2, "x")], skip_reason: None },
    ];
    let report = summarize_search(&options, results, 2, vec!["walk".to_string()]);
    assert_eq!(report.command, "search");
    assert_eq!(report.pattern, "x");
    assert_eq!(report.root, "./src");
    assert_eq!(report.matches, vec![m("a", 1, "x"), m("a", 3, "xx"), m("e", 2, "x")]);
    let s = &report.summary;
    assert_eq!(s.total_files, 5);
    assert_eq!(s.scanned_files, 2);
    assert_eq!(s.skipped_files, 3);
    assert_eq!(s.binary_files, 1);
    assert_eq!(s.non_utf8_files, 1);
    assert_eq!(s.unreadable_files, 1);
    assert_eq!(s.skipped_directories, 2);
    assert_eq!(s.matches, 3);
    assert_eq!(report.errors, vec!["walk".to_string(), "Could not read d: denied".to_string()]);
}

#[test]
fn replacement_changes_the_searched_lines() {
    let content = "a.b\nab\r\nxa.bx a.b\n\na.\nb";
    let matcher = build_matcher("a.b", false, false).unwrap();
    let found = search_file("f", Ok(content.to_string()), &matcher);
    let (_, changes, _) = aitoolgrep::replace::replace_lines("f", content, "a.b", "c");
    let searched: Vec<(usize, String)> =
        found.matches.iter().map(|m| (m.line_number, m.line.clone())).collect();
    let changed: Vec<(usize, String)> =
        changes.iter().map(|c| (c.line_number, c.old_line.clone())).collect();
    assert_eq!(searched, vec![(1, "a.b".to_string()), (3, "xa.bx a.b".to_string())]);
    assert_eq!(searched, changed);
}

#[test]
fn invalid_case_insensitive_regex_names_the_engine_error() {
    match build_matcher("a{2,1}", true, true) {
        Err(e) => {
            let cause = regex::RegexBuilder::new("a{2,1}").case_insensitive(true).build().unwrap_err().to_string();
            assert_eq!(e.message(), format!("Invalid regex pattern: a{{2,1}}: {cause}"));
        }
        Ok(_) => panic!("expected an invalid pattern error"),
    }
}

#[test]
fn invalid_pattern_context_and_cause() {
    let e = match build_matcher("(", true, false) {
        Err(e) => e,
        Ok(_) => panic!("expected an invalid pattern error"),
    };
    let cause = regex::RegexBuilder::new("(").build().unwrap_err().to_string();
    assert_eq!(e.context(), "Invalid regex pattern: (");
    assert_eq!(e.cause(), Some(cause.clone()));
    assert_eq!(e.message(), format!("Invalid regex pattern: (: {cause}"));
    let as_command_error = anyhow::Error::msg(e.cause().unwrap()).context(e.context());
    assert_eq!(format!("{as_command_error}"), "Invalid regex pattern: (");
    assert_eq!(format!("{as_command_error:#}"), e.message());
    assert_eq!(ToolError::EmptyOldText.context(), ToolError::EmptyOldText.message());
    assert_eq!(ToolError::EmptyOldText.cause(), None);
}

#[test]
fn case_folding_finds_at_least_the_same_lines() {
    let content = "Login\nlogin\nLOGIN x\nnothing\nlogIn";
    let exact = search_file("f", Ok(content.to_string()), &build_matcher("login", false, false).unwrap());
    let folded = search_file("f", Ok(content.to_string()), &build_matcher("login", false, true).unwrap());
    let exact_lines: Vec<usize> = exact.matches.iter().map(|m| m.line_number).collect();
    let folded_lines: Vec<usize> = folded.matches.iter().map(|m| m.line_number).collect();
    assert_eq!(exact_lines, vec![2]);
    assert_eq!(folded_lines, vec![1, 2, 3, 5]);
    let options = |ignore_case| SearchOptions { pattern: "login".to_string(), path: ".".to_string(), ignore_case, regex: false };
    let skipped = || FileSearchResult { path: "b".to_string(), matches: Vec::new(), skip_reason: Some(SkipReason::NonUtf8) };
    let r1 = summarize_search(&options(false), vec![exact, skipped()], 2, Vec::new());
    let r2 = summarize_search(&options(true), vec![folded, skipped()], 2, Vec::new());
    assert_eq!(r1.summary.matches, 1);
    assert_eq!(r2.summary.matches, 4);
    assert_eq!(
        (r1.summary.total_files, r1.summary.scanned_files, r1.summary.skipped_files, r1.summary.non_utf8_files),
        (r2.summary.total_files, r2.summary.scanned_files, r2.summary.skipped_files, r2.summary.non_utf8_files)
    );
}
