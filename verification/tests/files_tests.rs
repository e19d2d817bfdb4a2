use aitoolgrep::error::{classify_root, RootKind, ToolError};
use aitoolgrep::files::{
    backup_path, decode_text, finish_discovery, is_excluded_directory, read_error,
    single_file_discovery, Discovery, FoundFile, SkipReason,
};

fn found(path: &str) -> FoundFile {
    FoundFile {
        path: path.to_string(),
        components: path.split('/').map(|c| c.as_bytes().to_vec()).collect(),
        index: path.len(),
    }
}

fn paths(d: &Discovery) -> Vec<String> {
    d.files.iter().map(|f| f.path.clone()).collect()
}

#[test]
fn decode_text_accepts_utf8() {
    let r = decode_text("merhaba dünya\n".as_bytes().to_vec());
    assert_eq!(r.unwrap(), "merhaba dünya\n");
}

#[test]
fn decode_text_detects_binary() {
    let r = decode_text(vec![b'a', 0, b'b']);
    assert!(matches!(r, Err(SkipReason::Binary)));
}

#[test]
fn decode_text_binary_wins_over_invalid_utf8() {
    let r = decode_text(vec![0xff, 0]);
    assert!(matches!(r, Err(SkipReason::Binary)));
}

#[test]
fn decode_text_rejects_invalid_utf8() {
    let r = decode_text(vec![b'a', 0xc3, 0x28]);
    assert!(matches!(r, Err(SkipReason::NonUtf8)));
}

#[test]
fn decode_text_empty_file_is_text() {
    assert_eq!(decode_text(Vec::new()).unwrap(), "");
}

#[test]
fn backup_path_appends_bak() {
    assert_eq!(backup_path("src/model.rs"), "src/model.rs.bak");
    assert_eq!(backup_path(""), ".bak");
}

#[test]
fn excluded_directories_ignore_ascii_case() {
    assert!(is_excluded_directory(true, ".git"));
    assert!(is_excluded_directory(true, "BIN"));
    assert!(is_excluded_directory(true, "Obj"));
    assert!(is_excluded_directory(true, "node_modules"));
    assert!(is_excluded_directory(true, ".VS"));
    assert!(!is_excluded_directory(true, "src"));
    assert!(!is_excluded_directory(true, "bins"));
    assert!(!is_excluded_directory(false, "bin"));
}

#[test]
fn classify_root_cases() {
    assert!(matches!(classify_root("x", false, false, false), Err(ToolError::PathNotFound(p)) if p == "x"));
    assert_eq!(classify_root("x", true, true, false).unwrap(), RootKind::File);
    assert_eq!(classify_root("x", true, false, true).unwrap(), RootKind::Directory);
    assert!(matches!(
        classify_root("x", true, false, false),
        Err(ToolError::NotFileOrDirectory(p)) if p == "x"
    ));
}

#[test]
fn error_messages() {
    assert_eq!(ToolError::PathNotFound("a/b".to_string()).message(), "Path does not exist: a/b");
    assert_eq!(
        ToolError::NotFileOrDirectory("dev".to_string()).message(),
        "Path is neither a file nor a directory: dev"
    );
    assert_eq!(ToolError::EmptyOldText.message(), "oldText cannot be empty");
    assert_eq!(
        ToolError::OldTextHasLineBreak.message(),
        "oldText cannot contain line breaks because replacements are line-oriented"
    );
    assert_eq!(
        ToolError::NewTextHasLineBreak.message(),
        "newText cannot contain line breaks because replacements are line-oriented"
    );
    assert_eq!(
        ToolError::InvalidPattern { pattern: "(".to_string(), cause: "boom".to_string() }.message(),
        "Invalid regex pattern: (: boom"
    );
}

#[test]
fn read_error_text() {
    assert_eq!(read_error("a.txt", "denied"), "Could not read a.txt: denied");
}

#[test]
fn discovery_is_in_path_order() {
    let d = finish_discovery(
        vec![found("r/b.txt"), found("r/a-c.txt"), found("r/a/z.txt"), found("r/a.txt"), found("r/B.txt")],
        2,
        vec!["w".to_string()],
    );
    assert_eq!(
        paths(&d),
        vec!["r/B.txt", "r/a/z.txt", "r/a-c.txt", "r/a.txt", "r/b.txt"]
    );
    assert_eq!(d.skipped_directories, 2);
    assert_eq!(d.errors, vec!["w".to_string()]);
}

#[test]
fn discovery_sorts_many_files() {
    let mut input = Vec::new();
    for i in (0..50).rev() {
        input.push(found(&format!("root/{:03}.rs", i)));
    }
    let d = finish_discovery(input, 0, Vec::new());
    let expected: Vec<String> = (0..50).map(|i| format!("root/{:03}.rs", i)).collect();
    assert_eq!(paths(&d), expected);
}

#[test]
fn discovery_of_empty_walk() {
    let d = finish_discovery(Vec::new(), 0, Vec::new());
    assert!(d.files.is_empty());
}

#[test]
fn single_file_discovery_holds_the_file() {
    let d = single_file_discovery(found("only.txt"));
    assert_eq!(paths(&d), vec!["only.txt"]);
    assert_eq!(d.skipped_directories, 0);
    assert!(d.errors.is_empty());
}

#[test]
fn discovery_orders_names_by_their_bytes() {
    let raw = |path: &str, components: Vec<Vec<u8>>, index: usize| FoundFile { path: path.to_string(), components, index };
    let input = vec![
        raw("d/\u{fffd}", vec![b"d".to_vec(), vec![0xff]], 0),
        raw("d/z", vec![b"d".to_vec(), b"z".to_vec()], 1),
        raw("d/\u{e9}", vec![b"d".to_vec(), "\u{e9}".as_bytes().to_vec()], 2),
        raw("d/a", vec![b"d".to_vec(), b"a".to_vec()], 3),
    ];
    let d = finish_discovery(input, 0, Vec::new());
    let order: Vec<usize> = d.files.iter().map(|f| f.index).collect();
    assert_eq!(order, vec![3, 1, 2, 0]);
    let mut std_order = vec![
        std::path::PathBuf::from("d/a"),
        std::path::PathBuf::from("d/\u{e9}"),
        std::path::PathBuf::from("d/z"),
    ];
    std_order.sort();
    assert_eq!(std_order, vec![
        std::path::PathBuf::from("d/a"),
        std::path::PathBuf::from("d/z"),
        std::path::PathBuf::from("d/\u{e9}"),
    ]);
}
