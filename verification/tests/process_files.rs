use fcpy::file_handling::{process_files, CollectError, ScanEntry, ScanRoot};

fn file(root: &str, relative: &str, content: &[u8]) -> ScanEntry {
    ScanEntry {
        path: format!("{}/{}", root, relative),
        relative: relative.to_string(),
        is_file: true,
        content: content.to_vec(),
    }
}

fn dir(root: &str, relative: &str) -> ScanEntry {
    ScanEntry {
        path: format!("{}/{}", root, relative),
        relative: relative.to_string(),
        is_file: false,
        content: Vec::new(),
    }
}

fn root(path: &str, entries: Vec<ScanEntry>) -> ScanRoot {
    ScanRoot { path: path.to_string(), exists: true, entries }
}

fn missing(path: &str) -> ScanRoot {
    ScanRoot { path: path.to_string(), exists: false, entries: Vec::new() }
}

#[test]
fn test_process_files_ignore() {
    let base = "/tmp/base";
    let scan = root(
        base,
        vec![
            dir(base, ""),
            file(base, "Cargo.lock", b"Lock file content"),
            file(base, "file.txt", b"Some text"),
            dir(base, "target"),
            file(base, "target/ignored.txt", b"Should be ignored"),
        ],
    );
    let result =
        process_files(&[scan], &["Cargo.lock".to_string(), "target".to_string()]).unwrap();
    assert!(result.contains("file.txt"));
    assert!(!result.contains("Cargo.lock"));
    assert!(!result.contains("ignored.txt"));
    assert_eq!(result, "==== /tmp/base/file.txt ====\nSome text\n\n");
}

#[test]
fn test_default_ignore_executable() {
    let base = "/tmp/base";
    let scan = root(base, vec![dir(base, ""), file(base, "run.exe", b"print(\"Hi\")")]);
    let result = process_files(&[scan], &[]);
    assert!(matches!(result, Err(CollectError::NoReadableFiles)));
    let output = result.unwrap_or_default();
    assert!(!output.contains("run.exe"));
}

#[test]
fn cli_ignores_non_utf8_and_executables() {
    let base = "/tmp/d";
    let scan = root(
        base,
        vec![
            file(base, "test.bin", &[0u8, 159, 146, 150]),
            file(base, "app.exe", b"echo hello"),
            file(base, "ok.txt", b"Hello World"),
        ],
    );
    let output = process_files(&[scan], &[]).unwrap();
    assert!(output.contains("ok.txt"));
    assert!(output.contains("Hello World"));
    assert!(!output.contains("test.bin"));
    assert!(!output.contains("app.exe"));
}

#[test]
fn test_basic_functionality() {
    let base = "/tmp/d";
    let scan = root(base, vec![file(base, "test1.txt", b"Hello"), file(base, "test2.txt", b"World")]);
    let output = process_files(&[scan], &[]).unwrap();
    assert!(output.contains("test1.txt"));
    assert!(output.contains("test2.txt"));
    assert_eq!(
        output,
        "==== /tmp/d/test1.txt ====\nHello\n\n==== /tmp/d/test2.txt ====\nWorld\n\n"
    );
}

#[test]
fn integration_tests_test_ignore_patterns() {
    let base = "/tmp/d";
    let scan = root(base, vec![file(base, "file.log", b"Log"), file(base, "file.txt", b"Text")]);
    let output = process_files(&[scan], &["*.log".to_string()]).unwrap();
    assert!(!output.contains("file.log"));
    assert!(output.contains("file.txt"));
}

#[test]
fn test_binary_files_ignored() {
    let base = "/tmp/d";
    let scan = root(
        base,
        vec![file(base, "test.bin", &[0u8, 159, 146, 150]), file(base, "test.txt", b"Text content")],
    );
    let output = process_files(&[scan], &[]).unwrap();
    assert!(!output.contains("test.bin"));
    assert!(output.contains("test.txt"));
}

#[test]
fn test_invalid_path() {
    let result = process_files(&[missing("/non/existent/path")], &[]);
    match result {
        Err(CollectError::PathNotFound(p)) => assert_eq!(p, "/non/existent/path"),
        other => panic!("{:?}", other),
    }
}

#[test]
fn test_empty_directory() {
    let result = process_files(&[root("/tmp/empty", vec![dir("/tmp/empty", "")])], &[]);
    assert!(matches!(result, Err(CollectError::NoReadableFiles)));
}

#[test]
fn missing_root_fails_the_whole_run() {
    let good = root("/a", vec![file("/a", "x.txt", b"text")]);
    let later = root("/c", vec![file("/c", "y.txt", b"more")]);
    let result = process_files(&[good, missing("/b"), missing("/z"), later], &[]);
    match result {
        Err(CollectError::PathNotFound(p)) => assert_eq!(p, "/b"),
        other => panic!("{:?}", other),
    }
}

#[test]
fn invalid_pattern_comes_before_missing_roots() {
    let result = process_files(&[missing("/b")], &["[".to_string()]);
    assert!(matches!(result, Err(CollectError::InvalidPattern(_))));
}

#[test]
fn no_roots_give_nothing_readable() {
    assert!(matches!(process_files(&[], &[]), Err(CollectError::NoReadableFiles)));
}

#[test]
fn a_root_that_is_a_file_is_included() {
    let single = ScanRoot {
        path: "notes.txt".to_string(),
        exists: true,
        entries: vec![ScanEntry {
            path: "notes.txt".to_string(),
            relative: String::new(),
            is_file: true,
            content: b"remember".to_vec(),
        }],
    };
    assert_eq!(process_files(&[single], &[]).unwrap(), "==== notes.txt ====\nremember\n\n");
}

#[test]
fn sections_follow_the_order_of_roots_and_entries() {
    let a = root("/a", vec![file("/a", "2.txt", b"two"), file("/a", "1.txt", b"one")]);
    let b = root("/b", vec![file("/b", "./sub/./3.txt", b"three"), file("/b", "empty.txt", b"")]);
    let output = process_files(&[a, b], &["sub/4.txt".to_string()]).unwrap();
    assert_eq!(
        output,
        "==== /a/2.txt ====\ntwo\n\n==== /a/1.txt ====\none\n\n==== /b/./sub/./3.txt ====\nthree\n\n"
    );
}

#[test]
fn relative_paths_are_normalised_before_matching() {
    let b = root("/b", vec![file("/b", "./sub/./3.txt", b"three"), file("/b", "keep.txt", b"kept")]);
    let output = process_files(&[b], &["sub/3.txt".to_string()]).unwrap();
    assert_eq!(output, "==== /b/keep.txt ====\nkept\n\n");
}
