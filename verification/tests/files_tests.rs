use loc::files::{count_lines, extension_key, is_binary};

#[test]
fn count_lines_empty_is_zero() {
    assert_eq!(count_lines(b""), 0);
}

#[test]
fn count_lines_last_line_without_newline_counts() {
    assert_eq!(count_lines(b"a"), 1);
    assert_eq!(count_lines(b"a\nb"), 2);
}

#[test]
fn count_lines_trailing_newline_ends_last_line() {
    assert_eq!(count_lines(b"a\n"), 1);
    assert_eq!(count_lines(b"a\nb\n"), 2);
    assert_eq!(count_lines(b"\n\n"), 2);
}

#[test]
fn count_lines_matches_str_lines() {
    let samples: [&str; 7] = ["", "x", "x\n", "x\ny", "\n", "a\r\nb\r\n", "one\n\ntwo\n\n\nthree"];
    for s in samples.iter() {
        assert_eq!(count_lines(s.as_bytes()), s.lines().count() as u64, "sample {:?}", s);
    }
}

#[test]
fn is_binary_detects_nul_in_sample() {
    let mut content = vec![b'a'; 9000];
    assert!(!is_binary(&content));
    content[7999] = 0;
    assert!(is_binary(&content));
}

#[test]
fn is_binary_ignores_nul_past_sample() {
    let mut content = vec![b'a'; 9000];
    content[8000] = 0;
    assert!(!is_binary(&content));
    assert!(is_binary(&[0u8]));
    assert!(!is_binary(&[]));
}

#[test]
fn extension_key_lowercases_extension() {
    assert_eq!(extension_key("main.rs"), ".rs");
    assert_eq!(extension_key("App.TSX"), ".tsx");
    assert_eq!(extension_key("archive.tar.GZ"), ".gz");
}

#[test]
fn extension_key_keeps_names_without_extension() {
    assert_eq!(extension_key("Dockerfile"), "Dockerfile");
    assert_eq!(extension_key(".gitignore"), ".gitignore");
    assert_eq!(extension_key("Makefile"), "Makefile");
}

#[test]
fn extension_key_handles_unicode_names() {
    assert_eq!(extension_key("résumé.MD"), ".md");
    assert_eq!(extension_key("ünïcode"), "ünïcode");
}
