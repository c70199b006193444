use std::io::Write;

use loc::error::AppError;
use loc::filters::{matches_filters, parse_filters};
use loc::locs::{finalize, Locs, LocsChild};
use loc::scan::{compute_locs, tally_entries, ArchiveEntry};
use loc::tree::{insert, BuildNode};

fn strings(parts: &[&str]) -> Vec<String> {
    parts.iter().map(|s| s.to_string()).collect()
}

fn lang(locs: &Locs, key: &str) -> Option<u64> {
    locs.loc_by_langs
        .as_ref()
        .unwrap()
        .iter()
        .find(|(k, _)| k == key)
        .map(|(_, v)| *v)
}

fn child<'a>(locs: &'a Locs, name: &str) -> Option<&'a LocsChild> {
    locs.children.as_ref().unwrap().iter().find(|(k, _)| k == name).map(|(_, c)| c)
}

fn dir<'a>(locs: &'a Locs, name: &str) -> &'a Locs {
    match child(locs, name) {
        Some(LocsChild::Dir(d)) => d,
        _ => panic!("no directory {name}"),
    }
}

fn tarball(files: &[(&str, &[u8])]) -> Vec<u8> {
    let mut builder = tar::Builder::new(Vec::new());
    for (path, data) in files {
        let mut header = tar::Header::new_gnu();
        header.set_path(path).unwrap();
        header.set_size(data.len() as u64);
        header.set_mode(0o644);
        header.set_entry_type(tar::EntryType::Regular);
        header.set_cksum();
        builder.append(&header, *data).unwrap();
    }
    let mut dir_header = tar::Header::new_gnu();
    dir_header.set_path("owner-repo-sha/emptydir/").unwrap();
    dir_header.set_size(0);
    dir_header.set_mode(0o755);
    dir_header.set_entry_type(tar::EntryType::Directory);
    dir_header.set_cksum();
    builder.append(&dir_header, &[][..]).unwrap();
    let tar_bytes = builder.into_inner().unwrap();
    let mut encoder = flate2::write::GzEncoder::new(Vec::new(), flate2::Compression::default());
    encoder.write_all(&tar_bytes).unwrap();
    encoder.finish().unwrap()
}

#[test]
fn insert_then_finalize_totals() {
    let mut root: Vec<(String, BuildNode)> = Vec::new();
    insert(&mut root, &strings(&["src", "main.rs"]), 40, ".rs".to_string());
    insert(&mut root, &strings(&["src", "lib.rs"]), 10, ".rs".to_string());
    insert(&mut root, &strings(&["Dockerfile"]), 2, "Dockerfile".to_string());
    let locs = finalize(root);
    assert_eq!(locs.loc, 52);
    assert_eq!(lang(&locs, ".rs"), Some(50));
    assert_eq!(lang(&locs, "Dockerfile"), Some(2));
    assert_eq!(locs.loc_by_langs.as_ref().unwrap().len(), 2);
    assert_eq!(child(&locs, "Dockerfile"), Some(&LocsChild::File(2)));
    let src = dir(&locs, "src");
    assert_eq!(src.loc, 50);
    assert_eq!(child(src, "main.rs"), Some(&LocsChild::File(40)));
    assert_eq!(lang(src, ".rs"), Some(50));
}

#[test]
fn insert_overwrites_file_at_same_path() {
    let mut root: Vec<(String, BuildNode)> = Vec::new();
    insert(&mut root, &strings(&["a.rs"]), 3, ".rs".to_string());
    insert(&mut root, &strings(&["a.rs"]), 5, ".rs".to_string());
    let locs = finalize(root);
    assert_eq!(locs.loc, 5);
    assert_eq!(locs.children.as_ref().unwrap().len(), 1);
    assert_eq!(child(&locs, "a.rs"), Some(&LocsChild::File(5)));
}

#[test]
fn insert_replaces_file_standing_where_a_directory_goes() {
    let mut root: Vec<(String, BuildNode)> = Vec::new();
    insert(&mut root, &strings(&["x"]), 7, "x".to_string());
    insert(&mut root, &strings(&["x", "y.py"]), 4, ".py".to_string());
    let locs = finalize(root);
    assert_eq!(locs.loc, 4);
    assert_eq!(lang(&locs, "x"), None);
    assert_eq!(dir(&locs, "x").loc, 4);
}

#[test]
fn insert_leaves_diverging_paths_alone() {
    let mut root: Vec<(String, BuildNode)> = Vec::new();
    insert(&mut root, &strings(&["a", "b", "c.rs"]), 1, ".rs".to_string());
    insert(&mut root, &strings(&["a", "d", "e.rs"]), 2, ".rs".to_string());
    let locs = finalize(root);
    let a = dir(&locs, "a");
    assert_eq!(child(dir(a, "b"), "c.rs"), Some(&LocsChild::File(1)));
    assert_eq!(child(dir(a, "d"), "e.rs"), Some(&LocsChild::File(2)));
    assert_eq!(locs.loc, 3);
}

#[test]
fn finalize_sums_are_consistent() {
    let mut root: Vec<(String, BuildNode)> = Vec::new();
    insert(&mut root, &strings(&["a", "x.ts"]), 5, ".ts".to_string());
    insert(&mut root, &strings(&["a", "y.tsx"]), 6, ".tsx".to_string());
    insert(&mut root, &strings(&["b", "c", "z.ts"]), 7, ".ts".to_string());
    insert(&mut root, &strings(&["empty.ts"]), 0, ".ts".to_string());
    let locs = finalize(root);
    let lang_sum: u64 = locs.loc_by_langs.as_ref().unwrap().iter().map(|(_, v)| v).sum();
    let child_sum: u64 = locs
        .children
        .as_ref()
        .unwrap()
        .iter()
        .map(|(_, c)| match c {
            LocsChild::File(n) => *n,
            LocsChild::Dir(d) => d.loc,
        })
        .sum();
    assert_eq!(locs.loc, 18);
    assert_eq!(lang_sum, 18);
    assert_eq!(child_sum, 18);
    assert_eq!(lang(&locs, ".ts"), Some(12));
    assert_eq!(lang(&locs, ".tsx"), Some(6));
}

#[test]
fn finalize_empty_tree() {
    let locs = finalize(Vec::new());
    assert_eq!(locs.loc, 0);
    assert_eq!(locs.loc_by_langs, Some(Vec::new()));
    assert_eq!(locs.children.as_ref().map(|c| c.len()), Some(0));
}

#[test]
fn default_locs_is_empty() {
    let locs = Locs::default();
    assert_eq!(locs.loc, 0);
    assert!(locs.loc_by_langs.is_none());
    assert!(locs.children.is_none());
}

#[test]
fn parse_filters_none_and_blank() {
    assert_eq!(parse_filters(None).unwrap().len(), 0);
    assert_eq!(parse_filters(Some("")).unwrap().len(), 0);
    assert_eq!(parse_filters(Some(" , ,\t")).unwrap().len(), 0);
}

#[test]
fn parse_filters_trims_and_compiles() {
    let filters = parse_filters(Some(" .ts$ ,.tsx$,,")).unwrap();
    let patterns: Vec<&str> = filters.iter().map(|f| f.pattern()).collect();
    assert_eq!(patterns, vec![".ts$", ".tsx$"]);
    assert!(matches_filters(&filters, ".ts"));
    assert!(matches_filters(&filters, ".tsx"));
    assert!(!matches_filters(&filters, ".rs"));
    assert!(matches_filters(&[], ".rs"));
}

#[test]
fn parse_filters_reports_first_invalid_pattern() {
    match parse_filters(Some(".rs$,(,[")) {
        Err(AppError::BadRequest(m)) => {
            let expected_error = regex::Regex::new("(").unwrap_err().to_string();
            assert_eq!(m, format!("invalid filter regex '(': {expected_error}"));
        }
        _ => panic!("expected a bad request"),
    }
}

#[test]
fn tally_drops_root_and_skips_binaries_and_filtered() {
    let entries = vec![
        ArchiveEntry { regular: true, path: strings(&["root", "src", "main.rs"]), content: b"fn main() {}\n".to_vec() },
        ArchiveEntry { regular: true, path: strings(&["root", "README.md"]), content: b"# t\n\nx".to_vec() },
        ArchiveEntry { regular: true, path: strings(&["root", "logo.png"]), content: vec![137, 80, 0, 1] },
        ArchiveEntry { regular: true, path: strings(&["root"]), content: b"a\n".to_vec() },
        ArchiveEntry { regular: false, path: strings(&["root", "dir"]), content: Vec::new() },
    ];
    let locs = tally_entries(&entries, &[]).unwrap();
    assert_eq!(locs.loc, 4);
    assert_eq!(lang(&locs, ".rs"), Some(1));
    assert_eq!(lang(&locs, ".md"), Some(3));
    assert_eq!(lang(&locs, ".png"), None);
    assert!(child(&locs, "logo.png").is_none());
    assert!(child(&locs, "root").is_none());
    assert_eq!(child(dir(&locs, "src"), "main.rs"), Some(&LocsChild::File(1)));

    let filters = parse_filters(Some(r"\.md$")).unwrap();
    let locs = tally_entries(&entries, &filters).unwrap();
    assert_eq!(locs.loc, 3);
    assert!(child(&locs, "src").is_none());
}

#[test]
fn compute_locs_reads_tarball() {
    let data = tarball(&[
        ("owner-repo-sha/src/main.rs", b"fn main() {\n    println!(\"hi\");\n}\n"),
        ("owner-repo-sha/src/util/mod.rs", b"pub mod a;"),
        ("owner-repo-sha/Dockerfile", b"FROM rust\nRUN cargo build\n"),
        ("owner-repo-sha/.gitignore", b"target\n"),
        ("owner-repo-sha/bin.dat", b"\x00\x01\x02"),
    ]);
    let locs = compute_locs(&data, &[]).unwrap();
    assert_eq!(locs.loc, 7);
    assert_eq!(lang(&locs, ".rs"), Some(4));
    assert_eq!(lang(&locs, "Dockerfile"), Some(2));
    assert_eq!(lang(&locs, ".gitignore"), Some(1));
    assert!(child(&locs, "bin.dat").is_none());
    assert!(child(&locs, "emptydir").is_none());
    let src = dir(&locs, "src");
    assert_eq!(src.loc, 4);
    assert_eq!(child(src, "main.rs"), Some(&LocsChild::File(3)));
    assert_eq!(child(dir(src, "util"), "mod.rs"), Some(&LocsChild::File(1)));
}

#[test]
fn compute_locs_applies_filters() {
    let data = tarball(&[
        ("r/a.ts", b"1\n2\n"),
        ("r/b.tsx", b"1\n"),
        ("r/c.rs", b"1\n2\n3\n"),
    ]);
    let filters = parse_filters(Some(".ts$,.tsx$")).unwrap();
    let locs = compute_locs(&data, &filters).unwrap();
    assert_eq!(locs.loc, 3);
    assert!(child(&locs, "c.rs").is_none());
}

#[test]
fn compute_locs_rejects_garbage() {
    match compute_locs(b"definitely not a tarball", &[]) {
        Err(AppError::Upstream(m)) => assert!(m.starts_with("invalid archive"), "{m}"),
        other => panic!("unexpected {:?}", other.map(|l| l.loc)),
    }
}

#[test]
fn compute_locs_rejects_truncated_tarball() {
    let content = "line\n".repeat(2000);
    let data = tarball(&[("owner-repo-sha/big.txt", content.as_bytes())]);
    let cut = &data[..data.len() / 2];
    assert!(compute_locs(cut, &[]).is_err());
}

#[test]
fn compute_locs_empty_archive() {
    let data = tarball(&[]);
    let locs = compute_locs(&data, &[]).unwrap();
    assert_eq!(locs.loc, 0);
}

#[test]
fn readme_example_tree() {
    let main_rs = "fn x() {}\n".repeat(40);
    let dockerfile = "FROM rust\nRUN true\n";
    let entries = vec![
        ArchiveEntry { regular: true, path: strings(&["owner-repo-sha", "main.rs"]), content: main_rs.into_bytes() },
        ArchiveEntry { regular: true, path: strings(&["owner-repo-sha", "Dockerfile"]), content: dockerfile.as_bytes().to_vec() },
    ];
    let locs = tally_entries(&entries, &[]).unwrap();
    assert_eq!(locs.loc, 42);
    assert_eq!(lang(&locs, ".rs"), Some(40));
    assert_eq!(lang(&locs, "Dockerfile"), Some(2));
    assert_eq!(child(&locs, "main.rs"), Some(&LocsChild::File(40)));
    assert_eq!(child(&locs, "Dockerfile"), Some(&LocsChild::File(2)));
    assert_eq!(locs.children.as_ref().unwrap().len(), 2);
}

fn plain_tarball(files: &[(&str, &[u8])], with_other_entries: bool) -> Vec<u8> {
    let mut builder = tar::Builder::new(Vec::new());
    if with_other_entries {
        let mut dir_header = tar::Header::new_gnu();
        dir_header.set_path("r/src/").unwrap();
        dir_header.set_size(0);
        dir_header.set_mode(0o755);
        dir_header.set_entry_type(tar::EntryType::Directory);
        dir_header.set_cksum();
        builder.append(&dir_header, &[][..]).unwrap();
        let mut link_header = tar::Header::new_gnu();
        link_header.set_path("r/src/link.rs").unwrap();
        link_header.set_link_name("main.rs").unwrap();
        link_header.set_size(0);
        link_header.set_mode(0o777);
        link_header.set_entry_type(tar::EntryType::Symlink);
        link_header.set_cksum();
        builder.append(&link_header, &[][..]).unwrap();
    }
    for (path, data) in files {
        let mut header = tar::Header::new_gnu();
        header.set_path(path).unwrap();
        header.set_size(data.len() as u64);
        header.set_mode(0o644);
        header.set_entry_type(tar::EntryType::Regular);
        header.set_cksum();
        builder.append(&header, *data).unwrap();
    }
    let tar_bytes = builder.into_inner().unwrap();
    let mut encoder = flate2::write::GzEncoder::new(Vec::new(), flate2::Compression::default());
    encoder.write_all(&tar_bytes).unwrap();
    encoder.finish().unwrap()
}

#[test]
fn non_regular_entries_leave_tally_unchanged() {
    let regular = vec![
        ArchiveEntry { regular: true, path: strings(&["r", "src", "main.rs"]), content: b"a\nb\n".to_vec() },
        ArchiveEntry { regular: true, path: strings(&["r", "README.md"]), content: b"x\n".to_vec() },
    ];
    let mixed = vec![
        ArchiveEntry { regular: false, path: strings(&["r", "src"]), content: Vec::new() },
        ArchiveEntry { regular: true, path: strings(&["r", "src", "main.rs"]), content: b"a\nb\n".to_vec() },
        ArchiveEntry { regular: false, path: strings(&["r", "src", "link.rs"]), content: b"a\n".to_vec() },
        ArchiveEntry { regular: true, path: strings(&["r", "README.md"]), content: b"x\n".to_vec() },
    ];
    assert_eq!(tally_entries(&mixed, &[]), tally_entries(&regular, &[]));
    assert_eq!(tally_entries(&mixed, &[]).unwrap().loc, 3);
}

#[test]
fn non_regular_tar_entries_leave_result_unchanged() {
    let files: &[(&str, &[u8])] = &[("r/src/main.rs", b"fn a() {}\nfn b() {}\n"), ("r/Makefile", b"all:\n")];
    let with_others = compute_locs(&plain_tarball(files, true), &[]);
    let without = compute_locs(&plain_tarball(files, false), &[]);
    assert_eq!(with_others, without);
    assert_eq!(without.unwrap().loc, 3);
}

#[test]
fn match_all_filter_gives_unfiltered_result() {
    let data = tarball(&[
        ("r/a.ts", b"1\n2\n"),
        ("r/b/c.rs", b"1\n2\n3\n"),
        ("r/Dockerfile", b"FROM x\n"),
    ]);
    let all = parse_filters(Some(".*")).unwrap();
    let filtered = compute_locs(&data, &all);
    assert_eq!(filtered, compute_locs(&data, &[]));
    assert_eq!(filtered.unwrap().loc, 6);
}

#[test]
fn compute_locs_errors_are_upstream() {
    for bad in [&b""[..], &b"\x1f\x8b\x08\x00garbage"[..], &b"not a tarball"[..]] {
        match compute_locs(bad, &[]) {
            Err(AppError::Upstream(_)) => {}
            other => panic!("unexpected {:?}", other.map(|l| l.loc)),
        }
    }
}

#[test]
fn compute_locs_reports_unreadable_entries() {
    let mut encoder = flate2::write::GzEncoder::new(Vec::new(), flate2::Compression::default());
    encoder.write_all(&[b'x'; 1024]).unwrap();
    let bad_header = encoder.finish().unwrap();
    for bad in [&bad_header[..], &b"definitely not a tarball"[..]] {
        match compute_locs(bad, &[]) {
            Err(AppError::Upstream(m)) => assert!(m.starts_with("invalid archive entry: "), "{m}"),
            other => panic!("unexpected {:?}", other.map(|l| l.loc)),
        }
    }
}
