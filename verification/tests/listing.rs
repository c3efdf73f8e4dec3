use termy::listing::{comes_first, is_directory, local_list_dir, remote_listing, sort_by_keys, sort_entries};
use termy::listing::{FileEntry, LocalEntry, LocalRead, Metadata, RemoteEntry};
use termy::text::chars_of;

fn file(name: &str, is_dir: bool, size: u64) -> FileEntry {
    FileEntry { name: name.to_string(), is_dir, size, path: format!("/d/{name}") }
}

fn names(files: &[FileEntry]) -> Vec<String> {
    files.iter().map(|f| f.name.clone()).collect()
}

fn local(name: &str, metadata: Option<Metadata>) -> LocalEntry {
    LocalEntry { name: name.to_string(), path: format!("/d/{name}"), metadata }
}

fn remote(path: &str, perm: Option<u32>, size: Option<u64>) -> RemoteEntry {
    RemoteEntry { path: path.to_string(), perm, size }
}

#[test]
fn directories_come_first_then_names() {
    let sorted = sort_entries(vec![
        file("b.txt", false, 1),
        file("Zoo", true, 2),
        file("A.txt", false, 3),
        file("apple", true, 4),
        file("É", false, 5),
        file("é", false, 6),
        file("a", false, 7),
    ]);
    assert_eq!(names(&sorted), vec!["apple", "Zoo", "a", "A.txt", "b.txt", "É", "é"]);
}

#[test]
fn sorting_like_std() {
    let all = [
        "b", "B", "a", "A", "ab", "Ab", "", "ß", "ẞ", "İ", "i", "z", "Z", "가", "나", "_", ".x", "b", "ΑΣ", "ας", "10",
        "9", "B",
    ];
    let make = || {
        let mut v = Vec::new();
        for (i, n) in all.iter().enumerate() {
            v.push(file(n, i % 3 == 0, i as u64));
        }
        v
    };
    let mut expected = make();
    expected.sort_by(|a, b| b.is_dir.cmp(&a.is_dir).then(a.name.to_lowercase().cmp(&b.name.to_lowercase())));
    assert_eq!(sort_entries(make()), expected);
}

#[test]
fn entries_alike_keep_their_order() {
    let sorted = sort_entries(vec![file("x", false, 1), file("X", false, 2), file("x", false, 3)]);
    let sizes: Vec<u64> = sorted.iter().map(|f| f.size).collect();
    assert_eq!(sizes, vec![1, 2, 3]);
}

#[test]
fn keys_decide() {
    let sorted = sort_by_keys(
        vec![file("a", false, 1), file("b", false, 2), file("c", true, 3)],
        vec![chars_of("z"), chars_of("y"), chars_of("zz")],
    );
    assert_eq!(names(&sorted), vec!["c", "b", "a"]);
}

#[test]
fn texts_are_ordered_like_std() {
    let all = ["", "a", "ab", "b", "é", "가", "\u{ffff}", "\u{10000}", "z"];
    for a in all {
        for b in all {
            assert_eq!(comes_first(&chars_of(a), &chars_of(b)), a < b, "{a:?} {b:?}");
        }
    }
}

#[test]
fn remote_entries_are_listed() {
    let files = remote_listing(vec![
        remote("/srv/b", Some(0o100644), Some(7)),
        remote("/srv/sub", Some(0o040755), None),
        remote("/srv/.", Some(0o040755), None),
        remote("/srv/..", Some(0o040755), None),
        remote("/srv/link", Some(0o120777), Some(3)),
        remote("/srv/a", None, None),
    ]);
    assert_eq!(names(&files), vec!["srv", "sub", "a", "b", "link"]);
    assert!(files[1].is_dir);
    assert_eq!(files[1].size, 0);
    assert!(!files[2].is_dir);
    assert_eq!(files[3].size, 7);
    assert!(!files[4].is_dir);
    assert_eq!(files[3].path, "/srv/b");
}

#[test]
fn parents_are_not_listed() {
    let files = remote_listing(vec![remote("..", Some(0o040755), None), remote(".", Some(0o040755), None)]);
    assert!(files.is_empty());
}

#[test]
fn types_are_told_by_their_bits() {
    for (perm, is_dir) in [
        (Some(0o040000), true),
        (Some(0o040777), true),
        (Some(0o140755), false),
        (Some(0o060000), false),
        (Some(0o755), false),
        (Some(0), false),
        (None, false),
        (Some(0o7_040000), true),
    ] {
        assert_eq!(remote_listing(vec![remote("/x", perm, None)])[0].is_dir, is_dir, "{perm:?}");
    }
}

#[test]
fn types_like_ssh2() {
    let outside = |perm| {
        ssh2::FileStat { size: None, uid: None, gid: None, perm, atime: None, mtime: None }.is_dir()
    };
    assert_eq!(is_directory(None), outside(None));
    for kind in 0..32u32 {
        for bits in [0, 0o644, 0o755, 0o7777] {
            let perm = Some(kind << 12 | bits);
            assert_eq!(is_directory(perm), outside(perm), "{perm:?}");
        }
    }
}

#[test]
fn hidden_files_are_shown_on_request() {
    let meta = Some(Metadata { is_dir: false, size: 4 });
    let entries = || LocalRead::Entries(vec![local(".git", meta), local("b", meta), local("gone", None), local("a", meta)]);
    assert_eq!(names(&local_list_dir(entries(), None).unwrap()), vec!["a", "b"]);
    assert_eq!(names(&local_list_dir(entries(), Some(false)).unwrap()), vec!["a", "b"]);
    assert_eq!(names(&local_list_dir(entries(), Some(true)).unwrap()), vec![".git", "a", "b"]);
    let mut rest = local_list_dir(entries(), Some(true)).unwrap();
    rest.retain(|f| !f.name.starts_with('.'));
    assert_eq!(local_list_dir(entries(), None).unwrap(), rest);
    let files = local_list_dir(entries(), None).unwrap();
    assert_eq!(files[0], FileEntry { name: "a".to_string(), is_dir: false, size: 4, path: "/d/a".to_string() });
}

#[test]
fn missing_directories_are_reported() {
    assert_eq!(local_list_dir(LocalRead::Missing, None), Err("경로 없음".to_string()));
    assert_eq!(local_list_dir(LocalRead::Failed("denied".to_string()), None), Err("denied".to_string()));
}
