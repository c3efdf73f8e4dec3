use std::path::{Path, PathBuf};

use termy::paths::{edit_name, expand_path_with_home, file_name, join, transfer_name};

const HOME: &str = "/Users/tester";

fn expand(path: &str) -> PathBuf {
    PathBuf::from(expand_path_with_home(path, HOME))
}

#[test]
fn expand_empty_and_blank() {
    assert_eq!(expand(""), PathBuf::new());
    assert_eq!(expand("   "), PathBuf::new());
}

#[test]
fn expand_tilde_alone() {
    assert_eq!(expand("~"), PathBuf::from(HOME));
}

#[test]
fn expand_tilde_slash() {
    assert_eq!(expand("~/.ssh/id_rsa"), PathBuf::from("/Users/tester/.ssh/id_rsa"));
}

#[test]
fn expand_home_var() {
    assert_eq!(expand("$HOME/keys/server.pem"), PathBuf::from("/Users/tester/keys/server.pem"));
    assert_eq!(expand("$HOME"), PathBuf::from(HOME));
}

#[test]
fn expand_absolute_unchanged() {
    assert_eq!(expand("/etc/ssh/key"), PathBuf::from("/etc/ssh/key"));
}

#[test]
fn expand_relative_unchanged() {
    assert_eq!(expand("keys/server.pem"), PathBuf::from("keys/server.pem"));
}

#[test]
fn expand_trims_surrounding_whitespace() {
    assert_eq!(expand("  ~/key.pem  "), PathBuf::from("/Users/tester/key.pem"));
}

#[test]
fn expand_tilde_user_not_expanded() {
    assert_eq!(expand("~other/key"), PathBuf::from("~other/key"));
}

#[test]
fn expand_replaces_every_home_variable() {
    assert_eq!(expand_path_with_home("/a/$HOME/b$HOME", "H"), "/a/H/bH");
    assert_eq!(expand_path_with_home("$HO$HOMEME", ""), "$HOME");
    assert_eq!(expand_path_with_home("~/$HOME", "/h"), "/h/$HOME");
}

#[test]
fn expand_spellings_of_home_agree() {
    assert_eq!(expand_path_with_home("~/k", "/h"), expand_path_with_home("$HOME/k", "/h"));
}

#[test]
fn expand_without_home() {
    assert_eq!(expand_path_with_home("~", ""), "");
    assert_eq!(expand_path_with_home("~/k", ""), "/k");
}

#[test]
fn join_like_std() {
    for base in ["", "/", "/a", "/a/", "a", "a/b"] {
        for relative in ["", "b", "b/c", "/b", "."] {
            let expected = PathBuf::from(base).join(relative);
            assert_eq!(join(base, relative), expected.to_str().unwrap());
        }
    }
}

#[test]
fn file_name_like_std() {
    let paths = [
        "", "/", ".", "..", "a", "/a", "a/", "a//", "a/.", "a/./", "a/..", "../a", "./.", "././a", "a/b.txt",
        "/usr/lib/.hidden", "a/...", "한글/파일.txt", "a/b/../..", "//", "...", "/..", "/.", " ", "a/ ",
    ];
    for p in paths {
        let expected = Path::new(p).file_name().map(|n| n.to_str().unwrap().to_string());
        assert_eq!(file_name(p), expected, "{p:?}");
    }
}

#[test]
fn names_of_transfers_and_edits() {
    assert_eq!(transfer_name("/srv/data/a.tar.gz"), "a.tar.gz");
    assert_eq!(transfer_name("/srv/.."), "/srv/..");
    assert_eq!(transfer_name("/"), "/");
    assert_eq!(edit_name("/etc/nginx/nginx.conf"), "nginx.conf");
    assert_eq!(edit_name("/"), "file");
    assert_eq!(edit_name(".."), "file");
}

#[test]
fn expanding_twice_is_expanding_once() {
    for path in ["", "~", " ~/a ", "$HOME/a", "a$HOME", "$$HOMEHOME", "~other/a", "/a b"] {
        let once = expand_path_with_home(path, HOME);
        assert_eq!(expand_path_with_home(&once, HOME), once, "{path:?}");
    }
    // These name a home directory only once they are filled in.
    assert_eq!(expand_path_with_home("~$HOME", "/h"), "~/h");
    assert_eq!(expand_path_with_home("~/$HOME", "/h"), "/h/$HOME");
}
