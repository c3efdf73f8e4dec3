use termy::secrets::{escape, passphrase_script, password_script, printed_answer, printed_secret};
use termy::secrets::{read_answer, read_secret, save_requests, Entry};

#[test]
fn keychain_requests_name_one_place() {
    let e = Entry::password("example.org", "u");
    assert_eq!(e.find_args(), vec!["find-generic-password", "-a", "u", "-s", "termy-ssh-example.org", "-w"]);
    assert_eq!(e.delete_args(), vec!["delete-generic-password", "-a", "u", "-s", "termy-ssh-example.org"]);
    assert_eq!(
        e.add_args("pw"),
        vec!["add-generic-password", "-a", "u", "-s", "termy-ssh-example.org", "-w", "pw"]
    );
    let k = Entry::key_passphrase("/h/.ssh/id_rsa");
    assert_eq!(k.find_args(), vec!["find-generic-password", "-a", "/h/.ssh/id_rsa", "-s", "termy-sshkey", "-w"]);
}

#[test]
fn secrets_are_removed_before_they_are_saved() {
    let e = Entry::password("example.org", "u");
    assert_eq!(save_requests(&e, "pw"), vec![e.delete_args(), e.add_args("pw")]);
}

#[test]
fn places_differ() {
    assert_ne!(Entry::password("a", "u"), Entry::password("b", "u"));
    assert_ne!(Entry::password("a", "u"), Entry::password("a", "v"));
    assert_ne!(Entry::password("key", "u"), Entry::key_passphrase("u"));
}

#[test]
fn secrets_are_read_back() {
    assert_eq!(printed_secret(true, "geheim\n"), Some("geheim".to_string()));
    assert_eq!(printed_secret(true, "\n"), Some(String::new()));
    assert_eq!(printed_secret(false, "geheim\n"), None);
    assert_eq!(read_secret(true, "비밀\n".as_bytes()), Some("비밀".to_string()));
    assert_eq!(read_secret(true, b"a\xffb"), Some("a\u{fffd}b".to_string()));
    assert_eq!(read_secret(false, b"x"), None);
}

#[test]
fn escaping_doubles_backslashes_and_guards_quotes() {
    assert_eq!(escape(r#"a"b\c"#), r#"a\"b\\c"#);
    assert_eq!(escape(r#"\""#), r#"\\\""#);
    assert_eq!(escape("plain"), "plain");
    for s in ["", "\"", "\\", "\\\\\"", "x\"; do shell script \"rm\""] {
        assert_eq!(escape(s), s.replace('\\', "\\\\").replace('"', "\\\""));
    }
}

#[test]
fn dialogs_are_scripted() {
    assert_eq!(
        password_script("h", "u"),
        r#"display dialog "u@h 비밀번호:" default answer "" with hidden answer with title "termy SSH" buttons {"취소", "연결"} default button "연결""#
    );
    assert_eq!(
        passphrase_script("/k"),
        r#"display dialog "키 passphrase (/k):" default answer "" with hidden answer with title "termy SSH" buttons {"취소", "확인"} default button "확인""#
    );
    assert!(password_script("h\"", "u\\").starts_with(r#"display dialog "u\\@h\" 비밀번호:" default"#));
}

#[test]
fn answers_are_read() {
    let out = "button returned:연결, text returned:pass word\n";
    assert_eq!(printed_answer(true, out), Some("pass word".to_string()));
    assert_eq!(printed_answer(false, out), None);
    assert_eq!(printed_answer(true, "button returned:연결"), None);
    assert_eq!(printed_answer(true, "text returned:"), Some(String::new()));
    assert_eq!(printed_answer(true, "text returned:a text returned:b"), Some("a".to_string()));
    assert_eq!(read_answer(true, out.as_bytes()), Some("pass word".to_string()));
    assert_eq!(read_answer(true, b"text returned:\xfe\n"), Some("\u{fffd}".to_string()));
}
