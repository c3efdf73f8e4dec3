use termy::listing::RemoteEntry;
use termy::sessions::{read_pwd, size_in_cells, Delivery, PtyManager, SftpSessions, Size};
use termy::shells::SshMsg;

fn some(s: &str) -> Option<String> {
    Some(s.to_string())
}

#[test]
fn input_goes_to_the_local_shell_first() {
    let mut m: PtyManager<Vec<u8>, &str> = PtyManager::new();
    m.add_pty(1, vec![]);
    m.add_ssh_input(1, "one");
    m.add_ssh_input(2, "two");
    match m.pty_write(1, "é") {
        Delivery::Local(pty, bytes) => pty.extend(bytes),
        _ => panic!("not local"),
    }
    assert_eq!(m.pty(1), Ok(&"é".as_bytes().to_vec()));
    match m.pty_write(2, "ls\n") {
        Delivery::Ssh(input, message) => {
            assert_eq!(*input, "two");
            assert_eq!(message, SshMsg::Input(b"ls\n".to_vec()));
        }
        _ => panic!("not remote"),
    }
    assert!(matches!(m.pty_write(3, "x"), Delivery::Nowhere));
}

#[test]
fn sizes_take_the_same_way() {
    let mut m: PtyManager<u8, u8> = PtyManager::new();
    m.add_pty(1, 10);
    m.add_ssh_input(2, 20);
    match m.pty_resize(1, 80, 24) {
        Delivery::Local(pty, size) => {
            assert_eq!(*pty, 10);
            assert_eq!(size, Size { rows: 24, cols: 80, pixel_width: 0, pixel_height: 0 });
        }
        _ => panic!("not local"),
    }
    match m.pty_resize(2, 80, 24) {
        Delivery::Ssh(input, message) => {
            assert_eq!(*input, 20);
            assert_eq!(message, SshMsg::Resize(80, 24));
        }
        _ => panic!("not remote"),
    }
    assert!(matches!(m.pty_resize(3, 80, 24), Delivery::Nowhere));
    assert_eq!(size_in_cells(80, 24), Size { rows: 24, cols: 80, pixel_width: 0, pixel_height: 0 });
}

#[test]
fn closed_shells_get_nothing() {
    let mut m: PtyManager<u8, u8> = PtyManager::new();
    m.add_pty(1, 10);
    m.add_ssh_input(1, 20);
    m.pty_close(1);
    assert_eq!(m.pty(1), Err("PTY 없음".to_string()));
    assert!(matches!(m.pty_write(1, "x"), Delivery::Ssh(_, _)));
    m.remove_ssh_input(1);
    assert!(matches!(m.pty_write(1, "x"), Delivery::Nowhere));
}

#[test]
fn file_sessions_start_where_pwd_says() {
    let mut s: SftpSessions<u8> = SftpSessions::new();
    s.add(1, 11, some("/home/u\n"));
    s.add(2, 22, some(" \n"));
    s.add(3, 33, None);
    assert_eq!(s.sftp_get_cwd(1), Ok("/home/u".to_string()));
    assert_eq!(s.sftp_get_cwd(2), Ok("/root".to_string()));
    assert_eq!(s.sftp_get_cwd(3), Ok("/root".to_string()));
    assert_eq!(s.sftp_get_cwd(4), Err("SFTP 연결 없음".to_string()));
    assert_eq!(s.session(2), Ok(&22));
    assert_eq!(s.session(4), Err("SFTP 연결 없음".to_string()));
    assert_eq!(read_pwd(some(" /x ")), some("/x"));
}

#[test]
fn listing_moves_the_session() {
    let mut s: SftpSessions<u8> = SftpSessions::new();
    s.add(1, 11, some("/a"));
    s.add(2, 22, some("/b"));
    assert_eq!(s.directory_to_list(1, None), Ok("/a".to_string()));
    assert_eq!(s.directory_to_list(1, some("/c")), Ok("/c".to_string()));
    assert_eq!(s.directory_to_list(9, None), Err("SFTP 연결 없음".to_string()));

    let failed = s.sftp_list_dir(1, "/c".to_string(), Err("denied".to_string()));
    assert_eq!(failed, Err("디렉토리 읽기 실패: denied".to_string()));
    assert_eq!(s.sftp_get_cwd(1), Ok("/a".to_string()));

    let entry = RemoteEntry { path: "/c/f".to_string(), perm: Some(0o100644), size: Some(5) };
    let files = s.sftp_list_dir(1, "/c".to_string(), Ok(vec![entry])).unwrap();
    assert_eq!(files.len(), 1);
    assert_eq!(files[0].name, "f");
    assert_eq!(s.sftp_get_cwd(1), Ok("/c".to_string()));
    assert_eq!(s.sftp_get_cwd(2), Ok("/b".to_string()));
    assert_eq!(s.sftp_list_dir(9, "/c".to_string(), Ok(vec![])), Err("SFTP 연결 없음".to_string()));
}

#[test]
fn syncing_follows_the_shell() {
    let mut s: SftpSessions<u8> = SftpSessions::new();
    s.add(1, 11, some("/a"));
    assert_eq!(s.sftp_sync_cwd(1, None, some("/b\n")), Ok("/b".to_string()));
    assert_eq!(s.sftp_get_cwd(1), Ok("/b".to_string()));
    assert_eq!(s.sftp_sync_cwd(1, None, some("  ")), Ok("/b".to_string()));
    assert_eq!(s.sftp_sync_cwd(1, None, None), Ok("/b".to_string()));
    assert_eq!(s.sftp_sync_cwd(1, some("/srv/x "), some("/root\n")), Ok("/srv/x ".to_string()));
    assert_eq!(s.sftp_get_cwd(1), Ok("/srv/x ".to_string()));
    assert_eq!(s.sftp_sync_cwd(2, None, some("/x")), Err("SFTP 연결 없음".to_string()));
    assert_eq!(s.sftp_sync_cwd(2, some("/x"), None), Err("SFTP 연결 없음".to_string()));
    assert!(!s.contains(2));
}

#[test]
fn reported_directories_belong_to_a_shell() {
    let mut m: PtyManager<u8, u8> = PtyManager::new();
    m.add_ssh_input(1, 20);
    assert_eq!(m.shell_cwd(1), None);
    m.set_shell_cwd(1, Some("/a"));
    m.set_shell_cwd(2, Some("/b"));
    assert_eq!(m.shell_cwd(1), some("/a"));
    m.set_shell_cwd(1, None);
    assert_eq!(m.shell_cwd(1), None);
    m.set_shell_cwd(1, Some("/c"));
    m.remove_ssh_input(1);
    assert_eq!(m.shell_cwd(1), None);
    assert_eq!(m.shell_cwd(2), some("/b"));
}

#[test]
fn removed_sessions_are_gone() {
    let mut s: SftpSessions<u8> = SftpSessions::new();
    s.add(1, 11, None);
    assert!(s.contains(1));
    s.remove(1);
    assert!(!s.contains(1));
    assert!(s.session(1).is_err());
}
