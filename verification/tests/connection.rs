use termy::auth::Purpose;
use termy::events::{pty_error, pty_exit, pty_output, pty_reconnected};
use termy::failures::{word_connecting_failure, word_failure, Connecting, Task};
use termy::config::SshConfig;
use termy::hostkey::{listed_name, look_up, remember, verify_host_key, Evidence, Judgement, KnownHost};
use termy::opening::{Came, Stage};
use termy::reconnect::{Reconnect, Verdict};
use termy::shells::{LocalShell, Pace, Read, RemoteShell, SshOutcome};

fn lost(reason: &str) -> Option<SshOutcome> {
    Some(SshOutcome::Disconnected(reason.to_string()))
}

#[test]
fn new_servers_are_remembered_and_changed_ones_refused() {
    let judge = |known| verify_host_key(Evidence::Checked(known), "example.org", 22);
    assert_eq!(judge(KnownHost::Match), Judgement::Trust);
    assert_eq!(judge(KnownHost::NotFound), Judgement::Remember("example.org".to_string()));
    assert_eq!(
        judge(KnownHost::Mismatch),
        Judgement::Refuse(
            "서버 지문이 바뀌었습니다 (example.org:22). 중간자 공격(MITM) 가능성이 있어 접속을 차단합니다. \
             서버를 정말 교체한 게 맞다면 ~/.config/termy/known_hosts 의 해당 항목을 삭제하세요."
                .to_string()
        )
    );
    assert_eq!(judge(KnownHost::Failure), Judgement::Refuse("호스트 키 검증에 실패했습니다".to_string()));
    assert_eq!(
        verify_host_key(Evidence::NoHome, "h", 1),
        Judgement::Refuse("홈 디렉토리를 찾을 수 없음".to_string())
    );
    assert_eq!(
        verify_host_key(Evidence::NoKey, "h", 1),
        Judgement::Refuse("서버 호스트 키를 가져올 수 없음".to_string())
    );
}

#[test]
fn remote_reads() {
    let mut shell = RemoteShell::new(3);
    assert_eq!(shell.on_read(Read::Data(b"hi".to_vec())), (vec![pty_output(3, b"hi".to_vec())], None));
    assert_eq!(shell.on_read(Read::WouldBlock), (vec![], None));
    assert_eq!(shell.on_read(Read::End), (vec![], Some(SshOutcome::Closed)));
    assert_eq!(shell.on_read(Read::Failed("reset".to_string())), (vec![], lost("연결 끊김: reset")));
}

#[test]
fn three_timeouts_in_a_row_end_a_session() {
    let mut shell = RemoteShell::new(3);
    assert_eq!(shell.on_read(Read::TimedOut).1, None);
    assert_eq!(shell.on_read(Read::TimedOut).1, None);
    assert_eq!(shell.on_read(Read::WouldBlock).1, None);
    assert_eq!(shell.on_read(Read::TimedOut).1, None);
    assert_eq!(shell.on_read(Read::TimedOut).1, None);
    assert_eq!(shell.on_read(Read::Data(vec![1])).1, None);
    assert_eq!(shell.on_read(Read::TimedOut).1, None);
    assert_eq!(shell.on_read(Read::TimedOut).1, None);
    assert_eq!(shell.on_read(Read::TimedOut).1, lost("서버 응답 없음 (타임아웃)"));
}

#[test]
fn keepalives_are_paced() {
    let shell = RemoteShell::new(3);
    assert_eq!(shell.pace(true, 99), Pace::Close);
    assert_eq!(shell.pace(false, 29), Pace::Wait);
    assert_eq!(shell.pace(false, 30), Pace::Keepalive);
    assert_eq!(shell.on_keepalive(Ok(())), None);
    assert_eq!(shell.on_keepalive(Err("gone".to_string())), lost("keepalive 실패: gone"));
}

#[test]
fn local_reads() {
    let mut shell = LocalShell::new(9);
    assert_eq!(shell.on_read(Read::Data(vec![b'x'])), (vec![pty_output(9, vec![b'x'])], true));
    assert_eq!(shell.on_read(Read::End), (vec![pty_exit(9)], false));
    assert_eq!(shell.on_read(Read::Failed(String::new())), (vec![pty_exit(9)], false));
}

#[test]
fn a_sequence_may_span_two_reads() {
    let mut shell = LocalShell::new(9);
    assert_eq!(shell.on_read(Read::Data(b"\x1b]0;ab".to_vec())).0.len(), 1);
    let (events, more) = shell.on_read(Read::Data(b"c\x1b\\".to_vec()));
    assert!(more);
    assert_eq!(events.len(), 2);
    assert_eq!(events[0], termy::events::pty_title(9, "abc"));
}

fn retry(id: u32, error: &str, wait: u64) -> Verdict {
    Verdict::Retry(pty_error(id, error), wait, pty_reconnected(id))
}

#[test]
fn lost_sessions_are_connected_again_three_times() {
    let mut r = Reconnect::new(5);
    let end = || Ok(SshOutcome::Disconnected("끊김".to_string()));
    assert_eq!(r.on_end(0, end()), retry(5, "끊김 — 재연결 중 (1/3)...", 2));
    assert_eq!(r.on_end(29, Err("x".to_string())), retry(5, "x — 재연결 중 (2/3)...", 4));
    assert_eq!(r.on_end(1, end()), retry(5, "끊김 — 재연결 중 (3/3)...", 6));
    assert_eq!(
        r.on_end(1, end()),
        Verdict::Stop(vec![pty_error(5, "끊김 — 재연결 실패"), pty_exit(5)])
    );
}

#[test]
fn stable_sessions_reset_the_count() {
    let mut r = Reconnect::new(5);
    for _ in 0..3 {
        r.on_end(0, Err("e".to_string()));
    }
    let lost = Ok(SshOutcome::Disconnected("e".to_string()));
    assert_eq!(r.on_end(30, lost), retry(5, "e — 재연결 중 (1/3)...", 2));
}

#[test]
fn attempts_that_never_connect_stop_however_long_they_take() {
    let mut r = Reconnect::new(5);
    let end = || Err("e".to_string());
    assert_eq!(r.on_end(31, end()), retry(5, "e — 재연결 중 (1/3)...", 2));
    assert_eq!(r.on_end(31, end()), retry(5, "e — 재연결 중 (2/3)...", 4));
    assert_eq!(r.on_end(31, end()), retry(5, "e — 재연결 중 (3/3)...", 6));
    assert_eq!(
        r.on_end(31, end()),
        Verdict::Stop(vec![pty_error(5, "e — 재연결 실패"), pty_exit(5)])
    );
}

fn asked(list: &ssh2::KnownHosts, host: &str, port: u16, key: &[u8]) -> KnownHost {
    match look_up(list, host, port, key) {
        Evidence::Checked(known) => known,
        _ => panic!("not checked"),
    }
}

#[test]
fn remembered_servers_have_to_show_the_same_key() {
    let session = ssh2::Session::new().unwrap();
    let mut list = session.known_hosts().unwrap();
    assert_eq!(asked(&list, "h", 22, b"one"), KnownHost::NotFound);
    remember(&mut list, "h", b"one", ssh2::KnownHostKeyFormat::SshRsa).unwrap();
    assert_eq!(asked(&list, "h", 22, b"one"), KnownHost::Match);
    assert_eq!(asked(&list, "h", 22, b"two"), KnownHost::Mismatch);
    assert_eq!(asked(&list, "h", 22, b"one"), KnownHost::Match);

    // Another port of the host is another server.
    assert_eq!(asked(&list, "h", 2222, b"two"), KnownHost::NotFound);
    remember(&mut list, "[h]:2222", b"two", ssh2::KnownHostKeyFormat::Ed25519).unwrap();
    assert_eq!(asked(&list, "h", 2222, b"two"), KnownHost::Match);
    assert_eq!(asked(&list, "h", 2222, b"one"), KnownHost::Mismatch);
    assert_eq!(asked(&list, "h", 22, b"one"), KnownHost::Match);
    assert_eq!(asked(&list, "g", 22, b"one"), KnownHost::NotFound);

    // A second key under a name counts beside the first.
    remember(&mut list, "h", b"three", ssh2::KnownHostKeyFormat::Unknown).unwrap();
    assert_eq!(asked(&list, "h", 22, b"one"), KnownHost::Match);
    assert_eq!(asked(&list, "h", 22, b"three"), KnownHost::Match);
}

#[test]
fn names_that_cannot_be_listed_leave_the_list_alone() {
    let session = ssh2::Session::new().unwrap();
    let mut list = session.known_hosts().unwrap();
    remember(&mut list, "h", b"one", ssh2::KnownHostKeyFormat::SshRsa).unwrap();
    assert!(remember(&mut list, "h\0", b"two", ssh2::KnownHostKeyFormat::SshRsa).is_err());
    assert_eq!(asked(&list, "h", 22, b"one"), KnownHost::Match);
    assert_eq!(asked(&list, "h", 22, b"two"), KnownHost::Mismatch);
}

#[test]
fn entries_without_a_readable_key_refuse() {
    let session = ssh2::Session::new().unwrap();
    let mut list = session.known_hosts().unwrap();
    list.read_str("host ssh-rsa !!!!!!!!!!!!!!!!!!!!!!!!!!!!!!!!!!!!", ssh2::KnownHostFileKind::OpenSSH).unwrap();
    assert_eq!(asked(&list, "host", 22, b"one"), KnownHost::Mismatch);
}

#[test]
fn remote_shells_keep_their_last_report() {
    let mut shell = RemoteShell::new(3);
    assert_eq!(shell.reported_cwd(), None);
    shell.on_read(Read::Data(b"\x1b]7;file://h/a\x07\x1b]0;t\x07".to_vec()));
    assert_eq!(shell.reported_cwd(), Some("/a"));
    shell.on_read(Read::Data(b"plain".to_vec()));
    shell.on_read(Read::WouldBlock);
    assert_eq!(shell.reported_cwd(), Some("/a"));
    shell.on_read(Read::Data(b"\x1b]7;/b\x07".to_vec()));
    assert_eq!(shell.reported_cwd(), Some("/b"));
}

#[test]
fn servers_are_listed_by_port() {
    assert_eq!(listed_name("h", 22), "h");
    assert_eq!(listed_name("h", 2222), "[h]:2222");
    assert_eq!(
        verify_host_key(Evidence::Checked(KnownHost::NotFound), "h", 2222),
        Judgement::Remember("[h]:2222".to_string())
    );
}

fn server() -> SshConfig {
    SshConfig {
        host: "h".to_string(),
        port: 2222,
        username: "u".to_string(),
        auth_type: String::new(),
        key_path: String::new(),
        name: String::new(),
    }
}

fn open(purpose: Purpose, answers: Vec<Came>) -> Result<Stage, String> {
    let mut stage = Stage::first();
    for came in answers {
        stage = stage.answer(purpose, &server(), came)?;
    }
    Ok(stage)
}

fn up_to_key() -> Vec<Came> {
    vec![Came::Well, Came::Well, Came::Well, Came::Well]
}

fn shown(known: KnownHost) -> Came {
    Came::Shown(Evidence::Checked(known))
}

#[test]
fn logins_follow_trust() {
    let with = |mut more: Vec<Came>| {
        let mut answers = up_to_key();
        answers.append(&mut more);
        open(Purpose::Shell, answers)
    };
    assert_eq!(open(Purpose::Shell, vec![]), Ok(Stage::Resolve));
    assert_eq!(open(Purpose::Shell, vec![Came::Well]), Ok(Stage::Reach));
    assert_eq!(with(vec![]), Ok(Stage::CheckKey));
    assert_eq!(with(vec![Came::Well]), Ok(Stage::CheckKey));
    assert_eq!(with(vec![shown(KnownHost::Match)]), Ok(Stage::LogIn));
    assert_eq!(with(vec![shown(KnownHost::Match), Came::Well]), Ok(Stage::Ready));
    assert_eq!(with(vec![shown(KnownHost::NotFound)]), Ok(Stage::Remember("[h]:2222".to_string())));
    assert_eq!(with(vec![shown(KnownHost::NotFound), Came::Well]), Ok(Stage::LogIn));
    assert!(with(vec![shown(KnownHost::Mismatch)]).unwrap_err().contains("(h:2222)"));
    assert_eq!(
        with(vec![Came::Shown(Evidence::NoKey)]),
        Err("서버 호스트 키를 가져올 수 없음".to_string())
    );
}

#[test]
fn stages_fail_in_their_own_words() {
    let bad = || Came::Badly("why".to_string());
    assert_eq!(
        open(Purpose::Shell, vec![bad()]),
        Err("호스트를 찾을 수 없음: h:2222 (why)".to_string())
    );
    assert_eq!(
        open(Purpose::Shell, vec![Came::Well, bad()]),
        Err("서버에 연결할 수 없음: h:2222 (why)".to_string())
    );
    assert_eq!(open(Purpose::Shell, vec![Came::Well, Came::Well, bad()]), Err("why".to_string()));
    assert_eq!(
        open(Purpose::Shell, vec![Came::Well, Came::Well, Came::Well, bad()]),
        Err("SSH 핸드셰이크 실패: why".to_string())
    );
    assert_eq!(open(Purpose::Sftp, vec![bad()]), Err("why".to_string()));
}

#[test]
fn closed_sessions_stay_closed() {
    let mut r = Reconnect::new(5);
    assert_eq!(r.on_end(0, Ok(SshOutcome::Closed)), Verdict::Stop(vec![pty_exit(5)]));
    assert_eq!(r.on_end(60, Ok(SshOutcome::Closed)), Verdict::Stop(vec![pty_exit(5)]));
}

#[test]
fn tab_events_have_their_names() {
    assert_eq!(pty_exit(1).name, "pty-exit");
    assert_eq!(pty_reconnected(1).name, "pty-reconnected");
    assert_eq!(pty_error(1, "e").name, "pty-error");
    assert_eq!(pty_error(1, "e").fields[1].0, "error");
}

#[test]
fn failures_to_connect_are_worded() {
    let word = |p, s| word_connecting_failure(p, s, "h:22", "why");
    assert_eq!(word(Purpose::Shell, Connecting::Resolve), "호스트를 찾을 수 없음: h:22 (why)");
    assert_eq!(word(Purpose::Shell, Connecting::Reach), "서버에 연결할 수 없음: h:22 (why)");
    assert_eq!(word(Purpose::Shell, Connecting::Handshake), "SSH 핸드셰이크 실패: why");
    assert_eq!(word(Purpose::Sftp, Connecting::Resolve), "why");
    assert_eq!(word(Purpose::Sftp, Connecting::Handshake), "why");
}

#[test]
fn failures_of_tasks_are_worded() {
    assert_eq!(word_failure(Task::OpenDownload, "e"), "파일 열기 실패: e");
    assert_eq!(word_failure(Task::CreateUpload, "e"), "파일 생성 실패: e");
    assert_eq!(word_failure(Task::OpenEdit, "e"), "원격 파일 열기 실패: e");
    assert_eq!(word_failure(Task::CreateEdit, "e"), "원격 파일 생성 실패: e");
    assert_eq!(word_failure(Task::FileTree, "e"), "파일 트리 연결 실패: e");
}
