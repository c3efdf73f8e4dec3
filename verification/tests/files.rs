use termy::edit::{editor_started, upload_event, Look, Watch};
use termy::events::Field;
use termy::lsof::{lsof_args, named_paths, Search, Unknown};
use termy::settings::{home_dir, home_or_error, load_app_settings, save_app_settings, should_migrate};
use termy::settings::{entries_to_copy, Kept, OldEntry, OpenStep};
use termy::transfer::{next_piece, Answer, Direction, Stage, Transfer, TransferRun, CHUNK};

fn text(s: &str) -> Field {
    Field::Text(s.to_string())
}

fn field(name: &str, value: Field) -> (String, Field) {
    (name.to_string(), value)
}

#[test]
fn transfers_report_their_progress() {
    let mut t = Transfer::new(Direction::Download, 6, "/srv/a.bin");
    t.set_total(Some(200));
    t.advance(50);
    t.advance(25);
    assert_eq!(t.counts(), (75, 200));
    let e = t.progress(37);
    assert_eq!(e.name, "transfer-progress");
    assert_eq!(
        e.fields,
        vec![
            field("type", text("download")),
            field("tabId", Field::Number(6)),
            field("name", text("a.bin")),
            field("progress", Field::Number(37)),
            field("downloaded", Field::Number(75)),
            field("total", Field::Number(200)),
        ]
    );
}

#[test]
fn transfers_report_their_end() {
    let mut t = Transfer::new(Direction::Upload, 6, "b");
    t.set_total(None);
    assert_eq!(t.counts(), (0, 0));
    assert_eq!(t.progress(0).fields[4], field("uploaded", Field::Number(0)));
    let start = vec![
        field("type", text("upload")),
        field("tabId", Field::Number(6)),
        field("name", text("b")),
    ];
    assert_eq!(t.complete().name, "transfer-complete");
    assert_eq!(t.complete().fields, start);
    let e = t.failed("disk full");
    assert_eq!(e.name, "transfer-error");
    assert_eq!(e.fields[3], field("error", text("disk full")));
    assert!(!t.discards_local_file());
    let mut t = Transfer::new(Direction::Download, 6, "b");
    assert!(!t.discards_local_file());
    t.begin_local_file();
    assert!(t.discards_local_file());
    t.advance(3);
    assert!(t.discards_local_file());
}

fn told(run: &mut TransferRun, answers: Vec<Answer>) -> Vec<String> {
    let mut names = Vec::new();
    for answer in answers {
        if let Some(event) = run.hear(answer) {
            names.push(event.name);
        }
    }
    names
}

#[test]
fn downloads_run_to_their_end() {
    let mut run = TransferRun::start(Direction::Download, 6, "/srv/a.bin");
    assert_eq!(run.stage(), Stage::Session);
    assert!(told(&mut run, vec![Answer::Well, Answer::Size(Some(8)), Answer::Well]).is_empty());
    assert_eq!(run.stage(), Stage::Create);
    assert!(told(&mut run, vec![Answer::Well, Answer::Bytes(5)]).is_empty());
    assert_eq!(run.stage(), Stage::Store(5));
    assert_eq!(run.hear(Answer::Well), None);
    assert_eq!(run.counts(), (5, 8));
    assert_eq!(run.stage(), Stage::Report);
    let event = run.hear(Answer::Share(62)).unwrap();
    assert_eq!(event.name, "transfer-progress");
    assert_eq!(event.fields[3], field("progress", Field::Number(62)));
    assert_eq!(event.fields[4], field("downloaded", Field::Number(5)));
    assert_eq!(told(&mut run, vec![Answer::Bytes(0), Answer::Bytes(0)]), vec!["transfer-complete"]);
    assert_eq!(run.stage(), Stage::Done);
    assert!(!run.leaves_partial_file());
}

#[test]
fn only_files_that_a_download_made_are_removed() {
    let fail = || Answer::Failed("e".to_string());
    let mut run = TransferRun::start(Direction::Download, 6, "a");
    told(&mut run, vec![Answer::Well]);
    assert_eq!(run.hear(fail()).unwrap().fields[3], field("error", text("e")));
    assert!(!run.leaves_partial_file());
    assert_eq!(run.hear(fail()), None);

    let mut run = TransferRun::start(Direction::Download, 6, "a");
    told(&mut run, vec![Answer::Well, Answer::Size(None)]);
    assert_eq!(run.hear(fail()).unwrap().fields[3], field("error", text("파일 열기 실패: e")));
    assert!(!run.leaves_partial_file());

    let mut run = TransferRun::start(Direction::Download, 6, "a");
    told(&mut run, vec![Answer::Well, Answer::Size(None), Answer::Well, Answer::Well]);
    assert_eq!(told(&mut run, vec![fail()]), vec!["transfer-error"]);
    assert!(run.leaves_partial_file());
}

#[test]
fn uploads_read_the_file_first() {
    let mut run = TransferRun::start(Direction::Upload, 6, "a");
    assert_eq!(run.stage(), Stage::Size);
    run.hear(Answer::Size(Some(3)));
    assert_eq!(run.stage(), Stage::Session);
    run.hear(Answer::Well);
    assert_eq!(run.stage(), Stage::Open);
    run.hear(Answer::Well);
    assert_eq!(run.stage(), Stage::Fetch);
    let names =
        told(&mut run, vec![Answer::Bytes(3), Answer::Well, Answer::Share(100), Answer::Bytes(0)]);
    assert_eq!(names, vec!["transfer-progress", "transfer-complete"]);

    let mut run = TransferRun::start(Direction::Upload, 6, "a");
    told(&mut run, vec![Answer::Size(Some(3)), Answer::Well]);
    let event = run.hear(Answer::Failed("e".to_string())).unwrap();
    assert_eq!(event.fields[3], field("error", text("파일 생성 실패: e")));
    assert!(!run.leaves_partial_file());
}

#[test]
fn pieces_like_std() {
    for n in [0, 1, CHUNK - 1, CHUNK, CHUNK + 1, 3 * CHUNK, 3 * CHUNK + 5] {
        let contents: Vec<u8> = (0..n).map(|i| i as u8).collect();
        let mut sent = 0;
        let mut pieces: Vec<Vec<u8>> = Vec::new();
        while let Some(p) = next_piece(&contents, sent) {
            sent += p.len();
            pieces.push(p.to_vec());
        }
        let expected: Vec<Vec<u8>> = contents.chunks(32768).map(|c| c.to_vec()).collect();
        assert_eq!(pieces, expected);
        assert_eq!(pieces.concat(), contents);
    }
    assert_eq!(next_piece(&[1], 9), None);
}

#[test]
fn uploads_send_the_whole_file() {
    let contents: Vec<u8> = (0..2 * CHUNK + 7).map(|i| i as u8).collect();
    let mut run = TransferRun::start(Direction::Upload, 6, "a");
    told(&mut run, vec![Answer::Size(Some(contents.len() as u64)), Answer::Well, Answer::Well]);
    let mut stored: Vec<u8> = Vec::new();
    while run.stage() == Stage::Fetch {
        let piece = next_piece(&contents, run.counts().0 as usize).unwrap_or(&[]);
        run.hear(Answer::Bytes(piece.len()));
        if run.stage() == Stage::Store(piece.len()) {
            stored.extend(piece);
            told(&mut run, vec![Answer::Well, Answer::Share(0)]);
        }
    }
    assert_eq!(run.stage(), Stage::Done);
    assert_eq!(stored, contents);
    assert_eq!(run.counts(), (contents.len() as u64, contents.len() as u64));
}

#[test]
fn saved_copies_are_sent_once() {
    let mut w = Watch::new(Some(10));
    assert_eq!(w.look(true, Some(10)), Look::Idle);
    assert_eq!(w.look(true, Some(11)), Look::Upload);
    assert_eq!(w.look(true, Some(11)), Look::Idle);
    assert_eq!(w.look(true, None), Look::Idle);
    assert_eq!(w.look(true, Some(11)), Look::Idle);
    assert_eq!(w.look(true, Some(9)), Look::Upload);
    assert_eq!(w.look(false, Some(12)), Look::Stop);

    let mut w = Watch::new(None);
    assert_eq!(w.look(true, None), Look::Idle);
    assert_eq!(w.look(true, Some(1)), Look::Upload);
}

#[test]
fn uploads_of_edits_are_reported() {
    let e = upload_event("a.txt", Ok(()));
    assert_eq!(e.name, "edit-synced");
    assert_eq!(e.fields, vec![field("name", text("a.txt"))]);
    let e = upload_event("a.txt", Err("lost".to_string()));
    assert_eq!(e.name, "edit-error");
    assert_eq!(e.fields, vec![field("name", text("a.txt")), field("error", text("lost"))]);
    assert_eq!(editor_started(true), Ok(()));
    assert_eq!(editor_started(false), Err("Sublime Text를 열 수 없습니다 (설치 여부 확인)".to_string()));
}

#[test]
fn lsof_names_paths() {
    let out = "p123\nfcwd\nn/Users/u/한글\r\nf1\nnpipe\nn/dev/null\nx/y\nnlast/\r";
    assert_eq!(named_paths(out), vec!["/Users/u/한글", "/dev/null", "last/\r"]);
    let mut expected = Vec::new();
    for line in out.lines() {
        if line.starts_with('n') && line.contains('/') {
            expected.push(line[1..].to_string());
        }
    }
    assert_eq!(named_paths(out), expected);
    assert_eq!(lsof_args(123), vec!["-p", "123", "-Fn"]);
}

#[test]
fn the_first_directory_is_taken() {
    let mut s = Search::in_text("n/a\nn/b\nn/c\n");
    assert_eq!(s.current(), Some("/a"));
    assert_eq!(s.answer(false), None);
    assert_eq!(s.current(), Some("/b"));
    assert_eq!(s.answer(true), Some("/b".to_string()));

    let mut s = Search::start(b"n/\xff\n");
    assert_eq!(s.current(), Some("/\u{fffd}"));
    assert_eq!(s.answer(false), None);
    assert_eq!(s.current(), None);
    assert_eq!(Search::in_text("").current(), None);
    assert_eq!(Unknown::NoDirectory.message(), "CWD를 찾을 수 없음");
    assert_eq!(Unknown::NoProcess.message(), "PID 없음");
}

#[test]
fn settings_survive() {
    let mut map = serde_json::Map::new();
    map.insert("theme".to_string(), serde_json::Value::from("nord"));
    map.insert("fontSize".to_string(), serde_json::Value::from(13));
    let settings = serde_json::Value::Object(map);
    let saved = save_app_settings(&settings).unwrap();
    assert_eq!(saved, "{\n  \"fontSize\": 13,\n  \"theme\": \"nord\"\n}");
    assert_eq!(load_app_settings(Some(&saved)), Ok(settings));
}

#[test]
fn deep_settings_with_whole_numbers_survive() {
    let mut value = serde_json::Value::from("1.5e3 \"[{\\");
    for i in 0..127u64 {
        value = if i % 2 == 0 {
            serde_json::Value::Array(vec![value, serde_json::Value::from(u64::MAX - i)])
        } else {
            let mut map = serde_json::Map::new();
            map.insert("k.\n".to_string(), value);
            map.insert("min".to_string(), serde_json::Value::from(i64::MIN));
            serde_json::Value::Object(map)
        };
    }
    let saved = save_app_settings(&value).unwrap();
    assert_eq!(load_app_settings(Some(&saved)), Ok(value.clone()));
    let deeper = save_app_settings(&serde_json::Value::Array(vec![value])).unwrap();
    assert!(load_app_settings(Some(&deeper)).is_err());
}

#[test]
fn settings_start_empty() {
    let empty = load_app_settings(None).unwrap();
    assert_eq!(empty, serde_json::Value::Object(serde_json::Map::new()));
    assert_eq!(load_app_settings(Some("{}")), Ok(empty));
}

#[test]
fn broken_settings_are_reported() {
    assert_eq!(
        load_app_settings(Some("{")),
        Err("EOF while parsing an object at line 1 column 1".to_string())
    );
}

#[test]
fn home_is_that_of_the_user() {
    let expected = dirs::home_dir().map(|p| p.to_string_lossy().to_string());
    assert_eq!(home_dir().ok(), expected);
    assert_eq!(home_or_error(Some("/h".to_string())), Ok("/h".to_string()));
    assert_eq!(home_or_error(None), Err("홈 디렉토리 없음".to_string()));
}

#[test]
fn kept_files_have_their_places() {
    assert_eq!(Kept::Settings.path_in_home(), ".config/termy/settings.json");
    assert_eq!(Kept::Connections.path_in_home(), ".config/termy/ssh_connections.json");
    assert_eq!(Kept::KnownHosts.path_in_home(), ".config/termy/known_hosts");
}

#[test]
fn nothing_is_migrated_over_files() {
    assert!(should_migrate(true, false, false));
    assert!(should_migrate(true, true, false));
    assert!(!should_migrate(true, true, true));
    assert!(!should_migrate(false, false, false));
}

#[test]
fn only_regular_files_are_taken_over() {
    let entry = |named, is_file| OldEntry { named, is_file };
    let entries = [entry(true, true), entry(true, false), entry(false, true), entry(true, true)];
    assert_eq!(entries_to_copy(&entries), vec![0, 3]);
    assert!(entries_to_copy(&[]).is_empty());
}

#[test]
fn the_settings_program_is_built_if_missing() {
    assert_eq!(OpenStep::Check.answer(true), OpenStep::Start);
    assert_eq!(OpenStep::Check.answer(false), OpenStep::Build);
    assert_eq!(OpenStep::Build.answer(false), OpenStep::CheckAgain);
    assert_eq!(OpenStep::CheckAgain.answer(true), OpenStep::Start);
    assert_eq!(OpenStep::CheckAgain.answer(false), OpenStep::Done);
    assert_eq!(OpenStep::Start.answer(true), OpenStep::Done);
}
