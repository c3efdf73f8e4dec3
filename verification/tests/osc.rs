use termy::events::{Event, Field};
use termy::osc::{read_directory, read_payload, Report, Scanner, Shell, MAX_PAYLOAD};
use termy::text::chars_of;

fn title(text: &str) -> Report {
    Report::Title(text.to_string())
}

fn cwd(text: &str) -> Report {
    Report::Cwd(text.to_string())
}

fn feed(shell: Shell, data: &[u8]) -> Vec<Report> {
    Scanner::new(shell).feed(data)
}

#[test]
fn titles_end_in_bel() {
    assert_eq!(feed(Shell::Local, b"ls\x1b]0;home\x07$ "), vec![title("home")]);
    assert_eq!(feed(Shell::Remote, b"\x1b]2;vim\x07"), vec![title("vim")]);
    assert_eq!(feed(Shell::Local, b"\x1b]0;\x07"), vec![title("")]);
    assert_eq!(feed(Shell::Local, b"\x1b]1;icon\x07"), vec![]);
}

#[test]
fn local_titles_end_in_string_terminator() {
    assert_eq!(feed(Shell::Local, b"\x1b]2;vim\x1b\\"), vec![title("vim")]);
    assert_eq!(feed(Shell::Local, b"\x1b]2;a\\b\x07"), vec![title("a\\b")]);
}

#[test]
fn remote_titles_do_not_end_in_string_terminator() {
    assert_eq!(feed(Shell::Remote, b"\x1b]2;vim\x1b\\"), vec![]);
    assert_eq!(feed(Shell::Remote, b"\x1b]2;vim\x1b\\x\x07"), vec![title("vim\u{1b}\\x")]);
}

#[test]
fn chunks_make_no_difference() {
    let data = "a\x1b]0;가나\x07b\x1b]2;c\x1b\\\x1b]0;d\x07".as_bytes();
    for shell in [Shell::Local, Shell::Remote] {
        let whole = feed(shell, data);
        for cut in 0..=data.len() {
            let mut scanner = Scanner::new(shell);
            let mut parts = scanner.feed(&data[..cut]);
            parts.extend(scanner.feed(&data[cut..]));
            assert_eq!(parts, whole);
        }
    }
    assert_eq!(feed(Shell::Local, data), vec![title("가나"), title("c"), title("d")]);
}

#[test]
fn plain_output_tells_nothing() {
    assert_eq!(feed(Shell::Local, b"]0;x\x07 \\ plain"), vec![]);
    assert_eq!(feed(Shell::Local, b"\x1b[0m]0;x\x07"), vec![]);
    assert_eq!(feed(Shell::Local, b"\x1b\x1b]0;x\x07"), vec![]);
}

#[test]
fn long_payloads_are_given_up() {
    let mut fits = b"\x1b]0;".to_vec();
    fits.extend(vec![b'x'; MAX_PAYLOAD - 2]);
    fits.push(7);
    assert_eq!(feed(Shell::Local, &fits), vec![title(&"x".repeat(510))]);

    let mut long = b"\x1b]0;".to_vec();
    long.extend(vec![b'x'; MAX_PAYLOAD - 1]);
    long.push(7);
    assert_eq!(feed(Shell::Local, &long), vec![]);
    long.extend(b"\x1b]0;y\x07");
    assert_eq!(feed(Shell::Local, &long), vec![title("y")]);
}

#[test]
fn payloads_have_to_be_utf8() {
    assert_eq!(feed(Shell::Local, b"\x1b]0;\xff\x07"), vec![]);
    assert_eq!(feed(Shell::Local, "\x1b]0;é\x07".as_bytes()), vec![title("é")]);
}

#[test]
fn remote_shells_report_their_directory() {
    assert_eq!(feed(Shell::Remote, b"\x1b]7;file:///home/u\x07"), vec![cwd("/home/u")]);
    assert_eq!(feed(Shell::Remote, b"\x1b]7;file://host/srv\x07"), vec![cwd("/srv")]);
    assert_eq!(feed(Shell::Remote, b"\x1b]7;/tmp\x07"), vec![cwd("/tmp")]);
    assert_eq!(feed(Shell::Remote, b"\x1b]7;host\x07"), vec![cwd("host")]);
    assert_eq!(feed(Shell::Remote, b"\x1b]7;\x07"), vec![]);
    assert_eq!(feed(Shell::Remote, b"\x1b]7;file://\x07"), vec![]);
    assert_eq!(feed(Shell::Local, b"\x1b]7;file:///home/u\x07"), vec![]);
}

#[test]
fn payload_text_is_read_alone() {
    assert_eq!(read_payload(Shell::Remote, &chars_of("7;file://h/p")), Some(cwd("/p")));
    assert_eq!(read_payload(Shell::Local, &chars_of("2;t")), Some(title("t")));
    assert_eq!(read_payload(Shell::Local, &chars_of("")), None);
    assert_eq!(read_directory(&chars_of("file:/x")), Some("/x".to_string()));
}

#[test]
fn a_chunk_follows_what_it_told() {
    let mut scanner = Scanner::new(Shell::Remote);
    let data = b"\x1b]0;t\x07\x1b]7;/d\x07".to_vec();
    let events = scanner.output(4, data.clone());
    let expected = vec![
        Event {
            name: "pty-title".to_string(),
            fields: vec![
                ("id".to_string(), Field::Number(4)),
                ("title".to_string(), Field::Text("t".to_string())),
            ],
        },
        Event {
            name: "pty-cwd".to_string(),
            fields: vec![
                ("id".to_string(), Field::Number(4)),
                ("cwd".to_string(), Field::Text("/d".to_string())),
            ],
        },
        Event {
            name: "pty-output".to_string(),
            fields: vec![("id".to_string(), Field::Number(4)), ("data".to_string(), Field::Bytes(data))],
        },
    ];
    assert_eq!(events, expected);
}
