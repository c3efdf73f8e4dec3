//! Operating system commands in the output of a shell.
//!
//! A shell sets the title of its tab, and reports its directory, with a
//! sequence `ESC ] payload` that ends in BEL or, in a local shell, also in
//! `ESC \`. The scanner watches the output byte by byte and keeps its place
//! between two chunks.

use vstd::prelude::*;

use vstd::string::StringSliceAdditionalSpecFns;
use vstd::utf8::{decode_utf8, encode_utf8, valid_utf8};

use crate::events::{cwd_message, messages, output_message, pty_cwd, pty_output, pty_title, title_message};
use crate::events::{Event, Message};
use crate::text::{begins_with, begins_with_at, chars_of, text_of};

verus! {

pub const ESC: u8 = 0x1b;

pub const BEL: u8 = 0x07;

pub const OPEN: u8 = 0x5d;

pub const BACKSLASH: u8 = 0x5c;

/// A payload longer than this is given up.
pub const MAX_PAYLOAD: usize = 512;

/// The kind of shell that is listened to.
#[derive(Debug, Clone, Copy, PartialEq, Eq, Structural)]
pub enum Shell {
    /// Sets titles; a sequence ends in BEL or in `ESC \`.
    Local,
    /// Sets titles and reports its directory; a sequence ends in BEL.
    Remote,
}

/// What a sequence told.
#[derive(Debug, PartialEq, Eq)]
pub enum Report {
    Title(String),
    Cwd(String),
}

/// What a [`Report`] says.
pub enum Told {
    Title(Seq<char>),
    Cwd(Seq<char>),
}

impl View for Report {
    type V = Told;

    open spec fn view(&self) -> Told {
        match *self {
            Report::Title(t) => Told::Title(t@),
            Report::Cwd(c) => Told::Cwd(c@),
        }
    }
}

/// What a list of reports says, in order.
pub open spec fn told(reports: Seq<Report>) -> Seq<Told> {
    reports.map_values(|r: Report| r@)
}

/// Where the scanner stands.
#[verifier::ext_equal]
pub enum Place {
    /// In plain output.
    Plain,
    /// Behind an `ESC`.
    Escaped,
    /// In a sequence whose payload so far is this.
    Payload(Seq<u8>),
}

/// Whether `byte` ends the sequence whose payload so far is `payload`.
pub open spec fn ends(shell: Shell, payload: Seq<u8>, byte: u8) -> bool {
    ||| byte == BEL
    ||| shell == Shell::Local && byte == BACKSLASH && payload.len() > 0 && payload.last() == ESC
}

/// The payload of a sequence that `byte` ends: the `ESC` of `ESC \` is no part
/// of it.
pub open spec fn whole_payload(payload: Seq<u8>, byte: u8) -> Seq<u8> {
    if byte == BEL {
        payload
    } else {
        payload.drop_last()
    }
}

/// The directory in what follows `7;`: `file://host/path` and `/path` give
/// `/path`; a text without a `/` stands for itself; an empty one tells nothing.
pub open spec fn directory(rest: Seq<char>) -> Option<Seq<char>> {
    let body = if begins_with(rest, "file://"@) {
        rest.skip(7)
    } else {
        rest
    };
    let path = from_slash(body);
    if path.len() > 0 {
        Some(path)
    } else {
        None
    }
}

/// How many characters stand before the first `/` of `s`, or all of them where
/// there is none.
pub open spec fn before_slash(s: Seq<char>) -> int
    decreases s.len(),
{
    if s.len() == 0 || s[0] == '/' {
        0
    } else {
        1 + before_slash(s.skip(1))
    }
}

/// `s` from its first `/` on, or all of it where there is none.
pub open spec fn from_slash(s: Seq<char>) -> Seq<char> {
    if before_slash(s) < s.len() {
        s.skip(before_slash(s))
    } else {
        s
    }
}

proof fn lemma_before_slash(s: Seq<char>, at: int)
    requires
        0 <= at <= s.len(),
        forall|k: int| 0 <= k < at ==> s[k] != '/',
        at < s.len() ==> s[at] == '/',
    ensures
        before_slash(s) == at,
    decreases s.len(),
{
    if at > 0 {
        lemma_before_slash(s.skip(1), at - 1);
    }
}

/// What a payload in UTF-8 tells.
pub open spec fn payload_tells(shell: Shell, text: Seq<char>) -> Option<Told> {
    if begins_with(text, "0;"@) || begins_with(text, "2;"@) {
        Some(Told::Title(text.skip(2)))
    } else if shell == Shell::Remote && begins_with(text, "7;"@) {
        match directory(text.skip(2)) {
            Some(path) => Some(Told::Cwd(path)),
            None => None,
        }
    } else {
        None
    }
}

/// What a payload tells. Bytes that are no UTF-8 tell nothing.
pub open spec fn bytes_tell(shell: Shell, payload: Seq<u8>) -> Option<Told> {
    if valid_utf8(payload) {
        payload_tells(shell, decode_utf8(payload))
    } else {
        None
    }
}

/// Where the scanner stands after one more byte.
pub open spec fn next_place(shell: Shell, place: Place, byte: u8) -> Place {
    match place {
        Place::Plain => if byte == ESC {
            Place::Escaped
        } else {
            Place::Plain
        },
        Place::Escaped => if byte == OPEN {
            Place::Payload(Seq::empty())
        } else {
            Place::Plain
        },
        Place::Payload(payload) => if ends(shell, payload, byte) || payload.len() >= MAX_PAYLOAD {
            Place::Plain
        } else {
            Place::Payload(payload.push(byte))
        },
    }
}

/// What one more byte tells.
pub open spec fn byte_tells(shell: Shell, place: Place, byte: u8) -> Option<Told> {
    match place {
        Place::Payload(payload) if ends(shell, payload, byte) => bytes_tell(
            shell,
            whole_payload(payload, byte),
        ),
        _ => None,
    }
}

/// Where the scanner stands after `data`.
pub open spec fn place_after(shell: Shell, place: Place, data: Seq<u8>) -> Place
    decreases data.len(),
{
    if data.len() == 0 {
        place
    } else {
        next_place(shell, place_after(shell, place, data.drop_last()), data.last())
    }
}

/// What `data` tells, in order.
pub open spec fn data_tells(shell: Shell, place: Place, data: Seq<u8>) -> Seq<Told>
    decreases data.len(),
{
    if data.len() == 0 {
        Seq::empty()
    } else {
        let before = data_tells(shell, place, data.drop_last());
        match byte_tells(shell, place_after(shell, place, data.drop_last()), data.last()) {
            Some(t) => before.push(t),
            None => before,
        }
    }
}

/// The directory that was told last, where one was told at all.
pub open spec fn last_cwd(before: Option<Seq<char>>, told: Seq<Told>) -> Option<Seq<char>>
    decreases told.len(),
{
    if told.len() == 0 {
        before
    } else {
        match told.last() {
            Told::Cwd(cwd) => Some(cwd),
            Told::Title(_) => last_cwd(before, told.drop_last()),
        }
    }
}

/// How the window hears of what a sequence told.
pub open spec fn told_message(id: u32, t: Told) -> Message {
    match t {
        Told::Title(title) => title_message(id, title),
        Told::Cwd(cwd) => cwd_message(id, cwd),
    }
}

/// What the window hears of one chunk of output.
pub open spec fn output_messages(shell: Shell, place: Place, id: u32, data: Seq<u8>) -> Seq<Message> {
    data_tells(shell, place, data).map_values(|t: Told| told_message(id, t)).push(
        output_message(id, data),
    )
}

#[derive(Debug, Clone, Copy, PartialEq, Eq, Structural)]
enum Mode {
    Plain,
    Escaped,
    Payload,
}

/// Watches the output of one shell.
#[derive(Debug)]
pub struct Scanner {
    shell: Shell,
    mode: Mode,
    payload: Vec<u8>,
    cwd: Option<String>,
}

impl View for Scanner {
    type V = Place;

    closed spec fn view(&self) -> Place {
        match self.mode {
            Mode::Plain => Place::Plain,
            Mode::Escaped => Place::Escaped,
            Mode::Payload => Place::Payload(self.payload@),
        }
    }
}

impl Scanner {
    /// The kind of shell that this scanner listens to.
    pub closed spec fn shell(&self) -> Shell {
        self.shell
    }

    /// The directory that was told last.
    pub closed spec fn cwd(&self) -> Option<Seq<char>> {
        match self.cwd {
            Some(cwd) => Some(cwd@),
            None => None,
        }
    }

    /// A scanner in plain output.
    pub fn new(shell: Shell) -> (s: Scanner)
        ensures
            s@ == Place::Plain,
            s.shell() == shell,
            s.cwd() is None,
    {
        Scanner { shell, mode: Mode::Plain, payload: Vec::new(), cwd: None }
    }

    /// Gives the directory that was told last.
    pub fn last_told_cwd(&self) -> (r: Option<&str>)
        ensures
            match r {
                Some(cwd) => self.cwd() == Some(cwd@),
                None => self.cwd() is None,
            },
    {
        match &self.cwd {
            Some(cwd) => Some(cwd.as_str()),
            None => None,
        }
    }

    /// Takes one chunk of output of tab `id` and gives the events to send: what
    /// the chunk told, then the chunk itself.
    pub fn output(&mut self, id: u32, data: Vec<u8>) -> (r: Vec<Event>)
        ensures
            final(self).shell() == old(self).shell(),
            final(self)@ == place_after(old(self).shell(), old(self)@, data@),
            final(self).cwd() == last_cwd(
                old(self).cwd(),
                data_tells(old(self).shell(), old(self)@, data@),
            ),
            messages(r@) == output_messages(old(self).shell(), old(self)@, id, data@),
    {
        let reports = self.feed(data.as_slice());
        let mut r: Vec<Event> = Vec::new();
        let mut i: usize = 0;
        while i < reports.len()
            invariant
                i <= reports@.len(),
                messages(r@) == told(reports@.take(i as int)).map_values(
                    |t: Told| told_message(id, t),
                ),
            decreases reports@.len() - i,
        {
            let e = match &reports[i] {
                Report::Title(title) => pty_title(id, title.as_str()),
                Report::Cwd(cwd) => pty_cwd(id, cwd.as_str()),
            };
            let ghost sent = messages(r@);
            r.push(e);
            proof {
                let so_far = told(reports@.take(i as int));
                let t = reports@[i as int]@;
                assert(told(reports@.take(i + 1)) == so_far.push(t));
                assert(messages(r@) == sent.push(told_message(id, t)));
                assert(so_far.push(t).map_values(|t: Told| told_message(id, t))
                    == so_far.map_values(|t: Told| told_message(id, t)).push(told_message(id, t)));
            }
            i += 1;
        }
        assert(reports@.take(reports@.len() as int) == reports@);
        r.push(pty_output(id, data));
        r
    }

    /// Takes one byte of output.
    fn byte(&mut self, byte: u8) -> (r: Option<Report>)
        ensures
            final(self).shell() == old(self).shell(),
            final(self)@ == next_place(old(self).shell(), old(self)@, byte),
            final(self).cwd() == old(self).cwd(),
            match r {
                Some(report) => byte_tells(old(self).shell(), old(self)@, byte) == Some(report@),
                None => byte_tells(old(self).shell(), old(self)@, byte) is None,
            },
    {
        match self.mode {
            Mode::Plain => {
                if byte == ESC {
                    self.mode = Mode::Escaped;
                }
                None
            },
            Mode::Escaped => {
                if byte == OPEN {
                    self.mode = Mode::Payload;
                    self.payload = Vec::new();
                } else {
                    self.mode = Mode::Plain;
                }
                None
            },
            Mode::Payload => {
                let n: usize = self.payload.len();
                if byte == BEL {
                    self.mode = Mode::Plain;
                    report_of(self.shell, self.payload.as_slice())
                } else if self.shell == Shell::Local && byte == BACKSLASH && n > 0
                    && self.payload[n - 1] == ESC {
                    self.mode = Mode::Plain;
                    self.payload.pop();
                    report_of(self.shell, self.payload.as_slice())
                } else if n < MAX_PAYLOAD {
                    self.payload.push(byte);
                    None
                } else {
                    self.mode = Mode::Plain;
                    None
                }
            },
        }
    }

    /// Takes one chunk of output and gives what it told, in order.
    pub fn feed(&mut self, data: &[u8]) -> (r: Vec<Report>)
        ensures
            final(self).shell() == old(self).shell(),
            final(self)@ == place_after(old(self).shell(), old(self)@, data@),
            told(r@) == data_tells(old(self).shell(), old(self)@, data@),
            final(self).cwd() == last_cwd(old(self).cwd(), told(r@)),
    {
        let mut r: Vec<Report> = Vec::new();
        let mut i: usize = 0;
        let ghost start = *self;
        while i < data.len()
            invariant
                i <= data@.len(),
                self.shell() == start.shell(),
                self@ == place_after(start.shell(), start@, data@.take(i as int)),
                told(r@) == data_tells(start.shell(), start@, data@.take(i as int)),
                self.cwd() == last_cwd(start.cwd(), told(r@)),
            decreases data@.len() - i,
        {
            assert(data@.take(i + 1).drop_last() == data@.take(i as int));
            match self.byte(data[i]) {
                Some(report) => {
                    if let Report::Cwd(cwd) = &report {
                        self.cwd = Some(cwd.clone());
                    }
                    let ghost before = told(r@);
                    let ghost t = report@;
                    r.push(report);
                    proof {
                        assert(told(r@) == before.push(t));
                        assert(before.push(t).drop_last() == before);
                    }
                },
                None => {},
            }
            i += 1;
        }
        assert(data@.take(data@.len() as int) == data@);
        r
    }
}

/// What a whole payload tells.
fn report_of(shell: Shell, payload: &[u8]) -> (r: Option<Report>)
    ensures
        match r {
            Some(report) => bytes_tell(shell, payload@) == Some(report@),
            None => bytes_tell(shell, payload@) is None,
        },
{
    match core::str::from_utf8(payload) {
        Ok(s) => {
            proof {
                vstd::utf8::encode_utf8_decode_utf8(s@);
                assert(s@ == decode_utf8(payload@));
            }
            let text = chars_of(s);
            let r = read_payload(shell, text.as_slice());
            r
        },
        Err(_) => None,
    }
}

/// Reads a payload that is already text.
pub fn read_payload(shell: Shell, text: &[char]) -> (r: Option<Report>)
    ensures
        match r {
            Some(report) => payload_tells(shell, text@) == Some(report@),
            None => payload_tells(shell, text@) is None,
        },
{
    proof {
        reveal_strlit("0;");
        reveal_strlit("2;");
        reveal_strlit("7;");
    }
    assert(text@.skip(0) == text@);
    let icon_and_title = chars_of("0;");
    let title = chars_of("2;");
    let cwd = chars_of("7;");
    if begins_with_at(text, 0, icon_and_title.as_slice()) || begins_with_at(
        text,
        0,
        title.as_slice(),
    ) {
        let rest = vstd::slice::slice_subrange(text, 2, text.len());
        assert(rest@ == text@.skip(2));
        return Some(Report::Title(text_of(rest)));
    }
    if shell == Shell::Remote && begins_with_at(text, 0, cwd.as_slice()) {
        let rest = vstd::slice::slice_subrange(text, 2, text.len());
        assert(rest@ == text@.skip(2));
        return match read_directory(rest) {
            Some(path) => Some(Report::Cwd(path)),
            None => None,
        };
    }
    None
}

/// Finds the directory in what follows `7;`.
pub fn read_directory(rest: &[char]) -> (r: Option<String>)
    ensures
        match r {
            Some(path) => directory(rest@) == Some(path@),
            None => directory(rest@) is None,
        },
{
    proof {
        reveal_strlit("file://");
    }
    assert(rest@.skip(0) == rest@);
    let scheme = chars_of("file://");
    let from: usize = if begins_with_at(rest, 0, scheme.as_slice()) {
        7
    } else {
        0
    };
    let ghost body = rest@.skip(from as int);
    let mut at: usize = from;
    while at < rest.len() && rest[at] != '/'
        invariant
            from <= at <= rest@.len(),
            forall|k: int| from <= k < at ==> rest@[k] != '/',
        decreases rest@.len() - at,
    {
        at += 1;
    }
    proof {
        lemma_before_slash(body, at - from);
    }
    if at == rest.len() {
        at = from;
    }
    let path = vstd::slice::slice_subrange(rest, at, rest.len());
    assert(path@ == from_slash(body));
    if path.len() > 0 {
        Some(text_of(path))
    } else {
        None
    }
}

/// However the output is cut into chunks, the scanner ends up in the same place
/// and has told the same.
pub proof fn law_chunks(shell: Shell, place: Place, a: Seq<u8>, b: Seq<u8>)
    ensures
        place_after(shell, place, a + b) == place_after(shell, place_after(shell, place, a), b),
        data_tells(shell, place, a + b) == data_tells(shell, place, a) + data_tells(
            shell,
            place_after(shell, place, a),
            b,
        ),
    decreases b.len(),
{
    if b.len() == 0 {
        assert(a + b == a);
    } else {
        law_chunks(shell, place, a, b.drop_last());
        assert((a + b).drop_last() == a + b.drop_last());
        assert((a + b).last() == b.last());
    }
}

/// Output without an escape tells nothing and leaves the scanner in plain
/// output.
pub proof fn law_plain_output(shell: Shell, data: Seq<u8>)
    requires
        forall|i: int| 0 <= i < data.len() ==> data[i] != ESC,
    ensures
        place_after(shell, Place::Plain, data) == Place::Plain,
        data_tells(shell, Place::Plain, data) == Seq::<Told>::empty(),
    decreases data.len(),
{
    if data.len() > 0 {
        law_plain_output(shell, data.drop_last());
    }
}

/// Whether a payload is free of what would end it.
pub open spec fn unbroken(shell: Shell, payload: Seq<u8>) -> bool {
    forall|i: int| 0 <= i < payload.len() ==> !ends(shell, payload.take(i), #[trigger] payload[i])
}

proof fn lemma_payload(shell: Shell, payload: Seq<u8>)
    requires
        payload.len() <= MAX_PAYLOAD,
        unbroken(shell, payload),
    ensures
        place_after(shell, Place::Plain, seq![ESC, OPEN] + payload) == Place::Payload(payload),
        data_tells(shell, Place::Plain, seq![ESC, OPEN] + payload) == Seq::<Told>::empty(),
    decreases payload.len(),
{
    let data = seq![ESC, OPEN] + payload;
    if payload.len() == 0 {
        assert(data.drop_last() == seq![ESC]);
        assert(seq![ESC].drop_last() == Seq::<u8>::empty());
        reveal_with_fuel(place_after, 3);
        reveal_with_fuel(data_tells, 3);
        assert(payload == Seq::<u8>::empty());
    } else {
        let head = payload.drop_last();
        assert(unbroken(shell, head)) by {
            assert forall|i: int| 0 <= i < head.len() implies !ends(
                shell,
                head.take(i),
                #[trigger] head[i],
            ) by {
                assert(head.take(i) == payload.take(i));
                assert(head[i] == payload[i]);
            }
        }
        lemma_payload(shell, head);
        assert(data.drop_last() == seq![ESC, OPEN] + head);
        assert(payload.take(payload.len() - 1) == head);
        assert(!ends(shell, head, payload[payload.len() - 1]));
        assert(head.push(payload.last()) == payload);
    }
}

/// A sequence of up to 512 bytes that BEL ends tells what its payload tells, and
/// plain output follows.
pub proof fn law_sequence(shell: Shell, payload: Seq<u8>)
    requires
        payload.len() <= 512,
        unbroken(shell, payload),
    ensures
        place_after(shell, Place::Plain, seq![ESC, OPEN] + payload + seq![BEL]) == Place::Plain,
        data_tells(shell, Place::Plain, seq![ESC, OPEN] + payload + seq![BEL]) == (match bytes_tell(
            shell,
            payload,
        ) {
            Some(t) => seq![t],
            None => Seq::empty(),
        }),
{
    let data = seq![ESC, OPEN] + payload + seq![BEL];
    lemma_payload(shell, payload);
    assert(data.drop_last() == seq![ESC, OPEN] + payload);
    match bytes_tell(shell, payload) {
        Some(t) => {
            assert(Seq::<Told>::empty().push(t) == seq![t]);
        },
        None => {},
    }
}

/// In a local shell `ESC \` ends a sequence as BEL does.
pub proof fn law_string_terminator(payload: Seq<u8>)
    requires
        payload.len() < MAX_PAYLOAD,
        unbroken(Shell::Local, payload),
    ensures
        place_after(
            Shell::Local,
            Place::Plain,
            seq![ESC, OPEN] + payload + seq![ESC, BACKSLASH],
        ) == Place::Plain,
        data_tells(Shell::Local, Place::Plain, seq![ESC, OPEN] + payload + seq![ESC, BACKSLASH])
            == data_tells(Shell::Local, Place::Plain, seq![ESC, OPEN] + payload + seq![BEL]),
{
    law_sequence(Shell::Local, payload);
    let longer = payload.push(ESC);
    assert(unbroken(Shell::Local, longer)) by {
        assert forall|i: int| 0 <= i < longer.len() implies !ends(
            Shell::Local,
            longer.take(i),
            #[trigger] longer[i],
        ) by {
            if i < payload.len() {
                assert(longer.take(i) == payload.take(i));
                assert(longer[i] == payload[i]);
            }
        }
    }
    lemma_payload(Shell::Local, longer);
    let data = seq![ESC, OPEN] + payload + seq![ESC, BACKSLASH];
    assert(data.drop_last() == seq![ESC, OPEN] + longer);
    assert(longer.drop_last() == payload);
    match bytes_tell(Shell::Local, payload) {
        Some(t) => {
            assert(Seq::<Told>::empty().push(t) == seq![t]);
        },
        None => {},
    }
}

/// A payload that grows past 512 bytes is given up: it tells nothing, and plain
/// output follows.
pub proof fn law_overlong_payload(shell: Shell, payload: Seq<u8>)
    requires
        payload.len() == 513,
        unbroken(shell, payload),
    ensures
        place_after(shell, Place::Plain, seq![ESC, OPEN] + payload) == Place::Plain,
        data_tells(shell, Place::Plain, seq![ESC, OPEN] + payload) == Seq::<Told>::empty(),
{
    let head = payload.drop_last();
    assert(unbroken(shell, head)) by {
        assert forall|i: int| 0 <= i < head.len() implies !ends(
            shell,
            head.take(i),
            #[trigger] head[i],
        ) by {
            assert(head.take(i) == payload.take(i));
            assert(head[i] == payload[i]);
        }
    }
    lemma_payload(shell, head);
    assert((seq![ESC, OPEN] + payload).drop_last() == seq![ESC, OPEN] + head);
    assert(payload.take(payload.len() - 1) == head);
    assert(!ends(shell, head, payload[payload.len() - 1]));
}

/// The payload that is being kept never grows past the limit.
pub proof fn law_payload_bounded(shell: Shell, data: Seq<u8>)
    ensures
        place_after(shell, Place::Plain, data) matches Place::Payload(payload) ==> payload.len()
            <= MAX_PAYLOAD,
    decreases data.len(),
{
    if data.len() > 0 {
        law_payload_bounded(shell, data.drop_last());
    }
}

/// A title that a shell sets, alone or with the icon name, is the title that is
/// told, as long as it holds nothing that ends the sequence and is not too long.
pub proof fn law_title(shell: Shell, command: Seq<char>, title: Seq<char>)
    requires
        command == "0;"@ || command == "2;"@,
        unbroken(shell, encode_utf8(command + title)),
        encode_utf8(command + title).len() <= MAX_PAYLOAD,
    ensures
        data_tells(
            shell,
            Place::Plain,
            seq![ESC, OPEN] + encode_utf8(command + title) + seq![BEL],
        ) == seq![Told::Title(title)],
{
    reveal_strlit("0;");
    reveal_strlit("2;");
    let text = command + title;
    law_sequence(shell, encode_utf8(text));
    vstd::utf8::encode_utf8_valid_utf8(text);
    vstd::utf8::encode_utf8_decode_utf8(text);
    assert(text.take(2) == command);
    assert(text.skip(2) == title);
}

/// A directory that a remote shell reports as `file://host/path` is told as
/// `/path`, whatever the host.
pub proof fn law_directory(host: Seq<char>, path: Seq<char>)
    requires
        forall|i: int| 0 <= i < host.len() ==> host[i] != '/',
        path.len() > 0,
        path[0] == '/',
        unbroken(Shell::Remote, encode_utf8("7;file://"@ + host + path)),
        encode_utf8("7;file://"@ + host + path).len() <= MAX_PAYLOAD,
    ensures
        data_tells(
            Shell::Remote,
            Place::Plain,
            seq![ESC, OPEN] + encode_utf8("7;file://"@ + host + path) + seq![BEL],
        ) == seq![Told::Cwd(path)],
{
    reveal_strlit("0;");
    reveal_strlit("2;");
    reveal_strlit("7;");
    reveal_strlit("file://");
    reveal_strlit("7;file://");
    let text = "7;file://"@ + host + path;
    law_sequence(Shell::Remote, encode_utf8(text));
    vstd::utf8::encode_utf8_valid_utf8(text);
    vstd::utf8::encode_utf8_decode_utf8(text);
    assert(text.take(2)[0] == '7');
    assert(text.take(2) == "7;"@);
    assert(text.skip(2).take(7) == "file://"@);
    let body = text.skip(2).skip(7);
    assert(body == host + path);
    lemma_before_slash(body, host.len() as int);
    assert(body.skip(host.len() as int) == path);
}

/// An `ESC` that no `]` follows opens nothing, and plain output follows,
/// whatever the other byte is.
pub proof fn law_other_escapes_open_nothing(shell: Shell, byte: u8)
    requires
        byte != OPEN,
    ensures
        place_after(shell, Place::Plain, seq![ESC, byte]) == Place::Plain,
        data_tells(shell, Place::Plain, seq![ESC, byte]) == Seq::<Told>::empty(),
{
    assert(seq![ESC, byte].drop_last() == seq![ESC]);
    assert(seq![ESC].drop_last() == Seq::<u8>::empty());
    reveal_with_fuel(place_after, 3);
    reveal_with_fuel(data_tells, 3);
}

/// Whether output holds no `ESC ]`.
pub open spec fn opens_nothing(data: Seq<u8>) -> bool {
    forall|i: int| 0 <= i < data.len() - 1 && #[trigger] data[i] == ESC ==> data[i + 1] != OPEN
}

/// Output without `ESC ]` tells nothing, however many other escapes it holds. It
/// leaves the scanner in plain output, or at most behind an `ESC` that ends it.
pub proof fn law_coloured_output(shell: Shell, data: Seq<u8>)
    requires
        opens_nothing(data),
    ensures
        data_tells(shell, Place::Plain, data) == Seq::<Told>::empty(),
        place_after(shell, Place::Plain, data) == Place::Plain || place_after(
            shell,
            Place::Plain,
            data,
        ) == Place::Escaped,
        data.len() == 0 || data.last() != ESC ==> place_after(shell, Place::Plain, data)
            == Place::Plain,
        place_after(shell, Place::Plain, data) == Place::Escaped ==> data.len() > 0 && data.last()
            == ESC,
    decreases data.len(),
{
    if data.len() > 0 {
        let before = data.drop_last();
        assert(opens_nothing(before)) by {
            assert forall|i: int| 0 <= i < before.len() - 1 && #[trigger] before[i] == ESC implies before[i
                + 1] != OPEN by {
                assert(data[i] == ESC);
            }
        }
        law_coloured_output(shell, before);
        if before.len() > 0 && before.last() == ESC {
            assert(data[data.len() - 2] == ESC);
        }
    }
}

/// A sequence tells the same behind any output that opens none itself and does
/// not end in an `ESC`, coloured or plain, as it tells alone.
pub proof fn law_sequence_behind_output(shell: Shell, before: Seq<u8>, sequence: Seq<u8>)
    requires
        opens_nothing(before),
        before.len() == 0 || before.last() != ESC,
    ensures
        data_tells(shell, Place::Plain, before + sequence) == data_tells(
            shell,
            Place::Plain,
            sequence,
        ),
        place_after(shell, Place::Plain, before + sequence) == place_after(
            shell,
            Place::Plain,
            sequence,
        ),
{
    law_coloured_output(shell, before);
    law_chunks(shell, Place::Plain, before, sequence);
    let told = data_tells(shell, Place::Plain, sequence);
    assert(Seq::<Told>::empty() + told == told);
}

/// Once a sequence has ended, however it did, the next one is told as if it came
/// first.
pub proof fn law_sequences_follow_each_other(shell: Shell, payload: Seq<u8>, next: Seq<u8>)
    requires
        payload.len() <= MAX_PAYLOAD,
        unbroken(shell, payload),
    ensures
        data_tells(shell, Place::Plain, seq![ESC, OPEN] + payload + seq![BEL] + next) == data_tells(
            shell,
            Place::Plain,
            seq![ESC, OPEN] + payload + seq![BEL],
        ) + data_tells(shell, Place::Plain, next),
{
    law_sequence(shell, payload);
    law_chunks(shell, Place::Plain, seq![ESC, OPEN] + payload + seq![BEL], next);
}

/// A payload of another command than those for titles and, in a remote shell,
/// for the directory tells nothing.
pub proof fn law_other_commands_tell_nothing(shell: Shell, text: Seq<char>)
    requires
        !begins_with(text, "0;"@),
        !begins_with(text, "2;"@),
        shell == Shell::Local || !begins_with(text, "7;"@),
    ensures
        payload_tells(shell, text) is None,
        bytes_tell(shell, encode_utf8(text)) is None,
{
    vstd::utf8::encode_utf8_valid_utf8(text);
    vstd::utf8::encode_utf8_decode_utf8(text);
}

/// A payload that is no UTF-8 tells nothing, whatever the command.
pub proof fn law_payload_has_to_be_text(shell: Shell, payload: Seq<u8>)
    requires
        !valid_utf8(payload),
    ensures
        bytes_tell(shell, payload) is None,
{
}

/// A directory that a remote shell reports without a scheme is told as it is,
/// from its first `/` on; one that has none is told whole, and an empty one not
/// at all.
pub proof fn law_bare_directory(host: Seq<char>, path: Seq<char>)
    requires
        forall|i: int| 0 <= i < host.len() ==> host[i] != '/',
        path.len() == 0 || path[0] == '/',
        !begins_with(host + path, "file://"@),
    ensures
        payload_tells(Shell::Remote, "7;"@ + host + path) == (if path.len() > 0 {
            Some(Told::Cwd(path))
        } else if host.len() > 0 {
            Some(Told::Cwd(host))
        } else {
            None
        }),
{
    reveal_strlit("0;");
    reveal_strlit("2;");
    reveal_strlit("7;");
    let text = "7;"@ + host + path;
    let body = host + path;
    assert(text.take(2)[0] == '7');
    assert(text.take(2) == "7;"@);
    assert(text.skip(2) == body);
    lemma_before_slash(body, host.len() as int);
    if path.len() > 0 {
        assert(body.skip(host.len() as int) == path);
    } else {
        assert(body == host);
    }
}

/// Every chunk of output is passed on as it is, behind one message for each
/// thing that it told, in order.
pub proof fn law_output_is_passed_on(shell: Shell, place: Place, id: u32, data: Seq<u8>)
    ensures
        ({
            let told = data_tells(shell, place, data);
            let sent = output_messages(shell, place, id, data);
            &&& sent.len() == told.len() + 1
            &&& sent.last() == output_message(id, data)
            &&& forall|i: int|
                0 <= i < told.len() ==> #[trigger] sent[i] == (match told[i] {
                    Told::Title(title) => title_message(id, title),
                    Told::Cwd(cwd) => cwd_message(id, cwd),
                })
        }),
{
}

/// The directory that is kept is the last one that was told: titles behind it
/// change nothing.
pub proof fn law_last_directory_is_kept(
    before: Option<Seq<char>>,
    earlier: Seq<Told>,
    cwd: Seq<char>,
    titles: Seq<Told>,
)
    requires
        forall|i: int| 0 <= i < titles.len() ==> (#[trigger] titles[i]) is Title,
    ensures
        last_cwd(before, earlier.push(Told::Cwd(cwd)) + titles) == Some(cwd),
        last_cwd(before, titles) == before,
    decreases titles.len(),
{
    let told = earlier.push(Told::Cwd(cwd));
    if titles.len() == 0 {
        assert(told + titles == told);
    } else {
        law_last_directory_is_kept(before, earlier, cwd, titles.drop_last());
        assert((told + titles).drop_last() == told + titles.drop_last());
    }
}

/// A payload may hold anything but what ends a sequence: BEL, and in a local
/// shell a backslash right behind an `ESC`.
pub proof fn law_payload_may_hold_anything(shell: Shell, payload: Seq<u8>)
    ensures
        unbroken(shell, payload) <==> (forall|i: int|
            0 <= i < payload.len() ==> #[trigger] payload[i] != 0x07 && !(shell == Shell::Local
                && payload[i] == 0x5c && i > 0 && payload[i - 1] == 0x1b)),
{
    if unbroken(shell, payload) {
        assert forall|i: int| 0 <= i < payload.len() implies #[trigger] payload[i] != 0x07 && !(shell
            == Shell::Local && payload[i] == 0x5c && i > 0 && payload[i - 1] == 0x1b) by {
            assert(!ends(shell, payload.take(i), payload[i]));
            if i > 0 {
                assert(payload.take(i).last() == payload[i - 1]);
            }
        }
    } else {
        let i = choose|i: int|
            0 <= i < payload.len() && ends(shell, payload.take(i), #[trigger] payload[i]);
        if i > 0 {
            assert(payload.take(i).last() == payload[i - 1]);
        }
        assert(payload[i] == payload[i]);
    }
}

} // verus!
