//! Moving a file to or from a server, and telling how far it got.

use vstd::prelude::*;

use crate::events::{Event, Field, FieldView, Message};
use crate::failures::{word_failure, Task};
use crate::paths::{transfer_name, transfer_name_of};

verus! {

/// A file is sent in pieces of at most this many bytes.
pub const CHUNK: usize = 32768;

/// Which way a file goes.
#[derive(Debug, Clone, Copy, PartialEq, Eq, Structural)]
pub enum Direction {
    Download,
    Upload,
}

impl Direction {
    /// How the window calls this direction.
    pub open spec fn label(&self) -> Seq<char> {
        match *self {
            Direction::Download => "download"@,
            Direction::Upload => "upload"@,
        }
    }

    /// Under which key the window finds the bytes moved so far.
    pub open spec fn count_key(&self) -> Seq<char> {
        match *self {
            Direction::Download => "downloaded"@,
            Direction::Upload => "uploaded"@,
        }
    }

    fn label_text(self) -> (r: String)
        ensures
            r@ == self.label(),
    {
        match self {
            Direction::Download => "download".to_owned(),
            Direction::Upload => "upload".to_owned(),
        }
    }

    fn count_key_text(self) -> (r: String)
        ensures
            r@ == self.count_key(),
    {
        match self {
            Direction::Download => "downloaded".to_owned(),
            Direction::Upload => "uploaded".to_owned(),
        }
    }
}

/// What every message about a transfer begins with.
pub open spec fn transfer_fields(direction: Direction, id: u32, name: Seq<char>) -> Seq<
    (Seq<char>, FieldView),
> {
    seq![
        ("type"@, FieldView::Text(direction.label())),
        ("tabId"@, FieldView::Number(id as u64)),
        ("name"@, FieldView::Text(name)),
    ]
}

/// So many of so many bytes have been moved.
pub open spec fn progress_message(
    direction: Direction,
    id: u32,
    name: Seq<char>,
    percent: u32,
    moved: u64,
    total: u64,
) -> Message {
    Message {
        name: "transfer-progress"@,
        fields: transfer_fields(direction, id, name) + seq![
            ("progress"@, FieldView::Number(percent as u64)),
            (direction.count_key(), FieldView::Number(moved)),
            ("total"@, FieldView::Number(total)),
        ],
    }
}

/// A transfer is done.
pub open spec fn complete_message(direction: Direction, id: u32, name: Seq<char>) -> Message {
    Message { name: "transfer-complete"@, fields: transfer_fields(direction, id, name) }
}

/// A transfer failed.
pub open spec fn failed_message(direction: Direction, id: u32, name: Seq<char>, error: Seq<char>) -> Message {
    Message {
        name: "transfer-error"@,
        fields: transfer_fields(direction, id, name).push(("error"@, FieldView::Text(error))),
    }
}

/// A file on its way.
#[derive(Debug)]
pub struct Transfer {
    direction: Direction,
    id: u32,
    name: String,
    total: u64,
    moved: u64,
    begun: bool,
}

impl Transfer {
    /// Which way the file goes.
    pub closed spec fn direction(&self) -> Direction {
        self.direction
    }

    /// The tab that asked for it.
    pub closed spec fn id(&self) -> u32 {
        self.id
    }

    /// The name under which it is shown.
    pub closed spec fn name(&self) -> Seq<char> {
        self.name@
    }

    /// The size of the file.
    pub closed spec fn total(&self) -> u64 {
        self.total
    }

    /// The bytes moved so far.
    pub closed spec fn moved(&self) -> u64 {
        self.moved
    }

    /// Whether the local file of a download was made.
    pub closed spec fn begun(&self) -> bool {
        self.begun
    }

    /// A transfer of the file at `path`, whose size is not yet known.
    pub fn new(direction: Direction, id: u32, path: &str) -> (r: Transfer)
        ensures
            r.direction() == direction,
            r.id() == id,
            r.name() == transfer_name_of(path@),
            r.total() == 0,
            r.moved() == 0,
            !r.begun(),
    {
        Transfer { direction, id, name: transfer_name(path), total: 0, moved: 0, begun: false }
    }

    /// Takes note that the local file was made: from now on it is partial.
    pub fn begin_local_file(&mut self)
        ensures
            final(self).begun(),
            final(self).direction() == old(self).direction(),
            final(self).id() == old(self).id(),
            final(self).name() == old(self).name(),
            final(self).total() == old(self).total(),
            final(self).moved() == old(self).moved(),
    {
        self.begun = true;
    }

    /// Takes note of the size of the file. An unknown size counts as none.
    pub fn set_total(&mut self, size: Option<u64>)
        ensures
            final(self).direction() == old(self).direction(),
            final(self).id() == old(self).id(),
            final(self).name() == old(self).name(),
            final(self).total() == (match size {
                Some(n) => n,
                None => 0,
            }),
            final(self).moved() == old(self).moved(),
            final(self).begun() == old(self).begun(),
    {
        self.total = match size {
            Some(n) => n,
            None => 0,
        };
    }

    /// Takes note that so many more bytes were moved.
    pub fn advance(&mut self, bytes: usize)
        requires
            old(self).moved() + bytes <= u64::MAX,
        ensures
            final(self).direction() == old(self).direction(),
            final(self).id() == old(self).id(),
            final(self).name() == old(self).name(),
            final(self).total() == old(self).total(),
            final(self).moved() == old(self).moved() + bytes,
            final(self).begun() == old(self).begun(),
    {
        self.moved = self.moved + bytes as u64;
    }

    /// The bytes moved so far, and the size of the file.
    pub fn counts(&self) -> (r: (u64, u64))
        ensures
            r == (self.moved(), self.total()),
    {
        (self.moved, self.total)
    }

    fn fields(&self) -> (r: Vec<(String, Field)>)
        ensures
            r@.map_values(|f: (String, Field)| (f.0@, f.1@)) == transfer_fields(
                self.direction(),
                self.id(),
                self.name(),
            ),
    {
        let r: Vec<(String, Field)> = vec![
            ("type".to_owned(), Field::Text(self.direction.label_text())),
            ("tabId".to_owned(), Field::Number(self.id as u64)),
            ("name".to_owned(), Field::Text(self.name.clone())),
        ];
        assert(r@.map_values(|f: (String, Field)| (f.0@, f.1@)) == transfer_fields(
            self.direction(),
            self.id(),
            self.name(),
        ));
        r
    }

    /// Tells how far the transfer got; `percent` is the share moved so far.
    pub fn progress(&self, percent: u32) -> (e: Event)
        ensures
            e@ == progress_message(
                self.direction(),
                self.id(),
                self.name(),
                percent,
                self.moved(),
                self.total(),
            ),
    {
        let mut fields = self.fields();
        fields.push(("progress".to_owned(), Field::Number(percent as u64)));
        fields.push((self.direction.count_key_text(), Field::Number(self.moved)));
        fields.push(("total".to_owned(), Field::Number(self.total)));
        let e = Event { name: "transfer-progress".to_owned(), fields };
        assert(e@.fields == progress_message(
            self.direction(),
            self.id(),
            self.name(),
            percent,
            self.moved(),
            self.total(),
        ).fields);
        e
    }

    /// Tells that the transfer is done.
    pub fn complete(&self) -> (e: Event)
        ensures
            e@ == complete_message(self.direction(), self.id(), self.name()),
    {
        Event { name: "transfer-complete".to_owned(), fields: self.fields() }
    }

    /// Whether a local file is removed once the transfer failed: a download
    /// leaves no partial file behind, and touches no file that it did not make.
    pub fn discards_local_file(&self) -> (r: bool)
        ensures
            r == (self.direction() == Direction::Download && self.begun()),
    {
        self.direction == Direction::Download && self.begun
    }

    /// Tells that the transfer failed.
    pub fn failed(&self, error: &str) -> (e: Event)
        ensures
            e@ == failed_message(self.direction(), self.id(), self.name(), error@),
    {
        let mut fields = self.fields();
        fields.push(("error".to_owned(), Field::Text(error.to_owned())));
        let e = Event { name: "transfer-error".to_owned(), fields };
        assert(e@.fields == failed_message(
            self.direction(),
            self.id(),
            self.name(),
            error@,
        ).fields);
        e
    }
}

/// What to do next to move a file.
#[derive(Debug, Clone, Copy, PartialEq, Eq, Structural)]
pub enum Stage {
    /// Get hold of the file session.
    Session,
    /// Find the size of the file; a file to upload is read for it.
    Size,
    /// Open the remote file; one to upload to is created.
    Open,
    /// Make the local file.
    Create,
    /// Get the next piece.
    Fetch,
    /// Put the piece of this many bytes in its place.
    Store(usize),
    /// Compute the share of the file that was moved.
    Report,
    /// Nothing: the file was moved.
    Done,
    /// Nothing: the transfer failed.
    Failed,
}

/// What came of a stage.
#[derive(Debug, PartialEq, Eq)]
pub enum Answer {
    /// It went well.
    Well,
    /// The size of the file, where it is known.
    Size(Option<u64>),
    /// The next piece has this many bytes; none at the end.
    Bytes(usize),
    /// The share of the file that was moved, in percent.
    Share(u32),
    /// It failed, for this reason.
    Failed(String),
}

/// How far a transfer got.
#[verifier::ext_equal]
pub struct Course {
    pub direction: Direction,
    pub id: u32,
    pub name: Seq<char>,
    pub total: u64,
    pub moved: u64,
    pub begun: bool,
    pub stage: Stage,
}

/// The first stage of a transfer. A file to upload is read before the file
/// session is taken, so that the session is not held up by the disk.
pub open spec fn first_stage(direction: Direction) -> Stage {
    match direction {
        Direction::Download => Stage::Session,
        Direction::Upload => Stage::Size,
    }
}

/// A transfer of the file at `path` that has not begun.
pub open spec fn course_of(direction: Direction, id: u32, path: Seq<char>) -> Course {
    Course {
        direction,
        id,
        name: transfer_name_of(path),
        total: 0,
        moved: 0,
        begun: false,
        stage: first_stage(direction),
    }
}

/// How far a transfer got after a stage. An answer that does not belong to the
/// stage changes nothing, and nothing follows the end.
pub open spec fn course_after(c: Course, answer: Answer) -> Course {
    let download = c.direction == Direction::Download;
    match (c.stage, answer) {
        (Stage::Done, _) => c,
        (Stage::Failed, _) => c,
        (_, Answer::Failed(_)) => Course { stage: Stage::Failed, ..c },
        (Stage::Session, Answer::Well) => Course {
            stage: if download {
                Stage::Size
            } else {
                Stage::Open
            },
            ..c
        },
        (Stage::Size, Answer::Size(size)) => Course {
            total: match size {
                Some(n) => n,
                None => 0,
            },
            stage: if download {
                Stage::Open
            } else {
                Stage::Session
            },
            ..c
        },
        (Stage::Open, Answer::Well) => Course {
            stage: if download {
                Stage::Create
            } else {
                Stage::Fetch
            },
            ..c
        },
        (Stage::Create, Answer::Well) => Course { begun: true, stage: Stage::Fetch, ..c },
        (Stage::Fetch, Answer::Bytes(n)) => Course {
            stage: if n == 0 {
                Stage::Done
            } else {
                Stage::Store(n)
            },
            ..c
        },
        (Stage::Store(n), Answer::Well) => Course {
            moved: (c.moved + n) as u64,
            stage: Stage::Report,
            ..c
        },
        (Stage::Report, Answer::Share(_)) => Course { stage: Stage::Fetch, ..c },
        _ => c,
    }
}

/// What the user is told of a stage that failed.
pub open spec fn stage_failure(c: Course, error: Seq<char>) -> Seq<char> {
    match (c.stage, c.direction) {
        (Stage::Open, Direction::Download) => Task::OpenDownload.prefix() + error,
        (Stage::Open, Direction::Upload) => Task::CreateUpload.prefix() + error,
        _ => error,
    }
}

/// What the window is told after a stage.
pub open spec fn message_after(c: Course, answer: Answer) -> Option<Message> {
    match (c.stage, answer) {
        (Stage::Done, _) => None,
        (Stage::Failed, _) => None,
        (_, Answer::Failed(e)) => Some(
            failed_message(c.direction, c.id, c.name, stage_failure(c, e@)),
        ),
        (Stage::Fetch, Answer::Bytes(n)) if n == 0 => Some(
            complete_message(c.direction, c.id, c.name),
        ),
        (Stage::Report, Answer::Share(percent)) => Some(
            progress_message(c.direction, c.id, c.name, percent, c.moved, c.total),
        ),
        _ => None,
    }
}

/// A transfer that is under way.
#[derive(Debug)]
pub struct TransferRun {
    transfer: Transfer,
    stage: Stage,
}

impl View for TransferRun {
    type V = Course;

    closed spec fn view(&self) -> Course {
        Course {
            direction: self.transfer.direction(),
            id: self.transfer.id(),
            name: self.transfer.name(),
            total: self.transfer.total(),
            moved: self.transfer.moved(),
            begun: self.transfer.begun(),
            stage: self.stage,
        }
    }
}

/// Whether a transfer left a partial local file behind.
pub open spec fn partial_file_left(c: Course) -> bool {
    c.stage is Failed && c.direction == Direction::Download && c.begun
}

impl TransferRun {
    /// Starts a transfer of the file at `path`.
    pub fn start(direction: Direction, id: u32, path: &str) -> (r: TransferRun)
        ensures
            r@ == course_of(direction, id, path@),
    {
        let stage = match direction {
            Direction::Download => Stage::Session,
            Direction::Upload => Stage::Size,
        };
        TransferRun { transfer: Transfer::new(direction, id, path), stage }
    }

    /// What to do now.
    pub fn stage(&self) -> (r: Stage)
        ensures
            r == self@.stage,
    {
        self.stage
    }

    /// The bytes moved so far, and the size of the file.
    pub fn counts(&self) -> (r: (u64, u64))
        ensures
            r == (self@.moved, self@.total),
    {
        self.transfer.counts()
    }

    /// Whether the transfer left a partial local file behind, which is to be
    /// removed: only a download that failed after it made the file.
    pub fn leaves_partial_file(&self) -> (r: bool)
        ensures
            r == partial_file_left(self@),
    {
        self.stage == Stage::Failed && self.transfer.discards_local_file()
    }

    /// Takes what came of the stage and gives the event to send, where there is
    /// one.
    pub fn hear(&mut self, answer: Answer) -> (r: Option<Event>)
        requires
            old(self)@.stage matches Stage::Store(n) ==> old(self)@.moved + n <= u64::MAX,
        ensures
            final(self)@ == course_after(old(self)@, answer),
            match r {
                Some(event) => message_after(old(self)@, answer) == Some(event@),
                None => message_after(old(self)@, answer) is None,
            },
    {
        let download = self.transfer.direction == Direction::Download;
        match self.stage {
            Stage::Done | Stage::Failed => {
                return None;
            },
            _ => {},
        }
        match answer {
            Answer::Failed(e) => {
                let error = match self.stage {
                    Stage::Open => if download {
                        word_failure(Task::OpenDownload, e.as_str())
                    } else {
                        word_failure(Task::CreateUpload, e.as_str())
                    },
                    _ => e,
                };
                self.stage = Stage::Failed;
                Some(self.transfer.failed(error.as_str()))
            },
            Answer::Size(size) => {
                if self.stage == Stage::Size {
                    self.transfer.set_total(size);
                    self.stage = if download {
                        Stage::Open
                    } else {
                        Stage::Session
                    };
                }
                None
            },
            Answer::Bytes(n) => {
                if self.stage == Stage::Fetch {
                    if n == 0 {
                        self.stage = Stage::Done;
                        return Some(self.transfer.complete());
                    }
                    self.stage = Stage::Store(n);
                }
                None
            },
            Answer::Share(percent) => {
                if self.stage == Stage::Report {
                    self.stage = Stage::Fetch;
                    return Some(self.transfer.progress(percent));
                }
                None
            },
            Answer::Well => {
                match self.stage {
                    Stage::Session => {
                        self.stage = if download {
                            Stage::Size
                        } else {
                            Stage::Open
                        };
                    },
                    Stage::Open => {
                        self.stage = if download {
                            Stage::Create
                        } else {
                            Stage::Fetch
                        };
                    },
                    Stage::Create => {
                        self.transfer.begin_local_file();
                        self.stage = Stage::Fetch;
                    },
                    Stage::Store(n) => {
                        self.transfer.advance(n);
                        self.stage = Stage::Report;
                    },
                    _ => {},
                }
                None
            },
        }
    }
}

/// How far a transfer got after these answers.
pub open spec fn course_after_all(c: Course, answers: Seq<Answer>) -> Course
    decreases answers.len(),
{
    if answers.len() == 0 {
        c
    } else {
        course_after(course_after_all(c, answers.drop_last()), answers.last())
    }
}

/// What the window is told of a transfer with these answers, in order.
pub open spec fn messages_after_all(c: Course, answers: Seq<Answer>) -> Seq<Message>
    decreases answers.len(),
{
    if answers.len() == 0 {
        Seq::empty()
    } else {
        let before = messages_after_all(c, answers.drop_last());
        match message_after(course_after_all(c, answers.drop_last()), answers.last()) {
            Some(m) => before.push(m),
            None => before,
        }
    }
}

/// Whether a message closes a transfer: it is done, or it failed.
pub open spec fn is_closing(m: Message) -> bool {
    m.name == "transfer-complete"@ || m.name == "transfer-error"@
}

/// A transfer that is over has told so exactly once, at the very end; until then
/// it has told only how far it got.
pub proof fn law_one_closing_message(
    direction: Direction,
    id: u32,
    path: Seq<char>,
    answers: Seq<Answer>,
)
    ensures
        ({
            let c = course_of(direction, id, path);
            let stage = course_after_all(c, answers).stage;
            let told = messages_after_all(c, answers);
            &&& stage is Done || stage is Failed <==> told.len() > 0 && is_closing(told.last())
            &&& stage is Done ==> told.last() == complete_message(direction, id, c.name)
            &&& stage is Failed ==> told.last().name == "transfer-error"@
            &&& forall|i: int|
                0 <= i < told.len() - 1 ==> (#[trigger] told[i]).name == "transfer-progress"@
                    && !is_closing(told[i])
        }),
    decreases answers.len(),
{
    reveal_strlit("transfer-complete");
    reveal_strlit("transfer-error");
    reveal_strlit("transfer-progress");
    assert("transfer-progress"@[9] == 'p');
    assert("transfer-complete"@[9] == 'c');
    assert("transfer-error"@[9] == 'e');
    let c = course_of(direction, id, path);
    lemma_course_keeps(c, answers);
    if answers.len() > 0 {
        let before = answers.drop_last();
        law_one_closing_message(direction, id, path, before);
        lemma_course_keeps(c, before);
        let told = messages_after_all(c, before);
        let now = course_after_all(c, before);
        assert(message_after(now, answers.last()) is Some ==> !(now.stage is Done)
            && !(now.stage is Failed));
        if told.len() > 0 {
            let last = told.last();
            assert(!(now.stage is Done) && !(now.stage is Failed) ==> !is_closing(last));
            lemma_messages_are_known(c, before, told.len() - 1);
        }
    }
}

proof fn lemma_messages_are_known(c: Course, answers: Seq<Answer>, i: int)
    requires
        0 <= i < messages_after_all(c, answers).len(),
    ensures
        ({
            let m = messages_after_all(c, answers)[i];
            m.name == "transfer-progress"@ || is_closing(m)
        }),
    decreases answers.len(),
{
    if i < messages_after_all(c, answers.drop_last()).len() {
        lemma_messages_are_known(c, answers.drop_last(), i);
    }
}

proof fn lemma_course_keeps(c: Course, answers: Seq<Answer>)
    ensures
        course_after_all(c, answers).direction == c.direction,
        course_after_all(c, answers).id == c.id,
        course_after_all(c, answers).name == c.name,
    decreases answers.len(),
{
    if answers.len() > 0 {
        lemma_course_keeps(c, answers.drop_last());
    }
}

/// A download counts its local file as its own only once it made it: one that
/// fails before leaves alone whatever lies there.
pub proof fn law_only_made_files_are_removed(
    direction: Direction,
    id: u32,
    path: Seq<char>,
    answers: Seq<Answer>,
)
    requires
        course_after_all(course_of(direction, id, path), answers).begun,
    ensures
        exists|i: int|
            0 <= i < answers.len() && (#[trigger] answers[i]) is Well && course_after_all(
                course_of(direction, id, path),
                answers.take(i),
            ).stage == Stage::Create,
    decreases answers.len(),
{
    let c = course_of(direction, id, path);
    let n = answers.len() - 1;
    let before = answers.drop_last();
    assert(before == answers.take(n));
    if course_after_all(c, before).begun {
        law_only_made_files_are_removed(direction, id, path, before);
        let i = choose|i: int|
            0 <= i < before.len() && (#[trigger] before[i]) is Well && course_after_all(
                c,
                before.take(i),
            ).stage == Stage::Create;
        assert(before.take(i) == answers.take(i));
        assert(answers[i] is Well);
    } else {
        assert(answers[n] is Well);
    }
}

/// The next piece of `contents` behind its first `sent` bytes.
pub open spec fn piece(contents: Seq<u8>, sent: int) -> Seq<u8> {
    if contents.len() - sent <= CHUNK {
        contents.skip(sent)
    } else {
        contents.subrange(sent, sent + CHUNK)
    }
}

/// The pieces in which `contents` is sent behind its first `sent` bytes.
pub open spec fn pieces(contents: Seq<u8>, sent: int) -> Seq<Seq<u8>>
    decreases contents.len() - sent,
{
    if 0 <= sent < contents.len() {
        seq![piece(contents, sent)] + pieces(contents, sent + piece(contents, sent).len())
    } else {
        Seq::empty()
    }
}

/// Cuts off the next piece to send, where there is one.
pub fn next_piece(contents: &[u8], sent: usize) -> (r: Option<&[u8]>)
    ensures
        match r {
            Some(p) => sent < contents@.len() && p@ == piece(contents@, sent as int),
            None => sent >= contents@.len(),
        },
{
    let n: usize = contents.len();
    if sent >= n {
        return None;
    }
    let to: usize = if n - sent <= CHUNK {
        n
    } else {
        sent + CHUNK
    };
    let p = vstd::slice::slice_subrange(contents, sent, to);
    assert(p@ == piece(contents@, sent as int));
    Some(p)
}

/// All pieces one behind the other.
pub open spec fn concatenated(parts: Seq<Seq<u8>>) -> Seq<u8>
    decreases parts.len(),
{
    if parts.len() == 0 {
        Seq::empty()
    } else {
        parts[0] + concatenated(parts.skip(1))
    }
}

/// The pieces of a file make up the whole file, in order.
pub proof fn law_pieces_make_the_file(contents: Seq<u8>, sent: int)
    requires
        0 <= sent <= contents.len(),
    ensures
        concatenated(pieces(contents, sent)) == contents.skip(sent),
    decreases contents.len() - sent,
{
    if sent < contents.len() {
        let first = piece(contents, sent);
        let rest = pieces(contents, sent + first.len());
        law_pieces_make_the_file(contents, sent + first.len());
        assert((seq![first] + rest).skip(1) == rest);
        assert(first + contents.skip(sent + first.len()) == contents.skip(sent));
    } else {
        assert(contents.skip(sent) == Seq::<u8>::empty());
    }
}

/// Every piece of a file holds something, and none more than a piece may.
pub proof fn law_piece_sizes(contents: Seq<u8>, sent: int, i: int)
    requires
        0 <= sent <= contents.len(),
        0 <= i < pieces(contents, sent).len(),
    ensures
        0 < pieces(contents, sent)[i].len() <= CHUNK,
    decreases contents.len() - sent,
{
    if sent < contents.len() && i > 0 {
        law_piece_sizes(contents, sent + piece(contents, sent).len(), i - 1);
    }
}

/// How many bytes the next piece of `contents` behind its first `sent` bytes
/// holds; none at the end.
pub open spec fn piece_len(contents: Seq<u8>, sent: int) -> nat {
    if sent < contents.len() {
        piece(contents, sent).len()
    } else {
        0
    }
}

/// Whether an answer is one of an upload of `contents`: its size is that of the
/// contents, and a piece is the next one behind the bytes moved so far.
pub open spec fn answers_for(now: Course, contents: Seq<u8>, answer: Answer) -> bool {
    match (now.stage, answer) {
        (Stage::Size, Answer::Size(size)) => size matches Some(n) && n == contents.len(),
        (Stage::Fetch, Answer::Bytes(n)) => n == piece_len(contents, now.moved as int),
        _ => true,
    }
}

/// Whether these answers are all those of an upload of `contents`.
pub open spec fn sends(c: Course, contents: Seq<u8>, answers: Seq<Answer>) -> bool {
    forall|k: int|
        0 <= k < answers.len() ==> answers_for(
            course_after_all(c, answers.take(k)),
            contents,
            #[trigger] answers[k],
        )
}

/// The pieces of `contents` that were stored by these answers, in order.
pub open spec fn stored(c: Course, contents: Seq<u8>, answers: Seq<Answer>) -> Seq<Seq<u8>>
    decreases answers.len(),
{
    if answers.len() == 0 {
        Seq::empty()
    } else {
        let now = course_after_all(c, answers.drop_last());
        let before = stored(c, contents, answers.drop_last());
        if now.stage is Store && answers.last() is Well {
            before.push(piece(contents, now.moved as int))
        } else {
            before
        }
    }
}

/// What holds of an upload all along: what was stored and what is left make up
/// the pieces of the file.
spec fn on_course(now: Course, contents: Seq<u8>, done: Seq<Seq<u8>>) -> bool {
    &&& now.direction == Direction::Upload
    &&& now.moved <= contents.len()
    &&& done + pieces(contents, now.moved as int) == pieces(contents, 0)
    &&& now.stage matches Stage::Store(n) ==> now.moved < contents.len() && n == piece(
        contents,
        now.moved as int,
    ).len()
    &&& now.stage is Done ==> now.moved == contents.len()
    &&& now.stage is Size || now.stage is Failed || now.total == contents.len()
    &&& !(now.stage is Create)
}

proof fn lemma_upload_step(now: Course, contents: Seq<u8>, done: Seq<Seq<u8>>, answer: Answer)
    requires
        contents.len() <= u64::MAX,
        on_course(now, contents, done),
        answers_for(now, contents, answer),
    ensures
        on_course(
            course_after(now, answer),
            contents,
            if now.stage is Store && answer is Well {
                done.push(piece(contents, now.moved as int))
            } else {
                done
            },
        ),
{
    if now.stage is Store && answer is Well {
        let p = piece(contents, now.moved as int);
        let rest = pieces(contents, now.moved + p.len());
        assert(done + (seq![p] + rest) == done.push(p) + rest);
    }
}

proof fn lemma_upload(id: u32, path: Seq<char>, contents: Seq<u8>, answers: Seq<Answer>)
    requires
        contents.len() <= u64::MAX,
        sends(course_of(Direction::Upload, id, path), contents, answers),
    ensures
        ({
            let c = course_of(Direction::Upload, id, path);
            on_course(course_after_all(c, answers), contents, stored(c, contents, answers))
        }),
    decreases answers.len(),
{
    let c = course_of(Direction::Upload, id, path);
    if answers.len() == 0 {
        assert(stored(c, contents, answers) + pieces(contents, 0) == pieces(contents, 0));
    } else {
        let n = answers.len() - 1;
        let before = answers.drop_last();
        assert(before == answers.take(n));
        assert forall|k: int| 0 <= k < before.len() implies answers_for(
            course_after_all(c, before.take(k)),
            contents,
            #[trigger] before[k],
        ) by {
            assert(before.take(k) == answers.take(k));
            assert(before[k] == answers[k]);
        }
        lemma_upload(id, path, contents, before);
        assert(answers_for(course_after_all(c, answers.take(n)), contents, answers[n]));
        lemma_upload_step(
            course_after_all(c, before),
            contents,
            stored(c, contents, before),
            answers.last(),
        );
    }
}

/// An upload that is done has stored the pieces of the file, all of them and in
/// order, which make up the whole file; and it has counted every byte.
pub proof fn law_upload_stores_the_file(
    id: u32,
    path: Seq<char>,
    contents: Seq<u8>,
    answers: Seq<Answer>,
)
    requires
        contents.len() <= u64::MAX,
        sends(course_of(Direction::Upload, id, path), contents, answers),
        course_after_all(course_of(Direction::Upload, id, path), answers).stage is Done,
    ensures
        ({
            let c = course_of(Direction::Upload, id, path);
            let now = course_after_all(c, answers);
            &&& stored(c, contents, answers) == pieces(contents, 0)
            &&& concatenated(stored(c, contents, answers)) == contents
            &&& now.moved == contents.len()
            &&& now.total == contents.len()
        }),
{
    let c = course_of(Direction::Upload, id, path);
    lemma_upload(id, path, contents, answers);
    law_pieces_make_the_file(contents, 0);
    assert(stored(c, contents, answers) + pieces(contents, contents.len() as int) == stored(
        c,
        contents,
        answers,
    ));
    assert(contents.skip(0) == contents);
}

/// The stage that a transfer is at once it has heard the first `k` answers.
pub open spec fn stage_at(c: Course, answers: Seq<Answer>, k: int) -> Stage {
    course_after_all(c, answers.take(k)).stage
}

/// Whether the answer at `k` is a piece of this many bytes that was fetched.
pub open spec fn fetches(c: Course, answers: Seq<Answer>, k: int, n: usize) -> bool {
    stage_at(c, answers, k) is Fetch && answers[k] == Answer::Bytes(n)
}

/// Whether the answer at `k` is that a piece of this many bytes was stored.
pub open spec fn stores(c: Course, answers: Seq<Answer>, k: int, n: usize) -> bool {
    stage_at(c, answers, k) == Stage::Store(n) && answers[k] is Well
}

/// How many bytes were fetched by these answers.
pub open spec fn bytes_fetched(c: Course, answers: Seq<Answer>) -> nat
    decreases answers.len(),
{
    if answers.len() == 0 {
        0
    } else {
        bytes_fetched(c, answers.drop_last()) + (match (
            course_after_all(c, answers.drop_last()).stage,
            answers.last(),
        ) {
            (Stage::Fetch, Answer::Bytes(n)) => n as nat,
            _ => 0,
        })
    }
}

proof fn lemma_course_one_more(c: Course, answers: Seq<Answer>, k: int)
    requires
        0 <= k < answers.len(),
    ensures
        course_after_all(c, answers.take(k + 1)) == course_after(
            course_after_all(c, answers.take(k)),
            answers[k],
        ),
{
    assert(answers.take(k + 1).drop_last() == answers.take(k));
}

proof fn lemma_failed_stays(c: Course, answers: Seq<Answer>, k: int, j: int)
    requires
        0 <= k <= j <= answers.len(),
        stage_at(c, answers, k) is Failed,
    ensures
        stage_at(c, answers, j) is Failed,
    decreases j - k,
{
    if k < j {
        lemma_failed_stays(c, answers, k, j - 1);
        lemma_course_one_more(c, answers, j - 1);
    }
}

proof fn lemma_stored_at_last(c: Course, answers: Seq<Answer>, k: int, n: usize) -> (m: int)
    requires
        0 <= k <= answers.len(),
        stage_at(c, answers, k) == Stage::Store(n),
        stage_at(c, answers, answers.len() as int) is Done,
    ensures
        k <= m < answers.len(),
        stores(c, answers, m, n),
        forall|j: int| k <= j <= m ==> #[trigger] stage_at(c, answers, j) == Stage::Store(n),
    decreases answers.len() - k,
{
    lemma_course_one_more(c, answers, k);
    if answers[k] is Well {
        k
    } else {
        if answers[k] is Failed {
            lemma_failed_stays(c, answers, k + 1, answers.len() as int);
        }
        lemma_stored_at_last(c, answers, k + 1, n)
    }
}

proof fn lemma_bytes_counted(c: Course, answers: Seq<Answer>)
    requires
        c.moved == 0,
        !(c.stage is Store),
        bytes_fetched(c, answers) <= u64::MAX,
        !(course_after_all(c, answers).stage is Failed),
    ensures
        course_after_all(c, answers).moved + (match course_after_all(c, answers).stage {
            Stage::Store(n) => n as nat,
            _ => 0,
        }) == bytes_fetched(c, answers),
    decreases answers.len(),
{
    if answers.len() > 0 {
        lemma_bytes_counted(c, answers.drop_last());
    }
}

/// A transfer that is done has stored everything. Every piece that was fetched
/// was stored next, before anything else was fetched. It became done when there
/// was no more to fetch, and on nothing else. The bytes that it counted are all
/// the bytes that were fetched.
pub proof fn law_done_has_stored_everything(
    direction: Direction,
    id: u32,
    path: Seq<char>,
    answers: Seq<Answer>,
)
    requires
        course_after_all(course_of(direction, id, path), answers).stage is Done,
        bytes_fetched(course_of(direction, id, path), answers) <= u64::MAX,
    ensures
        ({
            let c = course_of(direction, id, path);
            &&& course_after_all(c, answers).moved == bytes_fetched(c, answers)
            &&& forall|k: int, n: usize|
                0 <= k < answers.len() && n > 0 && #[trigger] fetches(c, answers, k, n)
                    ==> exists|m: int|
                    k < m < answers.len() && #[trigger] stores(c, answers, m, n) && (forall|j: int|
                        k < j <= m ==> #[trigger] stage_at(c, answers, j) == Stage::Store(n))
            &&& exists|k: int|
                0 <= k < answers.len() && #[trigger] fetches(c, answers, k, 0) && stage_at(
                    c,
                    answers,
                    k + 1,
                ) is Done
        }),
{
    let c = course_of(direction, id, path);
    let n = answers.len() as int;
    assert(answers.take(n) == answers);
    lemma_bytes_counted(c, answers);
    assert forall|k: int, n: usize|
        0 <= k < answers.len() && n > 0 && #[trigger] fetches(c, answers, k, n) implies exists|m: int|
        k < m < answers.len() && #[trigger] stores(c, answers, m, n) && (forall|j: int|
            k < j <= m ==> #[trigger] stage_at(c, answers, j) == Stage::Store(n)) by {
        lemma_course_one_more(c, answers, k);
        let m = lemma_stored_at_last(c, answers, k + 1, n);
        assert(stores(c, answers, m, n));
    }
    let k = lemma_became_done(c, answers, n);
    assert(fetches(c, answers, k, 0));
}

proof fn lemma_became_done(c: Course, answers: Seq<Answer>, j: int) -> (k: int)
    requires
        0 <= j <= answers.len(),
        !(c.stage is Done),
        stage_at(c, answers, j) is Done,
    ensures
        0 <= k < answers.len(),
        fetches(c, answers, k, 0),
        stage_at(c, answers, k + 1) is Done,
    decreases j,
{
    if j == 0 {
        assert(answers.take(0) == Seq::<Answer>::empty());
        0
    } else {
        lemma_course_one_more(c, answers, j - 1);
        if stage_at(c, answers, j - 1) is Done {
            lemma_became_done(c, answers, j - 1)
        } else {
            j - 1
        }
    }
}

/// The sum of some sizes.
pub open spec fn sum(sizes: Seq<usize>) -> nat
    decreases sizes.len(),
{
    if sizes.len() == 0 {
        0
    } else {
        sum(sizes.drop_last()) + sizes.last() as nat
    }
}

/// The answers of a transfer in which everything goes well, until there is no
/// more to fetch: the file has this size, comes in pieces of these sizes, and
/// these are the shares moved after each.
pub open spec fn smooth_answers(
    direction: Direction,
    size: Option<u64>,
    sizes: Seq<usize>,
    shares: Seq<u32>,
) -> Seq<Answer>
    decreases sizes.len(),
{
    if sizes.len() == 0 {
        match direction {
            Direction::Download => seq![Answer::Well, Answer::Size(size), Answer::Well, Answer::Well],
            Direction::Upload => seq![Answer::Size(size), Answer::Well, Answer::Well],
        }
    } else {
        smooth_answers(direction, size, sizes.drop_last(), shares.drop_last()) + seq![
            Answer::Bytes(sizes.last()),
            Answer::Well,
            Answer::Share(shares.last()),
        ]
    }
}

/// What the window is told of a transfer in which everything goes well, until
/// there is no more to fetch: after each piece, how much was moved.
pub open spec fn smooth_messages(
    direction: Direction,
    id: u32,
    name: Seq<char>,
    total: u64,
    sizes: Seq<usize>,
    shares: Seq<u32>,
) -> Seq<Message> {
    Seq::new(
        sizes.len(),
        |i: int|
            progress_message(direction, id, name, shares[i], sum(sizes.take(i + 1)) as u64, total),
    )
}

proof fn lemma_hears(c: Course, answers: Seq<Answer>, answer: Answer)
    ensures
        course_after_all(c, answers.push(answer)) == course_after(course_after_all(c, answers), answer),
        messages_after_all(c, answers.push(answer)) == (match message_after(
            course_after_all(c, answers),
            answer,
        ) {
            Some(m) => messages_after_all(c, answers).push(m),
            None => messages_after_all(c, answers),
        }),
{
    assert(answers.push(answer).drop_last() == answers);
}

proof fn lemma_smooth_start(direction: Direction, id: u32, path: Seq<char>, size: Option<u64>)
    ensures
        ({
            let c = course_of(direction, id, path);
            let none = Seq::<usize>::empty();
            let answers = smooth_answers(direction, size, none, Seq::<u32>::empty());
            let now = course_after_all(c, answers);
            &&& now == Course {
                total: match size {
                    Some(n) => n,
                    None => 0,
                },
                begun: direction == Direction::Download,
                stage: Stage::Fetch,
                ..c
            }
            &&& messages_after_all(c, answers) == Seq::<Message>::empty()
        }),
{
    let c = course_of(direction, id, path);
    let none = Seq::<Answer>::empty();
    let answers = smooth_answers(direction, size, Seq::<usize>::empty(), Seq::<u32>::empty());
    match direction {
        Direction::Download => {
            let one = none.push(Answer::Well);
            let two = one.push(Answer::Size(size));
            let three = two.push(Answer::Well);
            lemma_hears(c, none, Answer::Well);
            lemma_hears(c, one, Answer::Size(size));
            lemma_hears(c, two, Answer::Well);
            lemma_hears(c, three, Answer::Well);
            assert(answers == three.push(Answer::Well));
        },
        Direction::Upload => {
            let one = none.push(Answer::Size(size));
            let two = one.push(Answer::Well);
            lemma_hears(c, none, Answer::Size(size));
            lemma_hears(c, one, Answer::Well);
            lemma_hears(c, two, Answer::Well);
            assert(answers == two.push(Answer::Well));
        },
    }
}

#[verifier::spinoff_prover]
#[verifier::rlimit(40)]
proof fn lemma_smooth(
    direction: Direction,
    id: u32,
    path: Seq<char>,
    size: Option<u64>,
    sizes: Seq<usize>,
    shares: Seq<u32>,
)
    requires
        sizes.len() == shares.len(),
        forall|i: int| 0 <= i < sizes.len() ==> #[trigger] sizes[i] > 0,
        sum(sizes) <= u64::MAX,
    ensures
        ({
            let c = course_of(direction, id, path);
            let total = match size {
                Some(n) => n,
                None => 0,
            };
            let answers = smooth_answers(direction, size, sizes, shares);
            &&& course_after_all(c, answers) == Course {
                total,
                moved: sum(sizes) as u64,
                begun: direction == Direction::Download,
                stage: Stage::Fetch,
                ..c
            }
            &&& messages_after_all(c, answers) == smooth_messages(
                direction,
                id,
                c.name,
                total,
                sizes,
                shares,
            )
        }),
    decreases sizes.len(),
{
    let c = course_of(direction, id, path);
    let total = match size {
        Some(n) => n,
        None => 0,
    };
    if sizes.len() == 0 {
        assert(sizes == Seq::<usize>::empty());
        assert(shares == Seq::<u32>::empty());
        lemma_smooth_start(direction, id, path, size);
    } else {
        let fewer = sizes.drop_last();
        let fewer_shares = shares.drop_last();
        lemma_smooth(direction, id, path, size, fewer, fewer_shares);
        let before = smooth_answers(direction, size, fewer, fewer_shares);
        let n = sizes.last();
        let fetched = before.push(Answer::Bytes(n));
        let put = fetched.push(Answer::Well);
        lemma_hears(c, before, Answer::Bytes(n));
        lemma_hears(c, fetched, Answer::Well);
        lemma_hears(c, put, Answer::Share(shares.last()));
        assert(smooth_answers(direction, size, sizes, shares) == put.push(
            Answer::Share(shares.last()),
        ));
        let told = smooth_messages(direction, id, c.name, total, fewer, fewer_shares);
        assert(sizes.take(sizes.len() as int) == sizes);
        assert forall|i: int| 0 <= i < fewer.len() implies #[trigger] sizes.take(i + 1)
            == fewer.take(i + 1) by {}
        assert(smooth_messages(direction, id, c.name, total, sizes, shares) =~= told.push(
            progress_message(direction, id, c.name, shares.last(), sum(sizes) as u64, total),
        ));
    }
}

/// A transfer in which everything goes well tells after each piece how many
/// bytes were moved, and then that it is done. However many pieces there are and
/// however long each of them is, all of them are counted.
pub proof fn law_smooth_transfer(
    direction: Direction,
    id: u32,
    path: Seq<char>,
    size: Option<u64>,
    sizes: Seq<usize>,
    shares: Seq<u32>,
)
    requires
        sizes.len() == shares.len(),
        forall|i: int| 0 <= i < sizes.len() ==> #[trigger] sizes[i] > 0,
        sum(sizes) <= u64::MAX,
    ensures
        ({
            let c = course_of(direction, id, path);
            let total = match size {
                Some(n) => n,
                None => 0,
            };
            let answers = smooth_answers(direction, size, sizes, shares).push(Answer::Bytes(0));
            &&& course_after_all(c, answers).stage is Done
            &&& course_after_all(c, answers).moved == sum(sizes)
            &&& course_after_all(c, answers).total == total
            &&& messages_after_all(c, answers) == smooth_messages(
                direction,
                id,
                transfer_name_of(path),
                total,
                sizes,
                shares,
            ).push(complete_message(direction, id, transfer_name_of(path)))
        }),
{
    lemma_smooth(direction, id, path, size, sizes, shares);
    lemma_hears(
        course_of(direction, id, path),
        smooth_answers(direction, size, sizes, shares),
        Answer::Bytes(0),
    );
}

/// A transfer in which something goes wrong, be it before the first piece or
/// after any number of them, tells the cause and nothing more. A download leaves
/// its file to be removed; an upload leaves nothing.
pub proof fn law_broken_transfer(
    direction: Direction,
    id: u32,
    path: Seq<char>,
    size: Option<u64>,
    sizes: Seq<usize>,
    shares: Seq<u32>,
    error: String,
    more: Seq<Answer>,
)
    requires
        sizes.len() == shares.len(),
        forall|i: int| 0 <= i < sizes.len() ==> #[trigger] sizes[i] > 0,
        sum(sizes) <= u64::MAX,
    ensures
        ({
            let c = course_of(direction, id, path);
            let total = match size {
                Some(n) => n,
                None => 0,
            };
            let answers = smooth_answers(direction, size, sizes, shares).push(Answer::Failed(error))
                + more;
            &&& messages_after_all(c, answers) == smooth_messages(
                direction,
                id,
                transfer_name_of(path),
                total,
                sizes,
                shares,
            ).push(failed_message(direction, id, transfer_name_of(path), error@))
            &&& partial_file_left(course_after_all(c, answers)) <==> direction == Direction::Download
        }),
    decreases more.len(),
{
    let c = course_of(direction, id, path);
    let smooth = smooth_answers(direction, size, sizes, shares);
    let broken = smooth.push(Answer::Failed(error));
    if more.len() == 0 {
        assert(broken + more == broken);
        lemma_smooth(direction, id, path, size, sizes, shares);
        lemma_hears(c, smooth, Answer::Failed(error));
    } else {
        law_broken_transfer(direction, id, path, size, sizes, shares, error, more.drop_last());
        lemma_hears(c, broken + more.drop_last(), more.last());
        assert((broken + more.drop_last()).push(more.last()) == broken + more);
        lemma_smooth(direction, id, path, size, sizes, shares);
        lemma_broken_stays(c, smooth, error, more.drop_last());
    }
}

proof fn lemma_broken_stays(c: Course, answers: Seq<Answer>, error: String, more: Seq<Answer>)
    requires
        !(course_after_all(c, answers).stage is Done),
    ensures
        course_after_all(c, answers.push(Answer::Failed(error)) + more).stage is Failed,
    decreases more.len(),
{
    let broken = answers.push(Answer::Failed(error));
    if more.len() == 0 {
        assert(broken + more == broken);
        lemma_hears(c, answers, Answer::Failed(error));
    } else {
        lemma_broken_stays(c, answers, error, more.drop_last());
        lemma_hears(c, broken + more.drop_last(), more.last());
        assert((broken + more.drop_last()).push(more.last()) == broken + more);
    }
}

/// Whatever stage of a transfer fails, the user is told the cause. Where it was
/// the remote file that could not be opened, they are told that first.
pub proof fn law_failures_are_told(c: Course, error: String)
    requires
        !(c.stage is Done),
        !(c.stage is Failed),
    ensures
        course_after(c, Answer::Failed(error)).stage is Failed,
        message_after(c, Answer::Failed(error)) == Some(
            failed_message(
                c.direction,
                c.id,
                c.name,
                if !(c.stage is Open) {
                    error@
                } else if c.direction == Direction::Download {
                    "파일 열기 실패: "@ + error@
                } else {
                    "파일 생성 실패: "@ + error@
                },
            ),
        ),
{
}

/// A download that made its local file and failed has a partial file to remove,
/// and no other transfer has one.
pub proof fn law_partial_file_is_removed(
    direction: Direction,
    id: u32,
    path: Seq<char>,
    answers: Seq<Answer>,
)
    ensures
        partial_file_left(course_after_all(course_of(direction, id, path), answers)) <==> ({
            &&& stage_at(course_of(direction, id, path), answers, answers.len() as int) is Failed
            &&& direction == Direction::Download
            &&& exists|k: int|
                0 <= k < answers.len() && #[trigger] makes_file(
                    course_of(direction, id, path),
                    answers,
                    k,
                )
        }),
{
    let c = course_of(direction, id, path);
    assert(answers.take(answers.len() as int) == answers);
    lemma_course_keeps(c, answers);
    lemma_begun(c, answers);
}

/// Whether the answer at `k` is that the local file was made.
pub open spec fn makes_file(c: Course, answers: Seq<Answer>, k: int) -> bool {
    stage_at(c, answers, k) is Create && answers[k] is Well
}

proof fn lemma_begun(c: Course, answers: Seq<Answer>)
    requires
        !c.begun,
    ensures
        course_after_all(c, answers).begun <==> exists|k: int|
            0 <= k < answers.len() && #[trigger] makes_file(c, answers, k),
    decreases answers.len(),
{
    if answers.len() > 0 {
        let before = answers.drop_last();
        let n = answers.len() - 1;
        lemma_begun(c, before);
        assert(answers.take(n) == before);
        assert forall|k: int| 0 <= k < n implies makes_file(c, before, k) == #[trigger] makes_file(
            c,
            answers,
            k,
        ) by {
            assert(before.take(k) == answers.take(k));
        }
        if course_after_all(c, before).begun {
            let k = choose|k: int| 0 <= k < n && #[trigger] makes_file(c, before, k);
            assert(makes_file(c, answers, k));
        } else if course_after_all(c, answers).begun {
            assert(makes_file(c, answers, n));
        } else {
            assert forall|k: int| 0 <= k < answers.len() implies !#[trigger] makes_file(c, answers, k) by {
                if k < n {
                    assert(!makes_file(c, before, k));
                }
            }
        }
    }
}

proof fn lemma_piece_at(contents: Seq<u8>, sent: int, i: int)
    requires
        0 <= sent <= contents.len(),
        0 <= i,
        sent + i * CHUNK < contents.len(),
    ensures
        i < pieces(contents, sent).len(),
        pieces(contents, sent)[i] == piece(contents, sent + i * CHUNK),
    decreases i,
{
    if i > 0 {
        assert(sent + CHUNK < contents.len()) by (nonlinear_arith)
            requires
                i > 0,
                sent + i * CHUNK < contents.len(),
                contents.len() >= 0,
                CHUNK == 32768,
        ;
        assert(sent + CHUNK + (i - 1) * CHUNK == sent + i * CHUNK) by (nonlinear_arith);
        lemma_piece_at(contents, sent + CHUNK, i - 1);
    }
}

/// A file is cut at every 32768th byte and nowhere else: the bytes from one cut
/// to the next are a piece, and so are those behind the last cut.
pub proof fn law_pieces_are_even(contents: Seq<u8>, i: int)
    requires
        0 <= i,
        i * 32768 < contents.len(),
    ensures
        i < pieces(contents, 0).len(),
        pieces(contents, 0)[i] == contents.subrange(
            i * 32768,
            if (i + 1) * 32768 < contents.len() {
                (i + 1) * 32768
            } else {
                contents.len() as int
            },
        ),
{
    lemma_piece_at(contents, 0, i);
}

/// Every message about a transfer names its direction, its tab and its file. One
/// on the way adds the share, the bytes moved and the size; one about a failure
/// adds the cause.
pub proof fn law_transfer_messages(
    direction: Direction,
    id: u32,
    name: Seq<char>,
    percent: u32,
    moved: u64,
    total: u64,
    error: Seq<char>,
)
    ensures
        ({
            let on_the_way = progress_message(direction, id, name, percent, moved, total);
            let done = complete_message(direction, id, name);
            let broken = failed_message(direction, id, name, error);
            let download = direction == Direction::Download;
            let word = if download {
                "download"@
            } else {
                "upload"@
            };
            let key = if download {
                "downloaded"@
            } else {
                "uploaded"@
            };
            &&& on_the_way.name == "transfer-progress"@
            &&& done.name == "transfer-complete"@
            &&& broken.name == "transfer-error"@
            &&& done.fields == seq![
                ("type"@, FieldView::Text(word)),
                ("tabId"@, FieldView::Number(id as u64)),
                ("name"@, FieldView::Text(name)),
            ]
            &&& on_the_way.fields.take(3) == done.fields
            &&& on_the_way.fields.skip(3) == seq![
                ("progress"@, FieldView::Number(percent as u64)),
                (key, FieldView::Number(moved)),
                ("total"@, FieldView::Number(total)),
            ]
            &&& broken.fields.take(3) == done.fields
            &&& broken.fields.skip(3) == seq![("error"@, FieldView::Text(error))]
        }),
{
    let on_the_way = progress_message(direction, id, name, percent, moved, total);
    let done = complete_message(direction, id, name);
    let broken = failed_message(direction, id, name, error);
    assert(on_the_way.fields.take(3) == done.fields);
    assert(broken.fields.take(3) == done.fields);
}

} // verus!
