//! A shell in a tab: reading its output and telling how it ended. One on a
//! server also has to be kept alive.

use vstd::prelude::*;

use crate::events::{exit_message, messages, output_message, pty_exit, Event, Message};
use crate::osc::{data_tells, last_cwd, law_output_is_passed_on, output_messages, place_after};
use crate::osc::{Place, Scanner, Shell};

verus! {

/// This many timeouts in a row end a session.
pub const MAX_TIMEOUTS: u32 = 3;

/// A keepalive goes out when the last one is this many seconds old.
pub const KEEPALIVE_SECS: u64 = 30;

/// What the window sends to a remote shell.
#[derive(Debug, PartialEq, Eq)]
pub enum SshMsg {
    Input(Vec<u8>),
    Resize(u16, u16),
}

/// How a session ended.
#[derive(Debug, PartialEq, Eq)]
pub enum SshOutcome {
    /// The user closed it.
    Closed,
    /// The connection was lost, for this reason.
    Disconnected(String),
}

/// What reading from the shell gave.
#[derive(Debug, PartialEq, Eq)]
pub enum Read {
    /// The end of the output.
    End,
    /// Some output.
    Data(Vec<u8>),
    /// Nothing yet.
    WouldBlock,
    /// No answer in time.
    TimedOut,
    /// An error.
    Failed(String),
}

/// What to do once the input of the window has been passed on.
#[derive(Debug, Clone, Copy, PartialEq, Eq, Structural)]
pub enum Pace {
    /// The shell is gone: end the session.
    Close,
    /// Send a keepalive.
    Keepalive,
    /// Wait a moment, then read again.
    Wait,
}

/// Where in the output a shell stands after a read.
pub open spec fn place_after_read(shell: Shell, place: Place, read: Read) -> Place {
    match read {
        Read::Data(data) => place_after(shell, place, data@),
        _ => place,
    }
}

/// Whether a local shell is read on after a read.
pub open spec fn reads_on(read: Read) -> bool {
    read is Data
}

/// What is sent after a read of a local shell.
pub open spec fn local_messages(place: Place, id: u32, read: Read) -> Seq<Message> {
    match read {
        Read::Data(data) => output_messages(Shell::Local, place, id, data@),
        _ => seq![exit_message(id)],
    }
}

/// A shell on this machine.
#[derive(Debug)]
pub struct LocalShell {
    id: u32,
    scanner: Scanner,
}

impl LocalShell {
    /// The tab of the shell.
    pub closed spec fn id(&self) -> u32 {
        self.id
    }

    /// Where in the output the shell stands.
    pub closed spec fn place(&self) -> Place {
        self.scanner@
    }

    #[verifier::type_invariant]
    spec fn listens_to_local(self) -> bool {
        self.scanner.shell() == Shell::Local
    }

    /// A shell that has just been started.
    pub fn new(id: u32) -> (r: LocalShell)
        ensures
            r.id() == id,
            r.place() == Place::Plain,
    {
        LocalShell { id, scanner: Scanner::new(Shell::Local) }
    }

    /// Takes what a read gave. Gives the events to send and whether to read on:
    /// anything but output means that the shell is gone.
    pub fn on_read(&mut self, read: Read) -> (r: (Vec<Event>, bool))
        ensures
            final(self).id() == old(self).id(),
            final(self).place() == place_after_read(Shell::Local, old(self).place(), read),
            messages(r.0@) == local_messages(old(self).place(), old(self).id(), read),
            r.1 == reads_on(read),
    {
        proof {
            use_type_invariant(&*self);
        }
        match read {
            Read::Data(data) => {
                let mut scanner = Scanner::new(Shell::Local);
                std::mem::swap(&mut scanner, &mut self.scanner);
                let events = scanner.output(self.id, data);
                self.scanner = scanner;
                (events, true)
            },
            _ => {
                let events: Vec<Event> = vec![pty_exit(self.id)];
                assert(messages(events@) == seq![exit_message(self.id)]);
                (events, false)
            },
        }
    }
}

/// The number of timeouts in a row after one more read.
pub open spec fn timeouts_after_read(timeouts: u32, read: Read) -> u32 {
    match read {
        Read::Data(_) | Read::WouldBlock => 0,
        Read::TimedOut => if timeouts < MAX_TIMEOUTS {
            (timeouts + 1) as u32
        } else {
            timeouts
        },
        Read::End | Read::Failed(_) => timeouts,
    }
}

/// Why a session was lost, where a read lost it.
pub open spec fn read_loss(timeouts: u32, read: Read) -> Option<Seq<char>> {
    match read {
        Read::Failed(e) => Some("연결 끊김: "@ + e@),
        Read::TimedOut if timeouts_after_read(timeouts, read) >= MAX_TIMEOUTS => Some(
            "서버 응답 없음 (타임아웃)"@,
        ),
        _ => None,
    }
}

/// What is sent after a read of a remote shell.
pub open spec fn remote_messages(place: Place, id: u32, read: Read) -> Seq<Message> {
    match read {
        Read::Data(data) => output_messages(Shell::Remote, place, id, data@),
        _ => Seq::empty(),
    }
}

/// How to go on, given whether the shell has reached its end and the age of the
/// last keepalive in seconds.
pub open spec fn pace_at(eof: bool, keepalive_age: u64) -> Pace {
    if eof {
        Pace::Close
    } else if keepalive_age >= KEEPALIVE_SECS {
        Pace::Keepalive
    } else {
        Pace::Wait
    }
}

/// Why a session was lost, where a keepalive lost it.
pub open spec fn keepalive_loss(sent: Result<(), String>) -> Option<Seq<char>> {
    match sent {
        Ok(()) => None,
        Err(e) => Some("keepalive 실패: "@ + e@),
    }
}

/// A shell on a server.
#[derive(Debug)]
pub struct RemoteShell {
    id: u32,
    scanner: Scanner,
    timeouts: u32,
}

impl RemoteShell {
    /// The tab of the shell.
    pub closed spec fn id(&self) -> u32 {
        self.id
    }

    /// Where in the output the shell stands.
    pub closed spec fn place(&self) -> Place {
        self.scanner@
    }

    /// The directory that the shell reported last.
    pub closed spec fn reported(&self) -> Option<Seq<char>> {
        self.scanner.cwd()
    }

    /// How many reads in a row timed out.
    pub closed spec fn timeouts(&self) -> u32 {
        self.timeouts
    }

    #[verifier::type_invariant]
    spec fn listens_to_remote(self) -> bool {
        self.scanner.shell() == Shell::Remote
    }

    /// A shell that has just been opened.
    pub fn new(id: u32) -> (r: RemoteShell)
        ensures
            r.id() == id,
            r.place() == Place::Plain,
            r.timeouts() == 0,
            r.reported() is None,
    {
        RemoteShell { id, scanner: Scanner::new(Shell::Remote), timeouts: 0 }
    }

    /// Takes what a read gave. Gives the events to send and, where the session
    /// is over, how it ended.
    pub fn on_read(&mut self, read: Read) -> (r: (Vec<Event>, Option<SshOutcome>))
        ensures
            final(self).id() == old(self).id(),
            final(self).timeouts() == timeouts_after_read(old(self).timeouts(), read),
            final(self).place() == place_after_read(Shell::Remote, old(self).place(), read),
            final(self).reported() == (match read {
                Read::Data(data) => last_cwd(
                    old(self).reported(),
                    data_tells(Shell::Remote, old(self).place(), data@),
                ),
                _ => old(self).reported(),
            }),
            messages(r.0@) == remote_messages(old(self).place(), old(self).id(), read),
            match r.1 {
                Some(SshOutcome::Closed) => read is End,
                Some(SshOutcome::Disconnected(reason)) => read_loss(old(self).timeouts(), read)
                    == Some(reason@),
                None => !(read is End) && read_loss(old(self).timeouts(), read) is None,
            },
    {
        proof {
            use_type_invariant(&*self);
        }
        let none: Vec<Event> = Vec::new();
        assert(messages(none@) == Seq::<Message>::empty());
        match read {
            Read::End => (none, Some(SshOutcome::Closed)),
            Read::Data(data) => {
                self.timeouts = 0;
                let mut scanner = Scanner::new(Shell::Remote);
                std::mem::swap(&mut scanner, &mut self.scanner);
                let events = scanner.output(self.id, data);
                self.scanner = scanner;
                (events, None)
            },
            Read::WouldBlock => {
                self.timeouts = 0;
                (none, None)
            },
            Read::TimedOut => {
                if self.timeouts < MAX_TIMEOUTS {
                    self.timeouts += 1;
                }
                if self.timeouts >= MAX_TIMEOUTS {
                    (none, Some(SshOutcome::Disconnected("서버 응답 없음 (타임아웃)".to_owned())))
                } else {
                    (none, None)
                }
            },
            Read::Failed(e) => {
                let mut reason = "연결 끊김: ".to_owned();
                reason.append(e.as_str());
                (none, Some(SshOutcome::Disconnected(reason)))
            },
        }
    }

    /// Gives the directory that the shell reported last.
    pub fn reported_cwd(&self) -> (r: Option<&str>)
        ensures
            match r {
                Some(cwd) => self.reported() == Some(cwd@),
                None => self.reported() is None,
            },
    {
        self.scanner.last_told_cwd()
    }

    /// Decides how to go on, given whether the shell has reached its end and how
    /// many seconds ago the last keepalive went out.
    pub fn pace(&self, eof: bool, keepalive_age: u64) -> (r: Pace)
        ensures
            r == pace_at(eof, keepalive_age),
    {
        if eof {
            Pace::Close
        } else if keepalive_age >= KEEPALIVE_SECS {
            Pace::Keepalive
        } else {
            Pace::Wait
        }
    }

    /// Takes what came of a keepalive: one that fails ends the session.
    pub fn on_keepalive(&self, sent: Result<(), String>) -> (r: Option<SshOutcome>)
        ensures
            match r {
                Some(SshOutcome::Closed) => false,
                Some(SshOutcome::Disconnected(reason)) => keepalive_loss(sent) == Some(reason@),
                None => keepalive_loss(sent) is None,
            },
    {
        match sent {
            Ok(()) => None,
            Err(e) => {
                let mut reason = "keepalive 실패: ".to_owned();
                reason.append(e.as_str());
                Some(SshOutcome::Disconnected(reason))
            },
        }
    }
}

/// The number of timeouts in a row after these reads of a new shell.
pub open spec fn timeouts_after(reads: Seq<Read>) -> u32
    decreases reads.len(),
{
    if reads.len() == 0 {
        0
    } else {
        timeouts_after_read(timeouts_after(reads.drop_last()), reads.last())
    }
}

/// How many of the last reads timed out.
pub open spec fn trailing_timeouts(reads: Seq<Read>) -> nat
    decreases reads.len(),
{
    if reads.len() > 0 && reads.last() is TimedOut {
        trailing_timeouts(reads.drop_last()) + 1
    } else {
        0
    }
}

/// Only timeouts in a row count towards giving a session up: any sign of life
/// in between starts the count again, and the third in a row ends the session.
pub proof fn law_timeouts_in_a_row(reads: Seq<Read>)
    requires
        forall|i: int|
            0 <= i < reads.len() ==> !(#[trigger] reads[i] is End) && !(reads[i] is Failed),
    ensures
        timeouts_after(reads) == (if trailing_timeouts(reads) < MAX_TIMEOUTS {
            trailing_timeouts(reads)
        } else {
            MAX_TIMEOUTS as nat
        }),
        reads.len() > 0 ==> (read_loss(timeouts_after(reads.drop_last()), reads.last()) is Some
            <==> trailing_timeouts(reads) >= MAX_TIMEOUTS),
    decreases reads.len(),
{
    if reads.len() > 0 {
        law_timeouts_in_a_row(reads.drop_last());
    }
}

/// What a read means for a session does not depend on the reads before it,
/// except for a timeout: output and silence never end it, and an error always
/// does, with its cause.
pub proof fn law_reads_decide(timeouts: u32, data: Vec<u8>, error: String)
    ensures
        read_loss(timeouts, Read::Data(data)) is None,
        read_loss(timeouts, Read::WouldBlock) is None,
        read_loss(timeouts, Read::End) is None,
        read_loss(timeouts, Read::Failed(error)) == Some("연결 끊김: "@ + error@),
        timeouts_after_read(timeouts, Read::Data(data)) == 0,
        timeouts_after_read(timeouts, Read::WouldBlock) == 0,
        timeouts < 2 ==> read_loss(timeouts, Read::TimedOut) is None && timeouts_after_read(
            timeouts,
            Read::TimedOut,
        ) == timeouts + 1,
        timeouts >= 2 ==> read_loss(timeouts, Read::TimedOut) == Some("서버 응답 없음 (타임아웃)"@),
{
}

/// A remote shell that is still open gets a keepalive every half minute and no
/// sooner. One that has reached its end gets none, however old the last is.
pub proof fn law_keepalive_every_half_minute(age: u64)
    ensures
        pace_at(true, age) == Pace::Close,
        age < 30 ==> pace_at(false, age) == Pace::Wait,
        age >= 30 ==> pace_at(false, age) == Pace::Keepalive,
{
}

/// A keepalive loses a session exactly if it could not be sent, and the reason
/// ends in the cause.
pub proof fn law_lost_keepalive_is_told(sent: Result<(), String>)
    ensures
        keepalive_loss(sent) is Some <==> sent is Err,
        sent matches Err(e) ==> ({
            let reason = keepalive_loss(sent)->0;
            &&& reason.len() >= e@.len()
            &&& reason.skip(reason.len() - e@.len()) == e@
            &&& reason.take(reason.len() - e@.len()) == "keepalive 실패: "@
        }),
{
    if let Err(e) = sent {
        let reason = keepalive_loss(sent)->0;
        assert(reason.skip(reason.len() - e@.len()) == e@);
        assert(reason.take(reason.len() - e@.len()) == "keepalive 실패: "@);
    }
}

/// A local shell is read until a read gives no output. The output of every read
/// before that is sent on, whole, as the last thing that the read sends, and the
/// end is told once, by that last read alone.
pub proof fn law_local_shell_is_read_to_its_end(place: Place, id: u32, data: Vec<u8>, read: Read)
    ensures
        reads_on(Read::Data(data)),
        local_messages(place, id, Read::Data(data)).len() > 0,
        local_messages(place, id, Read::Data(data)).last() == output_message(id, data@),
        !(read is Data) ==> !reads_on(read) && local_messages(place, id, read) == seq![
            exit_message(id),
        ] && place_after_read(Shell::Local, place, read) == place,
{
    law_output_is_passed_on(Shell::Local, place, id, data@);
}

/// The output of a remote shell is sent on, whole, as the last thing that a read
/// sends. A read without output sends nothing and leaves what is half read as it
/// is.
pub proof fn law_remote_output_is_passed_on(place: Place, id: u32, data: Vec<u8>, read: Read)
    ensures
        remote_messages(place, id, Read::Data(data)).len() > 0,
        remote_messages(place, id, Read::Data(data)).last() == output_message(id, data@),
        !(read is Data) ==> remote_messages(place, id, read) == Seq::<Message>::empty()
            && place_after_read(Shell::Remote, place, read) == place,
{
    law_output_is_passed_on(Shell::Remote, place, id, data@);
}

} // verus!
