//! Connecting again after a session was lost.

use vstd::prelude::*;

use crate::events::{error_message, exit_message, messages, reconnected_message, Event, Message};
use crate::events::{pty_error, pty_exit, pty_reconnected};
use crate::shells::SshOutcome;
use crate::text::{decimal, to_decimal};

verus! {

/// How often a lost session is connected again before it is given up.
pub const MAX_ATTEMPTS: u32 = 3;

/// A shell that was open for this many seconds counts as stable.
pub const STABLE_SECS: u64 = 30;

/// What to do after a session ended.
#[derive(Debug, PartialEq, Eq)]
pub enum Verdict {
    /// Send these events and clean up.
    Stop(Vec<Event>),
    /// Send the first event, wait this many seconds, renew the file session,
    /// send the second event, and connect again.
    Retry(Event, u64, Event),
}

/// What a [`Verdict`] says.
#[verifier::ext_equal]
pub enum Plan {
    Stop(Seq<Message>),
    Retry(Message, u64, Message),
}

impl View for Verdict {
    type V = Plan;

    open spec fn view(&self) -> Plan {
        match *self {
            Verdict::Stop(events) => Plan::Stop(messages(events@)),
            Verdict::Retry(lost, wait, back) => Plan::Retry(lost@, wait, back@),
        }
    }
}

/// Why a session was lost; nothing where the user closed it.
pub open spec fn loss(end: Result<SshOutcome, String>) -> Option<Seq<char>> {
    match end {
        Ok(SshOutcome::Closed) => None,
        Ok(SshOutcome::Disconnected(reason)) => Some(reason@),
        Err(e) => Some(e@),
    }
}

/// How many attempts count when a session ends: a connection that was held for
/// long enough wipes out the ones before it. An attempt that never led to a
/// shell held nothing, however long it took.
pub open spec fn counted(attempts: u32, lasted: u64, end: Result<SshOutcome, String>) -> u32 {
    if end is Ok && lasted >= STABLE_SECS {
        0
    } else {
        attempts
    }
}

/// The number of attempts after a session ended.
pub open spec fn attempts_after_end(attempts: u32, lasted: u64, end: Result<SshOutcome, String>) -> u32 {
    if loss(end) is Some && counted(attempts, lasted, end) < MAX_ATTEMPTS {
        (counted(attempts, lasted, end) + 1) as u32
    } else {
        counted(attempts, lasted, end)
    }
}

/// What a tab that is given up is told.
pub open spec fn given_up(id: u32, reason: Seq<char>) -> Seq<Message> {
    seq![error_message(id, reason + " — 재연결 실패"@), exit_message(id)]
}

/// What to do after a session ended.
pub open spec fn plan(id: u32, attempts: u32, lasted: u64, end: Result<SshOutcome, String>) -> Plan {
    match loss(end) {
        None => Plan::Stop(seq![exit_message(id)]),
        Some(reason) => {
            let attempt = counted(attempts, lasted, end) + 1;
            if attempt > MAX_ATTEMPTS {
                Plan::Stop(given_up(id, reason))
            } else {
                Plan::Retry(
                    error_message(
                        id,
                        reason + " — 재연결 중 ("@ + decimal(attempt as nat) + "/3)..."@,
                    ),
                    (2 * attempt) as u64,
                    reconnected_message(id),
                )
            }
        },
    }
}

/// Counts the attempts to connect one tab again.
#[derive(Debug)]
pub struct Reconnect {
    id: u32,
    attempts: u32,
}

impl Reconnect {
    /// The tab.
    pub closed spec fn id(&self) -> u32 {
        self.id
    }

    /// The attempts since the last stable session.
    pub closed spec fn attempts(&self) -> u32 {
        self.attempts
    }

    /// A tab that is connected for the first time.
    pub fn new(id: u32) -> (r: Reconnect)
        ensures
            r.id() == id,
            r.attempts() == 0,
    {
        Reconnect { id, attempts: 0 }
    }

    /// Takes how a session ended and for how many seconds its shell was open,
    /// and decides whether to connect again.
    pub fn on_end(&mut self, lasted: u64, end: Result<SshOutcome, String>) -> (r: Verdict)
        ensures
            final(self).id() == old(self).id(),
            final(self).attempts() == attempts_after_end(old(self).attempts(), lasted, end),
            r@ == plan(old(self).id(), old(self).attempts(), lasted, end),
    {
        if end.is_ok() && lasted >= STABLE_SECS {
            self.attempts = 0;
        }
        let reason = match end {
            Ok(SshOutcome::Closed) => {
                let events: Vec<Event> = vec![pty_exit(self.id)];
                assert(messages(events@) == seq![exit_message(self.id)]);
                return Verdict::Stop(events);
            },
            Ok(SshOutcome::Disconnected(reason)) => reason,
            Err(e) => e,
        };
        if self.attempts >= MAX_ATTEMPTS {
            let mut error = reason;
            error.append(" — 재연결 실패");
            let events: Vec<Event> = vec![pty_error(self.id, error.as_str()), pty_exit(self.id)];
            assert(messages(events@) == seq![
                error_message(self.id, error@),
                exit_message(self.id),
            ]);
            return Verdict::Stop(events);
        }
        self.attempts += 1;
        let mut error = reason;
        error.append(" — 재연결 중 (");
        let attempt = to_decimal(self.attempts as u64);
        error.append(attempt.as_str());
        error.append("/3)...");
        Verdict::Retry(
            pty_error(self.id, error.as_str()),
            2 * self.attempts as u64,
            pty_reconnected(self.id),
        )
    }
}

/// A session that ended: the seconds for which its shell was open, and how it
/// ended.
pub struct Ended {
    pub lasted: u64,
    pub end: Result<SshOutcome, String>,
}

/// The attempts that count after these sessions of a new tab.
pub open spec fn attempts_after(sessions: Seq<Ended>) -> u32
    decreases sessions.len(),
{
    if sessions.len() == 0 {
        0
    } else {
        attempts_after_end(
            attempts_after(sessions.drop_last()),
            sessions.last().lasted,
            sessions.last().end,
        )
    }
}

/// Whether a session was lost without ever having been stable: it was not held
/// for long enough, or never had a shell at all.
pub open spec fn lost_early(s: Ended) -> bool {
    loss(s.end) is Some && (s.lasted < STABLE_SECS || s.end is Err)
}

proof fn lemma_early_losses(sessions: Seq<Ended>)
    requires
        sessions.len() <= MAX_ATTEMPTS,
        forall|i: int| 0 <= i < sessions.len() ==> lost_early(#[trigger] sessions[i]),
    ensures
        attempts_after(sessions) == sessions.len(),
    decreases sessions.len(),
{
    if sessions.len() > 0 {
        lemma_early_losses(sessions.drop_last());
    }
}

/// A new tab whose sessions are all lost early is connected again three times,
/// after two, four and six seconds, and given up at the fourth loss.
pub proof fn law_three_attempts(id: u32, sessions: Seq<Ended>, next: Ended)
    requires
        sessions.len() <= MAX_ATTEMPTS,
        forall|i: int| 0 <= i < sessions.len() ==> lost_early(#[trigger] sessions[i]),
        lost_early(next),
    ensures
        sessions.len() < MAX_ATTEMPTS ==> (plan(
            id,
            attempts_after(sessions),
            next.lasted,
            next.end,
        ) matches Plan::Retry(_, wait, _) && wait == 2 * (sessions.len() + 1)),
        sessions.len() == MAX_ATTEMPTS ==> plan(
            id,
            attempts_after(sessions),
            next.lasted,
            next.end,
        ) == Plan::Stop(given_up(id, loss(next.end)->0)),
{
    lemma_early_losses(sessions);
}

/// Attempts that never led to a shell stop after the fourth, however long each
/// of them took.
pub proof fn law_failed_attempts_stop(id: u32, sessions: Seq<Ended>, next: Ended)
    requires
        sessions.len() == MAX_ATTEMPTS,
        forall|i: int| 0 <= i < sessions.len() ==> (#[trigger] sessions[i]).end is Err,
        next.end is Err,
    ensures
        plan(id, attempts_after(sessions), next.lasted, next.end) == Plan::Stop(
            given_up(id, next.end->Err_0@),
        ),
{
    assert forall|i: int| 0 <= i < sessions.len() implies lost_early(#[trigger] sessions[i]) by {
        assert(sessions[i].end is Err);
    }
    law_three_attempts(id, sessions, next);
}

/// However many attempts there were, a connection that was held for half a
/// minute and is lost is connected again as at the first attempt. One that was
/// held for less counts as one more attempt.
pub proof fn law_stable_session_resets(id: u32, attempts: u32, s: Ended)
    requires
        s.end is Ok,
        loss(s.end) is Some,
    ensures
        s.lasted >= 30 ==> {
            &&& plan(id, attempts, s.lasted, s.end) matches Plan::Retry(_, wait, _)
            &&& wait == 2
            &&& attempts_after_end(attempts, s.lasted, s.end) == 1
        },
        s.lasted < 30 && attempts < 3 ==> {
            &&& plan(id, attempts, s.lasted, s.end) matches Plan::Retry(_, wait, _)
            &&& wait == 2 * (attempts + 1)
            &&& attempts_after_end(attempts, s.lasted, s.end) == attempts + 1
        },
        s.lasted < 30 && attempts >= 3 ==> plan(id, attempts, s.lasted, s.end) is Stop,
{
}

/// A session that the user closed is never connected again.
pub proof fn law_closed_stays_closed(id: u32, attempts: u32, lasted: u64)
    ensures
        plan(id, attempts, lasted, Ok(SshOutcome::Closed)) == Plan::Stop(seq![exit_message(id)]),
{
}

/// The attempts that count never exceed the limit.
pub proof fn law_attempts_bounded(sessions: Seq<Ended>)
    ensures
        attempts_after(sessions) <= MAX_ATTEMPTS,
    decreases sessions.len(),
{
    if sessions.len() > 0 {
        law_attempts_bounded(sessions.drop_last());
    }
}

/// A session that is lost early, for whatever reason, is connected again unless
/// it was tried three times before. The user is told the reason and which of the
/// three attempts follows, each wait is two seconds longer than the last, and
/// the window hears of it when the tab is back. At the fourth loss the user is
/// told the reason, and the tab is over.
pub proof fn law_loss_is_told(id: u32, attempts: u32, s: Ended)
    requires
        lost_early(s),
        attempts <= 3,
    ensures
        attempts < 3 ==> plan(id, attempts, s.lasted, s.end) == Plan::Retry(
            error_message(
                id,
                loss(s.end)->0 + " — 재연결 중 ("@ + decimal((attempts + 1) as nat) + "/3)..."@,
            ),
            (2 * (attempts + 1)) as u64,
            reconnected_message(id),
        ),
        attempts < 3 ==> attempts_after_end(attempts, s.lasted, s.end) == attempts + 1,
        attempts == 3 ==> plan(id, attempts, s.lasted, s.end) == Plan::Stop(
            seq![error_message(id, loss(s.end)->0 + " — 재연결 실패"@), exit_message(id)],
        ),
{
}

/// The reason of a loss is told as it is, be it that the connection broke or
/// that none came about; a session that the user closed is no loss.
pub proof fn law_reason_is_kept(reason: String)
    ensures
        loss(Ok(SshOutcome::Disconnected(reason))) == Some(reason@),
        loss(Err(reason)) == Some(reason@),
        loss(Ok(SshOutcome::Closed)) is None,
{
}

} // verus!
