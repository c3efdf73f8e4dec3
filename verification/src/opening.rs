//! Opening a session with a server, step by step.
//!
//! The order of the steps is what keeps a login from a server that is not
//! trusted: nothing is tried before its key has been judged.

use vstd::prelude::*;

use crate::auth::Purpose;
use crate::config::SshConfig;
use crate::failures::{connecting_failure, word_connecting_failure, Connecting};
use crate::hostkey::{ruling, verify_host_key, Evidence, Judgement, Ruling};

verus! {

/// What to do next to open a session.
#[derive(Debug, PartialEq, Eq)]
pub enum Stage {
    /// Find the address of the host.
    Resolve,
    /// Reach the host.
    Reach,
    /// Set the session up.
    Prepare,
    /// Agree on a session.
    Handshake,
    /// Look the key of the server up.
    CheckKey,
    /// Add the key of the server to the list under this name.
    Remember(String),
    /// Log in.
    LogIn,
    /// Nothing: the session is open.
    Ready,
}

/// What a [`Stage`] is.
#[verifier::ext_equal]
pub enum At {
    Resolve,
    Reach,
    Prepare,
    Handshake,
    CheckKey,
    Remember(Seq<char>),
    LogIn,
    Ready,
}

impl View for Stage {
    type V = At;

    open spec fn view(&self) -> At {
        match *self {
            Stage::Resolve => At::Resolve,
            Stage::Reach => At::Reach,
            Stage::Prepare => At::Prepare,
            Stage::Handshake => At::Handshake,
            Stage::CheckKey => At::CheckKey,
            Stage::Remember(name) => At::Remember(name@),
            Stage::LogIn => At::LogIn,
            Stage::Ready => At::Ready,
        }
    }
}

/// What came of a stage.
#[derive(Debug, PartialEq, Eq)]
pub enum Came {
    /// It went well.
    Well,
    /// It failed, for this reason.
    Badly(String),
    /// This is known of the key of the server.
    Shown(Evidence),
}

/// Where a session stands after a stage, or why it is given up. An answer that
/// does not belong to the stage changes nothing; in particular, only a key that
/// was looked up leads on from looking it up.
pub open spec fn stage_after(purpose: Purpose, config: SshConfig, at: At, came: Came) -> Result<
    At,
    Seq<char>,
> {
    match (at, came) {
        (At::Resolve, Came::Well) => Ok(At::Reach),
        (At::Reach, Came::Well) => Ok(At::Prepare),
        (At::Prepare, Came::Well) => Ok(At::Handshake),
        (At::Handshake, Came::Well) => Ok(At::CheckKey),
        (At::CheckKey, Came::Shown(evidence)) => match ruling(evidence, config.host@, config.port) {
            Ruling::Trust => Ok(At::LogIn),
            Ruling::Remember(name) => Ok(At::Remember(name)),
            Ruling::Refuse(reason) => Err(reason),
        },
        (At::Remember(_), Came::Well) => Ok(At::LogIn),
        (At::LogIn, Came::Well) => Ok(At::Ready),
        (At::Resolve, Came::Badly(e)) => Err(
            connecting_failure(purpose, Connecting::Resolve, config.address_text(), e@),
        ),
        (At::Reach, Came::Badly(e)) => Err(
            connecting_failure(purpose, Connecting::Reach, config.address_text(), e@),
        ),
        (At::Handshake, Came::Badly(e)) => Err(
            connecting_failure(purpose, Connecting::Handshake, config.address_text(), e@),
        ),
        (At::Ready, _) => Ok(At::Ready),
        (_, Came::Badly(e)) => Err(e@),
        _ => Ok(at),
    }
}

impl Stage {
    /// The first stage.
    pub fn first() -> (r: Stage)
        ensures
            r@ == At::Resolve,
    {
        Stage::Resolve
    }

    /// Takes what came of this stage and gives the next one, or the reason why
    /// the session is given up.
    pub fn answer(self, purpose: Purpose, config: &SshConfig, came: Came) -> (r: Result<
        Stage,
        String,
    >)
        ensures
            match r {
                Ok(next) => stage_after(purpose, *config, self@, came) == Ok::<At, Seq<char>>(next@),
                Err(e) => stage_after(purpose, *config, self@, came) == Err::<At, Seq<char>>(e@),
            },
    {
        match came {
            Came::Well => Ok(
                match self {
                    Stage::Resolve => Stage::Reach,
                    Stage::Reach => Stage::Prepare,
                    Stage::Prepare => Stage::Handshake,
                    Stage::Handshake => Stage::CheckKey,
                    Stage::CheckKey => Stage::CheckKey,
                    Stage::Remember(_) => Stage::LogIn,
                    Stage::LogIn | Stage::Ready => Stage::Ready,
                },
            ),
            Came::Shown(evidence) => match self {
                Stage::CheckKey => match verify_host_key(evidence, config.host.as_str(), config.port) {
                    Judgement::Trust => Ok(Stage::LogIn),
                    Judgement::Remember(name) => Ok(Stage::Remember(name)),
                    Judgement::Refuse(reason) => Err(reason),
                },
                other => Ok(other),
            },
            Came::Badly(e) => {
                let step = match self {
                    Stage::Resolve => Connecting::Resolve,
                    Stage::Reach => Connecting::Reach,
                    Stage::Handshake => Connecting::Handshake,
                    Stage::Ready => {
                        return Ok(Stage::Ready);
                    },
                    _ => {
                        return Err(e);
                    },
                };
                let address = config.address();
                Err(word_connecting_failure(purpose, step, address.as_str(), e.as_str()))
            },
        }
    }
}

/// Where a session stands after these answers, from the first stage on. One
/// that was given up stays so.
pub open spec fn stage_after_all(purpose: Purpose, config: SshConfig, answers: Seq<Came>) -> Result<
    At,
    Seq<char>,
>
    decreases answers.len(),
{
    if answers.len() == 0 {
        Ok(At::Resolve)
    } else {
        match stage_after_all(purpose, config, answers.drop_last()) {
            Ok(at) => stage_after(purpose, config, at, answers.last()),
            Err(e) => Err(e),
        }
    }
}

/// Whether what is known of its key lets a server in.
pub open spec fn lets_in(config: SshConfig, came: Came) -> bool {
    came matches Came::Shown(evidence) && !(ruling(evidence, config.host@, config.port) is Refuse)
}

/// No login is tried, and no session is open, unless the key of the server was
/// looked up and the server trusted or remembered.
pub proof fn law_login_follows_trust(purpose: Purpose, config: SshConfig, answers: Seq<Came>)
    requires
        stage_after_all(purpose, config, answers) matches Ok(at) && (at is LogIn || at is Ready
            || at is Remember),
    ensures
        exists|i: int|
            0 <= i < answers.len() && #[trigger] lets_in(config, answers[i]) && stage_after_all(
                purpose,
                config,
                answers.take(i),
            ) == Ok::<At, Seq<char>>(At::CheckKey),
    decreases answers.len(),
{
    let n = answers.len() - 1;
    let before = answers.drop_last();
    assert(before == answers.take(n));
    let earlier = stage_after_all(purpose, config, before);
    if earlier == Ok::<At, Seq<char>>(At::CheckKey) {
        assert(lets_in(config, answers[n]));
    } else {
        law_login_follows_trust(purpose, config, before);
        let i = choose|i: int|
            0 <= i < before.len() && #[trigger] lets_in(config, before[i]) && stage_after_all(
                purpose,
                config,
                before.take(i),
            ) == Ok::<At, Seq<char>>(At::CheckKey);
        assert(before.take(i) == answers.take(i));
        assert(lets_in(config, answers[i]));
    }
}

/// A server that is refused is never logged in to: whatever follows, the session
/// stays given up for the reason of the refusal.
pub proof fn law_refused_server_gets_no_login(
    purpose: Purpose,
    config: SshConfig,
    answers: Seq<Came>,
    evidence: Evidence,
    more: Seq<Came>,
)
    requires
        stage_after_all(purpose, config, answers) == Ok::<At, Seq<char>>(At::CheckKey),
        ruling(evidence, config.host@, config.port) is Refuse,
    ensures
        stage_after_all(purpose, config, answers.push(Came::Shown(evidence)) + more) == Err::<
            At,
            Seq<char>,
        >(ruling(evidence, config.host@, config.port)->Refuse_0),
    decreases more.len(),
{
    let refused = answers.push(Came::Shown(evidence));
    if more.len() == 0 {
        assert(refused + more == refused);
        assert(refused.drop_last() == answers);
    } else {
        law_refused_server_gets_no_login(purpose, config, answers, evidence, more.drop_last());
        assert((refused + more).drop_last() == refused + more.drop_last());
    }
}

/// The stages that a session takes to the key of the server, in order.
pub open spec fn stages_to_key() -> Seq<At> {
    seq![At::Resolve, At::Reach, At::Prepare, At::Handshake, At::CheckKey]
}

/// A session goes through all its stages as long as each goes well: from one to
/// the next up to the key of the server, then to the login where the server is
/// trusted, and once it is logged in it is open.
pub proof fn law_session_opens(purpose: Purpose, config: SshConfig, k: int, trusted: Evidence)
    requires
        0 <= k < 4,
        ruling(trusted, config.host@, config.port) is Trust,
    ensures
        stage_after(purpose, config, stages_to_key()[k], Came::Well) == Ok::<At, Seq<char>>(
            stages_to_key()[k + 1],
        ),
        stage_after(purpose, config, At::CheckKey, Came::Shown(trusted)) == Ok::<At, Seq<char>>(
            At::LogIn,
        ),
        stage_after(purpose, config, At::LogIn, Came::Well) == Ok::<At, Seq<char>>(At::Ready),
{
}

/// A new server is logged in to only once it was remembered, under the name that
/// its judgement gave.
pub proof fn law_new_server_is_remembered_first(
    purpose: Purpose,
    config: SshConfig,
    new: Evidence,
    name: Seq<char>,
    error: String,
)
    requires
        ruling(new, config.host@, config.port) == Ruling::Remember(name),
    ensures
        stage_after(purpose, config, At::CheckKey, Came::Shown(new)) == Ok::<At, Seq<char>>(
            At::Remember(name),
        ),
        stage_after(purpose, config, At::Remember(name), Came::Well) == Ok::<At, Seq<char>>(
            At::LogIn,
        ),
        stage_after(purpose, config, At::Remember(name), Came::Badly(error)) == Err::<
            At,
            Seq<char>,
        >(error@),
{
}

/// A session that is not yet open is given up as soon as anything fails. A file
/// session tells the cause alone; a shell words it where the host could not be
/// found, reached or agreed with, and tells the cause alone everywhere else.
pub proof fn law_failure_gives_up(purpose: Purpose, config: SshConfig, at: At, error: String)
    requires
        !(at is Ready),
    ensures
        stage_after(purpose, config, at, Came::Badly(error)) == Err::<At, Seq<char>>(
            if purpose == Purpose::Sftp || !(at is Resolve || at is Reach || at is Handshake) {
                error@
            } else {
                connecting_failure(
                    Purpose::Shell,
                    if at is Resolve {
                        Connecting::Resolve
                    } else if at is Reach {
                        Connecting::Reach
                    } else {
                        Connecting::Handshake
                    },
                    config.address_text(),
                    error@,
                )
            },
        ),
{
}

/// A key that was not looked up leads nowhere, nor does a key at any other
/// stage; and a session that is open stays open.
pub proof fn law_other_answers_change_nothing(
    purpose: Purpose,
    config: SshConfig,
    at: At,
    evidence: Evidence,
    came: Came,
)
    ensures
        stage_after(purpose, config, At::CheckKey, Came::Well) == Ok::<At, Seq<char>>(At::CheckKey),
        !(at is CheckKey) ==> stage_after(purpose, config, at, Came::Shown(evidence)) == Ok::<
            At,
            Seq<char>,
        >(at),
        stage_after(purpose, config, At::Ready, came) == Ok::<At, Seq<char>>(At::Ready),
{
}

} // verus!
