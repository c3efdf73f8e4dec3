//! Logging in to a server.
//!
//! A login tries a list of methods in order until the server accepts one. The
//! list depends on the settings of the connection and on what the session is
//! for; trying a method is left to the caller, who reports what came of it.

use vstd::prelude::*;

use crate::config::SshConfig;
use crate::paths::{expand_path_with_home, expanded, join, joined};
use crate::text::{chars_of, same_ignoring_case, trim, trimmed};

verus! {

/// What a session is for.
#[derive(Debug, Clone, Copy, PartialEq, Eq, Structural)]
pub enum Purpose {
    /// A shell in a terminal.
    Shell,
    /// File transfers and the file tree.
    Sftp,
}

/// A way to log in.
#[derive(Debug, PartialEq, Eq)]
pub enum Method {
    /// Every identity that the SSH agent holds.
    Agent,
    /// A key file, if it is there. Any attempt looks for its passphrase in the
    /// keychain, also a quiet one; only an interactive attempt may ask for it.
    KeyFile { path: String, interactive: bool },
    /// The password that the keychain holds, if it holds one.
    StoredPassword,
    /// A password that the user is asked for.
    AskPassword,
}

/// What a [`Method`] is.
pub enum Way {
    Agent,
    KeyFile { path: Seq<char>, interactive: bool },
    StoredPassword,
    AskPassword,
}

impl View for Method {
    type V = Way;

    open spec fn view(&self) -> Way {
        match *self {
            Method::Agent => Way::Agent,
            Method::KeyFile { path, interactive } => Way::KeyFile { path: path@, interactive },
            Method::StoredPassword => Way::StoredPassword,
            Method::AskPassword => Way::AskPassword,
        }
    }
}

/// What a list of methods is.
pub open spec fn ways(methods: Seq<Method>) -> Seq<Way> {
    methods.map_values(|m: Method| m@)
}

/// One of the key files that are tried unasked.
pub open spec fn default_key(home: Seq<char>, file: Seq<char>) -> Way {
    Way::KeyFile { path: joined(joined(home, ".ssh"@), file), interactive: false }
}

/// The key that the user configured, where there is one.
pub open spec fn configured_key(config: SshConfig, home: Seq<char>) -> Seq<Way> {
    if trimmed(config.key_path@).len() > 0 {
        seq![Way::KeyFile { path: expanded(config.key_path@, home), interactive: true }]
    } else {
        Seq::empty()
    }
}

/// The methods that need no password, in order.
pub open spec fn key_ways(config: SshConfig, home: Seq<char>) -> Seq<Way> {
    seq![Way::Agent] + configured_key(config, home) + seq![
        default_key(home, "id_ed25519"@),
        default_key(home, "id_rsa"@),
        default_key(home, "id_ecdsa"@),
    ]
}

/// The methods that use a password, in order. A file session never asks.
pub open spec fn password_ways(purpose: Purpose) -> Seq<Way> {
    match purpose {
        Purpose::Shell => seq![Way::StoredPassword, Way::AskPassword],
        Purpose::Sftp => seq![Way::StoredPassword],
    }
}

/// All methods of a login, in order.
pub open spec fn login_ways(purpose: Purpose, config: SshConfig, home: Seq<char>) -> Seq<Way> {
    let keys = if config.wants_password() {
        Seq::empty()
    } else {
        key_ways(config, home)
    };
    let passwords = if config.wants_key() {
        Seq::empty()
    } else {
        password_ways(purpose)
    };
    keys + passwords
}

/// Lists the methods of a login.
pub fn login_methods(purpose: Purpose, config: &SshConfig, home: &str) -> (r: Vec<Method>)
    ensures
        ways(r@) == login_ways(purpose, *config, home@),
{
    let mut r: Vec<Method> = Vec::new();
    if !config.is_password_mode() {
        r.push(Method::Agent);
        let key_path = chars_of(config.key_path.as_str());
        if trim(key_path.as_slice()).len() > 0 {
            let path = expand_path_with_home(config.key_path.as_str(), home);
            r.push(Method::KeyFile { path, interactive: true });
        }
        let dir = join(home, ".ssh");
        r.push(Method::KeyFile { path: join(dir.as_str(), "id_ed25519"), interactive: false });
        r.push(Method::KeyFile { path: join(dir.as_str(), "id_rsa"), interactive: false });
        r.push(Method::KeyFile { path: join(dir.as_str(), "id_ecdsa"), interactive: false });
        assert(ways(r@) == key_ways(*config, home@));
    }
    if !config.is_key_mode() {
        let ghost keys = ways(r@);
        r.push(Method::StoredPassword);
        if purpose == Purpose::Shell {
            r.push(Method::AskPassword);
        }
        assert(ways(r@) == keys + password_ways(purpose));
    }
    assert(ways(r@) == login_ways(purpose, *config, home@));
    r
}

/// What came of trying a method.
#[derive(Debug, PartialEq, Eq)]
pub enum Reply {
    /// There was nothing to try: no such file, no stored password, or the user
    /// cancelled.
    Skipped,
    /// The method was tried. `call` is what the attempt returned, and
    /// `authenticated` whether the session counted as logged in afterwards.
    Tried { call: Result<(), String>, authenticated: bool },
}

impl Reply {
    /// Whether the server accepted the attempt.
    pub open spec fn accepted(&self) -> bool {
        self matches Reply::Tried { call, authenticated } && call is Ok && *authenticated
    }

    /// Decides whether the server accepted the attempt.
    pub fn is_accepted(&self) -> (r: bool)
        ensures
            r == self.accepted(),
    {
        match self {
            Reply::Tried { call: Ok(()), authenticated } => *authenticated,
            _ => false,
        }
    }
}

/// What to do after a reply.
#[derive(Debug, Clone, Copy, PartialEq, Eq, Structural)]
pub enum Step {
    /// Go on: ask the login what to try next.
    Proceed,
    /// Keep the password that was just asked for, then go on.
    SavePassword,
}

/// How far a login got.
#[verifier::ext_equal]
pub struct Progress {
    /// The methods that are still to be tried, in order.
    pub remaining: Seq<Way>,
    /// Whether a method was accepted.
    pub accepted: bool,
}

/// How far a login got once the first remaining method was tried.
pub open spec fn progress_after(p: Progress, reply: Reply) -> Progress {
    Progress { remaining: p.remaining.skip(1), accepted: reply.accepted() }
}

/// What to do once the first remaining method was tried: a password that the
/// user was asked for is kept once accepted.
pub open spec fn step_after(p: Progress, reply: Reply) -> Step {
    if p.remaining[0] == Way::AskPassword && reply.accepted() {
        Step::SavePassword
    } else {
        Step::Proceed
    }
}

/// Whether a login succeeded. A shell needs an accepted method; a file session
/// goes by what the session itself says at the end.
pub open spec fn logged_in(purpose: Purpose, accepted: bool, session_authenticated: bool) -> bool {
    match purpose {
        Purpose::Shell => accepted,
        Purpose::Sftp => session_authenticated,
    }
}

/// A login that is under way.
#[derive(Debug)]
pub struct Login {
    purpose: Purpose,
    methods: Vec<Method>,
    next: usize,
    authenticated: bool,
}

impl Login {
    /// What the session is for.
    pub closed spec fn purpose(&self) -> Purpose {
        self.purpose
    }

    /// The methods that are still to be tried, in order.
    pub closed spec fn remaining(&self) -> Seq<Way> {
        if self.next <= self.methods@.len() {
            ways(self.methods@.skip(self.next as int))
        } else {
            Seq::empty()
        }
    }

    /// Whether a method was accepted.
    pub closed spec fn accepted(&self) -> bool {
        self.authenticated
    }

    /// How far the login got.
    pub open spec fn progress(&self) -> Progress {
        Progress { remaining: self.remaining(), accepted: self.accepted() }
    }

    /// Starts a login.
    pub fn start(purpose: Purpose, config: &SshConfig, home: &str) -> (r: Login)
        ensures
            r.purpose() == purpose,
            r.remaining() == login_ways(purpose, *config, home@),
            !r.accepted(),
    {
        let methods = login_methods(purpose, config, home);
        assert(methods@.skip(0) == methods@);
        Login { purpose, methods, next: 0, authenticated: false }
    }

    /// The method to try now: the first of the remaining ones, unless the login
    /// is over.
    pub fn current(&self) -> (r: Option<&Method>)
        ensures
            match r {
                Some(m) => !self.accepted() && self.remaining().len() > 0 && m@
                    == self.remaining()[0],
                None => self.accepted() || self.remaining().len() == 0,
            },
    {
        if !self.authenticated && self.next < self.methods.len() {
            Some(&self.methods[self.next])
        } else {
            None
        }
    }

    /// Takes what came of the current method.
    ///
    /// An accepted attempt ends the login, a refused one leads to the next
    /// method. A password that the user was asked for is kept only once
    /// accepted.
    pub fn report(&mut self, reply: Reply) -> (r: Step)
        requires
            !old(self).accepted(),
            old(self).remaining().len() > 0,
        ensures
            final(self).purpose() == old(self).purpose(),
            final(self).accepted() == reply.accepted(),
            final(self).remaining() == old(self).remaining().skip(1),
            final(self).progress() == progress_after(old(self).progress(), reply),
            r == step_after(old(self).progress(), reply),
            r == (if old(self).remaining()[0] == Way::AskPassword && reply.accepted() {
                Step::SavePassword
            } else {
                Step::Proceed
            }),
    {
        let n: usize = self.methods.len();
        assert(self.next < n);
        let asked = match &self.methods[self.next] {
            Method::AskPassword => true,
            _ => false,
        };
        proof {
            assert(self.methods@.skip(self.next as int).skip(1) == self.methods@.skip(
                self.next + 1,
            ));
            assert(ways(self.methods@.skip(self.next as int)).skip(1) == ways(
                self.methods@.skip(self.next as int).skip(1),
            ));
        }
        self.next += 1;
        self.authenticated = reply.is_accepted();
        if asked && self.authenticated {
            Step::SavePassword
        } else {
            Step::Proceed
        }
    }

    /// Decides whether the login succeeded. A shell needs an accepted method; a
    /// file session goes by what the session itself says at the end.
    pub fn finish(&self, session_authenticated: bool) -> (r: Result<(), String>)
        ensures
            r is Ok <==> logged_in(self.purpose(), self.accepted(), session_authenticated),
            r matches Err(e) ==> e@ == login_failure(self.purpose()),
    {
        match self.purpose {
            Purpose::Shell => if self.authenticated {
                Ok(())
            } else {
                Err("인증 실패".to_owned())
            },
            Purpose::Sftp => if session_authenticated {
                Ok(())
            } else {
                Err("SFTP 인증 실패".to_owned())
            },
        }
    }
}

/// What the user is told when no method was accepted.
pub open spec fn login_failure(purpose: Purpose) -> Seq<char> {
    match purpose {
        Purpose::Shell => "인증 실패"@,
        Purpose::Sftp => "SFTP 인증 실패"@,
    }
}

/// The next thing to do in a login with one key file. Each is answered with
/// yes or no.
///
/// The key is tried without a passphrase, then with the one that the keychain
/// holds. That much a quiet login does too; what it never does is ask.
#[derive(Debug, Clone, Copy, PartialEq, Eq, Structural)]
pub enum KeyStep {
    /// Can the file be read?
    CheckFile,
    /// Was the key accepted without a passphrase?
    TryBare,
    /// Does the keychain hold a passphrase for the key?
    LookUp,
    /// Was the key accepted with the passphrase from the keychain?
    TryStored,
    /// Did the user give a passphrase?
    Ask,
    /// Was the key accepted with the passphrase from the user?
    TryAsked,
    /// Put the passphrase from the user into the keychain, whatever comes of
    /// it.
    Save,
    /// Nothing: the login is over, and this is whether the key was accepted.
    Done(bool),
}

/// What follows once the keychain has been of no help.
pub open spec fn without_stored(interactive: bool) -> KeyStep {
    if interactive {
        KeyStep::Ask
    } else {
        KeyStep::Done(false)
    }
}

/// What follows an answer.
pub open spec fn next_key_step(interactive: bool, step: KeyStep, yes: bool) -> KeyStep {
    match (step, yes) {
        (KeyStep::CheckFile, true) => KeyStep::TryBare,
        (KeyStep::CheckFile, false) => KeyStep::Done(false),
        (KeyStep::TryBare, true) => KeyStep::Done(true),
        (KeyStep::TryBare, false) => KeyStep::LookUp,
        (KeyStep::LookUp, true) => KeyStep::TryStored,
        (KeyStep::LookUp, false) => without_stored(interactive),
        (KeyStep::TryStored, true) => KeyStep::Done(true),
        (KeyStep::TryStored, false) => without_stored(interactive),
        (KeyStep::Ask, true) => KeyStep::TryAsked,
        (KeyStep::Ask, false) => KeyStep::Done(false),
        (KeyStep::TryAsked, true) => KeyStep::Save,
        (KeyStep::TryAsked, false) => KeyStep::Done(false),
        (KeyStep::Save, _) => KeyStep::Done(true),
        (KeyStep::Done(accepted), _) => KeyStep::Done(accepted),
    }
}

impl KeyStep {
    /// The first step.
    pub fn first() -> (r: KeyStep)
        ensures
            r == KeyStep::CheckFile,
    {
        KeyStep::CheckFile
    }

    /// Takes the answer to this step and gives the next one.
    pub fn answer(self, interactive: bool, yes: bool) -> (r: KeyStep)
        ensures
            r == next_key_step(interactive, self, yes),
    {
        let unaided = if interactive {
            KeyStep::Ask
        } else {
            KeyStep::Done(false)
        };
        match self {
            KeyStep::CheckFile => if yes {
                KeyStep::TryBare
            } else {
                KeyStep::Done(false)
            },
            KeyStep::TryBare => if yes {
                KeyStep::Done(true)
            } else {
                KeyStep::LookUp
            },
            KeyStep::LookUp => if yes {
                KeyStep::TryStored
            } else {
                unaided
            },
            KeyStep::TryStored => if yes {
                KeyStep::Done(true)
            } else {
                unaided
            },
            KeyStep::Ask => if yes {
                KeyStep::TryAsked
            } else {
                KeyStep::Done(false)
            },
            KeyStep::TryAsked => if yes {
                KeyStep::Save
            } else {
                KeyStep::Done(false)
            },
            KeyStep::Save => KeyStep::Done(true),
            KeyStep::Done(accepted) => KeyStep::Done(accepted),
        }
    }
}

/// The step that a login with a key file has reached after these answers.
pub open spec fn key_step_after(interactive: bool, answers: Seq<bool>) -> KeyStep
    decreases answers.len(),
{
    if answers.len() == 0 {
        KeyStep::CheckFile
    } else {
        next_key_step(
            interactive,
            key_step_after(interactive, answers.drop_last()),
            answers.last(),
        )
    }
}

/// A login that may not be interactive never asks for a passphrase.
pub proof fn law_quiet_key_never_asks(answers: Seq<bool>)
    ensures
        !(key_step_after(false, answers) is Ask),
        !(key_step_after(false, answers) is TryAsked),
        !(key_step_after(false, answers) is Save),
    decreases answers.len(),
{
    if answers.len() > 0 {
        law_quiet_key_never_asks(answers.drop_last());
    }
}

spec fn key_steps_left(step: KeyStep) -> nat {
    match step {
        KeyStep::CheckFile => 7,
        KeyStep::TryBare => 6,
        KeyStep::LookUp => 5,
        KeyStep::TryStored => 4,
        KeyStep::Ask => 3,
        KeyStep::TryAsked => 2,
        KeyStep::Save => 1,
        KeyStep::Done(_) => 0,
    }
}

proof fn lemma_key_steps_left(interactive: bool, answers: Seq<bool>)
    ensures
        answers.len() <= 7 ==> key_steps_left(key_step_after(interactive, answers)) <= 7
            - answers.len(),
        answers.len() > 7 ==> key_steps_left(key_step_after(interactive, answers)) == 0,
    decreases answers.len(),
{
    if answers.len() > 0 {
        lemma_key_steps_left(interactive, answers.drop_last());
    }
}

/// Seven answers settle a login with a key file, whatever they are.
pub proof fn law_key_login_ends(interactive: bool, answers: Seq<bool>)
    requires
        answers.len() >= 7,
    ensures
        key_step_after(interactive, answers) is Done,
{
    lemma_key_steps_left(interactive, answers);
}

/// Whether one of the attempts that these answers report was accepted.
pub open spec fn key_accepted(interactive: bool, answers: Seq<bool>) -> bool
    decreases answers.len(),
{
    answers.len() > 0 && {
        ||| key_accepted(interactive, answers.drop_last())
        ||| answers.last() && is_attempt(key_step_after(interactive, answers.drop_last()))
    }
}

/// Whether a step hands the key to the server.
pub open spec fn is_attempt(step: KeyStep) -> bool {
    step is TryBare || step is TryStored || step is TryAsked
}

proof fn lemma_key_accepted(interactive: bool, answers: Seq<bool>)
    ensures
        key_accepted(interactive, answers) <==> (key_step_after(interactive, answers)
            == KeyStep::Done(true) || key_step_after(interactive, answers) is Save),
    decreases answers.len(),
{
    if answers.len() > 0 {
        lemma_key_accepted(interactive, answers.drop_last());
    }
}

/// A login with a key file that is over succeeded exactly if the server
/// accepted one of its attempts.
pub proof fn law_key_login_result(interactive: bool, answers: Seq<bool>, accepted: bool)
    requires
        key_step_after(interactive, answers) == KeyStep::Done(accepted),
    ensures
        accepted == key_accepted(interactive, answers),
{
    lemma_key_accepted(interactive, answers);
}

/// The next thing to do in a login through the SSH agent. Each is answered with
/// yes or no.
#[derive(Debug, Clone, Copy, PartialEq, Eq, Structural)]
pub enum AgentStep {
    /// Is there an agent?
    Open,
    /// Can it be reached?
    Connect,
    /// Did it say which identities it holds?
    Identities,
    /// Was this one of its identities accepted?
    Try(usize),
    /// Nothing: the login is over, and this is whether an identity was accepted.
    Done(bool),
}

/// What follows an answer, where the agent holds `count` identities.
pub open spec fn next_agent_step(count: usize, step: AgentStep, yes: bool) -> AgentStep {
    match (step, yes) {
        (AgentStep::Open, true) => AgentStep::Connect,
        (AgentStep::Connect, true) => AgentStep::Identities,
        (AgentStep::Identities, true) => if count > 0 {
            AgentStep::Try(0)
        } else {
            AgentStep::Done(false)
        },
        (AgentStep::Try(_), true) => AgentStep::Done(true),
        (AgentStep::Try(i), false) => if i + 1 < count {
            AgentStep::Try((i + 1) as usize)
        } else {
            AgentStep::Done(false)
        },
        (AgentStep::Done(accepted), _) => AgentStep::Done(accepted),
        (_, false) => AgentStep::Done(false),
    }
}

impl AgentStep {
    /// The first step.
    pub fn first() -> (r: AgentStep)
        ensures
            r == AgentStep::Open,
    {
        AgentStep::Open
    }

    /// Takes the answer to this step and gives the next one. `count` is the
    /// number of identities, as soon as it is known.
    pub fn answer(self, count: usize, yes: bool) -> (r: AgentStep)
        ensures
            r == next_agent_step(count, self, yes),
    {
        match self {
            AgentStep::Done(accepted) => AgentStep::Done(accepted),
            AgentStep::Try(i) => if yes {
                AgentStep::Done(true)
            } else if count > 0 && i < count - 1 {
                AgentStep::Try(i + 1)
            } else {
                AgentStep::Done(false)
            },
            _ if !yes => AgentStep::Done(false),
            AgentStep::Open => AgentStep::Connect,
            AgentStep::Connect => AgentStep::Identities,
            AgentStep::Identities => if count > 0 {
                AgentStep::Try(0)
            } else {
                AgentStep::Done(false)
            },
        }
    }
}

/// The step that a login through the agent has reached after these answers.
pub open spec fn agent_step_after(count: usize, answers: Seq<bool>) -> AgentStep
    decreases answers.len(),
{
    if answers.len() == 0 {
        AgentStep::Open
    } else {
        next_agent_step(count, agent_step_after(count, answers.drop_last()), answers.last())
    }
}

/// How many identities were tried by these answers.
pub open spec fn identities_tried(count: usize, answers: Seq<bool>) -> nat
    decreases answers.len(),
{
    if answers.len() == 0 {
        0
    } else {
        identities_tried(count, answers.drop_last()) + (if agent_step_after(
            count,
            answers.drop_last(),
        ) is Try {
            1nat
        } else {
            0
        })
    }
}

/// The identities of the agent are tried one after the other, each once: the one
/// that is tried now is the first that was not tried before, and all before it
/// were refused.
pub proof fn law_identities_in_order(count: usize, answers: Seq<bool>)
    ensures
        agent_step_after(count, answers) matches AgentStep::Try(i) ==> i < count && i
            == identities_tried(count, answers) && answers.len() == i + 3 && (forall|k: int|
            3 <= k < answers.len() ==> !#[trigger] answers[k]),
    decreases answers.len(),
{
    if answers.len() > 0 {
        let before = answers.drop_last();
        law_identities_in_order(count, before);
        lemma_agent_starts(count, before);
        assert forall|k: int| 3 <= k < answers.len() && agent_step_after(count, answers) is Try implies !#[trigger] answers[k] by {
            if k < before.len() {
                assert(before[k] == answers[k]);
            }
        }
    }
}

proof fn lemma_agent_starts(count: usize, answers: Seq<bool>)
    ensures
        agent_step_after(count, answers) is Open ==> answers.len() == 0,
        agent_step_after(count, answers) is Connect ==> answers.len() == 1,
        agent_step_after(count, answers) is Identities ==> answers.len() == 2,
        !(agent_step_after(count, answers) is Try || agent_step_after(count, answers) is Done)
            ==> identities_tried(count, answers) == 0,
    decreases answers.len(),
{
    if answers.len() > 0 {
        lemma_agent_starts(count, answers.drop_last());
    }
}

/// Whether one of the identities that these answers report was accepted.
pub open spec fn identity_accepted(count: usize, answers: Seq<bool>) -> bool
    decreases answers.len(),
{
    answers.len() > 0 && {
        ||| identity_accepted(count, answers.drop_last())
        ||| answers.last() && agent_step_after(count, answers.drop_last()) is Try
    }
}

/// A login through the agent has succeeded exactly if the server accepted one of
/// the identities, and then no other is tried.
pub proof fn law_agent_login_result(count: usize, answers: Seq<bool>)
    ensures
        agent_step_after(count, answers) == AgentStep::Done(true) <==> identity_accepted(
            count,
            answers,
        ),
    decreases answers.len(),
{
    if answers.len() > 0 {
        law_agent_login_result(count, answers.drop_last());
    }
}

/// A shell and a file session of one connection try the same in the same order;
/// the shell only adds asking for a password at the end.
pub proof fn law_same_login(config: SshConfig, home: Seq<char>)
    ensures
        login_ways(Purpose::Shell, config, home) == login_ways(Purpose::Sftp, config, home) + (
        if config.wants_key() {
            Seq::empty()
        } else {
            seq![Way::AskPassword]
        }),
{
    assert(password_ways(Purpose::Shell) == password_ways(Purpose::Sftp) + seq![
        Way::AskPassword,
    ]);
}

/// Neither the agent nor a key is tried when the user chose a password, and no
/// password when the user chose a key.
pub proof fn law_chosen_method_only(purpose: Purpose, config: SshConfig, home: Seq<char>, i: int)
    requires
        0 <= i < login_ways(purpose, config, home).len(),
    ensures
        config.wants_password() ==> {
            let way = login_ways(purpose, config, home)[i];
            way is StoredPassword || way is AskPassword
        },
        config.wants_key() ==> {
            let way = login_ways(purpose, config, home)[i];
            way is Agent || way is KeyFile
        },
{
    reveal_strlit("password");
    reveal_strlit("key");
}

/// A file session never asks for a password.
pub proof fn law_file_session_never_asks(config: SshConfig, home: Seq<char>)
    ensures
        !login_ways(Purpose::Sftp, config, home).contains(Way::AskPassword),
{
}

/// The only key whose passphrase may be asked for is the configured one.
pub proof fn law_only_configured_key_asks(
    purpose: Purpose,
    config: SshConfig,
    home: Seq<char>,
    path: Seq<char>,
)
    requires
        login_ways(purpose, config, home).contains(Way::KeyFile { path, interactive: true }),
    ensures
        trimmed(config.key_path@).len() > 0,
        path == expanded(config.key_path@, home),
{
}

/// The next thing to do before the first connection of a tab. Each is answered
/// with yes or no.
///
/// Both sessions of a connection read the password from the keychain, and the
/// file session, which comes first, never asks for one. So in password mode the
/// keychain is filled before either starts.
#[derive(Debug, Clone, Copy, PartialEq, Eq, Structural)]
pub enum PasswordStep {
    /// Does the keychain hold a password?
    LookUp,
    /// Did the user give a password?
    Ask,
    /// Put the password into the keychain, whatever comes of it.
    Save,
    /// Nothing: connect.
    Connect,
}

/// The first step: only in password mode is there anything to do.
pub open spec fn first_password_step(wants_password: bool) -> PasswordStep {
    if wants_password {
        PasswordStep::LookUp
    } else {
        PasswordStep::Connect
    }
}

/// What follows an answer.
pub open spec fn next_password_step(step: PasswordStep, yes: bool) -> PasswordStep {
    match (step, yes) {
        (PasswordStep::LookUp, false) => PasswordStep::Ask,
        (PasswordStep::Ask, true) => PasswordStep::Save,
        _ => PasswordStep::Connect,
    }
}

impl PasswordStep {
    /// The first step: only in password mode is there anything to do.
    pub fn first(config: &SshConfig) -> (r: PasswordStep)
        ensures
            r == first_password_step(config.wants_password()),
    {
        if config.is_password_mode() {
            PasswordStep::LookUp
        } else {
            PasswordStep::Connect
        }
    }

    /// Takes the answer to this step and gives the next one.
    pub fn answer(self, yes: bool) -> (r: PasswordStep)
        ensures
            r == next_password_step(self, yes),
    {
        match self {
            PasswordStep::LookUp => if yes {
                PasswordStep::Connect
            } else {
                PasswordStep::Ask
            },
            PasswordStep::Ask => if yes {
                PasswordStep::Save
            } else {
                PasswordStep::Connect
            },
            PasswordStep::Save | PasswordStep::Connect => PasswordStep::Connect,
        }
    }
}

/// In password mode a stored password is all that a file session tries, and
/// what a shell tries before it asks. So a password that was asked for once
/// before the first connection serves both.
pub proof fn law_stored_password_serves_both(config: SshConfig, home: Seq<char>)
    requires
        config.wants_password(),
    ensures
        login_ways(Purpose::Sftp, config, home) == seq![Way::StoredPassword],
        login_ways(Purpose::Shell, config, home) == seq![Way::StoredPassword, Way::AskPassword],
        next_password_step(PasswordStep::LookUp, true) is Connect,
        next_password_step(next_password_step(PasswordStep::LookUp, false), true) is Save,
{
    reveal_strlit("password");
    reveal_strlit("key");
    assert(login_ways(Purpose::Sftp, config, home) == seq![Way::StoredPassword]);
}

/// A login whose connection is not in password mode tries the agent first. Right
/// behind it comes the key that the user configured, where the path is not
/// blank, and only then the default keys.
pub proof fn law_configured_key_is_tried(purpose: Purpose, config: SshConfig, home: Seq<char>)
    requires
        !config.wants_password(),
    ensures
        ({
            let ways = login_ways(purpose, config, home);
            let configured = trimmed(config.key_path@).len() > 0;
            let at: int = if configured {
                2
            } else {
                1
            };
            &&& ways.len() >= at + 3
            &&& ways[0] == Way::Agent
            &&& configured ==> ways[1] == Way::KeyFile {
                path: expanded(config.key_path@, home),
                interactive: true,
            }
            &&& ways[at] == Way::KeyFile {
                path: joined(joined(home, ".ssh"@), "id_ed25519"@),
                interactive: false,
            }
            &&& ways[at + 1] == Way::KeyFile {
                path: joined(joined(home, ".ssh"@), "id_rsa"@),
                interactive: false,
            }
            &&& ways[at + 2] == Way::KeyFile {
                path: joined(joined(home, ".ssh"@), "id_ecdsa"@),
                interactive: false,
            }
            &&& config.wants_key() ==> ways.len() == at + 3
        }),
{
}

/// Unless the user chose a key, a login ends in passwords: the stored one, and
/// in a shell the one that the user is asked for, behind all else.
pub proof fn law_passwords_come_last(purpose: Purpose, config: SshConfig, home: Seq<char>)
    requires
        !config.wants_key(),
    ensures
        ({
            let ways = login_ways(purpose, config, home);
            let n = ways.len() as int;
            &&& purpose == Purpose::Shell ==> n >= 2 && ways[n - 1] == Way::AskPassword && ways[n - 2]
                == Way::StoredPassword
            &&& purpose == Purpose::Sftp ==> n >= 1 && ways[n - 1] == Way::StoredPassword
            &&& forall|i: int|
                0 <= i < n - (if purpose == Purpose::Shell {
                    2int
                } else {
                    1
                }) ==> (#[trigger] ways[i]) is Agent || ways[i] is KeyFile
        }),
{
}

/// What the user chose is told by the words `password` and `key`, in upper or
/// lower case; with any other word both keys and passwords are tried.
pub proof fn law_other_words_choose_nothing(purpose: Purpose, config: SshConfig, home: Seq<char>)
    requires
        !same_ignoring_case(config.auth_type@, "password"@),
        !same_ignoring_case(config.auth_type@, "key"@),
    ensures
        login_ways(purpose, config, home).contains(Way::Agent),
        login_ways(purpose, config, home).contains(Way::StoredPassword),
{
    let ways = login_ways(purpose, config, home);
    law_configured_key_is_tried(purpose, config, home);
    law_passwords_come_last(purpose, config, home);
    assert(ways[0] == Way::Agent);
    assert(ways[ways.len() - 1] == Way::StoredPassword || ways[ways.len() - 2]
        == Way::StoredPassword);
}

/// The word `password`, in upper or lower case, chooses passwords alone, and the
/// word `key` the agent and keys alone.
pub proof fn law_words_choose(purpose: Purpose, config: SshConfig, home: Seq<char>, way: Way)
    requires
        login_ways(purpose, config, home).contains(way),
    ensures
        same_ignoring_case(config.auth_type@, "password"@) ==> way is StoredPassword || way
            is AskPassword,
        same_ignoring_case(config.auth_type@, "key"@) ==> way is Agent || way is KeyFile,
{
    let ways = login_ways(purpose, config, home);
    let i = choose|i: int| 0 <= i < ways.len() && ways[i] == way;
    law_chosen_method_only(purpose, config, home, i);
}

/// How far a login got after these replies.
pub open spec fn progress_after_all(ways: Seq<Way>, replies: Seq<Reply>) -> Progress
    decreases replies.len(),
{
    if replies.len() == 0 {
        Progress { remaining: ways, accepted: false }
    } else {
        progress_after(progress_after_all(ways, replies.drop_last()), replies.last())
    }
}

/// Methods are tried one after the other: once some were refused, the next in
/// the list is tried, and nothing was accepted or kept. The first that is
/// accepted ends the login, and it succeeds. What a method comes to is the same
/// whatever it is; only an accepted password that was asked for is kept.
pub proof fn law_login_goes_on_until_accepted(ways: Seq<Way>, refused: Seq<Reply>, reply: Reply)
    requires
        refused.len() < ways.len(),
        forall|i: int| 0 <= i < refused.len() ==> !(#[trigger] refused[i]).accepted(),
    ensures
        ({
            let p = progress_after_all(ways, refused);
            &&& p.remaining == ways.skip(refused.len() as int)
            &&& p.remaining[0] == ways[refused.len() as int]
            &&& !p.accepted
            &&& progress_after_all(ways, refused.push(reply)).accepted == reply.accepted()
            &&& logged_in(
                Purpose::Shell,
                progress_after_all(ways, refused.push(reply)).accepted,
                true,
            ) <==> reply.accepted()
            &&& step_after(p, reply) is SavePassword <==> ways[refused.len() as int]
                == Way::AskPassword && reply.accepted()
        }),
    decreases refused.len(),
{
    assert(refused.push(reply).drop_last() == refused);
    if refused.len() > 0 {
        let before = refused.drop_last();
        assert forall|i: int| 0 <= i < before.len() implies !(#[trigger] before[i]).accepted() by {
            assert(before[i] == refused[i]);
        }
        law_login_goes_on_until_accepted(ways, before, refused.last());
        assert(ways.skip(before.len() as int).skip(1) == ways.skip(refused.len() as int));
        assert(!refused[refused.len() - 1].accepted());
    } else {
        assert(ways.skip(0) == ways);
    }
}

/// An attempt is accepted only if the call went well and the session counts as
/// logged in: neither is enough alone, and something skipped never is.
pub proof fn law_accepted_takes_both(error: String)
    ensures
        (Reply::Tried { call: Ok(()), authenticated: true }).accepted(),
        !(Reply::Tried { call: Ok(()), authenticated: false }).accepted(),
        !(Reply::Tried { call: Err(error), authenticated: true }).accepted(),
        !(Reply::Tried { call: Err(error), authenticated: false }).accepted(),
        !Reply::Skipped.accepted(),
{
}

/// A shell is logged in only by a method that was accepted; a file session only
/// if the session says so.
pub proof fn law_logged_in(accepted: bool, session_authenticated: bool)
    ensures
        logged_in(Purpose::Shell, accepted, session_authenticated) == accepted,
        logged_in(Purpose::Sftp, accepted, session_authenticated) == session_authenticated,
        login_failure(Purpose::Shell) == "인증 실패"@,
        login_failure(Purpose::Sftp) == "SFTP 인증 실패"@,
{
}

/// How things stand with a key: whether its file can be read, whether it is
/// accepted without a passphrase, whether the keychain holds one and it fits,
/// and whether the user gives one and it fits.
pub struct KeyWorld {
    pub readable: bool,
    pub bare: bool,
    pub stored: bool,
    pub stored_fits: bool,
    pub given: bool,
    pub given_fits: bool,
}

/// What a step is answered, as things stand.
pub open spec fn key_answer(w: KeyWorld, step: KeyStep) -> bool {
    match step {
        KeyStep::CheckFile => w.readable,
        KeyStep::TryBare => w.bare,
        KeyStep::LookUp => w.stored,
        KeyStep::TryStored => w.stored_fits,
        KeyStep::Ask => w.given,
        KeyStep::TryAsked => w.given_fits,
        KeyStep::Save => true,
        KeyStep::Done(_) => true,
    }
}

/// The step that a login with a key file has reached after so many answers, as
/// things stand.
pub open spec fn key_step_of(interactive: bool, w: KeyWorld, n: nat) -> KeyStep
    decreases n,
{
    if n == 0 {
        KeyStep::CheckFile
    } else {
        let step = key_step_of(interactive, w, (n - 1) as nat);
        next_key_step(interactive, step, key_answer(w, step))
    }
}

/// A login with a key file succeeds exactly if the file can be read and the key
/// is accepted without a passphrase, with the one from the keychain, or, where
/// it may ask, with the one from the user. It asks only if neither of the first
/// two served, and keeps what it was given only if that served.
pub proof fn law_key_login_uses_every_means(interactive: bool, w: KeyWorld)
    ensures
        ({
            let unaided = w.bare || (w.stored && w.stored_fits);
            let asks = w.readable && !unaided && interactive;
            &&& key_step_of(interactive, w, 7) == KeyStep::Done(
                w.readable && (unaided || (interactive && w.given && w.given_fits)),
            )
            &&& asks <==> exists|n: nat| n < 7 && #[trigger] key_step_of(interactive, w, n) is Ask
            &&& asks && w.given && w.given_fits <==> exists|n: nat|
                n < 7 && #[trigger] key_step_of(interactive, w, n) is Save
        }),
{
    let s0 = key_step_of(interactive, w, 0);
    let s1 = key_step_of(interactive, w, 1);
    let s2 = key_step_of(interactive, w, 2);
    let s3 = key_step_of(interactive, w, 3);
    let s4 = key_step_of(interactive, w, 4);
    let s5 = key_step_of(interactive, w, 5);
    let s6 = key_step_of(interactive, w, 6);
    assert(s1 == next_key_step(interactive, s0, key_answer(w, s0)));
    assert(s2 == next_key_step(interactive, s1, key_answer(w, s1)));
    assert(s3 == next_key_step(interactive, s2, key_answer(w, s2)));
    assert(s4 == next_key_step(interactive, s3, key_answer(w, s3)));
    assert(s5 == next_key_step(interactive, s4, key_answer(w, s4)));
    assert(s6 == next_key_step(interactive, s5, key_answer(w, s5)));
    let unaided = w.bare || (w.stored && w.stored_fits);
    let asks = w.readable && !unaided && interactive;
    assert(asks ==> s3 is Ask || s4 is Ask);
    assert(asks && w.given && w.given_fits ==> s5 is Save || s6 is Save);
    assert forall|n: nat| n < 7 implies {
        let step = #[trigger] key_step_of(interactive, w, n);
        (step is Ask ==> asks) && (step is Save ==> asks && w.given && w.given_fits)
    } by {
        if n == 0 {
        } else if n == 1 {
        } else if n == 2 {
        } else if n == 3 {
        } else if n == 4 {
        } else if n == 5 {
        } else {
            assert(n == 6);
        }
    }
}

/// Without an agent that can be opened, reached and asked for its identities, a
/// login through it is given up at once, and nothing that is answered later
/// brings it back.
pub proof fn law_unreachable_agent_is_given_up(count: usize, answers: Seq<bool>)
    requires
        answers.len() > 0,
        exists|k: int| 0 <= k < 3 && k < answers.len() && !#[trigger] answers[k],
    ensures
        agent_step_after(count, answers) == AgentStep::Done(false),
        identities_tried(count, answers) == 0,
    decreases answers.len(),
{
    let before = answers.drop_last();
    let k = choose|k: int| 0 <= k < 3 && k < answers.len() && !#[trigger] answers[k];
    lemma_agent_tries(count, before);
    if k < before.len() {
        assert(!before[k]);
        law_unreachable_agent_is_given_up(count, before);
    } else if exists|i: int| 0 <= i < before.len() && !#[trigger] before[i] {
        law_unreachable_agent_is_given_up(count, before);
    } else {
        assert(before.len() > 0 ==> before[0]);
        assert(before.len() > 1 ==> before[1]);
    }
}

/// A login through the agent that has reached it and knows its identities gives
/// up only after all of them were tried.
pub proof fn law_every_identity_is_tried(count: usize, answers: Seq<bool>)
    requires
        answers.len() >= 3,
        answers[0],
        answers[1],
        answers[2],
        agent_step_after(count, answers) == AgentStep::Done(false),
    ensures
        identities_tried(count, answers) == count,
{
    lemma_agent_tries(count, answers);
}

proof fn lemma_agent_tries(count: usize, answers: Seq<bool>)
    ensures
        answers.len() >= 1 && answers[0] && answers.len() < 2 ==> agent_step_after(count, answers)
            is Connect,
        answers.len() == 2 && answers[0] && answers[1] ==> agent_step_after(count, answers)
            is Identities,
        answers.len() <= 2 ==> identities_tried(count, answers) == 0,
        answers.len() >= 3 && answers[0] && answers[1] && answers[2] ==> match agent_step_after(
            count,
            answers,
        ) {
            AgentStep::Try(i) => i < count && identities_tried(count, answers) == i,
            AgentStep::Done(false) => identities_tried(count, answers) == count,
            AgentStep::Done(true) => true,
            _ => false,
        },
    decreases answers.len(),
{
    if answers.len() > 0 {
        let before = answers.drop_last();
        lemma_agent_tries(count, before);
        assert forall|k: int| 0 <= k < before.len() implies before[k] == answers[k] by {}
    }
}

/// Before the first connection of a tab in password mode the user is asked for a
/// password exactly if the keychain holds none, and what they give is kept. In
/// any other mode nothing is done. Either way the tab is connected.
pub proof fn law_password_is_prepared(stored: bool, given: bool)
    ensures
        first_password_step(false) is Connect,
        first_password_step(true) is LookUp,
        ({
            let next = next_password_step(PasswordStep::LookUp, stored);
            &&& next is Ask <==> !stored
            &&& next is Connect <==> stored
        }),
        ({
            let next = next_password_step(PasswordStep::Ask, given);
            &&& next is Save <==> given
            &&& next is Connect <==> !given
        }),
        next_password_step(PasswordStep::Save, stored) is Connect,
        next_password_step(PasswordStep::Connect, stored) is Connect,
{
}

} // verus!
