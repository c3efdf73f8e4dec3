//! What a tab is opened with.

use vstd::prelude::*;

use crate::text::{law_decimal_stands_for_its_number, number_of};
use crate::text::{decimal, eq_ignoring_case, eq_text, same_ignoring_case, to_decimal};

verus! {

/// The kind of terminal that a shell is told it runs in.
pub const TERM: &'static str = "xterm-256color";

/// How many seconds to wait for a host to be reached.
pub const CONNECT_SECS: u64 = 10;

/// How many seconds a file session waits for the network.
pub const NETWORK_SECS: u64 = 30;

/// How many milliseconds a session waits for an answer.
pub const ANSWER_MILLIS: u32 = 30_000;

/// How many milliseconds a session waits for an answer while it moves a file.
pub const TRANSFER_MILLIS: u32 = 60_000;

/// Where and how to log in.
#[derive(Debug, PartialEq, Eq)]
pub struct SshConfig {
    pub host: String,
    pub port: u16,
    pub username: String,
    pub auth_type: String,
    pub key_path: String,
    pub name: String,
}

impl SshConfig {
    /// Whether the user chose to log in with a password.
    pub open spec fn wants_password(&self) -> bool {
        same_ignoring_case(self.auth_type@, "password"@)
    }

    /// Whether the user chose to log in with a key.
    pub open spec fn wants_key(&self) -> bool {
        same_ignoring_case(self.auth_type@, "key"@)
    }

    /// Decides whether the user chose to log in with a password.
    pub fn is_password_mode(&self) -> (r: bool)
        ensures
            r == self.wants_password(),
    {
        eq_ignoring_case(self.auth_type.as_str(), "password")
    }

    /// Decides whether the user chose to log in with a key.
    pub fn is_key_mode(&self) -> (r: bool)
        ensures
            r == self.wants_key(),
    {
        eq_ignoring_case(self.auth_type.as_str(), "key")
    }

    /// The address to connect to, as `host:port`.
    pub open spec fn address_text(&self) -> Seq<char> {
        self.host@ + ":"@ + decimal(self.port as nat)
    }

    /// Writes the address to connect to.
    pub fn address(&self) -> (r: String)
        ensures
            r@ == self.address_text(),
    {
        let mut r = self.host.clone();
        r.append(":");
        let port = to_decimal(self.port as u64);
        r.append(port.as_str());
        r
    }
}

/// What a new tab holds.
#[derive(Debug, PartialEq, Eq)]
pub enum Tab {
    Local,
    Ssh(SshConfig),
}

/// What a new tab holds, or the words of an error.
pub open spec fn tab_planned(tab_type: Seq<char>, ssh_config: Option<SshConfig>) -> Result<
    Tab,
    Seq<char>,
> {
    if tab_type == "ssh"@ {
        match ssh_config {
            Some(config) => Ok(Tab::Ssh(config)),
            None => Err("SSH config required"@),
        }
    } else {
        Ok(Tab::Local)
    }
}

/// Decides what a new tab holds. Only the type `ssh` asks for a login, and it
/// needs to be told where.
pub fn plan_tab(tab_type: &str, ssh_config: Option<SshConfig>) -> (r: Result<Tab, String>)
    ensures
        match r {
            Ok(tab) => tab_planned(tab_type@, ssh_config) == Ok::<Tab, Seq<char>>(tab),
            Err(e) => tab_planned(tab_type@, ssh_config) == Err::<Tab, Seq<char>>(e@),
        },
{
    if eq_text(tab_type, "ssh") {
        return match ssh_config {
            Some(config) => Ok(Tab::Ssh(config)),
            None => Err("SSH config required".to_owned()),
        };
    }
    Ok(Tab::Local)
}

/// An address names its host, then its port behind a colon.
pub proof fn law_address_names_host_and_port(config: SshConfig)
    ensures
        ({
            let address = config.address_text();
            let n = config.host@.len() as int;
            &&& address.len() > n + 1
            &&& address.take(n) == config.host@
            &&& address[n] == ':'
            &&& number_of(address.skip(n + 1)) == config.port
        }),
{
    reveal_strlit(":");
    let address = config.address_text();
    let n = config.host@.len() as int;
    law_decimal_stands_for_its_number(config.port as nat);
    assert(address.take(n) == config.host@);
    assert(address.skip(n + 1) == decimal(config.port as nat));
}

/// A tab logs in to the server that it was given, exactly as it was given. One
/// that was given none is refused, and a tab of any other type is local whatever
/// it was given.
pub proof fn law_tab_holds_what_it_was_given(tab_type: Seq<char>, config: SshConfig)
    ensures
        tab_planned("ssh"@, Some(config)) == Ok::<Tab, Seq<char>>(Tab::Ssh(config)),
        tab_planned("ssh"@, None) is Err,
        tab_type != "ssh"@ ==> {
            &&& tab_planned(tab_type, None) == Ok::<Tab, Seq<char>>(Tab::Local)
            &&& tab_planned(tab_type, Some(config)) == Ok::<Tab, Seq<char>>(Tab::Local)
        },
{
}

} // verus!
