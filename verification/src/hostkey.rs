//! Trust on first use.
//!
//! A server that is met for the first time is remembered by its key. From then
//! on it has to show the same key.

use vstd::prelude::*;

use crate::outside::{add_known_host, check_known_host, hosts_held, list_says, with_key};
use crate::text::{decimal, law_decimal_is_digits, law_decimal_stands_for_its_number, law_decimals_differ};
use crate::text::{number_of, to_decimal};

verus! {

/// The port on which servers listen unless told otherwise.
pub const SSH_PORT: u16 = 22;

/// The name under which a server is listed: two servers on one host are told
/// apart by their ports.
pub open spec fn name_in_list(host: Seq<char>, port: u16) -> Seq<char> {
    if port == SSH_PORT {
        host
    } else {
        "["@ + host + "]:"@ + decimal(port as nat)
    }
}

/// Names a server as the list of known hosts does.
pub fn listed_name(host: &str, port: u16) -> (r: String)
    ensures
        r@ == (if port == 22 {
            host@
        } else {
            "["@ + host@ + "]:"@ + decimal(port as nat)
        }),
{
    if port == SSH_PORT {
        return host.to_owned();
    }
    let mut r = "[".to_owned();
    r.append(host);
    r.append("]:");
    let port = to_decimal(port as u64);
    r.append(port.as_str());
    r
}

/// What the list of known hosts says of a key under the name of a server.
#[derive(Debug, Clone, Copy, PartialEq, Eq, Structural)]
pub enum KnownHost {
    /// The server is listed with this key.
    Match,
    /// The server is not listed.
    NotFound,
    /// The server is listed with another key.
    Mismatch,
    /// The list could not be consulted.
    Failure,
}

/// What is known when a server has to be judged.
#[derive(Debug, Clone, Copy, PartialEq, Eq, Structural)]
pub enum Evidence {
    /// There is no home directory to keep the list in.
    NoHome,
    /// The server showed no key.
    NoKey,
    /// The list was asked.
    Checked(KnownHost),
}

/// What to do with a server.
#[derive(Debug, PartialEq, Eq)]
pub enum Judgement {
    /// Go on.
    Trust,
    /// Add the key to the list under this name, then go on.
    Remember(String),
    /// Do not connect, and say why.
    Refuse(String),
}

/// What a [`Judgement`] says.
#[verifier::ext_equal]
pub enum Ruling {
    Trust,
    Remember(Seq<char>),
    Refuse(Seq<char>),
}

impl View for Judgement {
    type V = Ruling;

    open spec fn view(&self) -> Ruling {
        match *self {
            Judgement::Trust => Ruling::Trust,
            Judgement::Remember(name) => Ruling::Remember(name@),
            Judgement::Refuse(reason) => Ruling::Refuse(reason@),
        }
    }
}

/// What the user is told of a server whose key changed.
pub open spec fn changed_key(host: Seq<char>, port: nat) -> Seq<char> {
    "서버 지문이 바뀌었습니다 ("@ + host + ":"@ + decimal(port)
        + "). 중간자 공격(MITM) 가능성이 있어 접속을 차단합니다. 서버를 정말 교체한 게 맞다면 ~/.config/termy/known_hosts 의 해당 항목을 삭제하세요."@
}

/// How a server is judged.
pub open spec fn ruling(evidence: Evidence, host: Seq<char>, port: u16) -> Ruling {
    match evidence {
        Evidence::NoHome => Ruling::Refuse("홈 디렉토리를 찾을 수 없음"@),
        Evidence::NoKey => Ruling::Refuse("서버 호스트 키를 가져올 수 없음"@),
        Evidence::Checked(KnownHost::Match) => Ruling::Trust,
        Evidence::Checked(KnownHost::NotFound) => Ruling::Remember(name_in_list(host, port)),
        Evidence::Checked(KnownHost::Mismatch) => Ruling::Refuse(changed_key(host, port as nat)),
        Evidence::Checked(KnownHost::Failure) => Ruling::Refuse("호스트 키 검증에 실패했습니다"@),
    }
}

/// Judges a server by its key.
pub fn verify_host_key(evidence: Evidence, host: &str, port: u16) -> (r: Judgement)
    ensures
        r@ == ruling(evidence, host@, port),
{
    match evidence {
        Evidence::NoHome => Judgement::Refuse("홈 디렉토리를 찾을 수 없음".to_owned()),
        Evidence::NoKey => Judgement::Refuse("서버 호스트 키를 가져올 수 없음".to_owned()),
        Evidence::Checked(known) => match known {
            KnownHost::Match => Judgement::Trust,
            KnownHost::NotFound => Judgement::Remember(listed_name(host, port)),
            KnownHost::Mismatch => {
                let mut e = "서버 지문이 바뀌었습니다 (".to_owned();
                e.append(host);
                e.append(":");
                let port = to_decimal(port as u64);
                e.append(port.as_str());
                e.append(
                    "). 중간자 공격(MITM) 가능성이 있어 접속을 차단합니다. 서버를 정말 교체한 게 맞다면 ~/.config/termy/known_hosts 의 해당 항목을 삭제하세요.",
                );
                Judgement::Refuse(e)
            },
            KnownHost::Failure => Judgement::Refuse("호스트 키 검증에 실패했습니다".to_owned()),
        },
    }
}

/// What is written behind a key that is remembered.
pub const COMMENT: &'static str = "termy";

proof fn lemma_name_holds_no_nul(host: Seq<char>, port: u16)
    requires
        !host.contains('\0'),
    ensures
        !name_in_list(host, port).contains('\0'),
{
    reveal_strlit("[");
    reveal_strlit("]:");
    let name = name_in_list(host, port);
    if port != SSH_PORT && name.contains('\0') {
        let i = choose|i: int| 0 <= i < name.len() && name[i] == '\0';
        let n = host.len() as int;
        if 1 <= i < n + 1 {
            assert(host[i - 1] == '\0');
        } else if i >= n + 3 {
            law_decimal_is_digits(port as nat, i - n - 3);
        }
    }
}

/// Asks a list of known hosts for a server by the very name under which it would
/// be remembered.
pub fn look_up(list: &ssh2::KnownHosts, host: &str, port: u16, key: &[u8]) -> (r: Evidence)
    requires
        !host@.contains('\0'),
        key@.len() > 0,
    ensures
        r matches Evidence::Checked(known) && (known is Failure || known == list_says(
            hosts_held(*list),
            name_in_list(host@, port),
            key@,
        )),
{
    let name = listed_name(host, port);
    proof {
        lemma_name_holds_no_nul(host@, port);
    }
    Evidence::Checked(check_known_host(list, name.as_str(), key))
}

/// Adds the key of a server to a list of known hosts, under the name that its
/// judgement gave. Where that fails the list stays as it was.
pub fn remember(
    list: &mut ssh2::KnownHosts,
    name: &str,
    key: &[u8],
    format: ssh2::KnownHostKeyFormat,
) -> (r: Result<(), String>)
    requires
        key@.len() > 0,
    ensures
        hosts_held(*final(list)) == (if r is Ok {
            with_key(hosts_held(*old(list)), name@, key@)
        } else {
            hosts_held(*old(list))
        }),
{
    add_known_host(list, name, key, COMMENT, format)
}

/// A server that is connected to, and the key that it shows.
pub struct Visit {
    pub host: Seq<char>,
    pub port: u16,
    pub key: Seq<u8>,
}

/// How a visited server is judged by a list.
pub open spec fn visit_ruling(held: Map<Seq<char>, Set<Seq<u8>>>, visit: Visit) -> Ruling {
    let name = name_in_list(visit.host, visit.port);
    ruling(Evidence::Checked(list_says(held, name, visit.key)), visit.host, visit.port)
}

/// The list after a visit.
pub open spec fn list_after(held: Map<Seq<char>, Set<Seq<u8>>>, visit: Visit) -> Map<
    Seq<char>,
    Set<Seq<u8>>,
> {
    match visit_ruling(held, visit) {
        Ruling::Remember(name) => with_key(held, name, visit.key),
        _ => held,
    }
}

/// The list after these visits, in order.
pub open spec fn list_after_all(held: Map<Seq<char>, Set<Seq<u8>>>, visits: Seq<Visit>) -> Map<
    Seq<char>,
    Set<Seq<u8>>,
>
    decreases visits.len(),
{
    if visits.len() == 0 {
        held
    } else {
        list_after(list_after_all(held, visits.drop_last()), visits.last())
    }
}

/// A server that is not listed is remembered with the key that it shows, and
/// with no other.
pub proof fn law_first_use_is_trusted(held: Map<Seq<char>, Set<Seq<u8>>>, visit: Visit)
    requires
        !held.contains_key(name_in_list(visit.host, visit.port)),
    ensures
        visit_ruling(held, visit) == Ruling::Remember(name_in_list(visit.host, visit.port)),
        list_after(held, visit).contains_key(name_in_list(visit.host, visit.port)),
        list_after(held, visit)[name_in_list(visit.host, visit.port)] == set![visit.key],
{
}

proof fn lemma_listed_stays(held: Map<Seq<char>, Set<Seq<u8>>>, visits: Seq<Visit>, name: Seq<char>)
    requires
        held.contains_key(name),
    ensures
        list_after_all(held, visits).contains_key(name),
        list_after_all(held, visits)[name] == held[name],
    decreases visits.len(),
{
    if visits.len() > 0 {
        lemma_listed_stays(held, visits.drop_last(), name);
    }
}

/// Once a server is listed with a key, it is trusted with that key and refused
/// with any other, whatever servers were visited in between, in whatever order,
/// and whatever keys they showed.
pub proof fn law_remembered_key_stays(
    held: Map<Seq<char>, Set<Seq<u8>>>,
    visits: Seq<Visit>,
    known: Visit,
    other_key: Seq<u8>,
)
    requires
        held.contains_key(name_in_list(known.host, known.port)),
        held[name_in_list(known.host, known.port)] == set![known.key],
        other_key != known.key,
    ensures
        visit_ruling(list_after_all(held, visits), known) == Ruling::Trust,
        visit_ruling(
            list_after_all(held, visits),
            Visit { host: known.host, port: known.port, key: other_key },
        ) == Ruling::Refuse(changed_key(known.host, known.port as nat)),
{
    lemma_listed_stays(held, visits, name_in_list(known.host, known.port));
}

/// A server on another port of a host that is listed is another server: it is
/// listed under a name of its own.
pub proof fn law_ports_are_listed_apart(host: Seq<char>, port: u16, other: u16)
    requires
        port != other,
    ensures
        name_in_list(host, port) != name_in_list(host, other),
{
    reveal_strlit("[");
    reveal_strlit("]:");
    let n = host.len() + 3;
    if port != SSH_PORT && other != SSH_PORT {
        law_decimals_differ(port as nat, other as nat);
        assert(name_in_list(host, port).skip(n as int) == decimal(port as nat));
        assert(name_in_list(host, other).skip(n as int) == decimal(other as nat));
    } else if port != SSH_PORT {
        assert(name_in_list(host, port).len() >= n);
    } else {
        assert(name_in_list(host, other).len() >= n);
    }
}

/// A server gets in only if it is listed with the key that it shows, or is not
/// listed at all, and in that case only to be remembered. In every other case,
/// be it that nothing could be found out, it is refused.
pub proof fn law_only_known_or_new_servers_get_in(evidence: Evidence, host: Seq<char>, port: u16)
    ensures
        ruling(evidence, host, port) is Trust <==> evidence == Evidence::Checked(KnownHost::Match),
        ruling(evidence, host, port) is Remember <==> evidence == Evidence::Checked(
            KnownHost::NotFound,
        ),
        ruling(evidence, host, port) is Refuse <==> evidence is NoHome || evidence is NoKey
            || evidence == Evidence::Checked(KnownHost::Mismatch) || evidence == Evidence::Checked(
            KnownHost::Failure,
        ),
{
}

/// The user is told which server changed its key: its host, and its port behind
/// a colon.
pub proof fn law_changed_server_is_named(host: Seq<char>, port: u16)
    ensures
        ({
            let told = changed_key(host, port as nat);
            let from = "서버 지문이 바뀌었습니다 ("@.len() as int;
            let n = host.len() as int;
            let to = from + n + 1 + decimal(port as nat).len();
            &&& told.len() > to
            &&& told.subrange(from, from + n) == host
            &&& told[from + n] == ':'
            &&& number_of(told.subrange(from + n + 1, to)) == port
            &&& told[to] == ')'
            &&& ruling(Evidence::Checked(KnownHost::Mismatch), host, port) == Ruling::Refuse(told)
        }),
{
    reveal_strlit(":");
    reveal_strlit(
        "). 중간자 공격(MITM) 가능성이 있어 접속을 차단합니다. 서버를 정말 교체한 게 맞다면 ~/.config/termy/known_hosts 의 해당 항목을 삭제하세요.",
    );
    let told = changed_key(host, port as nat);
    let from = "서버 지문이 바뀌었습니다 ("@.len() as int;
    let n = host.len() as int;
    let digits = decimal(port as nat);
    law_decimal_stands_for_its_number(port as nat);
    assert(told.subrange(from, from + n) == host);
    assert(told.subrange(from + n + 1, from + n + 1 + digits.len()) == digits);
}

/// Servers on one port are listed by their hosts, each under a name of its own;
/// on the usual port that is the host itself.
pub proof fn law_hosts_are_listed_apart(host: Seq<char>, other: Seq<char>, port: u16)
    ensures
        name_in_list(host, 22) == host,
        name_in_list(host, port) == name_in_list(other, port) ==> host == other,
{
    reveal_strlit("[");
    reveal_strlit("]:");
    let a = name_in_list(host, port);
    let b = name_in_list(other, port);
    if port != 22 && a == b {
        assert(a.len() == host.len() + 3 + decimal(port as nat).len());
        assert(a.subrange(1, host.len() as int + 1) == host);
        assert(b.subrange(1, other.len() as int + 1) == other);
    }
}

/// A server on another port than the usual one is listed as `[host]:port`.
pub proof fn law_listed_with_its_port(host: Seq<char>, port: u16)
    requires
        port != 22,
    ensures
        ({
            let name = name_in_list(host, port);
            let n = host.len() as int;
            &&& name.len() > n + 3
            &&& name[0] == '['
            &&& name.subrange(1, n + 1) == host
            &&& name[n + 1] == ']'
            &&& name[n + 2] == ':'
            &&& number_of(name.skip(n + 3)) == port
        }),
{
    reveal_strlit("[");
    reveal_strlit("]:");
    let name = name_in_list(host, port);
    let n = host.len() as int;
    law_decimal_stands_for_its_number(port as nat);
    assert(name.subrange(1, n + 1) == host);
    assert(name.skip(n + 3) == decimal(port as nat));
}

} // verus!
