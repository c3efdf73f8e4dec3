//! Passwords and passphrases: where the keychain keeps them and how the user is
//! asked for one.
//!
//! The keychain is reached through the `security` program, the user through a
//! dialog that `osascript` shows. What is settled here is the arguments of the
//! one, the script of the other, and how to read what they print.

use vstd::prelude::*;

use vstd::utf8::{decode_utf8, valid_utf8};

use crate::outside::{from_utf8_lossy, utf8_lossy};
use crate::text::{begins_with, chars_of, find_from, first_at, is_blank, law_trim_ignores_blanks};
use crate::text::{lemma_first_at_fits, text_of, texts, trim, trimmed};

verus! {

/// A place in the keychain.
#[derive(Debug, PartialEq, Eq)]
pub struct Entry {
    pub account: String,
    pub service: String,
}

/// What every request to the keychain begins with: the command and the place,
/// which is an account and a service.
pub open spec fn request(command: Seq<char>, place: (Seq<char>, Seq<char>)) -> Seq<Seq<char>> {
    seq![command, "-a"@, place.0, "-s"@, place.1]
}

/// The request that looks a secret up.
pub open spec fn find_request(place: (Seq<char>, Seq<char>)) -> Seq<Seq<char>> {
    request("find-generic-password"@, place).push("-w"@)
}

/// The request that removes a secret.
pub open spec fn delete_request(place: (Seq<char>, Seq<char>)) -> Seq<Seq<char>> {
    request("delete-generic-password"@, place)
}

/// The request that adds a secret.
pub open spec fn add_request(place: (Seq<char>, Seq<char>), secret: Seq<char>) -> Seq<Seq<char>> {
    request("add-generic-password"@, place).push("-w"@).push(secret)
}

impl Entry {
    /// The place of the password of a user on a host.
    pub fn password(host: &str, username: &str) -> (r: Entry)
        ensures
            r.place() == password_place(host@, username@),
    {
        let mut service = "termy-ssh-".to_owned();
        service.append(host);
        Entry { account: username.to_owned(), service }
    }

    /// The place of the passphrase of a key file.
    pub fn key_passphrase(key_id: &str) -> (r: Entry)
        ensures
            r.place() == passphrase_place(key_id@),
    {
        Entry { account: key_id.to_owned(), service: "termy-sshkey".to_owned() }
    }

    /// The account and the service.
    pub open spec fn place(&self) -> (Seq<char>, Seq<char>) {
        (self.account@, self.service@)
    }

    fn request_args(&self, command: &str) -> (r: Vec<String>)
        ensures
            texts(r@) == request(command@, self.place()),
    {
        let r: Vec<String> = vec![
            command.to_owned(),
            "-a".to_owned(),
            self.account.clone(),
            "-s".to_owned(),
            self.service.clone(),
        ];
        assert(texts(r@) == request(command@, self.place()));
        r
    }

    /// The arguments that look the secret up.
    pub fn find_args(&self) -> (r: Vec<String>)
        ensures
            texts(r@) == find_request(self.place()),
    {
        let mut r = self.request_args("find-generic-password");
        let ghost before = texts(r@);
        r.push("-w".to_owned());
        assert(texts(r@) == before.push("-w"@));
        r
    }

    /// The arguments that remove the secret.
    pub fn delete_args(&self) -> (r: Vec<String>)
        ensures
            texts(r@) == delete_request(self.place()),
    {
        self.request_args("delete-generic-password")
    }

    /// The arguments that save a secret.
    pub fn add_args(&self, secret: &str) -> (r: Vec<String>)
        ensures
            texts(r@) == add_request(self.place(), secret@),
    {
        let mut r = self.request_args("add-generic-password");
        let ghost before = texts(r@);
        r.push("-w".to_owned());
        r.push(secret.to_owned());
        assert(texts(r@) == before.push("-w"@).push(secret@));
        r
    }
}

/// The arguments of a list of requests.
pub open spec fn requests(list: Seq<Vec<String>>) -> Seq<Seq<Seq<char>>> {
    list.map_values(|args: Vec<String>| texts(args@))
}

/// The requests that save a secret, in order: what the place held before is
/// removed first, since the keychain adds nothing over it.
pub fn save_requests(entry: &Entry, secret: &str) -> (r: Vec<Vec<String>>)
    ensures
        requests(r@) == seq![delete_request(entry.place()), add_request(entry.place(), secret@)],
{
    let r: Vec<Vec<String>> = vec![entry.delete_args(), entry.add_args(secret)];
    assert(requests(r@) == seq![
        delete_request(entry.place()),
        add_request(entry.place(), secret@),
    ]);
    r
}

/// The secret in what the keychain printed.
pub open spec fn secret_in(success: bool, printed: Seq<char>) -> Option<Seq<char>> {
    if success {
        Some(trimmed(printed))
    } else {
        None
    }
}

/// The secret in what the keychain printed, where the request succeeded.
pub fn printed_secret(success: bool, printed: &str) -> (r: Option<String>)
    ensures
        match r {
            Some(secret) => secret_in(success, printed@) == Some(secret@),
            None => secret_in(success, printed@) is None,
        },
{
    if success {
        let chars = chars_of(printed);
        Some(text_of(trim(chars.as_slice())))
    } else {
        None
    }
}

/// Reads what the keychain printed.
pub fn read_secret(success: bool, stdout: &[u8]) -> (r: Option<String>)
    ensures
        match r {
            Some(secret) => secret_in(success, utf8_lossy(stdout@)) == Some(secret@),
            None => secret_in(success, utf8_lossy(stdout@)) is None,
        },
        valid_utf8(stdout@) ==> match r {
            Some(secret) => secret_in(success, decode_utf8(stdout@)) == Some(secret@),
            None => secret_in(success, decode_utf8(stdout@)) is None,
        },
{
    let printed = from_utf8_lossy(stdout);
    printed_secret(success, printed.as_str())
}

/// What stands for `c` between the quotes of an AppleScript literal.
pub open spec fn escaped_char(c: char) -> Seq<char> {
    if c == '\\' || c == '"' {
        seq!['\\', c]
    } else {
        seq![c]
    }
}

/// What stands for `s` between the quotes of an AppleScript literal.
pub open spec fn escaped(s: Seq<char>) -> Seq<char>
    decreases s.len(),
{
    if s.len() == 0 {
        Seq::empty()
    } else {
        escaped(s.drop_last()) + escaped_char(s.last())
    }
}

/// Writes a text so that it can stand between the quotes of an AppleScript
/// literal.
pub fn escape(s: &str) -> (r: String)
    ensures
        r@ == escaped(s@),
{
    let chars = chars_of(s);
    let mut r = String::new();
    let mut i: usize = 0;
    while i < chars.len()
        invariant
            chars@ == s@,
            i <= chars@.len(),
            r@ == escaped(s@.take(i as int)),
        decreases chars@.len() - i,
    {
        let c = chars[i];
        let ghost before = r@;
        if c == '\\' || c == '"' {
            r.push('\\');
        }
        r.push(c);
        proof {
            assert(s@.take(i + 1).drop_last() == s@.take(i as int));
            assert(r@ == before + escaped_char(c));
        }
        i += 1;
    }
    assert(s@.take(s@.len() as int) == s@);
    r
}

/// What a dialog script says after its prompt.
pub open spec fn dialog_tail(button: Seq<char>) -> Seq<char> {
    " default answer \"\" with hidden answer with title \"termy SSH\" buttons {\"취소\", \""@
        + button + "\"} default button \""@ + button + "\""@
}

/// The script that shows a dialog. The prompt is what stands between its
/// quotes.
pub open spec fn dialog_script(prompt: Seq<char>, button: Seq<char>) -> Seq<char> {
    "display dialog \""@ + prompt + "\""@ + dialog_tail(button)
}

fn dialog(prompt: &str, button: &str) -> (r: String)
    ensures
        r@ == dialog_script(prompt@, button@),
{
    let mut tail =
        " default answer \"\" with hidden answer with title \"termy SSH\" buttons {\"취소\", \"".to_owned();
    tail.append(button);
    tail.append("\"} default button \"");
    tail.append(button);
    tail.append("\"");
    let mut r = "display dialog \"".to_owned();
    r.append(prompt);
    r.append("\"");
    r.append(tail.as_str());
    r
}

/// What is asked of the user of a host, between the quotes.
pub open spec fn password_prompt(host: Seq<char>, username: Seq<char>) -> Seq<char> {
    escaped(username) + "@"@ + escaped(host) + " 비밀번호:"@
}

/// The script that asks for the password of a user on a host.
pub fn password_script(host: &str, username: &str) -> (r: String)
    ensures
        r@ == dialog_script(password_prompt(host@, username@), "연결"@),
{
    let mut prompt = escape(username);
    prompt.append("@");
    let safe_host = escape(host);
    prompt.append(safe_host.as_str());
    prompt.append(" 비밀번호:");
    dialog(prompt.as_str(), "연결")
}

/// What is asked of the user of a key, between the quotes.
pub open spec fn passphrase_prompt(key_id: Seq<char>) -> Seq<char> {
    "키 passphrase ("@ + escaped(key_id) + "):"@
}

/// The script that asks for the passphrase of a key file.
pub fn passphrase_script(key_id: &str) -> (r: String)
    ensures
        r@ == dialog_script(passphrase_prompt(key_id@), "확인"@),
{
    let mut prompt = "키 passphrase (".to_owned();
    let safe_key = escape(key_id);
    prompt.append(safe_key.as_str());
    prompt.append("):");
    dialog(prompt.as_str(), "확인")
}

/// What the answer stands behind in what a dialog prints.
pub open spec fn answer_marker() -> Seq<char> {
    "text returned:"@
}

/// What stands between the first and the second `marker` of `s`, or behind the
/// first where there is only one.
pub open spec fn second_piece(s: Seq<char>, marker: Seq<char>) -> Option<Seq<char>> {
    match first_at(s, marker) {
        None => None,
        Some(i) => {
            let rest = s.skip((i + marker.len()) as int);
            match first_at(rest, marker) {
                None => Some(rest),
                Some(j) => Some(rest.take(j as int)),
            }
        },
    }
}

/// The answer in what a dialog printed.
pub open spec fn answer_in(success: bool, printed: Seq<char>) -> Option<Seq<char>> {
    if !success {
        None
    } else {
        match second_piece(printed, answer_marker()) {
            Some(piece) => Some(trimmed(piece)),
            None => None,
        }
    }
}

/// Finds the answer in what a dialog printed, where the user did not cancel.
pub fn printed_answer(success: bool, printed: &str) -> (r: Option<String>)
    ensures
        match r {
            Some(answer) => answer_in(success, printed@) == Some(answer@),
            None => answer_in(success, printed@) is None,
        },
{
    if !success {
        return None;
    }
    let marker = chars_of("text returned:");
    let s = chars_of(printed);
    let n: usize = s.len();
    assert(s@.skip(0) == s@);
    match find_from(s.as_slice(), 0, marker.as_slice()) {
        None => None,
        Some(i) => {
            let from: usize = i + marker.len();
            let to: usize = match find_from(s.as_slice(), from, marker.as_slice()) {
                None => n,
                Some(j) => j,
            };
            let piece = vstd::slice::slice_subrange(s.as_slice(), from, to);
            assert(second_piece(printed@, answer_marker()) == Some(piece@));
            Some(text_of(trim(piece)))
        },
    }
}

/// Reads what a dialog printed.
pub fn read_answer(success: bool, stdout: &[u8]) -> (r: Option<String>)
    ensures
        match r {
            Some(answer) => answer_in(success, utf8_lossy(stdout@)) == Some(answer@),
            None => answer_in(success, utf8_lossy(stdout@)) is None,
        },
        valid_utf8(stdout@) ==> match r {
            Some(answer) => answer_in(success, decode_utf8(stdout@)) == Some(answer@),
            None => answer_in(success, decode_utf8(stdout@)) is None,
        },
{
    let printed = from_utf8_lossy(stdout);
    printed_answer(success, printed.as_str())
}

/// How AppleScript reads a literal behind its opening quote: the text, and what
/// follows the closing quote. A backslash lets the backslash or quote behind it
/// stand for itself.
pub open spec fn read_literal(s: Seq<char>) -> Option<(Seq<char>, Seq<char>)>
    decreases s.len(),
{
    if s.len() == 0 {
        None
    } else if s[0] == '"' {
        Some((Seq::empty(), s.skip(1)))
    } else if s[0] == '\\' {
        if s.len() >= 2 && (s[1] == '\\' || s[1] == '"') {
            match read_literal(s.skip(2)) {
                Some((text, rest)) => Some((seq![s[1]] + text, rest)),
                None => None,
            }
        } else {
            None
        }
    } else {
        match read_literal(s.skip(1)) {
            Some((text, rest)) => Some((seq![s[0]] + text, rest)),
            None => None,
        }
    }
}

proof fn lemma_escaped_append(a: Seq<char>, b: Seq<char>)
    ensures
        escaped(a + b) == escaped(a) + escaped(b),
    decreases b.len(),
{
    if b.len() == 0 {
        assert(a + b == a);
    } else {
        assert((a + b).drop_last() == a + b.drop_last());
        lemma_escaped_append(a, b.drop_last());
    }
}

proof fn lemma_escaped_plain(s: Seq<char>)
    requires
        forall|i: int| 0 <= i < s.len() ==> s[i] != '\\' && s[i] != '"',
    ensures
        escaped(s) == s,
    decreases s.len(),
{
    if s.len() > 0 {
        lemma_escaped_plain(s.drop_last());
        assert(s.drop_last() + seq![s.last()] == s);
    }
}

/// Whatever a text holds, escaped and put between quotes it is read back as
/// itself, and the literal ends at the closing quote and nowhere before.
pub proof fn law_escaped_literal(text: Seq<char>, rest: Seq<char>)
    ensures
        read_literal(escaped(text) + "\""@ + rest) == Some((text, rest)),
    decreases text.len(),
{
    reveal_strlit("\"");
    let s = escaped(text) + "\""@ + rest;
    if text.len() == 0 {
        assert(s.skip(1) == rest);
        assert(text == Seq::<char>::empty());
    } else {
        let first = seq![text[0]];
        let others = text.skip(1);
        assert(first + others == text);
        lemma_escaped_append(first, others);
        assert(first.drop_last() == Seq::<char>::empty());
        assert(escaped(first) == escaped_char(text[0])) by {
            reveal_with_fuel(escaped, 2);
            assert(Seq::<char>::empty() + escaped_char(text[0]) == escaped_char(text[0]));
        }
        law_escaped_literal(others, rest);
        let n = escaped_char(text[0]).len() as int;
        assert(s.skip(n) == escaped(others) + "\""@ + rest);
    }
}

/// No user name and no host can add anything to the script that asks for a
/// password: its prompt is read as the two names, and the rest of the script is
/// always the same.
pub proof fn law_password_script_is_safe(host: Seq<char>, username: Seq<char>)
    ensures
        ({
            let body = password_prompt(host, username) + "\""@ + dialog_tail("연결"@);
            &&& dialog_script(password_prompt(host, username), "연결"@) == "display dialog \""@
                + body
            &&& read_literal(body) == Some(
                (username + "@"@ + host + " 비밀번호:"@, dialog_tail("연결"@)),
            )
        }),
{
    reveal_strlit("@");
    reveal_strlit(" 비밀번호:");
    lemma_escaped_plain("@"@);
    lemma_escaped_plain(" 비밀번호:"@);
    lemma_escaped_append(username, "@"@);
    lemma_escaped_append(username + "@"@, host);
    lemma_escaped_append(username + "@"@ + host, " 비밀번호:"@);
    law_escaped_literal(username + "@"@ + host + " 비밀번호:"@, dialog_tail("연결"@));
    let prompt = password_prompt(host, username);
    assert("display dialog \""@ + prompt + "\""@ + dialog_tail("연결"@) == "display dialog \""@ + (
    prompt + "\""@ + dialog_tail("연결"@)));
}

/// No path of a key can add anything to the script that asks for its
/// passphrase.
pub proof fn law_passphrase_script_is_safe(key_id: Seq<char>)
    ensures
        ({
            let body = passphrase_prompt(key_id) + "\""@ + dialog_tail("확인"@);
            &&& dialog_script(passphrase_prompt(key_id), "확인"@) == "display dialog \""@ + body
            &&& read_literal(body) == Some(
                ("키 passphrase ("@ + key_id + "):"@, dialog_tail("확인"@)),
            )
        }),
{
    reveal_strlit("키 passphrase (");
    reveal_strlit("):");
    lemma_escaped_plain("키 passphrase ("@);
    lemma_escaped_plain("):"@);
    lemma_escaped_append("키 passphrase ("@, key_id);
    lemma_escaped_append("키 passphrase ("@ + key_id, "):"@);
    law_escaped_literal("키 passphrase ("@ + key_id + "):"@, dialog_tail("확인"@));
    let prompt = passphrase_prompt(key_id);
    assert("display dialog \""@ + prompt + "\""@ + dialog_tail("확인"@) == "display dialog \""@ + (
    prompt + "\""@ + dialog_tail("확인"@)));
}

proof fn lemma_first_at_append(s: Seq<char>, t: Seq<char>, pattern: Seq<char>)
    requires
        first_at(s, pattern) is Some,
    ensures
        first_at(s + t, pattern) == first_at(s, pattern),
    decreases s.len(),
{
    if begins_with(s, pattern) {
        assert((s + t).take(pattern.len() as int) == s.take(pattern.len() as int));
    } else {
        assert((s + t).skip(1) == s.skip(1) + t);
        lemma_first_at_append(s.skip(1), t, pattern);
        lemma_first_at_fits(s.skip(1), pattern);
        if begins_with(s + t, pattern) {
            assert(s.take(pattern.len() as int) == (s + t).take(pattern.len() as int));
        }
    }
}

/// A password that the user types into a dialog is the one that is read, as
/// long as it does not hold the marker and has no white space around it.
pub proof fn law_answer_is_read(before: Seq<char>, answer: Seq<char>, after: Seq<char>)
    requires
        first_at(before + answer_marker(), answer_marker()) == Some(before.len()),
        first_at(answer + after, answer_marker()) is None,
        trimmed(answer) == answer,
        is_blank(after),
    ensures
        answer_in(true, before + answer_marker() + answer + after) == Some(answer),
{
    let head = before + answer_marker();
    let tail = answer + after;
    assert(head + answer + after == head + tail);
    lemma_first_at_append(head, tail, answer_marker());
    assert((head + tail).skip(head.len() as int) == tail);
    law_trim_ignores_blanks(Seq::empty(), answer, after);
    assert(Seq::<char>::empty() + answer + after == tail);
}

/// What the user typed ends where the marker stands a second time, and nothing
/// is lost of it before that but white space at its ends.
pub proof fn law_answer_ends_at_the_next_marker(
    before: Seq<char>,
    piece: Seq<char>,
    after: Seq<char>,
)
    requires
        first_at(before + "text returned:"@, "text returned:"@) == Some(before.len()),
        first_at(piece + "text returned:"@, "text returned:"@) == Some(piece.len()),
    ensures
        answer_in(true, before + "text returned:"@ + piece + "text returned:"@ + after) == Some(
            trimmed(piece),
        ),
{
    let marker = "text returned:"@;
    let head = before + marker;
    let rest = piece + marker;
    assert(head + piece + marker + after == head + (rest + after));
    lemma_first_at_append(head, rest + after, marker);
    lemma_first_at_append(rest, after, marker);
    assert((head + (rest + after)).skip(head.len() as int) == rest + after);
    assert((rest + after).take(piece.len() as int) == piece);
}

/// What stands behind the only marker is the answer, but for white space at its
/// ends.
pub proof fn law_answer_is_what_follows(before: Seq<char>, rest: Seq<char>)
    requires
        first_at(before + "text returned:"@, "text returned:"@) == Some(before.len()),
        first_at(rest, "text returned:"@) is None,
    ensures
        answer_in(true, before + "text returned:"@ + rest) == Some(trimmed(rest)),
{
    let head = before + "text returned:"@;
    lemma_first_at_append(head, rest, "text returned:"@);
    assert((head + rest).skip(head.len() as int) == rest);
}

/// Whether a request says `command` and then names a place.
pub open spec fn is_put(request: Seq<Seq<char>>, command: Seq<char>) -> bool {
    request.len() >= 5 && request[0] == command && request[1] == "-a"@ && request[3] == "-s"@
}

/// What a keychain holds, by account and service, once it has served a request.
/// Removing makes room at a place; adding fills a place that is free, and is
/// refused where it is not.
pub open spec fn served(
    held: Map<(Seq<char>, Seq<char>), Seq<char>>,
    request: Seq<Seq<char>>,
) -> Map<(Seq<char>, Seq<char>), Seq<char>> {
    let place = (request[2], request[4]);
    if is_put(request, "delete-generic-password"@) && request.len() == 5 {
        held.remove(place)
    } else if is_put(request, "add-generic-password"@) && request.len() == 7 && request[5]
        == "-w"@ && !held.contains_key(place) {
        held.insert(place, request[6])
    } else {
        held
    }
}

/// What a keychain holds once it has served some requests, in order.
pub open spec fn served_all(
    held: Map<(Seq<char>, Seq<char>), Seq<char>>,
    requests: Seq<Seq<Seq<char>>>,
) -> Map<(Seq<char>, Seq<char>), Seq<char>>
    decreases requests.len(),
{
    if requests.len() == 0 {
        held
    } else {
        served(served_all(held, requests.drop_last()), requests.last())
    }
}

/// What a keychain prints for a request, where it succeeds. It prints a secret
/// of printable ASCII characters as it is, on a line of its own.
pub open spec fn printed_for(
    held: Map<(Seq<char>, Seq<char>), Seq<char>>,
    request: Seq<Seq<char>>,
) -> Option<Seq<char>> {
    let place = (request[2], request[4]);
    if is_put(request, "find-generic-password"@) && request.len() == 6 && request[5] == "-w"@
        && held.contains_key(place) {
        Some(held[place].push('\n'))
    } else {
        None
    }
}

/// What is read from a keychain that is asked for the secret at a place.
pub open spec fn looked_up(
    held: Map<(Seq<char>, Seq<char>), Seq<char>>,
    place: (Seq<char>, Seq<char>),
) -> Option<Seq<char>> {
    match printed_for(held, find_request(place)) {
        Some(printed) => secret_in(true, printed),
        None => secret_in(false, Seq::empty()),
    }
}

/// Whether a text consists of printable ASCII characters.
pub open spec fn is_printable(s: Seq<char>) -> bool {
    forall|i: int| 0 <= i < s.len() ==> ' ' <= #[trigger] s[i] <= '~'
}

/// A secret that the keychain prints on a line of its own is read back, as long
/// as it has no white space around it.
pub proof fn law_secret_is_read_back(secret: Seq<char>, after: Seq<char>)
    requires
        trimmed(secret) == secret,
        is_blank(after),
    ensures
        secret_in(true, secret + after) == Some(secret),
{
    law_trim_ignores_blanks(Seq::empty(), secret, after);
    assert(Seq::<char>::empty() + secret + after == secret + after);
}

/// A save puts the secret into the keychain as it is, whatever it holds and
/// whatever the place held before, and touches no other place.
pub proof fn law_secret_is_saved_as_it_is(
    held: Map<(Seq<char>, Seq<char>), Seq<char>>,
    place: (Seq<char>, Seq<char>),
    secret: Seq<char>,
)
    ensures
        served_all(held, seq![delete_request(place), add_request(place, secret)]) == held.insert(
            place,
            secret,
        ),
        served_all(held, seq![delete_request(place)]) == held.remove(place),
{
    let delete = delete_request(place);
    let add = add_request(place, secret);
    let all = seq![delete, add];
    assert(all.drop_last() == seq![delete]);
    assert(seq![delete].drop_last() == Seq::<Seq<Seq<char>>>::empty());
    reveal_with_fuel(served_all, 3);
    assert(delete.len() == 5);
    assert(add.len() == 7);
    assert((add[2], add[4]) == place);
    assert((delete[2], delete[4]) == place);
    assert(add[6] == secret);
    assert(served(held, delete) == held.remove(place));
    assert(served(held.remove(place), add) == held.remove(place).insert(place, secret));
    assert(held.remove(place).insert(place, secret) == held.insert(place, secret));
}

/// A lookup after a save gives the secret that was saved, whatever the place
/// held before. Every other place holds what it held, and a place that holds
/// nothing gives nothing.
pub proof fn law_saved_secret_is_found(
    held: Map<(Seq<char>, Seq<char>), Seq<char>>,
    place: (Seq<char>, Seq<char>),
    secret: Seq<char>,
    other: (Seq<char>, Seq<char>),
)
    requires
        is_printable(secret),
        trimmed(secret) == secret,
        other != place,
    ensures
        ({
            let after = served_all(held, seq![delete_request(place), add_request(place, secret)]);
            &&& looked_up(after, place) == Some(secret)
            &&& looked_up(after, other) == looked_up(held, other)
            &&& !held.contains_key(other) ==> looked_up(after, other) is None
        }),
{
    law_secret_is_saved_as_it_is(held, place, secret);
    let find = find_request(place);
    assert((find[2], find[4]) == place);
    let find_other = find_request(other);
    assert((find_other[2], find_other[4]) == other);
    law_secret_is_read_back(secret, seq!['\n']);
    assert(secret + seq!['\n'] == secret.push('\n'));
}

/// The account and the service under which a password is kept.
pub open spec fn password_place(host: Seq<char>, username: Seq<char>) -> (Seq<char>, Seq<char>) {
    (username, "termy-ssh-"@ + host)
}

/// The account and the service under which a passphrase is kept.
pub open spec fn passphrase_place(key_id: Seq<char>) -> (Seq<char>, Seq<char>) {
    (key_id, "termy-sshkey"@)
}

/// Two logins share a place in the keychain only if host and user are the same,
/// and no login shares one with a key.
pub proof fn law_places_are_distinct(
    host: Seq<char>,
    username: Seq<char>,
    other_host: Seq<char>,
    other_username: Seq<char>,
    key_id: Seq<char>,
)
    ensures
        password_place(host, username) == password_place(other_host, other_username) ==> host
            == other_host && username == other_username,
        password_place(host, username) != passphrase_place(key_id),
{
    reveal_strlit("termy-ssh-");
    reveal_strlit("termy-sshkey");
    let service = "termy-ssh-"@ + host;
    assert(service.skip(10) == host);
    assert(("termy-ssh-"@ + other_host).skip(10) == other_host);
    assert(service[9] == '-');
    assert("termy-sshkey"@[9] == 'k');
}

/// A dialog that was cancelled gives nothing, whatever it printed, and so does
/// one that printed no answer.
pub proof fn law_cancelled_dialog_gives_nothing(printed: Seq<char>)
    ensures
        answer_in(false, printed) is None,
        secret_in(false, printed) is None,
        first_at(printed, "text returned:"@) is None ==> answer_in(true, printed) is None,
        first_at(printed, "text returned:"@) is Some ==> answer_in(true, printed) is Some,
        secret_in(true, printed) is Some,
{
}

/// Two keys share a place in the keychain only if they are the same file.
pub proof fn law_keys_have_their_own_places(key_id: Seq<char>, other: Seq<char>)
    ensures
        passphrase_place(key_id) == passphrase_place(other) ==> key_id == other,
        passphrase_place(key_id).0 == key_id,
        password_place(key_id, other).0 == other,
{
}

/// Escaping changes nothing but backslashes and quotes, each of which gets a
/// backslash before it.
pub proof fn law_escaping_changes_little(a: Seq<char>, c: char, b: Seq<char>)
    ensures
        escaped(a + seq![c] + b) == escaped(a) + (if c == '\\' {
            seq!['\\', '\\']
        } else if c == '"' {
            seq!['\\', '"']
        } else {
            seq![c]
        }) + escaped(b),
        escaped(Seq::empty()) == Seq::<char>::empty(),
{
    lemma_escaped_append(a + seq![c], b);
    lemma_escaped_append(a, seq![c]);
    assert(seq![c].drop_last() == Seq::<char>::empty());
    assert(escaped(seq![c]) == escaped_char(c)) by {
        reveal_with_fuel(escaped, 2);
        assert(Seq::<char>::empty() + escaped_char(c) == escaped_char(c));
    }
}

} // verus!
