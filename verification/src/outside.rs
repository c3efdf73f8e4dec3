//! What the library takes from elsewhere on trust.
//!
//! Each item names the function behind it and says what is claimed of it.

use vstd::prelude::*;

use vstd::string::StringSliceAdditionalSpecFns;
use vstd::utf8::{decode_utf8, valid_utf8};

use crate::hostkey::KnownHost;

verus! {

/// `String::push` appends one character to the end of the string.
pub assume_specification[ String::push ](s: &mut String, c: char)
    ensures
        final(s)@ == old(s)@.push(c),
;

/// The error of `core::str::from_utf8`.
#[verifier::external_type_specification]
#[verifier::external_body]
pub struct ExUtf8Error(core::str::Utf8Error);

/// `core::str::from_utf8` succeeds exactly on valid UTF-8 and then gives the
/// string that these bytes encode.
pub assume_specification[ core::str::from_utf8 ](v: &[u8]) -> (r: Result<
    &str,
    core::str::Utf8Error,
>)
    ensures
        r is Ok <==> valid_utf8(v@),
        r matches Ok(s) ==> s.spec_bytes() == v@,
;

/// What `String::from_utf8_lossy` makes of some bytes.
pub uninterp spec fn utf8_lossy(bytes: Seq<u8>) -> Seq<char>;

/// `String::from_utf8_lossy` gives the text that valid UTF-8 encodes. What it
/// puts in the place of bytes that are no UTF-8 depends on those bytes alone,
/// and is not said here.
#[verifier::external_body]
pub(crate) fn from_utf8_lossy(bytes: &[u8]) -> (r: String)
    ensures
        r@ == utf8_lossy(bytes@),
        valid_utf8(bytes@) ==> r@ == decode_utf8(bytes@),
{
    String::from_utf8_lossy(bytes).into_owned()
}

/// What `str::to_lowercase` makes of a text.
pub uninterp spec fn lowercase(text: Seq<char>) -> Seq<char>;

/// `str::to_lowercase` gives the lower case of a text by the rules of Unicode.
/// What that is depends on the text alone; which characters it gives is not
/// said here.
pub assume_specification[ str::to_lowercase ](s: &str) -> (r: String)
    ensures
        r@ == lowercase(s@),
;

/// `dirs::home_dir` finds the home directory of the user, and the text of its
/// path with anything that is no UTF-8 replaced. Where it lies, and whether
/// there is one, is a matter of the environment; it is never empty.
#[verifier::external_body]
pub(crate) fn home_directory() -> (r: Option<String>)
    ensures
        r matches Some(home) ==> home@.len() > 0,
{
    dirs::home_dir().map(|p| p.to_string_lossy().into_owned())
}

/// A list of known hosts.
#[verifier::external_type_specification]
#[verifier::external_body]
pub struct ExKnownHosts(ssh2::KnownHosts);

/// The kind of a key in a list of known hosts.
#[verifier::external_type_specification]
#[verifier::external_body]
pub struct ExKnownHostKeyFormat(ssh2::KnownHostKeyFormat);

/// What an `ssh2::KnownHosts` holds: for every name that an entry answers to,
/// plainly or by its hash, the keys that count as known under it. An entry whose
/// key cannot be read answers to its name with no key.
pub uninterp spec fn hosts_held(list: ssh2::KnownHosts) -> Map<Seq<char>, Set<Seq<u8>>>;

/// What a list says of a key under a name.
pub open spec fn list_says(held: Map<Seq<char>, Set<Seq<u8>>>, name: Seq<char>, key: Seq<u8>) -> KnownHost {
    if !held.contains_key(name) {
        KnownHost::NotFound
    } else if held[name].contains(key) {
        KnownHost::Match
    } else {
        KnownHost::Mismatch
    }
}

/// A list with one more key under a name.
pub open spec fn with_key(held: Map<Seq<char>, Set<Seq<u8>>>, name: Seq<char>, key: Seq<u8>) -> Map<
    Seq<char>,
    Set<Seq<u8>>,
> {
    held.insert(
        name,
        if held.contains_key(name) {
            held[name].insert(key)
        } else {
            Set::empty().insert(key)
        },
    )
}

/// `ssh2::KnownHosts::check` looks a key up under one name, exactly as it is
/// written. It can fail for want of memory. It panics on a name with a NUL, and
/// measures an empty key by what follows it in memory, so neither is handed to
/// it.
#[verifier::external_body]
pub(crate) fn check_known_host(list: &ssh2::KnownHosts, name: &str, key: &[u8]) -> (r: KnownHost)
    requires
        !name@.contains('\0'),
        key@.len() > 0,
    ensures
        r is Failure || r == list_says(hosts_held(*list), name@, key@),
{
    match list.check(name, key) {
        ssh2::CheckResult::Match => KnownHost::Match,
        ssh2::CheckResult::NotFound => KnownHost::NotFound,
        ssh2::CheckResult::Mismatch => KnownHost::Mismatch,
        ssh2::CheckResult::Failure => KnownHost::Failure,
    }
}

/// `ssh2::KnownHosts::add` adds a key under one name, exactly as it is written.
/// Where it fails the list stays as it was; when that is depends on the memory
/// at hand, and is not said here. An empty key is measured by what follows it in
/// memory, so none is handed to it.
#[verifier::external_body]
pub(crate) fn add_known_host(
    list: &mut ssh2::KnownHosts,
    name: &str,
    key: &[u8],
    comment: &str,
    format: ssh2::KnownHostKeyFormat,
) -> (r: Result<(), String>)
    requires
        key@.len() > 0,
    ensures
        r is Ok ==> hosts_held(*final(list)) == with_key(hosts_held(*old(list)), name@, key@),
        r is Err ==> hosts_held(*final(list)) == hosts_held(*old(list)),
{
    list.add(name, key, comment, format).map_err(|e| e.to_string())
}

/// A JSON value. Nothing inside it is seen here.
#[verifier::external_type_specification]
#[verifier::external_body]
pub struct ExValue(serde_json::Value);

/// What `serde_json::from_str` reads from a text: the value, or the words of the
/// error.
pub uninterp spec fn json_read(text: Seq<char>) -> Result<serde_json::Value, Seq<char>>;

/// Whether a text is JSON for a value.
pub open spec fn reads_as(text: Seq<char>, value: serde_json::Value) -> bool {
    json_read(text) == Ok::<serde_json::Value, Seq<char>>(value)
}

/// A JSON text without its strings. `quoted` is whether it begins inside one.
pub open spec fn without_strings(text: Seq<char>, quoted: bool) -> Seq<char>
    decreases text.len(),
{
    if text.len() == 0 {
        Seq::empty()
    } else if quoted && text[0] == '\\' && text.len() > 1 {
        without_strings(text.skip(2), true)
    } else if quoted {
        without_strings(text.skip(1), text[0] != '"')
    } else if text[0] == '"' {
        without_strings(text.skip(1), true)
    } else {
        seq![text[0]] + without_strings(text.skip(1), false)
    }
}

/// How many brackets and braces are open at the end of a text without strings.
pub open spec fn open_brackets(s: Seq<char>) -> int
    decreases s.len(),
{
    if s.len() == 0 {
        0
    } else {
        open_brackets(s.drop_last()) + if s.last() == '[' || s.last() == '{' {
            1int
        } else if s.last() == ']' || s.last() == '}' {
            -1int
        } else {
            0
        }
    }
}

/// Whether the numbers in a JSON text are all whole: none goes on with a point
/// or an exponent.
pub open spec fn whole_numbers(text: Seq<char>) -> bool {
    let s = without_strings(text, false);
    forall|i: int|
        0 <= i < s.len() - 1 && '0' <= #[trigger] s[i] <= '9' ==> s[i + 1] != '.' && s[i + 1] != 'e'
            && s[i + 1] != 'E'
}

/// Whether a JSON text nests no deeper than is read.
pub open spec fn readable_depth(text: Seq<char>) -> bool {
    let s = without_strings(text, false);
    forall|i: int| 0 <= i <= s.len() ==> open_brackets(#[trigger] s.take(i)) <= 127
}

/// The text that `serde_json::to_string_pretty` writes for a value.
pub uninterp spec fn json_text(value: serde_json::Value) -> Seq<char>;

/// `serde_json::from_str` reads a value from a text. Whether it succeeds, and
/// with what, depends on the text alone.
#[verifier::external_body]
pub(crate) fn read_json(text: &str) -> (r: Result<serde_json::Value, String>)
    ensures
        match r {
            Ok(value) => json_read(text@) is Ok && json_read(text@)->Ok_0 == value,
            Err(e) => json_read(text@) is Err && json_read(text@)->Err_0 == e@,
        },
{
    serde_json::from_str(text).map_err(|e| e.to_string())
}

/// `serde_json::to_string_pretty` writes a value as indented JSON. It fails
/// only on types that refuse to be written and on keys that are no text; a JSON
/// value has neither.
///
/// `serde_json::from_str` reads the text back as the same value where all its
/// numbers are whole and it nests no deeper than the 127 levels that are read.
/// Of other values this is not said: numbers with a fraction, which are always
/// written with a point or an exponent, may come back rounded, and values that
/// nest deeper are refused.
#[verifier::external_body]
pub(crate) fn write_json(value: &serde_json::Value) -> (r: Result<String, String>)
    ensures
        r is Ok,
        r->Ok_0@ == json_text(*value),
        whole_numbers(r->Ok_0@) && readable_depth(r->Ok_0@) ==> json_read(r->Ok_0@) is Ok
            && json_read(r->Ok_0@)->Ok_0 == *value,
{
    serde_json::to_string_pretty(value).map_err(|e| e.to_string())
}

/// `serde_json::Map::new` makes an object without fields, the value that the
/// text `{}` stands for.
#[verifier::external_body]
pub(crate) fn empty_object() -> (r: serde_json::Value)
    ensures
        reads_as("{}"@, r),
{
    serde_json::Value::Object(serde_json::Map::new())
}

} // verus!
