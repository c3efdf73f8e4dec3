//! Text as a sequence of characters.
//!
//! Strings are taken apart into characters, worked on by index, and put back
//! together. Everything here is stated over `Seq<char>`.

use vstd::prelude::*;

verus! {

/// The texts of a list of strings.
pub open spec fn texts(list: Seq<String>) -> Seq<Seq<char>> {
    list.map_values(|s: String| s@)
}

/// The characters of a string, in order.
pub fn chars_of(s: &str) -> (r: Vec<char>)
    ensures
        r@ == s@,
{
    let mut r: Vec<char> = Vec::new();
    for c in it: s.chars()
        invariant
            it.seq() == s@,
            r@ == s@.take(it.index()),
    {
        r.push(c);
    }
    assert(s@.take(s@.len() as int) == s@);
    r
}

/// The string made of the given characters.
pub fn text_of(chars: &[char]) -> (r: String)
    ensures
        r@ == chars@,
{
    let mut r = String::new();
    let mut i: usize = 0;
    while i < chars.len()
        invariant
            i <= chars@.len(),
            r@ == chars@.take(i as int),
        decreases chars@.len() - i,
    {
        r.push(chars[i]);
        i += 1;
    }
    assert(chars@.take(chars@.len() as int) == chars@);
    r
}

/// Whether `c` has the Unicode property White_Space.
pub open spec fn is_white_space(c: char) -> bool {
    ||| '\u{9}' <= c <= '\u{d}'
    ||| c == ' '
    ||| c == '\u{85}'
    ||| c == '\u{a0}'
    ||| c == '\u{1680}'
    ||| '\u{2000}' <= c <= '\u{200a}'
    ||| c == '\u{2028}'
    ||| c == '\u{2029}'
    ||| c == '\u{202f}'
    ||| c == '\u{205f}'
    ||| c == '\u{3000}'
}

/// Decides the Unicode property White_Space.
pub fn white_space(c: char) -> (r: bool)
    ensures
        r == is_white_space(c),
{
    ('\u{9}' <= c && c <= '\u{d}') || c == ' ' || c == '\u{85}' || c == '\u{a0}' || c == '\u{1680}'
        || ('\u{2000}' <= c && c <= '\u{200a}') || c == '\u{2028}' || c == '\u{2029}'
        || c == '\u{202f}' || c == '\u{205f}' || c == '\u{3000}'
}

/// `s` without its leading white space.
pub open spec fn trim_start(s: Seq<char>) -> Seq<char>
    decreases s.len(),
{
    if s.len() > 0 && is_white_space(s[0]) {
        trim_start(s.skip(1))
    } else {
        s
    }
}

/// `s` without its trailing white space.
pub open spec fn trim_end(s: Seq<char>) -> Seq<char>
    decreases s.len(),
{
    if s.len() > 0 && is_white_space(s.last()) {
        trim_end(s.drop_last())
    } else {
        s
    }
}

/// `s` without the white space around it.
pub open spec fn trimmed(s: Seq<char>) -> Seq<char> {
    trim_end(trim_start(s))
}

/// Removes the white space around `s`.
pub fn trim(s: &[char]) -> (r: &[char])
    ensures
        r@ == trimmed(s@),
{
    let mut from: usize = 0;
    assert(s@.skip(0) == s@);
    while from < s.len() && white_space(s[from])
        invariant
            from <= s@.len(),
            trim_start(s@.skip(from as int)) == trim_start(s@),
        decreases s@.len() - from,
    {
        assert(s@.skip(from as int).skip(1) == s@.skip(from + 1));
        from += 1;
    }
    assert(trim_start(s@) == s@.skip(from as int));
    let mut to: usize = s.len();
    assert(s@.subrange(from as int, to as int) == s@.skip(from as int));
    while to > from && white_space(s[to - 1])
        invariant
            from <= to <= s@.len(),
            trim_end(s@.subrange(from as int, to as int)) == trimmed(s@),
        decreases to - from,
    {
        assert(s@.subrange(from as int, to as int).drop_last() == s@.subrange(from as int, to - 1));
        to -= 1;
    }
    vstd::slice::slice_subrange(s, from, to)
}

/// Whether `s` begins with `prefix`.
pub open spec fn begins_with(s: Seq<char>, prefix: Seq<char>) -> bool {
    prefix.len() <= s.len() && s.take(prefix.len() as int) == prefix
}

/// Decides whether `s` begins with `prefix` from position `at` on.
pub fn begins_with_at(s: &[char], at: usize, prefix: &[char]) -> (r: bool)
    requires
        at <= s@.len(),
    ensures
        r == begins_with(s@.skip(at as int), prefix@),
{
    let n: usize = s.len();
    if n - at < prefix.len() {
        return false;
    }
    let mut i: usize = 0;
    while i < prefix.len()
        invariant
            i <= prefix@.len(),
            n == s@.len(),
            at + prefix@.len() <= n,
            forall|k: int| 0 <= k < i ==> s@[at + k] == prefix@[k],
        decreases prefix@.len() - i,
    {
        if s[at + i] != prefix[i] {
            assert(s@.skip(at as int).take(prefix@.len() as int)[i as int] == s@[at + i]);
            return false;
        }
        i += 1;
    }
    assert(s@.skip(at as int).take(prefix@.len() as int) == prefix@);
    true
}

/// Decides whether two texts are the same.
pub fn same_text(a: &[char], b: &[char]) -> (r: bool)
    ensures
        r == (a@ == b@),
{
    if a.len() != b.len() {
        return false;
    }
    let r = begins_with_at(a, 0, b);
    assert(a@.skip(0).take(b@.len() as int) == a@);
    r
}

/// `s` with every occurrence of `pattern`, found from the left and not
/// overlapping, replaced by `with`.
pub open spec fn replace_all(s: Seq<char>, pattern: Seq<char>, with: Seq<char>) -> Seq<char>
    decreases s.len(),
{
    if pattern.len() == 0 || s.len() == 0 {
        s
    } else if begins_with(s, pattern) {
        with + replace_all(s.skip(pattern.len() as int), pattern, with)
    } else {
        seq![s[0]] + replace_all(s.skip(1), pattern, with)
    }
}

/// Replaces every occurrence of `pattern` in `s` by `with`.
pub fn replace(s: &[char], pattern: &[char], with: &str) -> (r: String)
    requires
        pattern@.len() > 0,
    ensures
        r@ == replace_all(s@, pattern@, with@),
{
    let mut r = String::new();
    let mut i: usize = 0;
    assert(s@.skip(0) == s@);
    assert(r@ + replace_all(s@, pattern@, with@) == replace_all(s@, pattern@, with@));
    while i < s.len()
        invariant
            i <= s@.len(),
            pattern@.len() > 0,
            r@ + replace_all(s@.skip(i as int), pattern@, with@) == replace_all(
                s@,
                pattern@,
                with@,
            ),
        decreases s@.len() - i,
    {
        let ghost rest = s@.skip(i as int);
        if begins_with_at(s, i, pattern) {
            let ghost before = r@;
            r.append(with);
            proof {
                assert(rest.skip(pattern@.len() as int) == s@.skip(i + pattern@.len()));
                let tail = replace_all(s@.skip(i + pattern@.len()), pattern@, with@);
                assert(before + (with@ + tail) == (before + with@) + tail);
            }
            i += pattern.len();
        } else {
            let ghost before = r@;
            r.push(s[i]);
            proof {
                assert(rest.skip(1) == s@.skip(i + 1));
                let tail = replace_all(s@.skip(i + 1), pattern@, with@);
                assert(before + (seq![rest[0]] + tail) == before.push(rest[0]) + tail);
            }
            i += 1;
        }
    }
    assert(s@.skip(s@.len() as int).len() == 0);
    assert(r@ + s@.skip(s@.len() as int) == r@);
    r
}

/// The decimal digit `d`, for `d` below ten.
pub open spec fn digit(d: nat) -> char {
    ('0' as nat + d) as char
}

/// `n` written in decimal, without leading zeros.
pub open spec fn decimal(n: nat) -> Seq<char>
    decreases n,
{
    if n < 10 {
        seq![digit(n)]
    } else {
        decimal(n / 10).push(digit(n % 10))
    }
}

/// Writes `n` in decimal.
pub fn to_decimal(n: u64) -> (r: String)
    ensures
        r@ == decimal(n as nat),
    decreases n,
{
    let mut r = if n < 10 { String::new() } else { to_decimal(n / 10) };
    let d: u8 = 48u8 + (n % 10) as u8;
    r.push(d as char);
    r
}

/// A number is written in digits alone.
pub proof fn law_decimal_is_digits(n: nat, i: int)
    requires
        0 <= i < decimal(n).len(),
    ensures
        '0' <= decimal(n)[i] <= '9',
    decreases n,
{
    assert forall|d: nat| d < 10 implies '0' <= #[trigger] digit(d) <= '9' by {}
    if n >= 10 {
        assert('0' <= digit(n % 10) <= '9');
        if i < decimal(n / 10).len() {
            law_decimal_is_digits(n / 10, i);
        }
    } else {
        assert('0' <= digit(n) <= '9');
    }
}

/// Different numbers are written differently.
pub proof fn law_decimals_differ(a: nat, b: nat)
    requires
        a != b,
    ensures
        decimal(a) != decimal(b),
    decreases a,
{
    assert forall|d: nat| d < 10 implies #[trigger] digit(d) as nat == 48 + d by {}
    if a >= 10 && b >= 10 {
        let x = decimal(a / 10);
        let y = decimal(b / 10);
        assert(decimal(a) == x.push(digit(a % 10)));
        assert(decimal(b) == y.push(digit(b % 10)));
        assert(decimal(a).drop_last() == x);
        assert(decimal(b).drop_last() == y);
        if a / 10 != b / 10 {
            law_decimals_differ(a / 10, b / 10);
            assert(decimal(a) != decimal(b));
        } else {
            assert(digit(a % 10) as nat == 48 + a % 10);
            assert(digit(b % 10) as nat == 48 + b % 10);
            assert(decimal(a).last() != decimal(b).last());
            assert(decimal(a) != decimal(b));
        }
    } else if a >= 10 {
        lemma_decimal_holds_something(a / 10);
        assert(decimal(a).len() > decimal(b).len());
        assert(decimal(a) != decimal(b));
    } else if b >= 10 {
        lemma_decimal_holds_something(b / 10);
        assert(decimal(a).len() < decimal(b).len());
        assert(decimal(a) != decimal(b));
    } else {
        assert(decimal(a)[0] == digit(a));
        assert(decimal(b)[0] == digit(b));
        assert(decimal(a) != decimal(b));
    }
}

proof fn lemma_decimal_holds_something(n: nat)
    ensures
        decimal(n).len() > 0,
{
}

/// `c` with an upper case ASCII letter made lower case.
pub open spec fn ascii_lower(c: char) -> char {
    if 'A' <= c <= 'Z' {
        (c as u32 + 32) as char
    } else {
        c
    }
}

/// Whether two texts are the same but for the case of ASCII letters.
pub open spec fn same_ignoring_case(a: Seq<char>, b: Seq<char>) -> bool {
    &&& a.len() == b.len()
    &&& forall|i: int| 0 <= i < a.len() ==> ascii_lower(#[trigger] a[i]) == ascii_lower(b[i])
}

fn lower(c: char) -> (r: char)
    ensures
        r == ascii_lower(c),
{
    if 'A' <= c && c <= 'Z' {
        let b: u8 = c as u8;
        (b + 32u8) as char
    } else {
        c
    }
}

/// Decides whether two texts are the same but for the case of ASCII letters.
pub fn eq_ignoring_case(a: &str, b: &str) -> (r: bool)
    ensures
        r == same_ignoring_case(a@, b@),
{
    let x = chars_of(a);
    let y = chars_of(b);
    if x.len() != y.len() {
        return false;
    }
    let mut i: usize = 0;
    while i < x.len()
        invariant
            x@ == a@,
            y@ == b@,
            i <= x@.len(),
            x@.len() == y@.len(),
            forall|k: int| 0 <= k < i ==> ascii_lower(#[trigger] x@[k]) == ascii_lower(y@[k]),
        decreases x@.len() - i,
    {
        if lower(x[i]) != lower(y[i]) {
            assert(ascii_lower(x@[i as int]) != ascii_lower(y@[i as int]));
            return false;
        }
        i += 1;
    }
    true
}

/// Decides whether two strings hold the same text.
pub fn eq_text(a: &str, b: &str) -> (r: bool)
    ensures
        r == (a@ == b@),
{
    let x = chars_of(a);
    let y = chars_of(b);
    same_text(x.as_slice(), y.as_slice())
}

/// Where `pattern` first occurs in `s`.
pub open spec fn first_at(s: Seq<char>, pattern: Seq<char>) -> Option<nat>
    decreases s.len(),
{
    if begins_with(s, pattern) {
        Some(0)
    } else if s.len() == 0 {
        None
    } else {
        match first_at(s.skip(1), pattern) {
            Some(i) => Some(i + 1),
            None => None,
        }
    }
}

/// An occurrence lies within the text.
pub proof fn lemma_first_at_fits(s: Seq<char>, pattern: Seq<char>)
    requires
        first_at(s, pattern) is Some,
    ensures
        first_at(s, pattern)->0 + pattern.len() <= s.len(),
    decreases s.len(),
{
    if !begins_with(s, pattern) {
        lemma_first_at_fits(s.skip(1), pattern);
    }
}

/// Finds where `pattern` first occurs in `s` from position `from` on.
pub fn find_from(s: &[char], from: usize, pattern: &[char]) -> (r: Option<usize>)
    requires
        from <= s@.len(),
    ensures
        match r {
            Some(i) => from <= i && i + pattern@.len() <= s@.len() && first_at(
                s@.skip(from as int),
                pattern@,
            ) == Some((i - from) as nat),
            None => first_at(s@.skip(from as int), pattern@) is None,
        },
{
    let n: usize = s.len();
    let mut i: usize = from;
    let ghost rest = s@.skip(from as int);
    loop
        invariant
            n == s@.len(),
            from <= i <= n,
            rest == s@.skip(from as int),
            first_at(rest, pattern@) == (match first_at(s@.skip(i as int), pattern@) {
                Some(k) => Some((k + (i - from)) as nat),
                None => None,
            }),
        decreases n - i,
    {
        if begins_with_at(s, i, pattern) {
            return Some(i);
        }
        if i == n {
            return None;
        }
        assert(s@.skip(i as int).skip(1) == s@.skip(i + 1));
        i += 1;
    }
}

/// Whether a text is white space throughout.
pub open spec fn is_blank(s: Seq<char>) -> bool {
    forall|i: int| 0 <= i < s.len() ==> is_white_space(#[trigger] s[i])
}

proof fn lemma_trim_start_blank(blank: Seq<char>, s: Seq<char>)
    requires
        is_blank(blank),
    ensures
        trim_start(blank + s) == trim_start(s),
    decreases blank.len(),
{
    if blank.len() == 0 {
        assert(blank + s == s);
    } else {
        assert((blank + s)[0] == blank[0]);
        assert((blank + s).skip(1) == blank.skip(1) + s);
        lemma_trim_start_blank(blank.skip(1), s);
    }
}

proof fn lemma_trim_end_blank(s: Seq<char>, blank: Seq<char>)
    requires
        is_blank(blank),
    ensures
        trim_end(s + blank) == trim_end(s),
    decreases blank.len(),
{
    if blank.len() == 0 {
        assert(s + blank == s);
    } else {
        assert((s + blank).last() == blank.last());
        assert((s + blank).drop_last() == s + blank.drop_last());
        lemma_trim_end_blank(s, blank.drop_last());
    }
}

proof fn lemma_trim_start_append(s: Seq<char>, t: Seq<char>)
    ensures
        trim_start(s + t) == (if trim_start(s).len() > 0 {
            trim_start(s) + t
        } else {
            trim_start(t)
        }),
    decreases s.len(),
{
    if s.len() == 0 {
        assert(s + t == t);
    } else if is_white_space(s[0]) {
        assert((s + t).skip(1) == s.skip(1) + t);
        lemma_trim_start_append(s.skip(1), t);
    }
}

proof fn lemma_trim_blank(blank: Seq<char>)
    requires
        is_blank(blank),
    ensures
        trim_start(blank) == Seq::<char>::empty(),
    decreases blank.len(),
{
    if blank.len() == 0 {
        assert(blank == Seq::<char>::empty());
    } else {
        lemma_trim_blank(blank.skip(1));
    }
}

/// White space around a text makes no difference once it is trimmed.
pub proof fn law_trim_ignores_blanks(before: Seq<char>, s: Seq<char>, after: Seq<char>)
    requires
        is_blank(before),
        is_blank(after),
    ensures
        trimmed(before + s + after) == trimmed(s),
{
    assert(before + s + after == before + (s + after));
    lemma_trim_start_blank(before, s + after);
    lemma_trim_start_append(s, after);
    if trim_start(s).len() > 0 {
        lemma_trim_end_blank(trim_start(s), after);
    } else {
        lemma_trim_blank(after);
        assert(trim_start(s) == Seq::<char>::empty());
    }
}

proof fn lemma_trim_start_first(s: Seq<char>)
    ensures
        trim_start(s).len() > 0 ==> !is_white_space(trim_start(s)[0]),
    decreases s.len(),
{
    if s.len() > 0 && is_white_space(s[0]) {
        lemma_trim_start_first(s.skip(1));
    }
}

proof fn lemma_trim_end_last(s: Seq<char>)
    ensures
        trim_end(s).len() > 0 ==> !is_white_space(trim_end(s).last()) && trim_end(s)[0] == s[0],
    decreases s.len(),
{
    if s.len() > 0 && is_white_space(s.last()) {
        lemma_trim_end_last(s.drop_last());
    }
}

/// A text is free of white space around it exactly if it neither begins nor ends
/// with any.
pub proof fn law_trimmed_ends(s: Seq<char>)
    ensures
        trimmed(s) == s <==> s.len() == 0 || (!is_white_space(s[0]) && !is_white_space(s.last())),
        trimmed(trimmed(s)) == trimmed(s),
{
    lemma_trim_start_first(s);
    lemma_trim_end_last(trim_start(s));
    let t = trimmed(s);
    lemma_trim_start_first(t);
    lemma_trim_end_last(trim_start(t));
}

/// Whether `pattern` stands at place `k` of `s`.
pub open spec fn occurs_at(s: Seq<char>, pattern: Seq<char>, k: int) -> bool {
    0 <= k && k + pattern.len() <= s.len() && s.subrange(k, k + pattern.len()) == pattern
}

/// The first occurrence of a pattern is one, and none comes before it; where
/// there is no first one there is none at all.
pub proof fn law_first_occurrence(s: Seq<char>, pattern: Seq<char>, k: int)
    ensures
        match first_at(s, pattern) {
            Some(i) => occurs_at(s, pattern, i as int) && (occurs_at(s, pattern, k) ==> i <= k),
            None => !occurs_at(s, pattern, k),
        },
    decreases s.len(),
{
    let n = pattern.len() as int;
    if begins_with(s, pattern) {
        assert(s.subrange(0, n) == s.take(n));
    } else {
        if occurs_at(s, pattern, 0) {
            assert(s.subrange(0, n) == s.take(n));
        }
        if s.len() > 0 {
            law_first_occurrence(s.skip(1), pattern, k - 1);
            if occurs_at(s, pattern, k) && k > 0 {
                assert(s.skip(1).subrange(k - 1, k - 1 + n) == s.subrange(k, k + n));
            }
            match first_at(s.skip(1), pattern) {
                Some(i) => {
                    assert(s.skip(1).subrange(i as int, i + n) == s.subrange(i as int + 1, i as int + 1 + n));
                },
                None => {},
            }
        }
    }
}

/// Replacing a pattern puts the other text in the place of its first occurrence
/// and goes on behind it; what stands before stays. Where it does not occur
/// nothing changes.
pub proof fn law_replaced_from_the_left(s: Seq<char>, pattern: Seq<char>, with: Seq<char>)
    requires
        pattern.len() > 0,
    ensures
        match first_at(s, pattern) {
            Some(i) => replace_all(s, pattern, with) == s.take(i as int) + with + replace_all(
                s.skip((i + pattern.len()) as int),
                pattern,
                with,
            ),
            None => replace_all(s, pattern, with) == s,
        },
    decreases s.len(),
{
    if begins_with(s, pattern) {
        assert(s.take(0) + with == with);
    } else if s.len() > 0 {
        law_replaced_from_the_left(s.skip(1), pattern, with);
        match first_at(s.skip(1), pattern) {
            Some(i) => {
                lemma_first_at_fits(s.skip(1), pattern);
                let rest = replace_all(s.skip((i + 1 + pattern.len()) as int), pattern, with);
                assert(s.skip(1).skip((i + pattern.len()) as int) == s.skip(
                    (i + 1 + pattern.len()) as int,
                ));
                assert(seq![s[0]] + (s.skip(1).take(i as int) + with + rest) == s.take(i as int + 1) + with
                    + rest);
            },
            None => {
                assert(seq![s[0]] + s.skip(1) == s);
            },
        }
    } else {
        assert(first_at(s, pattern) is None);
    }
}

proof fn lemma_trim_start_cut(s: Seq<char>) -> (i: int)
    ensures
        0 <= i <= s.len(),
        trim_start(s) == s.skip(i),
        is_blank(s.take(i)),
    decreases s.len(),
{
    if s.len() > 0 && is_white_space(s[0]) {
        let k = lemma_trim_start_cut(s.skip(1));
        assert(s.skip(1).skip(k) == s.skip(k + 1));
        assert forall|j: int| 0 <= j < k + 1 implies is_white_space(#[trigger] s.take(k + 1)[j]) by {
            if j > 0 {
                assert(s.skip(1).take(k)[j - 1] == s[j]);
            }
        }
        k + 1
    } else {
        assert(s.skip(0) == s);
        0
    }
}

proof fn lemma_trim_end_cut(s: Seq<char>) -> (i: int)
    ensures
        0 <= i <= s.len(),
        trim_end(s) == s.take(i),
        is_blank(s.skip(i)),
    decreases s.len(),
{
    if s.len() > 0 && is_white_space(s.last()) {
        let k = lemma_trim_end_cut(s.drop_last());
        assert(s.drop_last().take(k) == s.take(k));
        assert forall|j: int| 0 <= j < s.len() - k implies is_white_space(#[trigger] s.skip(k)[j]) by {
            if j < s.len() - k - 1 {
                assert(s.drop_last().skip(k)[j] == s.skip(k)[j]);
            }
        }
        k
    } else {
        assert(s.take(s.len() as int) == s);
        s.len() as int
    }
}

/// Trimming takes nothing but white space away, and only at the ends.
pub proof fn law_trimming_takes_only_blanks(s: Seq<char>)
    ensures
        exists|i: int, j: int|
            0 <= i <= j <= s.len() && trimmed(s) == #[trigger] s.subrange(i, j) && is_blank(
                s.take(i),
            ) && is_blank(s.skip(j)),
{
    let i = lemma_trim_start_cut(s);
    let k = lemma_trim_end_cut(s.skip(i));
    assert(s.skip(i).take(k) == s.subrange(i, i + k));
    assert(s.skip(i).skip(k) == s.skip(i + k));
    assert(trimmed(s) == s.subrange(i, i + k) && is_blank(s.take(i)) && is_blank(s.skip(i + k)));
}

/// The number that some digits stand for.
pub open spec fn number_of(digits: Seq<char>) -> int
    decreases digits.len(),
{
    if digits.len() == 0 {
        0
    } else {
        10 * number_of(digits.drop_last()) + (digits.last() as int - 48)
    }
}

/// What is written for a number stands for that number, without a leading zero.
pub proof fn law_decimal_stands_for_its_number(n: nat)
    ensures
        number_of(decimal(n)) == n,
        n > 0 ==> decimal(n)[0] != '0',
        decimal(n).len() > 0,
    decreases n,
{
    assert forall|d: nat| d < 10 implies #[trigger] digit(d) as int == 48 + d by {}
    if n < 10 {
        assert(digit(n) as int == 48 + n);
        assert(seq![digit(n)].drop_last() == Seq::<char>::empty());
        reveal_with_fuel(number_of, 2);
    } else {
        law_decimal_stands_for_its_number(n / 10);
        assert(digit(n % 10) as int == 48 + n % 10);
        assert(decimal(n).drop_last() == decimal(n / 10));
    }
}

/// Two texts are the same but for case exactly if they agree at every place, up
/// to an upper case ASCII letter on one side and the same letter in lower case
/// on the other.
pub proof fn law_case_of_letters_alone(a: Seq<char>, b: Seq<char>)
    ensures
        same_ignoring_case(a, b) <==> a.len() == b.len() && (forall|i: int|
            0 <= i < a.len() ==> {
                ||| #[trigger] a[i] == b[i]
                ||| 'A' <= a[i] <= 'Z' && b[i] as int == a[i] as int + 32
                ||| 'A' <= b[i] <= 'Z' && a[i] as int == b[i] as int + 32
            }),
{
    assert forall|c: char| 'A' <= c <= 'Z' implies #[trigger] ascii_lower(c) as int == c as int + 32 by {}
    if a.len() == b.len() {
        assert forall|i: int| 0 <= i < a.len() implies (ascii_lower(#[trigger] a[i]) == ascii_lower(
            b[i],
        )) == {
            ||| a[i] == b[i]
            ||| 'A' <= a[i] <= 'Z' && b[i] as int == a[i] as int + 32
            ||| 'A' <= b[i] <= 'Z' && a[i] as int == b[i] as int + 32
        } by {
            let x = ascii_lower(a[i]);
            let y = ascii_lower(b[i]);
        }
    }
}

/// White space is what separates words and lines: tabs, line breaks and blanks
/// of every width. Nothing else of ASCII is, and nothing behind the wide blank
/// that comes before the Chinese, Japanese and Korean scripts.
pub proof fn law_what_is_white_space(c: char)
    ensures
        c == '\t' || c == '\n' || c == '\r' || c == ' ' || c == '\u{a0}' || c == '\u{3000}'
            ==> is_white_space(c),
        '\u{9}' <= c <= '\u{d}' || '\u{2000}' <= c <= '\u{200a}' || c == '\u{85}' || c
            == '\u{1680}' || '\u{2028}' <= c <= '\u{2029}' || c == '\u{202f}' || c == '\u{205f}'
            ==> is_white_space(c),
        c < '\u{9}' || '\u{d}' < c < ' ' || '!' <= c < '\u{85}' || '\u{a0}' < c < '\u{1680}'
            ==> !is_white_space(c),
        '\u{85}' < c < '\u{a0}' || '\u{1680}' < c < '\u{2000}' || '\u{200a}' < c < '\u{2028}'
            || '\u{205f}' < c < '\u{3000}' ==> !is_white_space(c),
        c > '\u{3000}' ==> !is_white_space(c),
{
}

} // verus!
