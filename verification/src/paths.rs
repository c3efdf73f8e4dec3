//! Paths as text: home expansion, joining, and the last component.

use vstd::prelude::*;

use crate::text::{begins_with, begins_with_at, chars_of, first_at, is_blank};
use crate::text::{law_replaced_from_the_left, law_trim_ignores_blanks, law_trimmed_ends, replace, replace_all, same_text, text_of, trim, trimmed};

verus! {

/// A key path as the user wrote it, with the home directory filled in.
///
/// White space around the path is dropped. A lone `~` and a leading `~/` stand
/// for the home directory; anywhere else it is written `$HOME`. `~user` is left
/// as it is.
pub open spec fn expanded(path: Seq<char>, home: Seq<char>) -> Seq<char> {
    let p = trimmed(path);
    if p == "~"@ {
        home
    } else if begins_with(p, "~/"@) {
        home + "/"@ + p.skip(2)
    } else {
        replace_all(p, "$HOME"@, home)
    }
}

/// Fills in the home directory in a key path.
pub fn expand_path_with_home(p: &str, home: &str) -> (r: String)
    ensures
        r@ == expanded(p@, home@),
{
    proof {
        reveal_strlit("~");
        reveal_strlit("~/");
        reveal_strlit("$HOME");
    }
    let all = chars_of(p);
    let path = trim(all.as_slice());
    let tilde = chars_of("~");
    let tilde_slash = chars_of("~/");
    let variable = chars_of("$HOME");
    if same_text(path, tilde.as_slice()) {
        return home.to_owned();
    }
    let in_home = begins_with_at(path, 0, tilde_slash.as_slice());
    assert(path@.skip(0) == path@);
    if in_home {
        let mut r = home.to_owned();
        r.append("/");
        let rest = text_of(vstd::slice::slice_subrange(path, 2, path.len()));
        assert(path@.subrange(2, path@.len() as int) == path@.skip(2));
        r.append(rest.as_str());
        return r;
    }
    replace(path, variable.as_slice(), home)
}

/// `relative` placed under `base`.
///
/// An absolute second path stands for itself. A separator goes between the two
/// unless the first is empty or already ends in one.
pub open spec fn joined(base: Seq<char>, relative: Seq<char>) -> Seq<char> {
    if relative.len() > 0 && relative[0] == '/' {
        relative
    } else if base.len() == 0 || base.last() == '/' {
        base + relative
    } else {
        base.push('/') + relative
    }
}

/// Places `relative` under `base`.
pub fn join(base: &str, relative: &str) -> (r: String)
    ensures
        r@ == joined(base@, relative@),
{
    let b = chars_of(base);
    let t = chars_of(relative);
    if t.len() > 0 && t[0] == '/' {
        return relative.to_owned();
    }
    let mut r = base.to_owned();
    if b.len() > 0 && b[b.len() - 1] != '/' {
        r.push('/');
    }
    r.append(relative);
    r
}

/// What stands behind the last `/` of `path`, or the whole of it.
pub open spec fn last_segment(path: Seq<char>) -> Seq<char>
    decreases path.len(),
{
    if path.len() == 0 || path.last() == '/' {
        Seq::empty()
    } else {
        last_segment(path.drop_last()).push(path.last())
    }
}

/// The name of the file or directory that `path` leads to.
///
/// Trailing separators and trailing `.` components do not count. There is no
/// name where nothing is left or the path ends in `..`.
pub open spec fn name_of(path: Seq<char>) -> Option<Seq<char>>
    decreases path.len(),
{
    let last = last_segment(path);
    if path.len() == 0 {
        None
    } else if path.last() == '/' {
        name_of(path.drop_last())
    } else if last == "."@ {
        name_of(path.drop_last())
    } else if last == ".."@ {
        None
    } else {
        Some(last)
    }
}

proof fn lemma_last_segment(path: Seq<char>, from: int)
    requires
        0 <= from <= path.len(),
        from == 0 || path[from - 1] == '/',
        forall|k: int| from <= k < path.len() ==> path[k] != '/',
    ensures
        last_segment(path) == path.skip(from),
    decreases path.len(),
{
    if path.len() > from {
        lemma_last_segment(path.drop_last(), from);
        assert(path.drop_last().skip(from).push(path.last()) == path.skip(from));
    } else {
        assert(path.skip(from) == Seq::<char>::empty());
    }
}

/// Finds the name of the file or directory that `path` leads to.
pub fn file_name(path: &str) -> (r: Option<String>)
    ensures
        match r {
            Some(name) => name_of(path@) == Some(name@),
            None => name_of(path@) is None,
        },
{
    proof {
        reveal_strlit(".");
        reveal_strlit("..");
    }
    let all = chars_of(path);
    let dot = chars_of(".");
    let dot_dot = chars_of("..");
    let mut to: usize = all.len();
    assert(path@.take(to as int) == path@);
    while to > 0
        invariant
            all@ == path@,
            dot@ == "."@,
            dot_dot@ == ".."@,
            "."@.len() == 1,
            to <= all@.len(),
            name_of(path@.take(to as int)) == name_of(path@),
        decreases to,
    {
        let ghost part = path@.take(to as int);
        let mut from: usize = to;
        while from > 0 && all[from - 1] != '/'
            invariant
                from <= to <= all@.len(),
                forall|k: int| from <= k < to ==> all@[k] != '/',
            decreases from,
        {
            from -= 1;
        }
        let last = vstd::slice::slice_subrange(all.as_slice(), from, to);
        proof {
            lemma_last_segment(part, from as int);
            assert(last@ == part.skip(from as int));
            assert(part.drop_last() == path@.take(to - 1));
        }
        if from == to || same_text(last, dot.as_slice()) {
            to -= 1;
        } else if same_text(last, dot_dot.as_slice()) {
            return None;
        } else {
            return Some(text_of(last));
        }
    }
    None
}

/// The name under which a transfer of `path` is shown.
pub open spec fn transfer_name_of(path: Seq<char>) -> Seq<char> {
    match name_of(path) {
        Some(name) => name,
        None => path,
    }
}

/// Names a transfer: the last component of the path, or the path itself where
/// it has none.
pub fn transfer_name(path: &str) -> (r: String)
    ensures
        r@ == transfer_name_of(path@),
{
    match file_name(path) {
        Some(name) => name,
        None => path.to_owned(),
    }
}

/// The name of the local copy of a remote file that is being edited.
pub open spec fn edit_name_of(path: Seq<char>) -> Seq<char> {
    match name_of(path) {
        Some(name) => name,
        None => "file"@,
    }
}

/// Names the local copy of a remote file: its own name, so that the editor
/// still sees the extension, or `file` where it has none.
pub fn edit_name(path: &str) -> (r: String)
    ensures
        r@ == edit_name_of(path@),
{
    match file_name(path) {
        Some(name) => name,
        None => "file".to_owned(),
    }
}

proof fn lemma_replace_nothing(s: Seq<char>, pattern: Seq<char>, with: Seq<char>)
    requires
        first_at(s, pattern) is None,
    ensures
        replace_all(s, pattern, with) == s,
    decreases s.len(),
{
    if s.len() > 0 {
        lemma_replace_nothing(s.skip(1), pattern, with);
        assert(seq![s[0]] + s.skip(1) == s);
    }
}

/// White space around a path makes no difference.
pub proof fn law_expand_ignores_blanks(before: Seq<char>, path: Seq<char>, after: Seq<char>, home: Seq<char>)
    requires
        is_blank(before),
        is_blank(after),
    ensures
        expanded(before + path + after, home) == expanded(path, home),
{
    law_trim_ignores_blanks(before, path, after);
}

/// A blank path stays empty.
pub proof fn law_expand_blank(path: Seq<char>, home: Seq<char>)
    requires
        is_blank(path),
    ensures
        expanded(path, home) == Seq::<char>::empty(),
{
    reveal_strlit("~");
    reveal_strlit("~/");
    let none = Seq::<char>::empty();
    law_trim_ignores_blanks(path, none, none);
    assert(path + none + none == path);
}

/// A path that names no home directory stays as it is, be it absolute, relative,
/// or of the form `~user`.
pub proof fn law_expand_leaves_other_paths(path: Seq<char>, home: Seq<char>)
    requires
        trimmed(path) == path,
        path != "~"@,
        !begins_with(path, "~/"@),
        first_at(path, "$HOME"@) is None,
    ensures
        expanded(path, home) == path,
{
    lemma_replace_nothing(path, "$HOME"@, home);
}

/// `~` and `$HOME` alone are the home directory.
pub proof fn law_expand_home_alone(home: Seq<char>)
    ensures
        expanded("~"@, home) == home,
        expanded("$HOME"@, home) == home,
{
    reveal_strlit("~");
    reveal_strlit("~/");
    reveal_strlit("$HOME");
    let variable = "$HOME"@;
    assert(!begins_with(variable, "~/"@)) by {
        assert(variable.take(2)[0] == '$');
    }
    assert(variable.take(5) == variable);
    assert(variable.skip(5) == Seq::<char>::empty());
    assert(replace_all(variable.skip(5), variable, home) == Seq::<char>::empty());
    assert(home + Seq::<char>::empty() == home);
}

/// `~/` and `$HOME/` are two ways to write the same place.
pub proof fn law_expand_home(rest: Seq<char>, home: Seq<char>)
    requires
        trimmed("~/"@ + rest) == "~/"@ + rest,
        trimmed("$HOME/"@ + rest) == "$HOME/"@ + rest,
        first_at("/"@ + rest, "$HOME"@) is None,
    ensures
        expanded("~/"@ + rest, home) == home + "/"@ + rest,
        expanded("$HOME/"@ + rest, home) == home + "/"@ + rest,
{
    reveal_strlit("~");
    reveal_strlit("~/");
    reveal_strlit("/");
    reveal_strlit("$HOME");
    reveal_strlit("$HOME/");
    let tilde = "~/"@ + rest;
    assert(tilde.take(2) == "~/"@);
    assert(tilde.skip(2) == rest);
    let variable = "$HOME/"@ + rest;
    assert(variable.take(5) == "$HOME"@);
    assert(variable.skip(5) == "/"@ + rest);
    lemma_replace_nothing("/"@ + rest, "$HOME"@, home);
    assert(variable[0] == '$');
    assert(!begins_with(variable, "~/"@)) by {
        assert(variable.take(2)[0] == '$');
    }
    assert(home + ("/"@ + rest) == home + "/"@ + rest);
}

proof fn lemma_first_at_behind(a: Seq<char>, b: Seq<char>, pattern: Seq<char>)
    requires
        pattern.len() > 0,
        forall|i: int| 0 <= i < a.len() ==> a[i] != pattern[0],
        first_at(b, pattern) is None,
    ensures
        first_at(a + b, pattern) is None,
    decreases a.len(),
{
    if a.len() == 0 {
        assert(a + b == b);
    } else {
        assert((a + b).skip(1) == a.skip(1) + b);
        lemma_first_at_behind(a.skip(1), b, pattern);
        if begins_with(a + b, pattern) {
            assert((a + b).take(pattern.len() as int)[0] == a[0]);
        }
    }
}

/// What stands before the first `/` of a text with home directories filled in
/// stood there before.
proof fn lemma_copied(t: Seq<char>, pattern: Seq<char>, home: Seq<char>, n: int)
    requires
        home.len() > 0,
        home[0] == '/',
        0 <= n <= replace_all(t, pattern, home).len(),
        forall|k: int| 0 <= k < n ==> replace_all(t, pattern, home)[k] != '/',
    ensures
        n <= t.len(),
        t.take(n) == replace_all(t, pattern, home).take(n),
    decreases t.len(),
{
    let filled = replace_all(t, pattern, home);
    if n > 0 && t.len() > 0 && pattern.len() > 0 {
        if begins_with(t, pattern) {
            assert(filled[0] == home[0]);
        } else {
            let rest = replace_all(t.skip(1), pattern, home);
            assert forall|k: int| 0 <= k < n - 1 implies rest[k] != '/' by {
                assert(filled[k + 1] == rest[k]);
            }
            lemma_copied(t.skip(1), pattern, home, n - 1);
            assert forall|k: int| 0 <= k < n implies t[k] == filled[k] by {
                if k > 0 {
                    assert(t.skip(1).take(n - 1)[k - 1] == rest.take(n - 1)[k - 1]);
                }
            }
            assert(t.take(n) == filled.take(n));
        }
    }
}

proof fn lemma_nothing_left(t: Seq<char>, home: Seq<char>)
    requires
        home.len() > 0,
        home[0] == '/',
        !home.contains('$'),
    ensures
        first_at(replace_all(t, "$HOME"@, home), "$HOME"@) is None,
    decreases t.len(),
{
    reveal_strlit("$HOME");
    let pattern = "$HOME"@;
    let filled = replace_all(t, pattern, home);
    if t.len() > 0 {
        if begins_with(t, pattern) {
            lemma_nothing_left(t.skip(5), home);
            lemma_first_at_behind(home, replace_all(t.skip(5), pattern, home), pattern);
        } else {
            let rest = replace_all(t.skip(1), pattern, home);
            lemma_nothing_left(t.skip(1), home);
            assert(filled.skip(1) == rest);
            if begins_with(filled, pattern) {
                assert forall|k: int| 0 <= k < 5 implies #[trigger] filled[k] == pattern[k] by {
                    assert(filled.take(5)[k] == pattern[k]);
                }
                assert forall|k: int| 0 <= k < 4 implies rest[k] != '/' by {
                    assert(filled[k + 1] == rest[k]);
                }
                lemma_copied(t.skip(1), pattern, home, 4);
                assert forall|k: int| 0 <= k < 5 implies t.take(5)[k] == pattern[k] by {
                    if k > 0 {
                        assert(t.skip(1).take(4)[k - 1] == rest.take(4)[k - 1]);
                        assert(filled[k] == rest[k - 1]);
                    }
                }
                assert(t.take(5) == pattern);
            }
        }
    }
}

proof fn lemma_filled_ends(t: Seq<char>, pattern: Seq<char>, home: Seq<char>)
    requires
        t.len() > 0,
        home.len() > 0,
        pattern.len() > 0,
    ensures
        ({
            let filled = replace_all(t, pattern, home);
            &&& filled.len() > 0
            &&& filled[0] == (if begins_with(t, pattern) {
                home[0]
            } else {
                t[0]
            })
            &&& filled.last() == t.last() || filled.last() == home.last()
        }),
    decreases t.len(),
{
    let n: int = if begins_with(t, pattern) {
        pattern.len() as int
    } else {
        1
    };
    let rest = t.skip(n);
    if rest.len() > 0 {
        lemma_filled_ends(rest, pattern, home);
    } else {
        assert(replace_all(rest, pattern, home).len() == 0);
    }
}

/// A path with the home directory filled in stays as it is when that is done
/// again. This is so for a home directory that is an absolute path, has no white
/// space around it and holds no `$`; and for every path but those that come to
/// name a home directory only by being filled in: `~/` with a `$HOME` behind it,
/// and `~$HOME`.
pub proof fn law_expanding_twice(path: Seq<char>, home: Seq<char>)
    requires
        home.len() > 0,
        home[0] == '/',
        trimmed(home) == home,
        !home.contains('$'),
        begins_with(trimmed(path), "~/"@) ==> first_at(trimmed(path), "$HOME"@) is None,
        !begins_with(trimmed(path), "~$HOME"@),
    ensures
        expanded(expanded(path, home), home) == expanded(path, home),
{
    reveal_strlit("~");
    reveal_strlit("~/");
    reveal_strlit("/");
    reveal_strlit("$HOME");
    reveal_strlit("~$HOME");
    let p = trimmed(path);
    let q = expanded(path, home);
    law_trimmed_ends(path);
    law_trimmed_ends(p);
    law_trimmed_ends(home);
    law_trimmed_ends(q);
    let none = Seq::<char>::empty();
    if p == "~"@ {
        assert(first_at(none, "$HOME"@) is None);
        lemma_first_at_behind(home, none, "$HOME"@);
        assert(home + none == home);
    } else if begins_with(p, "~/"@) {
        assert(p.take(2)[0] == '~' && p.take(2)[1] == '/');
        let rest = p.skip(1);
        assert(first_at(rest, "$HOME"@) is None);
        lemma_first_at_behind(home, rest, "$HOME"@);
        assert(home + rest == q);
    } else if p.len() == 0 {
        assert(q == p);
        assert(first_at(q, "$HOME"@) is None);
    } else {
        lemma_nothing_left(p, home);
        lemma_filled_ends(p, "$HOME"@, home);
        if p[0] == '~' {
            let t = p.skip(1);
            assert(!begins_with(p, "$HOME"@)) by {
                if begins_with(p, "$HOME"@) {
                    assert(p.take(5)[0] == '~');
                }
            }
            if t.len() == 0 {
                assert(p == "~"@);
            } else {
                lemma_filled_ends(t, "$HOME"@, home);
                assert(q.skip(1) == replace_all(t, "$HOME"@, home));
                if begins_with(t, "$HOME"@) {
                    assert forall|k: int| 0 <= k < 6 implies p.take(6)[k] == "~$HOME"@[k] by {
                        if k > 0 {
                            assert(t.take(5)[k - 1] == "$HOME"@[k - 1]);
                        }
                    }
                    assert(p.take(6) == "~$HOME"@);
                } else if begins_with(q, "~/"@) {
                    assert(q.take(2)[1] == '/');
                    assert(t[0] == '/');
                    assert(p.take(2) == "~/"@);
                }
            }
        } else if begins_with(q, "~/"@) {
            assert(q.take(2)[0] == '~');
        }
    }
    assert(q != "~"@);
    assert(!begins_with(q, "~/"@)) by {
        if begins_with(q, "~/"@) {
            assert(q.take(2)[0] == '~');
        }
    }
    law_expand_leaves_other_paths(q, home);
}

/// `~/` stands for the home directory, whatever follows it.
pub proof fn law_expand_tilde(rest: Seq<char>, home: Seq<char>)
    requires
        trimmed("~/"@ + rest) == "~/"@ + rest,
    ensures
        expanded("~/"@ + rest, home) == home + "/"@ + rest,
{
    reveal_strlit("~");
    reveal_strlit("~/");
    let path = "~/"@ + rest;
    assert(path.take(2) == "~/"@);
    assert(path.skip(2) == rest);
}

/// In a path that does not begin with the home directory, `$HOME` stands for it
/// wherever it occurs.
pub proof fn law_expand_variable(path: Seq<char>, home: Seq<char>)
    requires
        trimmed(path) == path,
        path != "~"@,
        !begins_with(path, "~/"@),
    ensures
        match first_at(path, "$HOME"@) {
            Some(i) => expanded(path, home) == path.take(i as int) + home + replace_all(
                path.skip(i as int + 5),
                "$HOME"@,
                home,
            ),
            None => expanded(path, home) == path,
        },
{
    reveal_strlit("$HOME");
    law_replaced_from_the_left(path, "$HOME"@, home);
}

/// Whether a text can be the name of a file: it is neither empty nor `.` nor
/// `..`, and holds no separator.
pub open spec fn is_name(s: Seq<char>) -> bool {
    &&& s.len() > 0
    &&& s != "."@
    &&& s != ".."@
    &&& !s.contains('/')
}

/// The name of a path is what stands behind its last separator, whatever stands
/// before.
pub proof fn law_name_is_the_last_component(before: Seq<char>, name: Seq<char>)
    requires
        is_name(name),
        before.len() == 0 || before.last() == '/',
    ensures
        name_of(before + name) == Some(name),
        transfer_name_of(before + name) == name,
        edit_name_of(before + name) == name,
{
    let path = before + name;
    let from = before.len() as int;
    assert forall|k: int| from <= k < path.len() implies path[k] != '/' by {
        if path[k] == '/' {
            assert(name[k - from] == '/');
        }
    }
    lemma_last_segment(path, from);
    assert(path.skip(from) == name);
    assert(path.last() != '/');
}

/// A path that ends in `..` has no name; separators and `.` components at its
/// end make no difference. What has no name is shown as the whole path in a
/// transfer, and kept as `file` in an edit.
pub proof fn law_endings_of_a_path(path: Seq<char>)
    ensures
        name_of(path.push('/')) == name_of(path),
        name_of(path + "/."@) == name_of(path),
        name_of(path + "/.."@) is None,
        name_of(Seq::empty()) is None,
        name_of(path) is None ==> transfer_name_of(path) == path && edit_name_of(path) == "file"@,
{
    reveal_strlit(".");
    reveal_strlit("..");
    reveal_strlit("/.");
    reveal_strlit("/..");
    let slash = path.push('/');
    assert(slash.drop_last() == path);
    let dot = path + "/."@;
    assert(dot.drop_last() == slash);
    lemma_last_segment(dot, path.len() as int + 1);
    assert(dot.skip(path.len() as int + 1) == "."@);
    let dots = path + "/.."@;
    lemma_last_segment(dots, path.len() as int + 1);
    assert(dots.skip(path.len() as int + 1) == ".."@);
}

/// A name that a path has can be the name of a file.
pub proof fn law_names_are_names(path: Seq<char>)
    ensures
        name_of(path) matches Some(name) ==> is_name(name),
    decreases path.len(),
{
    if path.len() > 0 {
        law_names_are_names(path.drop_last());
        lemma_segment_holds_no_separator(path);
    }
}

proof fn lemma_segment_holds_no_separator(path: Seq<char>)
    ensures
        !last_segment(path).contains('/'),
        path.len() > 0 && path.last() != '/' ==> last_segment(path).len() > 0,
    decreases path.len(),
{
    if path.len() > 0 && path.last() != '/' {
        lemma_segment_holds_no_separator(path.drop_last());
        let last = last_segment(path);
        if last.contains('/') {
            let i = choose|i: int| 0 <= i < last.len() && last[i] == '/';
            assert(last_segment(path.drop_last())[i] == '/');
        }
    }
}

/// A name placed under a directory is the name of what lies there, and the
/// directory is kept in front of it.
pub proof fn law_joined_under_a_directory(base: Seq<char>, name: Seq<char>)
    requires
        is_name(name),
    ensures
        name_of(joined(base, name)) == Some(name),
        begins_with(joined(base, name), base),
        base.len() > 0 && base.last() != '/' ==> joined(base, name) == base + "/"@ + name,
        base.len() == 0 || base.last() == '/' ==> joined(base, name) == base + name,
{
    reveal_strlit("/");
    assert(name[0] != '/') by {
        if name[0] == '/' {
            assert(name.contains('/'));
        }
    }
    if base.len() == 0 || base.last() == '/' {
        law_name_is_the_last_component(base, name);
        assert((base + name).take(base.len() as int) == base);
    } else {
        law_name_is_the_last_component(base.push('/'), name);
        let path = base.push('/') + name;
        assert(path.take(base.len() as int) == base);
        assert(base.push('/') + name == base + "/"@ + name);
    }
}

/// An absolute path stands for itself, wherever it is placed.
pub proof fn law_joined_absolute(base: Seq<char>, path: Seq<char>)
    requires
        path.len() > 0,
        path[0] == '/',
    ensures
        joined(base, path) == path,
{
}

} // verus!
