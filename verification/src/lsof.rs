//! Finding the directory of a local shell in what `lsof -Fn` prints of it.

use vstd::prelude::*;

use vstd::utf8::{decode_utf8, valid_utf8};

use crate::outside::{from_utf8_lossy, utf8_lossy};
use crate::text::{begins_with, chars_of, decimal, find_from, first_at, lemma_first_at_fits, text_of, texts, to_decimal};

verus! {

/// A line without the carriage return that belongs to its end.
pub open spec fn without_return(line: Seq<char>) -> Seq<char> {
    if line.len() > 0 && line.last() == '\r' {
        line.drop_last()
    } else {
        line
    }
}

/// The lines of a text. A line ends in `\n` or `\r\n`; the last one need not.
pub open spec fn lines(s: Seq<char>) -> Seq<Seq<char>>
    decreases s.len(),
{
    if s.len() == 0 {
        Seq::empty()
    } else {
        match first_at(s, seq!['\n']) {
            None => seq![s],
            Some(i) => {
                proof {
                    lemma_first_at_fits(s, seq!['\n']);
                }
                seq![without_return(s.take(i as int))] + lines(s.skip((i + 1) as int))
            },
        }
    }
}

/// Whether a line names a file by a path: it begins with `n` and holds a `/`.
pub open spec fn names_path(line: Seq<char>) -> bool {
    line.len() > 0 && line[0] == 'n' && line.contains('/')
}

/// The paths that some lines name, in order.
pub open spec fn paths_in(lines: Seq<Seq<char>>) -> Seq<Seq<char>>
    decreases lines.len(),
{
    if lines.len() == 0 {
        Seq::empty()
    } else if names_path(lines[0]) {
        seq![lines[0].skip(1)] + paths_in(lines.skip(1))
    } else {
        paths_in(lines.skip(1))
    }
}

fn is_path_line(line: &[char]) -> (r: bool)
    ensures
        r == names_path(line@),
{
    if line.len() == 0 || line[0] != 'n' {
        return false;
    }
    let mut i: usize = 0;
    while i < line.len()
        invariant
            i <= line@.len(),
            line@.len() > 0,
            line@[0] == 'n',
            forall|k: int| 0 <= k < i ==> line@[k] != '/',
        decreases line@.len() - i,
    {
        if line[i] == '/' {
            assert(line@.contains(line@[i as int]));
            return true;
        }
        i += 1;
    }
    false
}

/// Lists the paths that a text of `lsof` names, in order.
pub fn named_paths(text: &str) -> (r: Vec<String>)
    ensures
        texts(r@) == paths_in(lines(text@)),
{
    let s = chars_of(text);
    let n: usize = s.len();
    let newline: Vec<char> = vec!['\n'];
    let mut r: Vec<String> = Vec::new();
    let mut from: usize = 0;
    proof {
        assert(s@.skip(0) == s@);
        assert(newline@ == seq!['\n']);
        assert(texts(r@) + paths_in(lines(s@)) == paths_in(lines(s@)));
    }
    while from < n
        invariant
            n == s@.len(),
            s@ == text@,
            newline@ == seq!['\n'],
            from <= n,
            texts(r@) + paths_in(lines(s@.skip(from as int))) == paths_in(lines(text@)),
        decreases n - from,
    {
        let ghost rest = s@.skip(from as int);
        let found = find_from(s.as_slice(), from, newline.as_slice());
        let end: usize = match found {
            Some(i) => i,
            None => n,
        };
        let next: usize = match found {
            Some(i) => i + 1,
            None => n,
        };
        let mut to: usize = end;
        if found.is_some() && to > from && s[to - 1] == '\r' {
            to -= 1;
        }
        let line = vstd::slice::slice_subrange(s.as_slice(), from, to);
        let ghost after = lines(s@.skip(next as int));
        proof {
            if found is Some {
                assert(rest.take(end - from) == s@.subrange(from as int, end as int));
                assert(line@ == without_return(rest.take(end - from)));
                assert(rest.skip(end - from + 1) == s@.skip(next as int));
            } else {
                assert(line@ == rest);
                assert(after == Seq::<Seq<char>>::empty());
                assert(seq![rest] + after == seq![rest]);
            }
            assert(lines(rest) == seq![line@] + after);
            assert((seq![line@] + after).skip(1) == after);
        }
        let ghost before = texts(r@);
        if is_path_line(line) {
            let path = vstd::slice::slice_subrange(line, 1, line.len());
            assert(path@ == line@.skip(1));
            r.push(text_of(path));
            proof {
                assert(texts(r@) == before.push(path@));
                assert(before + (seq![path@] + paths_in(after)) == before.push(path@) + paths_in(after));
            }
        }
        from = next;
    }
    proof {
        assert(s@.skip(n as int) == Seq::<char>::empty());
        assert(texts(r@) + Seq::<Seq<char>>::empty() == texts(r@));
    }
    r
}

/// A search for the directory of a shell. Each path in turn is looked at by the
/// caller; the first one that is a directory is taken, and that of the shell
/// usually comes first.
#[derive(Debug)]
pub struct Search {
    paths: Vec<String>,
    next: usize,
}

impl Search {
    /// The paths that are still to be looked at, in order.
    pub closed spec fn remaining(&self) -> Seq<Seq<char>> {
        if self.next <= self.paths@.len() {
            texts(self.paths@.skip(self.next as int))
        } else {
            Seq::empty()
        }
    }

    /// Searches the paths that a text of `lsof` names.
    pub fn in_text(text: &str) -> (r: Search)
        ensures
            r.remaining() == paths_in(lines(text@)),
    {
        let paths = named_paths(text);
        assert(paths@.skip(0) == paths@);
        Search { paths, next: 0 }
    }

    /// Searches what `lsof` printed.
    pub fn start(stdout: &[u8]) -> (r: Search)
        ensures
            r.remaining() == paths_in(lines(utf8_lossy(stdout@))),
            valid_utf8(stdout@) ==> r.remaining() == paths_in(lines(decode_utf8(stdout@))),
    {
        let text = from_utf8_lossy(stdout);
        Search::in_text(text.as_str())
    }

    /// The path to look at now.
    pub fn current(&self) -> (r: Option<&str>)
        ensures
            match r {
                Some(path) => self.remaining().len() > 0 && path@ == self.remaining()[0],
                None => self.remaining().len() == 0,
            },
    {
        if self.next < self.paths.len() {
            Some(self.paths[self.next].as_str())
        } else {
            None
        }
    }

    /// Takes whether the current path is a directory. One that is not is passed
    /// over.
    pub fn answer(&mut self, is_dir: bool) -> (r: Option<String>)
        requires
            old(self).remaining().len() > 0,
        ensures
            final(self).remaining() == old(self).remaining().skip(1),
            match r {
                Some(dir) => found_at(old(self).remaining()[0], is_dir) == Some(dir@),
                None => found_at(old(self).remaining()[0], is_dir) is None,
            },
    {
        let n: usize = self.paths.len();
        assert(self.next < n);
        proof {
            assert(self.paths@.skip(self.next as int).skip(1) == self.paths@.skip(self.next + 1));
            assert(texts(self.paths@.skip(self.next as int)).skip(1) == texts(
                self.paths@.skip(self.next as int).skip(1),
            ));
        }
        let here: usize = self.next;
        self.next += 1;
        if is_dir {
            Some(self.paths[here].clone())
        } else {
            None
        }
    }
}

/// What a search gives for a path, by whether it is a directory.
pub open spec fn found_at(path: Seq<char>, is_dir: bool) -> Option<Seq<char>> {
    if is_dir {
        Some(path)
    } else {
        None
    }
}

/// What a search through some paths gives, where `is_dir` tells the directories.
pub open spec fn found_among(paths: Seq<Seq<char>>, is_dir: spec_fn(Seq<char>) -> bool) -> Option<Seq<char>>
    decreases paths.len(),
{
    if paths.len() == 0 {
        None
    } else {
        match found_at(paths[0], is_dir(paths[0])) {
            Some(path) => Some(path),
            None => found_among(paths.skip(1), is_dir),
        }
    }
}

/// Why the directory of a local shell is not known.
#[derive(Debug, Clone, Copy, PartialEq, Eq, Structural)]
pub enum Unknown {
    /// The shell has no process.
    NoProcess,
    /// No path that it holds is a directory.
    NoDirectory,
}

impl Unknown {
    /// What the user is told.
    pub fn message(self) -> (r: String)
        ensures
            r@ == (match self {
                Unknown::NoProcess => "PID 없음"@,
                Unknown::NoDirectory => "CWD를 찾을 수 없음"@,
            }),
    {
        match self {
            Unknown::NoProcess => "PID 없음".to_owned(),
            Unknown::NoDirectory => "CWD를 찾을 수 없음".to_owned(),
        }
    }
}

/// The arguments that make `lsof` name the files of a process.
pub fn lsof_args(pid: u32) -> (r: Vec<String>)
    ensures
        texts(r@) == seq!["-p"@, decimal(pid as nat), "-Fn"@],
{
    let r: Vec<String> = vec!["-p".to_owned(), to_decimal(pid as u64), "-Fn".to_owned()];
    assert(texts(r@) == seq!["-p"@, decimal(pid as nat), "-Fn"@]);
    r
}

/// A search gives the first path that is a directory, and gives nothing only if
/// none of them is.
pub proof fn law_first_directory_is_found(paths: Seq<Seq<char>>, is_dir: spec_fn(Seq<char>) -> bool, i: int)
    requires
        0 <= i < paths.len(),
        is_dir(paths[i]),
        forall|k: int| 0 <= k < i ==> !is_dir(#[trigger] paths[k]),
    ensures
        found_among(paths, is_dir) == Some(paths[i]),
    decreases paths.len(),
{
    if i > 0 {
        assert(!is_dir(paths[0]));
        let rest = paths.skip(1);
        assert forall|k: int| 0 <= k < i - 1 implies !is_dir(#[trigger] rest[k]) by {
            assert(!is_dir(paths[k + 1]));
        }
        law_first_directory_is_found(rest, is_dir, i - 1);
    }
}

/// A search in which no path is a directory gives nothing.
pub proof fn law_nothing_is_found(paths: Seq<Seq<char>>, is_dir: spec_fn(Seq<char>) -> bool)
    requires
        forall|k: int| 0 <= k < paths.len() ==> !is_dir(#[trigger] paths[k]),
    ensures
        found_among(paths, is_dir) is None,
    decreases paths.len(),
{
    if paths.len() > 0 {
        assert(!is_dir(paths[0]));
        let rest = paths.skip(1);
        assert forall|k: int| 0 <= k < rest.len() implies !is_dir(#[trigger] rest[k]) by {
            assert(!is_dir(paths[k + 1]));
        }
        law_nothing_is_found(rest, is_dir);
    }
}

proof fn lemma_first_newline(line: Seq<char>, rest: Seq<char>)
    requires
        !line.contains('\n'),
    ensures
        first_at(line + seq!['\n'] + rest, seq!['\n']) == Some(line.len()),
    decreases line.len(),
{
    let s = line + seq!['\n'] + rest;
    if line.len() == 0 {
        assert(s.take(1) == seq!['\n']);
    } else {
        assert(line.contains(line[0]));
        assert(s.take(1)[0] == line[0]);
        assert(!begins_with(s, seq!['\n']));
        assert forall|c: char| line.skip(1).contains(c) implies line.contains(c) by {
            let i = choose|i: int| 0 <= i < line.skip(1).len() && line.skip(1)[i] == c;
            assert(line[i + 1] == c);
        }
        lemma_first_newline(line.skip(1), rest);
        assert(s.skip(1) == line.skip(1) + seq!['\n'] + rest);
    }
}

proof fn lemma_no_newline(s: Seq<char>)
    requires
        !s.contains('\n'),
    ensures
        first_at(s, seq!['\n']) is None,
    decreases s.len(),
{
    if s.len() > 0 {
        assert(s.contains(s[0]));
        assert(s.take(1)[0] == s[0]);
        assert forall|c: char| s.skip(1).contains(c) implies s.contains(c) by {
            let i = choose|i: int| 0 <= i < s.skip(1).len() && s.skip(1)[i] == c;
            assert(s[i + 1] == c);
        }
        lemma_no_newline(s.skip(1));
    }
}

/// What stands before a line break is a line, without the carriage return that
/// may belong to the break, and the lines behind it follow. A text without a
/// line break is one line, unless it is empty.
pub proof fn law_lines_end_at_breaks(line: Seq<char>, rest: Seq<char>)
    requires
        !line.contains('\n'),
    ensures
        line.len() == 0 || line.last() != '\r' ==> lines(line + seq!['\n'] + rest) == seq![line]
            + lines(rest),
        lines(line + seq!['\r', '\n'] + rest) == seq![line] + lines(rest),
        lines(line) == (if line.len() == 0 {
            Seq::empty()
        } else {
            seq![line]
        }),
{
    let s = line + seq!['\n'] + rest;
    lemma_first_newline(line, rest);
    assert(s.take(line.len() as int) == line);
    assert(s.skip(line.len() as int + 1) == rest);
    let returned = line.push('\r');
    assert(!returned.contains('\n')) by {
        if returned.contains('\n') {
            let i = choose|i: int| 0 <= i < returned.len() && returned[i] == '\n';
            assert(line[i] == '\n');
        }
    }
    let t = returned + seq!['\n'] + rest;
    lemma_first_newline(returned, rest);
    assert(t.take(returned.len() as int) == returned);
    assert(t.skip(returned.len() as int + 1) == rest);
    assert(returned.drop_last() == line);
    assert(line + seq!['\r', '\n'] + rest == t);
    lemma_no_newline(line);
}

proof fn lemma_paths_in_one(line: Seq<char>)
    ensures
        paths_in(seq![line]) == (if line.len() > 0 && line[0] == 'n' && line.contains('/') {
            seq![line.skip(1)]
        } else {
            Seq::empty()
        }),
{
    assert(seq![line].skip(1) == Seq::<Seq<char>>::empty());
    assert(paths_in(seq![line].skip(1)) == Seq::<Seq<char>>::empty());
}

/// Each line gives its path on its own: one that begins with `n` and holds a `/`
/// gives what stands behind the `n`, any other gives nothing, and the paths keep
/// the order of the lines.
pub proof fn law_paths_line_by_line(before: Seq<Seq<char>>, line: Seq<char>, behind: Seq<Seq<char>>)
    ensures
        paths_in(before + seq![line] + behind) == paths_in(before) + (if line.len() > 0 && line[0]
            == 'n' && line.contains('/') {
            seq![line.skip(1)]
        } else {
            Seq::empty()
        }) + paths_in(behind),
    decreases before.len(),
{
    lemma_paths_in_one(line);
    let all = before + seq![line] + behind;
    if before.len() == 0 {
        assert(all[0] == line);
        assert(all.skip(1) == behind);
        assert(paths_in(before) == Seq::<Seq<char>>::empty());
    } else {
        law_paths_line_by_line(before.skip(1), line, behind);
        assert(all.skip(1) == before.skip(1) + seq![line] + behind);
        assert(all[0] == before[0]);
    }
}

/// How many of some lines begin with `n` and hold a `/`.
pub open spec fn path_lines(lines: Seq<Seq<char>>) -> nat
    decreases lines.len(),
{
    if lines.len() == 0 {
        0
    } else {
        path_lines(lines.drop_last()) + (if lines.last().len() > 0 && lines.last()[0] == 'n'
            && lines.last().contains('/') {
            1nat
        } else {
            0
        })
    }
}

/// Every line that begins with `n` and holds a `/` gives its path, whatever else
/// the path holds, and there are as many paths as such lines.
pub proof fn law_every_path_is_named(lines: Seq<Seq<char>>)
    ensures
        paths_in(lines).len() == path_lines(lines),
        forall|i: int|
            0 <= i < lines.len() && (#[trigger] lines[i]).len() > 0 && lines[i][0] == 'n'
                && lines[i].contains('/') ==> paths_in(lines).contains(lines[i].skip(1)),
    decreases lines.len(),
{
    if lines.len() > 0 {
        let before = lines.drop_last();
        let none = Seq::<Seq<char>>::empty();
        law_every_path_is_named(before);
        law_paths_line_by_line(before, lines.last(), none);
        assert(before + seq![lines.last()] + none == lines);
        assert forall|i: int|
            0 <= i < lines.len() && (#[trigger] lines[i]).len() > 0 && lines[i][0] == 'n'
                && lines[i].contains('/') implies paths_in(lines).contains(lines[i].skip(1)) by {
            let earlier = paths_in(before);
            let all = paths_in(lines);
            if i < before.len() {
                assert(before[i] == lines[i]);
                let k = choose|k: int| 0 <= k < earlier.len() && earlier[k] == before[i].skip(1);
                assert(all[k] == earlier[k]);
            } else {
                assert(all[earlier.len() as int] == lines[i].skip(1));
            }
        }
    }
}

/// A path in the output of `lsof` is named as it is, whatever it holds but a
/// line break, and those behind it follow.
pub proof fn law_path_is_named_as_it_is(path: Seq<char>, rest: Seq<char>)
    requires
        path.contains('/'),
        !path.contains('\n'),
        path.last() != '\r',
    ensures
        paths_in(lines(seq!['n'] + path + seq!['\n'] + rest)) == seq![path] + paths_in(lines(rest)),
{
    let line = seq!['n'] + path;
    assert(!line.contains('\n')) by {
        if line.contains('\n') {
            let i = choose|i: int| 0 <= i < line.len() && line[i] == '\n';
            assert(path[i - 1] == '\n');
        }
    }
    assert(line.contains('/')) by {
        let i = choose|i: int| 0 <= i < path.len() && path[i] == '/';
        assert(line[i + 1] == '/');
    }
    law_lines_end_at_breaks(line, rest);
    let none = Seq::<Seq<char>>::empty();
    law_paths_line_by_line(none, line, lines(rest));
    assert(none + seq![line] + lines(rest) == seq![line] + lines(rest));
    assert(line.skip(1) == path);
    assert(none + seq![path] + paths_in(lines(rest)) == seq![path] + paths_in(lines(rest)));
}

} // verus!
