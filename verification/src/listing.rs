//! The contents of a directory, as the file tree shows them.

use vstd::prelude::*;

use crate::outside::lowercase;
use crate::paths::{file_name, name_of};
use crate::text::chars_of;

verus! {

/// A line of the file tree.
#[derive(Debug, PartialEq, Eq)]
pub struct FileEntry {
    pub name: String,
    pub is_dir: bool,
    pub size: u64,
    pub path: String,
}

/// What a [`FileEntry`] shows.
#[verifier::ext_equal]
pub struct Shown {
    pub name: Seq<char>,
    pub is_dir: bool,
    pub size: u64,
    pub path: Seq<char>,
}

impl View for FileEntry {
    type V = Shown;

    open spec fn view(&self) -> Shown {
        Shown { name: self.name@, is_dir: self.is_dir, size: self.size, path: self.path@ }
    }
}

/// What a list of entries shows, in order.
pub open spec fn shown(entries: Seq<FileEntry>) -> Seq<Shown> {
    entries.map_values(|e: FileEntry| e@)
}

/// Whether `a` comes before `b` by the positions of their characters in the
/// code charts.
pub open spec fn lex_less(a: Seq<char>, b: Seq<char>) -> bool
    decreases a.len(),
{
    b.len() > 0 && (a.len() == 0 || a[0] < b[0] || (a[0] == b[0] && lex_less(a.skip(1), b.skip(1))))
}

/// Decides which of two texts comes first.
pub fn comes_first(a: &[char], b: &[char]) -> (r: bool)
    ensures
        r == lex_less(a@, b@),
{
    let mut i: usize = 0;
    assert(a@.skip(0) == a@);
    assert(b@.skip(0) == b@);
    while i < a.len() && i < b.len()
        invariant
            i <= a@.len(),
            i <= b@.len(),
            lex_less(a@, b@) == lex_less(a@.skip(i as int), b@.skip(i as int)),
        decreases a@.len() - i,
    {
        if a[i] != b[i] {
            return a[i] < b[i];
        }
        assert(a@.skip(i as int).skip(1) == a@.skip(i + 1));
        assert(b@.skip(i as int).skip(1) == b@.skip(i + 1));
        i += 1;
    }
    i < b.len()
}

/// Whether an entry comes before another: directories before files, then by the
/// key under which each is filed.
pub open spec fn less(a: Shown, a_key: Seq<char>, b: Shown, b_key: Seq<char>) -> bool {
    ||| a.is_dir && !b.is_dir
    ||| a.is_dir == b.is_dir && lex_less(a_key, b_key)
}

/// Whether the entry at `a` comes before the one at `b` in a sorted listing:
/// entries that neither kind nor key tells apart keep their order.
pub open spec fn ranks_before(input: Seq<Shown>, keys: Seq<Seq<char>>, a: int, b: int) -> bool {
    ||| less(input[a], keys[a], input[b], keys[b])
    ||| !less(input[b], keys[b], input[a], keys[a]) && a < b
}

/// Whether `output` is `input` sorted by `keys`, where `from[i]` is the place in
/// the input of the entry at `i`.
pub open spec fn sorted_from(
    input: Seq<Shown>,
    keys: Seq<Seq<char>>,
    output: Seq<Shown>,
    from: Seq<int>,
) -> bool {
    &&& output.len() == input.len()
    &&& from.len() == input.len()
    &&& from.no_duplicates()
    &&& forall|i: int| 0 <= i < from.len() ==> 0 <= #[trigger] from[i] < input.len()
    &&& forall|i: int| 0 <= i < output.len() ==> #[trigger] output[i] == input[from[i]]
    &&& forall|i: int, j: int|
        0 <= i < j < from.len() ==> ranks_before(
            input,
            keys,
            #[trigger] from[i],
            #[trigger] from[j],
        )
}

/// Whether `output` is `input` sorted by `keys`.
pub open spec fn sorts_by(input: Seq<Shown>, keys: Seq<Seq<char>>, output: Seq<Shown>) -> bool {
    exists|from: Seq<int>| sorted_from(input, keys, output, from)
}

/// The keys under which the entries of a directory are filed: their names, upper
/// and lower case alike.
pub open spec fn name_keys(input: Seq<Shown>) -> Seq<Seq<char>> {
    input.map_values(|e: Shown| lowercase(e.name))
}

/// Whether `output` is `input` sorted: directories before files, then by name,
/// upper and lower case alike.
pub open spec fn sorts(input: Seq<Shown>, output: Seq<Shown>) -> bool {
    sorts_by(input, name_keys(input), output)
}

proof fn lemma_lex_total(a: Seq<char>, b: Seq<char>)
    ensures
        lex_less(a, b) ==> !lex_less(b, a),
        a != b ==> lex_less(a, b) || lex_less(b, a),
        !lex_less(a, a),
    decreases a.len(),
{
    if a.len() > 0 {
        lemma_lex_total(a.skip(1), a.skip(1));
    }
    if a.len() > 0 && b.len() > 0 {
        lemma_lex_total(a.skip(1), b.skip(1));
        if a[0] == b[0] && a.skip(1) == b.skip(1) {
            assert(a == seq![a[0]] + a.skip(1));
            assert(b == seq![b[0]] + b.skip(1));
        }
    } else if a.len() == 0 && b.len() == 0 {
        assert(a == b);
    }
}

proof fn lemma_lex_transitive(a: Seq<char>, b: Seq<char>, c: Seq<char>)
    requires
        lex_less(a, b),
        lex_less(b, c),
    ensures
        lex_less(a, c),
    decreases a.len(),
{
    if a.len() > 0 && a[0] == b[0] && b[0] == c[0] {
        lemma_lex_transitive(a.skip(1), b.skip(1), c.skip(1));
    }
}

proof fn lemma_less(a: Shown, x: Seq<char>, b: Shown, y: Seq<char>, c: Shown, z: Seq<char>)
    ensures
        less(a, x, b, y) ==> !less(b, y, a, x),
        less(a, x, b, y) && !less(c, z, b, y) ==> less(a, x, c, z),
        !less(a, x, b, y) && !less(b, y, c, z) ==> !less(a, x, c, z),
{
    lemma_lex_total(x, y);
    lemma_lex_total(y, z);
    lemma_lex_total(x, z);
    if lex_less(x, y) && lex_less(y, z) {
        lemma_lex_transitive(x, y, z);
    }
    if lex_less(x, z) && lex_less(z, y) {
        lemma_lex_transitive(x, z, y);
    }
    if lex_less(y, x) && lex_less(x, z) {
        lemma_lex_transitive(y, x, z);
    }
    if lex_less(z, y) && lex_less(y, x) {
        lemma_lex_transitive(z, y, x);
    }
}

proof fn lemma_insert_ranked(
    input: Seq<Shown>,
    keys: Seq<Seq<char>>,
    output: Seq<Shown>,
    from: Seq<int>,
    at: int,
)
    requires
        keys.len() == input.len(),
        input.len() > 0,
        sorted_from(input.drop_last(), keys.drop_last(), output, from),
        0 <= at <= output.len(),
        forall|k: int|
            0 <= k < at ==> !less(input.last(), keys.last(), output[k], keys[#[trigger] from[k]]),
        forall|k: int|
            at <= k < output.len() ==> less(
                input.last(),
                keys.last(),
                output[k],
                keys[#[trigger] from[k]],
            ),
    ensures
        sorted_from(
            input,
            keys,
            output.insert(at, input.last()),
            from.insert(at, input.len() - 1),
        ),
{
    let n = input.len() - 1;
    let fewer = input.drop_last();
    let fewer_keys = keys.drop_last();
    let to = from.insert(at, n);
    assert forall|i: int, j: int| 0 <= i < j < to.len() implies ranks_before(
        input,
        keys,
        #[trigger] to[i],
        #[trigger] to[j],
    ) by {
        let a = if i < at {
            i
        } else {
            i - 1
        };
        let b = if j < at {
            j
        } else {
            j - 1
        };
        if i == at {
            assert(output[b] == fewer[from[b]]);
        } else if j == at {
            assert(output[a] == fewer[from[a]]);
        } else {
            assert(ranks_before(fewer, fewer_keys, from[a], from[b]));
        }
    }
    assert forall|i: int| 0 <= i < to.len() implies #[trigger] output.insert(at, input.last())[i]
        == input[to[i]] by {
        if i < at {
            assert(output[i] == fewer[from[i]]);
        } else if i > at {
            assert(output[i - 1] == fewer[from[i - 1]]);
        }
    }
}

/// The texts of a list of keys.
pub open spec fn key_texts(keys: Seq<Vec<char>>) -> Seq<Seq<char>> {
    keys.map_values(|k: Vec<char>| k@)
}

/// Sorts the entries of a directory by the keys under which they are filed.
pub fn sort_by_keys(entries: Vec<FileEntry>, keys: Vec<Vec<char>>) -> (r: Vec<FileEntry>)
    requires
        keys@.len() == entries@.len(),
    ensures
        sorts_by(shown(entries@), key_texts(keys@), shown(r@)),
{
    let mut r: Vec<FileEntry> = Vec::new();
    // The places in the input of the entries sorted so far.
    let mut places: Vec<usize> = Vec::new();
    let ghost all = shown(entries@);
    let ghost all_keys = key_texts(keys@);
    let ghost mut from: Seq<int> = Seq::empty();
    for entry in it: entries
        invariant
            it.seq() == entries@,
            all == shown(entries@),
            all_keys == key_texts(keys@),
            keys@.len() == entries@.len(),
            r@.len() == it.index(),
            places@.len() == r@.len(),
            from == places@.map_values(|p: usize| p as int),
            sorted_from(all.take(it.index()), all_keys.take(it.index()), shown(r@), from),
    {
        let here: usize = r.len();
        let ghost input = all.take(here as int);
        let ghost input_keys = all_keys.take(here as int);
        let mut low: usize = 0;
        let mut high: usize = here;
        while low < high
            invariant
                low <= high <= r@.len(),
                r@.len() == here,
                here < keys@.len(),
                keys@.len() == all.len(),
                places@.len() == r@.len(),
                all_keys == key_texts(keys@),
                input == all.take(here as int),
                input_keys == all_keys.take(here as int),
                from == places@.map_values(|p: usize| p as int),
                sorted_from(input, input_keys, shown(r@), from),
                forall|k: int|
                    0 <= k < low ==> !less(
                        entry@,
                        all_keys[here as int],
                        shown(r@)[k],
                        all_keys[#[trigger] from[k]],
                    ),
                forall|k: int|
                    high <= k < r@.len() ==> less(
                        entry@,
                        all_keys[here as int],
                        shown(r@)[k],
                        all_keys[#[trigger] from[k]],
                    ),
            decreases high - low,
        {
            let middle: usize = low + (high - low) / 2;
            let ghost out = shown(r@);
            let ghost m = middle as int;
            assert(from[m] == places@[m]);
            let before = if entry.is_dir != r[middle].is_dir {
                entry.is_dir
            } else {
                comes_first(keys[here].as_slice(), keys[places[middle]].as_slice())
            };
            proof {
                let key = all_keys[here as int];
                assert(before == less(entry@, key, out[m], all_keys[from[m]]));
                assert forall|k: int| 0 <= k < out.len() implies {
                    &&& k <= m && !before ==> !less(
                        entry@,
                        key,
                        out[k],
                        all_keys[#[trigger] from[k]],
                    )
                    &&& k >= m && before ==> less(entry@, key, out[k], all_keys[from[k]])
                } by {
                    assert(out[k] == input[from[k]]);
                    assert(out[m] == input[from[m]]);
                    if k < m {
                        assert(ranks_before(input, input_keys, from[k], from[m]));
                        lemma_less(
                            out[k],
                            all_keys[from[k]],
                            out[m],
                            all_keys[from[m]],
                            out[m],
                            all_keys[from[m]],
                        );
                    } else if k > m {
                        assert(ranks_before(input, input_keys, from[m], from[k]));
                        lemma_less(
                            out[m],
                            all_keys[from[m]],
                            out[k],
                            all_keys[from[k]],
                            out[k],
                            all_keys[from[k]],
                        );
                    }
                    lemma_less(entry@, key, out[m], all_keys[from[m]], out[k], all_keys[from[k]]);
                }
            }
            if before {
                high = middle;
            } else {
                low = middle + 1;
            }
        }
        let ghost out = shown(r@);
        let ghost old_places = places@;
        r.insert(low, entry);
        places.insert(low, here);
        proof {
            let more = all.take(here + 1);
            let more_keys = all_keys.take(here + 1);
            assert(more.drop_last() == input);
            assert(more_keys.drop_last() == input_keys);
            assert forall|k: int| 0 <= k < out.len() implies all_keys[#[trigger] from[k]]
                == more_keys[from[k]] by {
                assert(from[k] < here);
            }
            lemma_insert_ranked(more, more_keys, out, from, low as int);
            assert(shown(r@) == out.insert(low as int, more.last()));
            from = from.insert(low as int, here as int);
            assert(from == places@.map_values(|p: usize| p as int));
        }
    }
    assert(all.take(all.len() as int) == all);
    assert(all_keys.take(all_keys.len() as int) == all_keys);
    r
}

/// Sorts the entries of a directory: directories before files, then by name,
/// upper and lower case alike.
pub fn sort_entries(entries: Vec<FileEntry>) -> (r: Vec<FileEntry>)
    ensures
        sorts(shown(entries@), shown(r@)),
{
    let mut keys: Vec<Vec<char>> = Vec::new();
    let mut i: usize = 0;
    while i < entries.len()
        invariant
            i <= entries@.len(),
            key_texts(keys@) == name_keys(shown(entries@)).take(i as int),
        decreases entries@.len() - i,
    {
        let name = entries[i].name.to_lowercase();
        let ghost before = key_texts(keys@);
        keys.push(chars_of(name.as_str()));
        proof {
            assert(key_texts(keys@) == before.push(name@));
            assert(name_keys(shown(entries@))[i as int] == name@);
        }
        i += 1;
    }
    assert(key_texts(keys@) == name_keys(shown(entries@)));
    sort_by_keys(entries, keys)
}

/// A line of a remote directory, as the server gave it.
#[derive(Debug, PartialEq, Eq)]
pub struct RemoteEntry {
    pub path: String,
    pub perm: Option<u32>,
    pub size: Option<u64>,
}

/// Whether the permissions of a remote file mark it as a directory: the four
/// bits of its type are those of a directory. Missing permissions count as none.
pub open spec fn directory_bits(perm: Option<u32>) -> bool {
    match perm {
        Some(p) => p & 0o170000u32 == 0o040000u32,
        None => false,
    }
}

/// Tells a remote directory by its permissions.
pub fn is_directory(perm: Option<u32>) -> (r: bool)
    ensures
        r == directory_bits(perm),
{
    match perm {
        Some(p) => p & 0o170000u32 == 0o040000u32,
        None => false,
    }
}

/// The line of the file tree for a remote entry. One whose path has no name is
/// left out; an unknown size counts as none.
pub open spec fn remote_line(entry: RemoteEntry) -> Option<Shown> {
    match name_of(entry.path@) {
        Some(name) => Some(
            Shown {
                name,
                is_dir: directory_bits(entry.perm),
                size: match entry.size {
                    Some(size) => size,
                    None => 0,
                },
                path: entry.path@,
            },
        ),
        None => None,
    }
}

/// The lines of the file tree for a remote directory, in the order of the
/// server.
pub open spec fn remote_lines(entries: Seq<RemoteEntry>) -> Seq<Shown>
    decreases entries.len(),
{
    if entries.len() == 0 {
        Seq::empty()
    } else {
        match remote_line(entries.last()) {
            Some(line) => remote_lines(entries.drop_last()).push(line),
            None => remote_lines(entries.drop_last()),
        }
    }
}

/// Makes the listing of a remote directory.
pub fn remote_listing(entries: Vec<RemoteEntry>) -> (r: Vec<FileEntry>)
    ensures
        sorts(remote_lines(entries@), shown(r@)),
{
    let mut lines: Vec<FileEntry> = Vec::new();
    for entry in it: entries
        invariant
            it.seq() == entries@,
            shown(lines@) == remote_lines(entries@.take(it.index())),
    {
        let ghost before = shown(lines@);
        assert(entries@.take(it.index() + 1).drop_last() == entries@.take(it.index()));
        match file_name(entry.path.as_str()) {
            Some(name) => {
                let is_dir = is_directory(entry.perm);
                let size: u64 = match entry.size {
                    Some(size) => size,
                    None => 0,
                };
                let line = FileEntry { name, is_dir, size, path: entry.path };
                let ghost l = line@;
                lines.push(line);
                assert(shown(lines@) == before.push(l));
            },
            None => {},
        }
    }
    assert(entries@.take(entries@.len() as int) == entries@);
    sort_entries(lines)
}

/// What is known of a local file besides its name.
#[derive(Debug, Clone, Copy, PartialEq, Eq, Structural)]
pub struct Metadata {
    pub is_dir: bool,
    pub size: u64,
}

/// A line of a local directory, as the system gave it. There is no metadata
/// where it could not be read.
#[derive(Debug, PartialEq, Eq)]
pub struct LocalEntry {
    pub name: String,
    pub path: String,
    pub metadata: Option<Metadata>,
}

/// Whether a name marks a hidden file.
pub open spec fn is_hidden(name: Seq<char>) -> bool {
    name.len() > 0 && name[0] == '.'
}

/// The line of the file tree for a local entry. One without metadata is left
/// out, and so is a hidden one unless it is asked for.
pub open spec fn local_line(entry: LocalEntry, show_hidden: bool) -> Option<Shown> {
    match entry.metadata {
        Some(metadata) if show_hidden || !is_hidden(entry.name@) => Some(
            Shown {
                name: entry.name@,
                is_dir: metadata.is_dir,
                size: metadata.size,
                path: entry.path@,
            },
        ),
        _ => None,
    }
}

/// The lines of the file tree for a local directory, in the order of the
/// system.
pub open spec fn local_lines(entries: Seq<LocalEntry>, show_hidden: bool) -> Seq<Shown>
    decreases entries.len(),
{
    if entries.len() == 0 {
        Seq::empty()
    } else {
        match local_line(entries.last(), show_hidden) {
            Some(line) => local_lines(entries.drop_last(), show_hidden).push(line),
            None => local_lines(entries.drop_last(), show_hidden),
        }
    }
}

/// Makes the listing of a local directory.
pub fn local_listing(entries: Vec<LocalEntry>, show_hidden: bool) -> (r: Vec<FileEntry>)
    ensures
        sorts(local_lines(entries@, show_hidden), shown(r@)),
{
    let mut lines: Vec<FileEntry> = Vec::new();
    for entry in it: entries
        invariant
            it.seq() == entries@,
            shown(lines@) == local_lines(entries@.take(it.index()), show_hidden),
    {
        let ghost before = shown(lines@);
        assert(entries@.take(it.index() + 1).drop_last() == entries@.take(it.index()));
        let name = chars_of(entry.name.as_str());
        let hidden = name.len() > 0 && name[0] == '.';
        match entry.metadata {
            Some(metadata) => {
                if show_hidden || !hidden {
                    let line = FileEntry {
                        name: entry.name,
                        is_dir: metadata.is_dir,
                        size: metadata.size,
                        path: entry.path,
                    };
                    let ghost l = line@;
                    lines.push(line);
                    assert(shown(lines@) == before.push(l));
                }
            },
            None => {},
        }
    }
    assert(entries@.take(entries@.len() as int) == entries@);
    sort_entries(lines)
}

/// What came of reading a local directory.
#[derive(Debug, PartialEq, Eq)]
pub enum LocalRead {
    /// There is no such path.
    Missing,
    /// It could not be read.
    Failed(String),
    /// Its entries.
    Entries(Vec<LocalEntry>),
}

/// Lists a local directory. Hidden files are left out unless asked for.
pub fn local_list_dir(read: LocalRead, show_hidden: Option<bool>) -> (r: Result<
    Vec<FileEntry>,
    String,
>)
    ensures
        match read {
            LocalRead::Missing => r matches Err(e) && e@ == "경로 없음"@,
            LocalRead::Failed(error) => r matches Err(e) && e@ == error@,
            LocalRead::Entries(entries) => r matches Ok(files) && sorts(
                local_lines(entries@, show_hidden == Some(true)),
                shown(files@),
            ),
        },
{
    match read {
        LocalRead::Missing => Err("경로 없음".to_owned()),
        LocalRead::Failed(e) => Err(e),
        LocalRead::Entries(entries) => Ok(
            local_listing(
                entries,
                match show_hidden {
                    Some(show) => show,
                    None => false,
                },
            ),
        ),
    }
}

/// In a sorted listing directories come before files, and each kind is in the
/// order of its names, upper and lower case alike.
pub proof fn law_listing_order(input: Seq<Shown>, output: Seq<Shown>, i: int, j: int)
    requires
        sorts(input, output),
        0 <= i < j < output.len(),
    ensures
        output[j].is_dir ==> output[i].is_dir,
        output[i].is_dir == output[j].is_dir ==> !lex_less(
            lowercase(output[j].name),
            lowercase(output[i].name),
        ),
{
    let keys = name_keys(input);
    let from = choose|from: Seq<int>| sorted_from(input, keys, output, from);
    assert(output[i] == input[from[i]]);
    assert(output[j] == input[from[j]]);
    assert(ranks_before(input, keys, from[i], from[j]));
    lemma_lex_total(keys[from[i]], keys[from[j]]);
}

proof fn lemma_every_place_occurs(from: Seq<int>, n: nat, k: int)
    requires
        from.len() == n,
        from.no_duplicates(),
        forall|i: int| 0 <= i < from.len() ==> 0 <= #[trigger] from[i] < n,
        0 <= k < n,
    ensures
        from.contains(k),
{
    let range = vstd::set_lib::set_int_range(0, n as int);
    vstd::set_lib::lemma_int_range(0, n as int);
    from.unique_seq_to_set();
    let occurring = from.to_set();
    assert(occurring.subset_of(range));
    vstd::set_lib::lemma_subset_equality(occurring, range);
    assert(range.contains(k));
}

/// The entries at some places of a listing, taken in another order of the same
/// places, are the same entries.
proof fn lemma_same_entries(input: Seq<Shown>, output: Seq<Shown>, from: Seq<int>)
    requires
        output.len() == input.len(),
        from.len() == input.len(),
        from.no_duplicates(),
        forall|i: int| 0 <= i < from.len() ==> 0 <= #[trigger] from[i] < input.len(),
        forall|i: int| 0 <= i < output.len() ==> #[trigger] output[i] == input[from[i]],
    ensures
        output.to_multiset() == input.to_multiset(),
    decreases input.len(),
{
    broadcast use vstd::seq_lib::group_to_multiset_ensures;

    if input.len() == 0 {
        assert(input == output);
    } else {
        let n = input.len() - 1;
        lemma_every_place_occurs(from, input.len(), n);
        let at = choose|at: int| 0 <= at < from.len() && from[at] == n;
        let fewer = input.drop_last();
        let rest = output.remove(at);
        let places = from.remove(at);
        assert forall|i: int| 0 <= i < places.len() implies 0 <= #[trigger] places[i] < fewer.len() by {
            let k = if i < at {
                i
            } else {
                i + 1
            };
            assert(places[i] == from[k]);
            assert(from[k] != from[at]);
        }
        assert forall|i: int| 0 <= i < rest.len() implies #[trigger] rest[i] == fewer[places[i]] by {
            let k = if i < at {
                i
            } else {
                i + 1
            };
            assert(rest[i] == output[k]);
            assert(places[i] == from[k]);
            assert(0 <= places[i] < fewer.len());
        }
        assert(places.no_duplicates()) by {
            assert forall|i: int, j: int|
                0 <= i < places.len() && 0 <= j < places.len() && i != j implies places[i]
                != places[j] by {
                let k = if i < at {
                    i
                } else {
                    i + 1
                };
                let l = if j < at {
                    j
                } else {
                    j + 1
                };
                assert(from[k] != from[l]);
            }
        }
        lemma_same_entries(fewer, rest, places);
        assert(input == fewer.push(input.last()));
        assert(output == rest.insert(at, output[at]));
        assert(output[at] == input.last());
    }
}

/// Sorting loses no entry and adds none: each occurs as often as before.
pub proof fn law_sorting_is_complete(input: Seq<Shown>, keys: Seq<Seq<char>>, output: Seq<Shown>)
    requires
        sorts_by(input, keys, output),
    ensures
        output.to_multiset() == input.to_multiset(),
{
    let from = choose|from: Seq<int>| sorted_from(input, keys, output, from);
    lemma_same_entries(input, output, from);
}

proof fn lemma_same_places(
    input: Seq<Shown>,
    keys: Seq<Seq<char>>,
    x: Seq<Shown>,
    a: Seq<int>,
    y: Seq<Shown>,
    b: Seq<int>,
    i: int,
)
    requires
        sorted_from(input, keys, x, a),
        sorted_from(input, keys, y, b),
        0 <= i < input.len(),
    ensures
        a[i] == b[i],
    decreases i,
{
    assert forall|k: int| 0 <= k < i implies a[k] == b[k] by {
        lemma_same_places(input, keys, x, a, y, b, k);
    }
    if a[i] != b[i] {
        lemma_every_place_occurs(b, input.len(), a[i]);
        let p = choose|p: int| 0 <= p < b.len() && b[p] == a[i];
        lemma_every_place_occurs(a, input.len(), b[i]);
        let q = choose|q: int| 0 <= q < a.len() && a[q] == b[i];
        if p < i {
            assert(a[p] == a[i]);
        }
        if q < i {
            assert(b[q] == b[i]);
        }
        assert(ranks_before(input, keys, b[i], b[p]));
        assert(ranks_before(input, keys, a[i], a[q]));
        lemma_lex_total(keys[a[i]], keys[b[i]]);
    }
}

/// There is only one way to sort a listing.
pub proof fn law_sorting_is_unique(
    input: Seq<Shown>,
    keys: Seq<Seq<char>>,
    output: Seq<Shown>,
    other: Seq<Shown>,
)
    requires
        sorts_by(input, keys, output),
        sorts_by(input, keys, other),
    ensures
        output == other,
{
    let a = choose|from: Seq<int>| sorted_from(input, keys, output, from);
    let b = choose|from: Seq<int>| sorted_from(input, keys, other, from);
    assert forall|i: int| 0 <= i < output.len() implies output[i] == other[i] by {
        lemma_same_places(input, keys, output, a, other, b, i);
        assert(output[i] == input[a[i]]);
        assert(other[i] == input[b[i]]);
    }
    assert(output == other);
}

proof fn lemma_local_lines(entries: Seq<LocalEntry>, i: int)
    requires
        0 <= i < local_lines(entries, false).len(),
    ensures
        !is_hidden(local_lines(entries, false)[i].name),
    decreases entries.len(),
{
    if i < local_lines(entries.drop_last(), false).len() {
        lemma_local_lines(entries.drop_last(), i);
    }
}

/// No hidden file is listed unless it is asked for.
pub proof fn law_hidden_files_stay_hidden(entries: Seq<LocalEntry>, output: Seq<Shown>, i: int)
    requires
        sorts(local_lines(entries, false), output),
        0 <= i < output.len(),
    ensures
        !is_hidden(output[i].name),
{
    let input = local_lines(entries, false);
    let from = choose|from: Seq<int>| sorted_from(input, name_keys(input), output, from);
    assert(output[i] == input[from[i]]);
    lemma_local_lines(entries, from[i]);
}

/// The lines of a listing whose names mark no hidden file, in order.
pub open spec fn visible(lines: Seq<Shown>) -> Seq<Shown>
    decreases lines.len(),
{
    if lines.len() == 0 {
        Seq::empty()
    } else if is_hidden(lines.last().name) {
        visible(lines.drop_last())
    } else {
        visible(lines.drop_last()).push(lines.last())
    }
}

/// How many lines before the one at `i` are visible.
spec fn visible_before(lines: Seq<Shown>, i: int) -> int {
    visible(lines.take(i)).len() as int
}

proof fn lemma_visible_place(lines: Seq<Shown>, i: int)
    requires
        0 <= i < lines.len(),
        !is_hidden(lines[i].name),
    ensures
        0 <= visible_before(lines, i) < visible(lines).len(),
        visible(lines)[visible_before(lines, i)] == lines[i],
    decreases lines.len(),
{
    let fewer = lines.drop_last();
    if i < fewer.len() {
        assert(fewer.take(i) == lines.take(i));
        lemma_visible_place(fewer, i);
    } else {
        assert(lines.take(i) == fewer);
    }
}

proof fn lemma_visible_order(lines: Seq<Shown>, i: int, j: int)
    requires
        0 <= i < j < lines.len(),
        !is_hidden(lines[i].name),
    ensures
        visible_before(lines, i) < visible_before(lines, j),
{
    let part = lines.take(j);
    lemma_visible_place(part, i);
    assert(part.take(i) == lines.take(i));
}

proof fn lemma_visible_origin(lines: Seq<Shown>, k: int) -> (i: int)
    requires
        0 <= k < visible(lines).len(),
    ensures
        0 <= i < lines.len(),
        !is_hidden(lines[i].name),
        visible_before(lines, i) == k,
    decreases lines.len(),
{
    let fewer = lines.drop_last();
    if k < visible(fewer).len() {
        let i = lemma_visible_origin(fewer, k);
        assert(fewer.take(i) == lines.take(i));
        i
    } else {
        assert(lines.take(lines.len() - 1) == fewer);
        lines.len() - 1
    }
}

proof fn lemma_visible_count(lines: Seq<Shown>, entry: Shown)
    ensures
        visible(lines).to_multiset().count(entry) == (if is_hidden(entry.name) {
            0
        } else {
            lines.to_multiset().count(entry)
        }),
    decreases lines.len(),
{
    broadcast use vstd::seq_lib::group_to_multiset_ensures;

    if lines.len() == 0 {
        assert(visible(lines) == lines);
        assert(!lines.contains(entry));
    } else {
        lemma_visible_count(lines.drop_last(), entry);
        assert(lines == lines.drop_last().push(lines.last()));
    }
}

proof fn lemma_visible_is_sorted(input: Seq<Shown>, output: Seq<Shown>)
    requires
        sorts(input, output),
    ensures
        sorts(visible(input), visible(output)),
{
    let keys = name_keys(input);
    let from = choose|from: Seq<int>| sorted_from(input, keys, output, from);
    let fewer = visible(input);
    let fewer_keys = name_keys(fewer);
    let shorter = visible(output);
    assert(shorter.len() == fewer.len()) by {
        broadcast use vstd::seq_lib::group_to_multiset_ensures;

        law_sorting_is_complete(input, keys, output);
        assert forall|entry: Shown| shorter.to_multiset().count(entry) == fewer.to_multiset().count(
            entry,
        ) by {
            lemma_visible_count(input, entry);
            lemma_visible_count(output, entry);
        }
        assert(shorter.to_multiset() =~= fewer.to_multiset());
        assert(shorter.to_multiset().len() == shorter.len());
        assert(fewer.to_multiset().len() == fewer.len());
    }
    let origin = |k: int|
        choose|i: int|
            0 <= i < output.len() && !is_hidden((#[trigger] output[i]).name) && visible_before(
                output,
                i,
            ) == k;
    let places = Seq::new(shorter.len(), |k: int| visible_before(input, from[origin(k)]));
    assert forall|k: int| 0 <= k < shorter.len() implies {
        let i = #[trigger] origin(k);
        &&& 0 <= i < output.len()
        &&& !is_hidden(output[i].name)
        &&& visible_before(output, i) == k
        &&& output[i] == input[from[i]]
        &&& 0 <= from[i] < input.len()
        &&& shorter[k] == output[i]
        &&& 0 <= places[k] < fewer.len()
        &&& fewer[places[k]] == output[i]
        &&& fewer_keys[places[k]] == keys[from[i]]
    } by {
        let found = lemma_visible_origin(output, k);
        assert(!is_hidden(output[found].name));
        let i = origin(k);
        assert(output[i] == input[from[i]]);
        lemma_visible_place(output, i);
        lemma_visible_place(input, from[i]);
    }
    assert forall|k: int, l: int| 0 <= k < l < places.len() implies ranks_before(
        fewer,
        fewer_keys,
        #[trigger] places[k],
        #[trigger] places[l],
    ) && places[k] != places[l] by {
        let i = origin(k);
        let j = origin(l);
        if j < i {
            lemma_visible_order(output, j, i);
        }
        assert(i < j);
        let a = from[i];
        let b = from[j];
        assert(ranks_before(input, keys, a, b));
        if a < b {
            lemma_visible_order(input, a, b);
        } else {
            assert(a != b);
            lemma_visible_order(input, b, a);
        }
    }
    assert(places.no_duplicates());
    assert forall|k: int| 0 <= k < shorter.len() implies #[trigger] shorter[k] == fewer[places[k]] by {
        let i = origin(k);
    }
    assert forall|k: int| 0 <= k < places.len() implies 0 <= #[trigger] places[k] < fewer.len() by {
        let i = origin(k);
    }
    assert(sorted_from(fewer, fewer_keys, shorter, places));
}

proof fn lemma_visible_local_lines(entries: Seq<LocalEntry>)
    ensures
        visible(local_lines(entries, true)) == local_lines(entries, false),
    decreases entries.len(),
{
    if entries.len() > 0 {
        lemma_visible_local_lines(entries.drop_last());
        let before = local_lines(entries.drop_last(), true);
        match local_line(entries.last(), true) {
            Some(line) => {
                assert(before.push(line).drop_last() == before);
            },
            None => {},
        }
    }
}

/// Leaving the hidden files of a directory out only drops their lines: the rest
/// stays as it is, in the same order.
pub proof fn law_hidden_files_only_drop_out(
    entries: Seq<LocalEntry>,
    all: Seq<Shown>,
    output: Seq<Shown>,
)
    requires
        sorts(local_lines(entries, true), all),
        sorts(local_lines(entries, false), output),
    ensures
        output == visible(all),
{
    lemma_visible_is_sorted(local_lines(entries, true), all);
    lemma_visible_local_lines(entries);
    let input = local_lines(entries, false);
    law_sorting_is_unique(input, name_keys(input), output, visible(all));
}

proof fn lemma_name_is_no_dot(path: Seq<char>)
    ensures
        name_of(path) matches Some(name) ==> name != "."@ && name != ".."@,
    decreases path.len(),
{
    if path.len() > 0 {
        lemma_name_is_no_dot(path.drop_last());
    }
}

proof fn lemma_remote_lines(entries: Seq<RemoteEntry>, i: int)
    requires
        0 <= i < remote_lines(entries).len(),
    ensures
        remote_lines(entries)[i].name != "."@,
        remote_lines(entries)[i].name != ".."@,
    decreases entries.len(),
{
    lemma_name_is_no_dot(entries.last().path@);
    if i < remote_lines(entries.drop_last()).len() {
        lemma_remote_lines(entries.drop_last(), i);
    }
}

/// A remote listing shows neither the directory itself nor its parent.
pub proof fn law_no_dot_entries(entries: Seq<RemoteEntry>, output: Seq<Shown>, i: int)
    requires
        sorts(remote_lines(entries), output),
        0 <= i < output.len(),
    ensures
        output[i].name != "."@,
        output[i].name != ".."@,
{
    let input = remote_lines(entries);
    let from = choose|from: Seq<int>| sorted_from(input, name_keys(input), output, from);
    assert(output[i] == input[from[i]]);
    lemma_remote_lines(entries, from[i]);
}

/// The line that is due to a remote entry with this name.
pub open spec fn remote_line_of(entry: RemoteEntry, name: Seq<char>) -> Shown {
    Shown {
        name,
        is_dir: entry.perm matches Some(p) && p & 0o170000u32 == 0o040000u32,
        size: match entry.size {
            Some(size) => size,
            None => 0,
        },
        path: entry.path@,
    }
}

/// How many remote entries have a name.
pub open spec fn named_entries(entries: Seq<RemoteEntry>) -> nat
    decreases entries.len(),
{
    if entries.len() == 0 {
        0
    } else {
        named_entries(entries.drop_last()) + (if name_of(entries.last().path@) is Some {
            1nat
        } else {
            0
        })
    }
}

proof fn lemma_remote_lines_complete(entries: Seq<RemoteEntry>)
    ensures
        remote_lines(entries).len() == named_entries(entries),
        forall|k: int|
            0 <= k < entries.len() ==> (name_of((#[trigger] entries[k]).path@) matches Some(name)
                ==> remote_lines(entries).contains(remote_line_of(entries[k], name))),
        forall|i: int|
            0 <= i < remote_lines(entries).len() ==> exists|k: int|
                0 <= k < entries.len() && is_line_of(entries[k], #[trigger] remote_lines(entries)[i]),
    decreases entries.len(),
{
    if entries.len() > 0 {
        let before = entries.drop_last();
        let earlier = remote_lines(before);
        let all = remote_lines(entries);
        let last = entries.last();
        lemma_remote_lines_complete(before);
        assert forall|k: int| 0 <= k < entries.len() implies (name_of((#[trigger] entries[k]).path@) matches Some(
            name,
        ) ==> all.contains(remote_line_of(entries[k], name))) by {
            if let Some(name) = name_of(entries[k].path@) {
                if k < before.len() {
                    assert(before[k] == entries[k]);
                    let line = remote_line_of(before[k], name);
                    assert(earlier.contains(line));
                    let i = choose|i: int| 0 <= i < earlier.len() && earlier[i] == line;
                    assert(all[i] == line);
                } else {
                    assert(all[earlier.len() as int] == remote_line_of(last, name));
                }
            }
        }
        assert forall|i: int| 0 <= i < all.len() implies exists|k: int|
            0 <= k < entries.len() && is_line_of(entries[k], #[trigger] all[i]) by {
            if i < earlier.len() {
                assert(earlier[i] == all[i]);
                let k = choose|k: int| 0 <= k < before.len() && is_line_of(before[k], earlier[i]);
                assert(entries[k] == before[k]);
                assert(is_line_of(entries[k], all[i]));
            } else {
                assert(is_line_of(entries[entries.len() - 1], all[i]));
            }
        }
    }
}

/// Whether a line is due to a remote entry.
pub open spec fn is_line_of(entry: RemoteEntry, line: Shown) -> bool {
    name_of(entry.path@) matches Some(name) && line == remote_line_of(entry, name)
}

proof fn lemma_sorted_membership(input: Seq<Shown>, output: Seq<Shown>, line: Shown)
    requires
        sorts(input, output),
    ensures
        output.len() == input.len(),
        input.contains(line) <==> output.contains(line),
{
    broadcast use vstd::seq_lib::group_to_multiset_ensures;

    law_sorting_is_complete(input, name_keys(input), output);
    assert(output.to_multiset().count(line) == input.to_multiset().count(line));
    assert(output.to_multiset().len() == output.len());
    assert(input.to_multiset().len() == input.len());
}

/// A remote listing is complete. Every entry whose path has a name has its line,
/// with that name, its path, its size and its kind, whatever the name is; there
/// are as many lines as there are such entries, and no others.
pub proof fn law_remote_listing_is_complete(entries: Seq<RemoteEntry>, output: Seq<Shown>, line: Shown)
    requires
        sorts(remote_lines(entries), output),
    ensures
        output.len() == named_entries(entries),
        output.contains(line) <==> exists|k: int|
            0 <= k < entries.len() && is_line_of(#[trigger] entries[k], line),
{
    let input = remote_lines(entries);
    lemma_remote_lines_complete(entries);
    lemma_sorted_membership(input, output, line);
    if input.contains(line) {
        let i = choose|i: int| 0 <= i < input.len() && input[i] == line;
        let k = choose|k: int| 0 <= k < entries.len() && is_line_of(entries[k], input[i]);
        assert(is_line_of(entries[k], line));
    }
    if exists|k: int| 0 <= k < entries.len() && is_line_of(#[trigger] entries[k], line) {
        let k = choose|k: int| 0 <= k < entries.len() && is_line_of(#[trigger] entries[k], line);
        let name = name_of(entries[k].path@)->0;
        assert(input.contains(remote_line_of(entries[k], name)));
    }
}

/// Whether a line is due to a local entry: the entry could be read, and it is
/// not hidden or hidden files are asked for. A name that begins with a dot is
/// hidden.
pub open spec fn is_local_line_of(entry: LocalEntry, show_hidden: bool, line: Shown) -> bool {
    &&& entry.metadata matches Some(metadata)
    &&& line == (Shown {
        name: entry.name@,
        is_dir: metadata.is_dir,
        size: metadata.size,
        path: entry.path@,
    })
    &&& show_hidden || entry.name@.len() == 0 || entry.name@[0] != '.'
}

/// How many local entries have a line.
pub open spec fn listed_entries(entries: Seq<LocalEntry>, show_hidden: bool) -> nat
    decreases entries.len(),
{
    if entries.len() == 0 {
        0
    } else {
        listed_entries(entries.drop_last(), show_hidden) + (if entries.last().metadata is Some && (
        show_hidden || entries.last().name@.len() == 0 || entries.last().name@[0] != '.') {
            1nat
        } else {
            0
        })
    }
}

proof fn lemma_local_lines_complete(entries: Seq<LocalEntry>, show_hidden: bool, line: Shown)
    ensures
        local_lines(entries, show_hidden).len() == listed_entries(entries, show_hidden),
        local_lines(entries, show_hidden).contains(line) <==> exists|k: int|
            0 <= k < entries.len() && is_local_line_of(#[trigger] entries[k], show_hidden, line),
    decreases entries.len(),
{
    let all = local_lines(entries, show_hidden);
    if entries.len() > 0 {
        let before = entries.drop_last();
        let earlier = local_lines(before, show_hidden);
        let n = entries.len() - 1;
        lemma_local_lines_complete(before, show_hidden, line);
        if all.contains(line) {
            let i = choose|i: int| 0 <= i < all.len() && all[i] == line;
            if i < earlier.len() {
                assert(earlier[i] == line);
                assert(earlier.contains(line));
                let k = choose|k: int|
                    0 <= k < before.len() && is_local_line_of(#[trigger] before[k], show_hidden, line);
                assert(is_local_line_of(entries[k], show_hidden, line));
            } else {
                assert(is_local_line_of(entries[n], show_hidden, line));
            }
        }
        if exists|k: int|
            0 <= k < entries.len() && is_local_line_of(#[trigger] entries[k], show_hidden, line) {
            let k = choose|k: int|
                0 <= k < entries.len() && is_local_line_of(#[trigger] entries[k], show_hidden, line);
            if k < n {
                assert(is_local_line_of(before[k], show_hidden, line));
                let i = choose|i: int| 0 <= i < earlier.len() && earlier[i] == line;
                assert(all[i] == line);
            } else {
                assert(all[earlier.len() as int] == line);
            }
        }
    }
}

/// A local listing is complete. Every entry that could be read has its line,
/// unless its name begins with a dot and hidden files were not asked for; there
/// are as many lines as there are such entries, and no others.
pub proof fn law_local_listing_is_complete(
    entries: Seq<LocalEntry>,
    show_hidden: bool,
    output: Seq<Shown>,
    line: Shown,
)
    requires
        sorts(local_lines(entries, show_hidden), output),
    ensures
        output.len() == listed_entries(entries, show_hidden),
        output.contains(line) <==> exists|k: int|
            0 <= k < entries.len() && is_local_line_of(#[trigger] entries[k], show_hidden, line),
{
    lemma_local_lines_complete(entries, show_hidden, line);
    lemma_sorted_membership(local_lines(entries, show_hidden), output, line);
}

/// Entries that neither kind nor name tells apart, upper and lower case alike,
/// are listed in the order in which they came.
pub proof fn law_ties_keep_their_order(input: Seq<Shown>, output: Seq<Shown>, p: int, q: int)
    requires
        sorts(input, output),
        0 <= p < q < input.len(),
        input[p].is_dir == input[q].is_dir,
        lowercase(input[p].name) == lowercase(input[q].name),
    ensures
        exists|i: int, j: int|
            0 <= i < j < output.len() && #[trigger] output[i] == input[p] && #[trigger] output[j]
                == input[q],
{
    let keys = name_keys(input);
    let from = choose|from: Seq<int>| sorted_from(input, keys, output, from);
    lemma_every_place_occurs(from, input.len(), p);
    lemma_every_place_occurs(from, input.len(), q);
    let i = choose|i: int| 0 <= i < from.len() && from[i] == p;
    let j = choose|j: int| 0 <= j < from.len() && from[j] == q;
    assert(output[i] == input[from[i]]);
    assert(output[j] == input[from[j]]);
    lemma_lex_total(keys[p], keys[q]);
    if j < i {
        assert(ranks_before(input, keys, from[j], from[i]));
    }
}

/// Of two texts the one with the lower character where they first differ comes
/// first, and a text comes before all that go on from it.
pub proof fn law_first_difference_decides(
    start: Seq<char>,
    a: char,
    x: Seq<char>,
    b: char,
    y: Seq<char>,
)
    requires
        a < b,
    ensures
        lex_less(start + seq![a] + x, start + seq![b] + y),
        !lex_less(start + seq![b] + y, start + seq![a] + x),
        lex_less(start, start + seq![a] + x),
        !lex_less(start + seq![a] + x, start),
        !lex_less(start, start),
    decreases start.len(),
{
    let s = start + seq![a] + x;
    let t = start + seq![b] + y;
    if start.len() > 0 {
        law_first_difference_decides(start.skip(1), a, x, b, y);
        assert(s.skip(1) == start.skip(1) + seq![a] + x);
        assert(t.skip(1) == start.skip(1) + seq![b] + y);
    }
}

/// A directory is told by its type bits alone: who may read, write or run it
/// makes no difference, and no other type is one.
pub proof fn law_permissions_make_no_directory(kind: u32, rights: u32)
    requires
        kind < 16,
        rights < 0o10000,
    ensures
        directory_bits(Some((kind << 12u32) | rights)) <==> kind == 4,
        !directory_bits(None),
{
    assert(((kind << 12u32) | rights) & 0o170000u32 == 0o040000u32 <==> kind == 4) by (bit_vector)
        requires
            kind < 16,
            rights < 0o10000,
    ;
}

} // verus!
