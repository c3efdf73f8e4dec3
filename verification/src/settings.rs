//! What is kept between two runs, and where.

use vstd::prelude::*;

use crate::outside::{empty_object, home_directory, json_read, json_text, read_json, write_json};
use crate::outside::{readable_depth, whole_numbers};

verus! {

/// The home directory of the user, given where the system says it is.
pub fn home_or_error(home: Option<String>) -> (r: Result<String, String>)
    ensures
        match home {
            Some(dir) => r == Ok::<String, String>(dir),
            None => r matches Err(e) && e@ == "홈 디렉토리 없음"@,
        },
{
    match home {
        Some(dir) => Ok(dir),
        None => Err("홈 디렉토리 없음".to_owned()),
    }
}

/// Finds the home directory of the user.
pub fn home_dir() -> (r: Result<String, String>)
    ensures
        match r {
            Ok(dir) => dir@.len() > 0,
            Err(e) => e@ == "홈 디렉토리 없음"@,
        },
{
    home_or_error(home_directory())
}

/// What is loaded from a text in which settings were kept: the settings, or the
/// words of an error. Where none were ever saved that is an object without
/// fields.
pub open spec fn loaded(saved: Option<Seq<char>>) -> Result<serde_json::Value, Seq<char>> {
    match saved {
        Some(text) => json_read(text),
        None => json_read("{}"@),
    }
}

/// The text in which settings are kept. Loading it gives the same settings,
/// where their numbers are all whole and they do not nest too deep.
pub fn save_app_settings(settings: &serde_json::Value) -> (r: Result<String, String>)
    ensures
        r matches Ok(text) && {
            &&& text@ == json_text(*settings)
            &&& whole_numbers(text@) && readable_depth(text@) ==> loaded(Some(text@)) == Ok::<
                serde_json::Value,
                Seq<char>,
            >(*settings)
        },
{
    write_json(settings)
}

/// The settings in a text, or none where none were ever saved.
pub fn load_app_settings(saved: Option<&str>) -> (r: Result<serde_json::Value, String>)
    ensures
        ({
            let text = match saved {
                Some(text) => Some(text@),
                None => None,
            };
            match r {
                Ok(value) => loaded(text) == Ok::<serde_json::Value, Seq<char>>(value),
                Err(e) => loaded(text) == Err::<serde_json::Value, Seq<char>>(e@),
            }
        }),
        saved is None ==> r is Ok,
{
    match saved {
        Some(text) => read_json(text),
        None => Ok(empty_object()),
    }
}

/// A file that is kept between two runs.
#[derive(Debug, Clone, Copy, PartialEq, Eq, Structural)]
pub enum Kept {
    /// The settings of the window.
    Settings,
    /// The connections that the user defined.
    Connections,
    /// The keys of the servers that were met.
    KnownHosts,
}

impl Kept {
    /// Where in the home directory the file lies.
    pub open spec fn place_in_home(self) -> Seq<char> {
        match self {
            Kept::Settings => ".config/termy/settings.json"@,
            Kept::Connections => ".config/termy/ssh_connections.json"@,
            Kept::KnownHosts => ".config/termy/known_hosts"@,
        }
    }

    /// Writes where in the home directory the file lies.
    pub fn path_in_home(self) -> (r: String)
        ensures
            r@ == self.place_in_home(),
    {
        match self {
            Kept::Settings => ".config/termy/settings.json".to_owned(),
            Kept::Connections => ".config/termy/ssh_connections.json".to_owned(),
            Kept::KnownHosts => ".config/termy/known_hosts".to_owned(),
        }
    }
}

/// Whether what the program kept under its former name is taken over.
pub open spec fn migrates(old_exists: bool, new_exists: bool, new_has_entries: bool) -> bool {
    old_exists && !(new_exists && new_has_entries)
}

/// Decides whether what the program kept under its former name is taken
/// over: only where there is something to take over, and never over files that
/// are already there.
pub fn should_migrate(old_exists: bool, new_exists: bool, new_has_entries: bool) -> (r: bool)
    ensures
        r == migrates(old_exists, new_exists, new_has_entries),
{
    if !old_exists {
        return false;
    }
    !(new_exists && new_has_entries)
}

/// An entry of the directory under the former name.
#[derive(Debug, Clone, Copy, PartialEq, Eq, Structural)]
pub struct OldEntry {
    /// Whether its path ends in a name.
    pub named: bool,
    /// Whether it is a regular file.
    pub is_file: bool,
}

/// The places of the entries that are taken over, in order: those of the
/// regular files, and of nothing else.
pub open spec fn taken_over(entries: Seq<OldEntry>) -> Seq<usize>
    decreases entries.len(),
{
    if entries.len() == 0 {
        Seq::empty()
    } else {
        let before = taken_over(entries.drop_last());
        if entries.last().named && entries.last().is_file {
            before.push((entries.len() - 1) as usize)
        } else {
            before
        }
    }
}

/// Lists the places of the entries that are taken over. Each is copied on its
/// own: one that cannot be copied does not keep the rest from it.
pub fn entries_to_copy(entries: &[OldEntry]) -> (r: Vec<usize>)
    ensures
        r@ == taken_over(entries@),
{
    let mut r: Vec<usize> = Vec::new();
    let mut i: usize = 0;
    while i < entries.len()
        invariant
            i <= entries@.len(),
            r@ == taken_over(entries@.take(i as int)),
        decreases entries@.len() - i,
    {
        assert(entries@.take(i + 1).drop_last() == entries@.take(i as int));
        if entries[i].named && entries[i].is_file {
            r.push(i);
        }
        i += 1;
    }
    assert(entries@.take(entries@.len() as int) == entries@);
    r
}

/// The next thing to do to open the settings program. Each is answered with yes
/// or no.
#[derive(Debug, Clone, Copy, PartialEq, Eq, Structural)]
pub enum OpenStep {
    /// Is the program there?
    Check,
    /// Build it, whatever comes of it.
    Build,
    /// Is the program there now?
    CheckAgain,
    /// Start it, whatever comes of it.
    Start,
    /// Nothing.
    Done,
}

/// What follows an answer.
pub open spec fn next_open_step(step: OpenStep, yes: bool) -> OpenStep {
    match (step, yes) {
        (OpenStep::Check, true) => OpenStep::Start,
        (OpenStep::Check, false) => OpenStep::Build,
        (OpenStep::Build, _) => OpenStep::CheckAgain,
        (OpenStep::CheckAgain, true) => OpenStep::Start,
        (OpenStep::CheckAgain, false) => OpenStep::Done,
        (OpenStep::Start, _) => OpenStep::Done,
        (OpenStep::Done, _) => OpenStep::Done,
    }
}

impl OpenStep {
    /// Takes the answer to this step and gives the next one.
    pub fn answer(self, yes: bool) -> (r: OpenStep)
        ensures
            r == next_open_step(self, yes),
    {
        match self {
            OpenStep::Check => if yes {
                OpenStep::Start
            } else {
                OpenStep::Build
            },
            OpenStep::Build => OpenStep::CheckAgain,
            OpenStep::CheckAgain => if yes {
                OpenStep::Start
            } else {
                OpenStep::Done
            },
            OpenStep::Start | OpenStep::Done => OpenStep::Done,
        }
    }
}

/// Exactly the regular files with a name are taken over, each once and in the
/// order in which they came.
pub proof fn law_regular_files_are_taken_over(entries: Seq<OldEntry>, k: usize)
    requires
        entries.len() <= usize::MAX,
    ensures
        taken_over(entries).contains(k) <==> k < entries.len() && entries[k as int].named
            && entries[k as int].is_file,
        forall|i: int, j: int|
            0 <= i < j < taken_over(entries).len() ==> #[trigger] taken_over(entries)[i]
                < #[trigger] taken_over(entries)[j],
        forall|i: int| 0 <= i < taken_over(entries).len() ==> #[trigger] taken_over(entries)[i]
            < entries.len(),
    decreases entries.len(),
{
    if entries.len() > 0 {
        let before = entries.drop_last();
        let earlier = taken_over(before);
        let all = taken_over(entries);
        law_regular_files_are_taken_over(before, k);
        if all.contains(k) {
            let i = choose|i: int| 0 <= i < all.len() && all[i] == k;
            if i < earlier.len() {
                assert(earlier[i] == k);
                assert(earlier.contains(k));
                assert(before[k as int] == entries[k as int]);
            }
        }
        if k < entries.len() && entries[k as int].named && entries[k as int].is_file {
            if k < before.len() {
                assert(before[k as int] == entries[k as int]);
                let i = choose|i: int| 0 <= i < earlier.len() && earlier[i] == k;
                assert(all[i] == k);
            } else {
                assert(all[earlier.len() as int] == k);
            }
        }
    }
}

/// The settings program is started if it is there, at once or once it was built,
/// and built only if it is missing. Nothing else is done.
pub proof fn law_settings_program_is_started(there: bool, built: bool, there_then: bool, started: bool)
    ensures
        next_open_step(OpenStep::Check, there) == (if there {
            OpenStep::Start
        } else {
            OpenStep::Build
        }),
        next_open_step(next_open_step(OpenStep::Build, built), there_then) == (if there_then {
            OpenStep::Start
        } else {
            OpenStep::Done
        }),
        next_open_step(OpenStep::Start, started) == OpenStep::Done,
        next_open_step(OpenStep::Done, there) == OpenStep::Done,
{
}

/// What was kept under the former name is taken over into a directory that is
/// missing or empty, and never where nothing was kept or where there are files
/// already.
pub proof fn law_nothing_is_taken_over_twice(new_exists: bool, new_has_entries: bool)
    ensures
        migrates(true, false, new_has_entries),
        migrates(true, true, false),
        !migrates(true, true, true),
        !migrates(false, new_exists, new_has_entries),
{
}

/// Each file that is kept has a place of its own, in the directory of the
/// program.
pub proof fn law_kept_files_lie_apart(kept: Kept, other: Kept)
    ensures
        kept.place_in_home() == other.place_in_home() ==> kept == other,
        kept.place_in_home().take(14) == ".config/termy/"@,
        kept.place_in_home().len() > 14,
        !kept.place_in_home().skip(14).contains('/'),
{
    reveal_strlit(".config/termy/settings.json");
    reveal_strlit(".config/termy/ssh_connections.json");
    reveal_strlit(".config/termy/known_hosts");
    reveal_strlit(".config/termy/");
    assert(kept.place_in_home().take(14) == ".config/termy/"@);
    assert(".config/termy/settings.json"@[15] == 'e');
    assert(".config/termy/ssh_connections.json"@[15] == 's');
    assert(".config/termy/known_hosts"@[15] == 'n');
}

} // verus!
