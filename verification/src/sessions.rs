//! Which tab is served by what.

use std::collections::hash_map::Entry;
use std::collections::HashMap;

use vstd::prelude::*;

use vstd::string::{StrSliceExecFns, StringSliceAdditionalSpecFns};

use crate::listing::{remote_lines, remote_listing, shown, sorts, FileEntry, RemoteEntry};
use crate::shells::SshMsg;
use crate::text::{chars_of, is_blank, law_trim_ignores_blanks, text_of, trim, trimmed};

verus! {

broadcast use vstd::std_specs::hash::group_hash_axioms;

/// The size of a terminal, in cells and in pixels.
#[derive(Debug, Clone, Copy, PartialEq, Eq, Structural)]
pub struct Size {
    pub rows: u16,
    pub cols: u16,
    pub pixel_width: u16,
    pub pixel_height: u16,
}

/// The size of a terminal whose pixels are not known.
pub open spec fn cells(cols: u16, rows: u16) -> Size {
    Size { rows, cols, pixel_width: 0, pixel_height: 0 }
}

/// The size of a terminal of so many columns and rows.
pub fn size_in_cells(cols: u16, rows: u16) -> (r: Size)
    ensures
        r == cells(cols, rows),
{
    Size { rows, cols, pixel_width: 0, pixel_height: 0 }
}

/// Where something for a tab goes.
pub enum Delivery<'a, P, S, T> {
    /// To the local shell of the tab, in this form.
    Local(&'a mut P, T),
    /// To the remote shell of the tab, as this message.
    Ssh(&'a S, SshMsg),
    /// Nowhere: the tab has no shell.
    Nowhere,
}

/// Which shell of a tab hears what the window sends.
pub enum Hearer {
    Local,
    Remote,
    Nobody,
}

/// Which shell of a tab hears what the window sends, given the local and the
/// remote shells.
pub open spec fn hearer<P, S>(ptys: Map<u32, P>, ssh_inputs: Map<u32, S>, id: u32) -> Hearer {
    if ptys.contains_key(id) {
        Hearer::Local
    } else if ssh_inputs.contains_key(id) {
        Hearer::Remote
    } else {
        Hearer::Nobody
    }
}

/// The directories that remote shells reported last, once the one of a tab has
/// been asked again.
pub open spec fn cwds_after(cwds: Map<u32, Seq<char>>, id: u32, reported: Option<Seq<char>>) -> Map<
    u32,
    Seq<char>,
> {
    match reported {
        Some(cwd) => cwds.insert(id, cwd),
        None => cwds.remove(id),
    }
}

/// The shells of all tabs: `P` handles a local shell, `S` the input of a remote
/// one.
#[verifier::reject_recursive_types(P)]
#[verifier::reject_recursive_types(S)]
pub struct PtyManager<P, S> {
    ptys: HashMap<u32, P>,
    ssh_inputs: HashMap<u32, S>,
    cwds: HashMap<u32, String>,
}

impl<P, S> PtyManager<P, S> {
    /// The local shells.
    pub closed spec fn ptys(&self) -> Map<u32, P> {
        self.ptys@
    }

    /// The remote shells.
    pub closed spec fn ssh_inputs(&self) -> Map<u32, S> {
        self.ssh_inputs@
    }

    /// The directories that remote shells reported last.
    pub closed spec fn cwds(&self) -> Map<u32, Seq<char>> {
        self.cwds@.map_values(|cwd: String| cwd@)
    }

    /// No tabs.
    pub fn new() -> (r: Self)
        ensures
            r.ptys() == Map::<u32, P>::empty(),
            r.ssh_inputs() == Map::<u32, S>::empty(),
            r.cwds() == Map::<u32, Seq<char>>::empty(),
    {
        let r = PtyManager {
            ptys: HashMap::new(),
            ssh_inputs: HashMap::new(),
            cwds: HashMap::new(),
        };
        assert(r.cwds() == Map::<u32, Seq<char>>::empty());
        r
    }

    /// Takes note of the directory that the remote shell of a tab reported last,
    /// or that it has reported none.
    pub fn set_shell_cwd(&mut self, id: u32, reported: Option<&str>)
        ensures
            final(self).ptys() == old(self).ptys(),
            final(self).ssh_inputs() == old(self).ssh_inputs(),
            final(self).cwds() == cwds_after(
                old(self).cwds(),
                id,
                match reported {
                    Some(cwd) => Some(cwd@),
                    None => None,
                },
            ),
    {
        match reported {
            Some(cwd) => {
                self.cwds.insert(id, cwd.to_owned());
                assert(self.cwds() == old(self).cwds().insert(id, cwd@));
            },
            None => {
                self.cwds.remove(&id);
                assert(self.cwds() == old(self).cwds().remove(id));
            },
        }
    }

    /// The directory that the remote shell of a tab reported last.
    pub fn shell_cwd(&self, id: u32) -> (r: Option<String>)
        ensures
            match r {
                Some(cwd) => self.cwds().contains_key(id) && cwd@ == self.cwds()[id],
                None => !self.cwds().contains_key(id),
            },
    {
        match self.cwds.get(&id) {
            Some(cwd) => Some(cwd.clone()),
            None => None,
        }
    }

    /// Gives a tab a local shell.
    pub fn add_pty(&mut self, id: u32, pty: P)
        ensures
            final(self).ptys() == old(self).ptys().insert(id, pty),
            final(self).ssh_inputs() == old(self).ssh_inputs(),
            final(self).cwds() == old(self).cwds(),
    {
        self.ptys.insert(id, pty);
    }

    /// Gives a tab a remote shell.
    pub fn add_ssh_input(&mut self, id: u32, input: S)
        ensures
            final(self).ptys() == old(self).ptys(),
            final(self).ssh_inputs() == old(self).ssh_inputs().insert(id, input),
            final(self).cwds() == old(self).cwds(),
    {
        self.ssh_inputs.insert(id, input);
    }

    /// Takes the remote shell of a tab away, and what it reported.
    pub fn remove_ssh_input(&mut self, id: u32)
        ensures
            final(self).ptys() == old(self).ptys(),
            final(self).ssh_inputs() == old(self).ssh_inputs().remove(id),
            final(self).cwds() == old(self).cwds().remove(id),
    {
        self.ssh_inputs.remove(&id);
        self.cwds.remove(&id);
        assert(self.cwds() == old(self).cwds().remove(id));
    }

    /// Closes the local shell of a tab.
    pub fn pty_close(&mut self, id: u32)
        ensures
            final(self).ptys() == old(self).ptys().remove(id),
            final(self).ssh_inputs() == old(self).ssh_inputs(),
            final(self).cwds() == old(self).cwds(),
    {
        self.ptys.remove(&id);
    }

    /// The local shell of a tab.
    pub fn pty(&self, id: u32) -> (r: Result<&P, String>)
        ensures
            match r {
                Ok(pty) => self.ptys().contains_key(id) && *pty == self.ptys()[id],
                Err(e) => !self.ptys().contains_key(id) && e@ == "PTY 없음"@,
            },
    {
        match self.ptys.get(&id) {
            Some(pty) => Ok(pty),
            None => Err("PTY 없음".to_owned()),
        }
    }

    /// Where input for a tab goes: to its local shell as bytes, else to its
    /// remote one as a message.
    pub fn pty_write(&mut self, id: u32, data: &str) -> (r: Delivery<'_, P, S, Vec<u8>>)
        ensures
            final(self).ssh_inputs() == old(self).ssh_inputs(),
            final(self).cwds() == old(self).cwds(),
            match r {
                Delivery::Local(pty, bytes) => {
                    &&& hearer(old(self).ptys(), old(self).ssh_inputs(), id) is Local
                    &&& *pty == old(self).ptys()[id]
                    &&& final(self).ptys() == old(self).ptys().insert(id, *final(pty))
                    &&& bytes@ == data.spec_bytes()
                },
                Delivery::Ssh(input, message) => {
                    &&& hearer(old(self).ptys(), old(self).ssh_inputs(), id) is Remote
                    &&& *input == old(self).ssh_inputs()[id]
                    &&& message matches SshMsg::Input(bytes)
                    &&& bytes@ == data.spec_bytes()
                    &&& final(self).ptys() == old(self).ptys()
                },
                Delivery::Nowhere => {
                    &&& hearer(old(self).ptys(), old(self).ssh_inputs(), id) is Nobody
                    &&& final(self).ptys() == old(self).ptys()
                },
            },
    {
        let bytes = data.as_bytes_vec();
        if self.ptys.contains_key(&id) {
            return match self.ptys.entry(id) {
                Entry::Occupied(entry) => Delivery::Local(entry.into_mut(), bytes),
                Entry::Vacant(_) => Delivery::Nowhere,
            };
        }
        match self.ssh_inputs.get(&id) {
            Some(input) => Delivery::Ssh(input, SshMsg::Input(bytes)),
            None => Delivery::Nowhere,
        }
    }

    /// Where the new size of a tab goes: to its local shell in cells, else to
    /// its remote one as a message.
    pub fn pty_resize(&mut self, id: u32, cols: u16, rows: u16) -> (r: Delivery<'_, P, S, Size>)
        ensures
            final(self).ssh_inputs() == old(self).ssh_inputs(),
            final(self).cwds() == old(self).cwds(),
            match r {
                Delivery::Local(pty, size) => {
                    &&& hearer(old(self).ptys(), old(self).ssh_inputs(), id) is Local
                    &&& *pty == old(self).ptys()[id]
                    &&& final(self).ptys() == old(self).ptys().insert(id, *final(pty))
                    &&& size == cells(cols, rows)
                },
                Delivery::Ssh(input, message) => {
                    &&& hearer(old(self).ptys(), old(self).ssh_inputs(), id) is Remote
                    &&& *input == old(self).ssh_inputs()[id]
                    &&& message == SshMsg::Resize(cols, rows)
                    &&& final(self).ptys() == old(self).ptys()
                },
                Delivery::Nowhere => {
                    &&& hearer(old(self).ptys(), old(self).ssh_inputs(), id) is Nobody
                    &&& final(self).ptys() == old(self).ptys()
                },
            },
    {
        if self.ptys.contains_key(&id) {
            return match self.ptys.entry(id) {
                Entry::Occupied(entry) => Delivery::Local(
                    entry.into_mut(),
                    size_in_cells(cols, rows),
                ),
                Entry::Vacant(_) => Delivery::Nowhere,
            };
        }
        match self.ssh_inputs.get(&id) {
            Some(input) => Delivery::Ssh(input, SshMsg::Resize(cols, rows)),
            None => Delivery::Nowhere,
        }
    }
}

/// The file session of a tab and the directory that it shows.
struct SftpHandle<S> {
    session: S,
    cwd: String,
}

/// What is known of a file session.
pub struct Files<S> {
    pub session: S,
    pub cwd: Seq<char>,
}

/// The file sessions of all tabs.
#[verifier::reject_recursive_types(S)]
pub struct SftpSessions<S> {
    handles: HashMap<u32, SftpHandle<S>>,
}

/// What the user is told where a tab has no file session.
pub open spec fn no_session() -> Seq<char> {
    "SFTP 연결 없음"@
}

/// The directory that a printed `pwd` names, where it names one.
pub open spec fn printed_directory(printed: Option<String>) -> Option<Seq<char>> {
    match printed {
        Some(text) if trimmed(text@).len() > 0 => Some(trimmed(text@)),
        _ => None,
    }
}

/// The directory in which a new file session starts.
pub open spec fn first_directory(printed: Option<String>) -> Seq<char> {
    match printed_directory(printed) {
        Some(dir) => dir,
        None => "/root"@,
    }
}

/// Finds the directory that a printed `pwd` names.
pub fn read_pwd(printed: Option<String>) -> (r: Option<String>)
    ensures
        match r {
            Some(dir) => printed_directory(printed) == Some(dir@),
            None => printed_directory(printed) is None,
        },
{
    match printed {
        Some(text) => {
            let chars = chars_of(text.as_str());
            let dir = trim(chars.as_slice());
            if dir.len() > 0 {
                Some(text_of(dir))
            } else {
                None
            }
        },
        None => None,
    }
}

/// The file sessions once the one of a tab shows another directory.
pub open spec fn moved<S>(sessions: Map<u32, Files<S>>, id: u32, cwd: Seq<char>) -> Map<
    u32,
    Files<S>,
> {
    if sessions.contains_key(id) {
        sessions.insert(id, Files { session: sessions[id].session, cwd })
    } else {
        sessions
    }
}

/// The directory of the shell of a tab: the one that it reported itself, else
/// the one that a printed `pwd` names.
pub open spec fn shell_directory(reported: Option<String>, printed: Option<String>) -> Option<Seq<char>> {
    match reported {
        Some(dir) => Some(dir@),
        None => printed_directory(printed),
    }
}

/// The file sessions once a tab was asked to look where its shell is.
pub open spec fn synced<S>(
    sessions: Map<u32, Files<S>>,
    id: u32,
    reported: Option<String>,
    printed: Option<String>,
) -> Map<u32, Files<S>> {
    match shell_directory(reported, printed) {
        Some(dir) => moved(sessions, id, dir),
        None => sessions,
    }
}

/// The directory to list: the one that is asked for, else the one that is shown.
pub open spec fn directory_asked<S>(
    sessions: Map<u32, Files<S>>,
    id: u32,
    path: Option<String>,
) -> Option<Seq<char>> {
    if sessions.contains_key(id) {
        match path {
            Some(p) => Some(p@),
            None => Some(sessions[id].cwd),
        }
    } else {
        None
    }
}

/// What the user is told where a directory cannot be listed.
pub open spec fn listing_error<S, E>(
    sessions: Map<u32, Files<S>>,
    id: u32,
    read: Result<E, String>,
) -> Option<Seq<char>> {
    if !sessions.contains_key(id) {
        Some(no_session())
    } else {
        match read {
            Ok(_) => None,
            Err(error) => Some("디렉토리 읽기 실패: "@ + error@),
        }
    }
}

impl<S> View for SftpSessions<S> {
    type V = Map<u32, Files<S>>;

    closed spec fn view(&self) -> Map<u32, Files<S>> {
        self.handles@.map_values(
            |h: SftpHandle<S>| Files { session: h.session, cwd: h.cwd@ },
        )
    }
}

impl<S> SftpSessions<S> {
    /// No file sessions.
    pub fn new() -> (r: Self)
        ensures
            r@ == Map::<u32, Files<S>>::empty(),
    {
        let r = SftpSessions { handles: HashMap::new() };
        assert(r@ == Map::<u32, Files<S>>::empty());
        r
    }

    /// Gives a tab a file session. It starts where `pwd` says, and in `/root`
    /// where that is not known.
    pub fn add(&mut self, id: u32, session: S, printed: Option<String>)
        ensures
            final(self)@ == old(self)@.insert(
                id,
                Files { session, cwd: first_directory(printed) },
            ),
    {
        let cwd = match read_pwd(printed) {
            Some(dir) => dir,
            None => "/root".to_owned(),
        };
        self.handles.insert(id, SftpHandle { session, cwd });
        assert(self@ == old(self)@.insert(id, Files { session, cwd: first_directory(printed) }));
    }

    /// Takes the file session of a tab away.
    pub fn remove(&mut self, id: u32)
        ensures
            final(self)@ == old(self)@.remove(id),
    {
        self.handles.remove(&id);
        assert(self@ == old(self)@.remove(id));
    }

    /// Whether a tab has a file session.
    pub fn contains(&self, id: u32) -> (r: bool)
        ensures
            r == self@.contains_key(id),
    {
        self.handles.contains_key(&id)
    }

    /// The file session of a tab.
    pub fn session(&self, id: u32) -> (r: Result<&S, String>)
        ensures
            match r {
                Ok(session) => self@.contains_key(id) && *session == self@[id].session,
                Err(e) => !self@.contains_key(id) && e@ == no_session(),
            },
    {
        match self.handles.get(&id) {
            Some(handle) => Ok(&handle.session),
            None => Err("SFTP 연결 없음".to_owned()),
        }
    }

    /// The directory that the file session of a tab shows.
    pub fn sftp_get_cwd(&self, id: u32) -> (r: Result<String, String>)
        ensures
            match r {
                Ok(cwd) => self@.contains_key(id) && cwd@ == self@[id].cwd,
                Err(e) => !self@.contains_key(id) && e@ == no_session(),
            },
    {
        match self.handles.get(&id) {
            Some(handle) => Ok(handle.cwd.clone()),
            None => Err("SFTP 연결 없음".to_owned()),
        }
    }

    /// The directory to list: the one that is asked for, else the one that is
    /// shown.
    pub fn directory_to_list(&self, id: u32, path: Option<String>) -> (r: Result<String, String>)
        ensures
            match r {
                Ok(dir) => directory_asked(self@, id, path) == Some(dir@),
                Err(e) => directory_asked(self@, id, path) is None && e@ == no_session(),
            },
    {
        match self.handles.get(&id) {
            Some(handle) => match path {
                Some(p) => Ok(p),
                None => Ok(handle.cwd.clone()),
            },
            None => Err("SFTP 연결 없음".to_owned()),
        }
    }

    /// Takes note that the file session of a tab shows another directory.
    fn show(&mut self, id: u32, cwd: String)
        ensures
            final(self)@ == moved(old(self)@, id, cwd@),
    {
        let ghost before = self.handles@;
        match self.handles.remove(&id) {
            Some(handle) => {
                self.handles.insert(id, SftpHandle { session: handle.session, cwd });
            },
            None => {
                assert(before.remove(id) == before);
            },
        }
        assert(self@ == moved(old(self)@, id, cwd@));
    }

    /// Takes the entries of a directory that was read, or the error. A
    /// directory that could be read is shown from now on.
    pub fn sftp_list_dir(
        &mut self,
        id: u32,
        dir: String,
        read: Result<Vec<RemoteEntry>, String>,
    ) -> (r: Result<Vec<FileEntry>, String>)
        ensures
            match r {
                Ok(files) => {
                    &&& listing_error(old(self)@, id, read) is None
                    &&& read matches Ok(entries)
                    &&& sorts(remote_lines(entries@), shown(files@))
                },
                Err(e) => listing_error(old(self)@, id, read) == Some(e@),
            },
            final(self)@ == (if listing_error(old(self)@, id, read) is None {
                moved(old(self)@, id, dir@)
            } else {
                old(self)@
            }),
    {
        if !self.contains(id) {
            return Err("SFTP 연결 없음".to_owned());
        }
        match read {
            Ok(entries) => {
                let files = remote_listing(entries);
                self.show(id, dir);
                Ok(files)
            },
            Err(error) => {
                let mut e = "디렉토리 읽기 실패: ".to_owned();
                e.append(error.as_str());
                Err(e)
            },
        }
    }

    /// Takes the directory that the shell of a tab reported, and what `pwd`
    /// printed in its session. The directory of the shell is shown from now on;
    /// where it is not known the old one stays.
    ///
    /// A `pwd` of its own starts anew in the home directory, so it serves only
    /// for a shell that reports nothing.
    pub fn sftp_sync_cwd(
        &mut self,
        id: u32,
        reported: Option<String>,
        printed: Option<String>,
    ) -> (r: Result<String, String>)
        ensures
            final(self)@ == synced(old(self)@, id, reported, printed),
            match r {
                Ok(cwd) => old(self)@.contains_key(id) && cwd@ == final(self)@[id].cwd,
                Err(e) => !old(self)@.contains_key(id) && e@ == no_session(),
            },
    {
        let found = match reported {
            Some(dir) => Some(dir),
            None => read_pwd(printed),
        };
        match found {
            Some(dir) => {
                self.show(id, dir);
            },
            None => {},
        }
        self.sftp_get_cwd(id)
    }
}

/// A tab shows the directory that it was last moved to, and no other tab is
/// touched.
pub proof fn law_cwd_after_move<S>(sessions: Map<u32, Files<S>>, id: u32, cwd: Seq<char>, other: u32)
    requires
        sessions.contains_key(id),
    ensures
        moved(sessions, id, cwd)[id].cwd == cwd,
        moved(sessions, id, cwd)[id].session == sessions[id].session,
        moved(sessions, id, cwd).dom() == sessions.dom(),
        other != id ==> moved(sessions, id, cwd)[other] == sessions[other],
{
    assert(moved(sessions, id, cwd).dom() == sessions.dom());
}

/// Looking where the shell is shows the directory that the shell reported,
/// whatever `pwd` prints elsewhere.
pub proof fn law_sync_follows_the_shell<S>(
    sessions: Map<u32, Files<S>>,
    id: u32,
    reported: String,
    printed: Option<String>,
)
    requires
        sessions.contains_key(id),
    ensures
        synced(sessions, id, Some(reported), printed)[id].cwd == reported@,
{
}

/// Looking where the shell is changes nothing if nothing says where that is.
pub proof fn law_silent_pwd_keeps_cwd<S>(sessions: Map<u32, Files<S>>, id: u32, text: String)
    requires
        trimmed(text@).len() == 0,
    ensures
        synced(sessions, id, None, Some(text)) == sessions,
        synced(sessions, id, None, None) == sessions,
{
}

/// A new file session starts in the directory that `pwd` printed, whatever white
/// space stands around it, and in `/root` where it printed none.
pub proof fn law_session_starts_where_pwd_says(dir: Seq<char>, before: Seq<char>, after: Seq<char>, text: String)
    requires
        is_blank(before),
        is_blank(after),
        trimmed(dir) == dir,
        text@ == before + dir + after,
    ensures
        printed_directory(Some(text)) == (if dir.len() > 0 {
            Some(dir)
        } else {
            None
        }),
        first_directory(Some(text)) == (if dir.len() > 0 {
            dir
        } else {
            "/root"@
        }),
        printed_directory(None) is None,
        first_directory(None) == "/root"@,
{
    law_trim_ignores_blanks(before, dir, after);
}

/// Looking where a shell is that reports nothing shows what `pwd` printed.
pub proof fn law_sync_falls_back_to_pwd<S>(
    sessions: Map<u32, Files<S>>,
    id: u32,
    printed: String,
    other: u32,
)
    requires
        sessions.contains_key(id),
        trimmed(printed@).len() > 0,
        other != id,
    ensures
        synced(sessions, id, None, Some(printed))[id].cwd == trimmed(printed@),
        synced(sessions, id, None, Some(printed))[id].session == sessions[id].session,
        synced(sessions, id, None, Some(printed))[other] == sessions[other],
        synced(sessions, id, None, Some(printed)).dom() == sessions.dom(),
{
    assert(synced(sessions, id, None, Some(printed)).dom() == sessions.dom());
}

/// A tab without a file session shows no directory, and moving it changes
/// nothing.
pub proof fn law_no_session_no_move<S>(
    sessions: Map<u32, Files<S>>,
    id: u32,
    cwd: Seq<char>,
    reported: Option<String>,
    printed: Option<String>,
)
    requires
        !sessions.contains_key(id),
    ensures
        moved(sessions, id, cwd) == sessions,
        synced(sessions, id, reported, printed) == sessions,
{
}

/// The size of a terminal has the columns and rows that it was given, and no
/// pixels.
pub proof fn law_size_is_in_cells(cols: u16, rows: u16)
    ensures
        cells(cols, rows).cols == cols,
        cells(cols, rows).rows == rows,
        cells(cols, rows).pixel_width == 0,
        cells(cols, rows).pixel_height == 0,
{
}

/// A tab hears through its local shell as long as it has one, then through its
/// remote one, and then not at all. The shells of other tabs play no part.
pub proof fn law_local_shell_hears_first<P, S>(
    ptys: Map<u32, P>,
    ssh_inputs: Map<u32, S>,
    id: u32,
    pty: P,
    input: S,
    other: u32,
)
    requires
        other != id,
    ensures
        hearer(ptys.insert(id, pty), ssh_inputs, id) is Local,
        hearer(ptys.remove(id), ssh_inputs.insert(id, input), id) is Remote,
        hearer(ptys.remove(id), ssh_inputs.remove(id), id) is Nobody,
        hearer(ptys.insert(id, pty), ssh_inputs.insert(id, input), other) == hearer(
            ptys,
            ssh_inputs,
            other,
        ),
        hearer(ptys.remove(id), ssh_inputs.remove(id), other) == hearer(ptys, ssh_inputs, other),
{
}

/// What a remote shell reported last is known under its tab, and under no
/// other, until it reports something else.
pub proof fn law_reported_directory_is_known(
    cwds: Map<u32, Seq<char>>,
    id: u32,
    cwd: Seq<char>,
    reported: Option<Seq<char>>,
    other: u32,
)
    requires
        other != id,
    ensures
        cwds_after(cwds, id, Some(cwd)).contains_key(id),
        cwds_after(cwds, id, Some(cwd))[id] == cwd,
        !cwds_after(cwds, id, None).contains_key(id),
        cwds_after(cwds, id, reported).contains_key(other) <==> cwds.contains_key(other),
        cwds.contains_key(other) ==> cwds_after(cwds, id, reported)[other] == cwds[other],
{
}

/// A tab lists the directory that it is asked for, and otherwise the one that it
/// was last moved to. Only a tab without a file session has none to list.
pub proof fn law_shown_directory_is_listed_again<S>(
    sessions: Map<u32, Files<S>>,
    id: u32,
    cwd: Seq<char>,
    path: String,
)
    ensures
        sessions.contains_key(id) ==> {
            &&& directory_asked(sessions, id, Some(path)) == Some(path@)
            &&& directory_asked(moved(sessions, id, cwd), id, None) == Some(cwd)
            &&& directory_asked(moved(sessions, id, cwd), id, Some(path)) == Some(path@)
        },
        !sessions.contains_key(id) ==> directory_asked(sessions, id, Some(path)) is None
            && directory_asked(sessions, id, None) is None,
{
}

/// A directory can be listed exactly if the tab has a file session and the
/// directory could be read. Otherwise the user is told why, with the cause that
/// the server gave.
pub proof fn law_unlisted_directory_is_told<S, E>(
    sessions: Map<u32, Files<S>>,
    id: u32,
    entries: E,
    error: String,
)
    ensures
        sessions.contains_key(id) ==> {
            &&& listing_error(sessions, id, Ok::<E, String>(entries)) is None
            &&& listing_error(sessions, id, Err::<E, String>(error)) == Some(
                "디렉토리 읽기 실패: "@ + error@,
            )
        },
        !sessions.contains_key(id) ==> {
            &&& listing_error(sessions, id, Ok::<E, String>(entries)) == Some("SFTP 연결 없음"@)
            &&& listing_error(sessions, id, Err::<E, String>(error)) == Some("SFTP 연결 없음"@)
        },
{
}

} // verus!
