//! Editing a remote file in a local editor: the local copy is watched, and
//! every save goes back to the server.

use vstd::prelude::*;

use crate::events::{Event, Field, FieldView, Message};

verus! {

/// What to do at a look at the local copy.
#[derive(Debug, Clone, Copy, PartialEq, Eq, Structural)]
pub enum Look {
    /// The session is gone: stop watching.
    Stop,
    /// Nothing changed.
    Idle,
    /// The copy was saved: send it.
    Upload,
}

/// Watches a local copy by the time of its last change, where that is known.
#[derive(Debug)]
pub struct Watch {
    last: Option<i128>,
}

/// What a look finds, given the last change that was noticed.
pub open spec fn found(last: Option<i128>, alive: bool, modified: Option<i128>) -> Look {
    if !alive {
        Look::Stop
    } else if modified is Some && modified != last {
        Look::Upload
    } else {
        Look::Idle
    }
}

/// The last change that is noticed after a look.
pub open spec fn noticed(last: Option<i128>, alive: bool, modified: Option<i128>) -> Option<i128> {
    if found(last, alive, modified) is Upload {
        modified
    } else {
        last
    }
}

impl Watch {
    /// The last change that was noticed.
    pub closed spec fn last(&self) -> Option<i128> {
        self.last
    }

    /// Starts watching a copy that was just made.
    pub fn new(modified: Option<i128>) -> (r: Watch)
        ensures
            r.last() == modified,
    {
        Watch { last: modified }
    }

    /// Looks at the copy: whether the session is still there, and when the copy
    /// was last changed. A change is noticed once, whether or not sending it
    /// succeeds.
    pub fn look(&mut self, alive: bool, modified: Option<i128>) -> (r: Look)
        ensures
            r == found(old(self).last(), alive, modified),
            final(self).last() == noticed(old(self).last(), alive, modified),
    {
        if !alive {
            return Look::Stop;
        }
        match modified {
            Some(now) => {
                let same = match self.last {
                    Some(before) => before == now,
                    None => false,
                };
                if same {
                    Look::Idle
                } else {
                    self.last = modified;
                    Look::Upload
                }
            },
            None => Look::Idle,
        }
    }
}

/// Takes whether the editor could be started. Without it there is nothing to
/// watch.
pub fn editor_started(started: bool) -> (r: Result<(), String>)
    ensures
        r is Ok <==> started,
        r matches Err(e) ==> e@ == "Sublime Text를 열 수 없습니다 (설치 여부 확인)"@,
{
    if started {
        Ok(())
    } else {
        Err("Sublime Text를 열 수 없습니다 (설치 여부 확인)".to_owned())
    }
}

/// A saved copy reached the server.
pub open spec fn synced_message(name: Seq<char>) -> Message {
    Message { name: "edit-synced"@, fields: seq![("name"@, FieldView::Text(name))] }
}

/// A saved copy did not reach the server.
pub open spec fn unsynced_message(name: Seq<char>, error: Seq<char>) -> Message {
    Message {
        name: "edit-error"@,
        fields: seq![("name"@, FieldView::Text(name)), ("error"@, FieldView::Text(error))],
    }
}

/// Tells what came of sending a saved copy.
pub fn upload_event(name: &str, sent: Result<(), String>) -> (e: Event)
    ensures
        e@ == (match sent {
            Ok(()) => synced_message(name@),
            Err(error) => unsynced_message(name@, error@),
        }),
{
    match sent {
        Ok(()) => {
            let fields: Vec<(String, Field)> = vec![
                ("name".to_owned(), Field::Text(name.to_owned())),
            ];
            let e = Event { name: "edit-synced".to_owned(), fields };
            assert(e@.fields == synced_message(name@).fields);
            e
        },
        Err(error) => {
            let ghost why = error@;
            let fields: Vec<(String, Field)> = vec![
                ("name".to_owned(), Field::Text(name.to_owned())),
                ("error".to_owned(), Field::Text(error)),
            ];
            let e = Event { name: "edit-error".to_owned(), fields };
            assert(e@.fields == unsynced_message(name@, why).fields);
            e
        },
    }
}

/// A change is sent once: a second look at the same change finds nothing.
pub proof fn law_change_is_sent_once(last: Option<i128>, modified: Option<i128>)
    ensures
        found(noticed(last, true, modified), true, modified) == Look::Idle,
{
}

/// Every change of the copy that can be seen is sent.
pub proof fn law_every_change_is_sent(last: Option<i128>, before: Option<i128>, now: i128)
    requires
        before is Some,
        before != Some(now),
    ensures
        found(noticed(last, true, before), true, Some(now)) == Look::Upload,
{
}

/// A copy that cannot be seen for a while is neither sent nor forgotten.
pub proof fn law_unseen_copy_is_kept(last: Option<i128>)
    ensures
        found(last, true, None) == Look::Idle,
        noticed(last, true, None) == last,
{
}

/// Watching stops as soon as the session is gone, whatever became of the copy,
/// and only then.
pub proof fn law_watching_stops_with_the_session(last: Option<i128>, modified: Option<i128>)
    ensures
        found(last, false, modified) == Look::Stop,
        noticed(last, false, modified) == last,
        found(last, true, modified) != Look::Stop,
{
}

/// A copy that did not change is not sent, however often it is looked at. One
/// that could not be seen before is sent as soon as it can.
pub proof fn law_only_changes_are_sent(last: Option<i128>, now: i128)
    ensures
        found(Some(now), true, Some(now)) == Look::Idle,
        noticed(Some(now), true, Some(now)) == Some(now),
        found(None, true, Some(now)) == Look::Upload,
        noticed(last, true, Some(now)) == Some(now),
        found(last, true, Some(now)) == Look::Idle <==> last == Some(now),
{
}

/// The window is told of a saved copy by its name, and of a failure by its cause
/// as well.
pub proof fn law_edit_messages(name: Seq<char>, error: Seq<char>)
    ensures
        synced_message(name).name == "edit-synced"@,
        synced_message(name).fields.len() == 1,
        synced_message(name).fields[0] == ("name"@, FieldView::Text(name)),
        unsynced_message(name, error).name == "edit-error"@,
        unsynced_message(name, error).fields.len() == 2,
        unsynced_message(name, error).fields[0] == ("name"@, FieldView::Text(name)),
        unsynced_message(name, error).fields[1] == ("error"@, FieldView::Text(error)),
{
}

} // verus!
