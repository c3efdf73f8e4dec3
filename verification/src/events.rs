//! The events that the backend sends to the window.
//!
//! An event is a name and a list of named fields. This is the whole of what
//! travels: the window reads the fields by name.

use vstd::prelude::*;

verus! {

/// The value of one field of an event.
#[derive(Debug, PartialEq, Eq)]
pub enum Field {
    Number(u64),
    Text(String),
    Bytes(Vec<u8>),
}

/// What a [`Field`] holds.
pub enum FieldView {
    Number(u64),
    Text(Seq<char>),
    Bytes(Seq<u8>),
}

impl View for Field {
    type V = FieldView;

    open spec fn view(&self) -> FieldView {
        match *self {
            Field::Number(n) => FieldView::Number(n),
            Field::Text(t) => FieldView::Text(t@),
            Field::Bytes(b) => FieldView::Bytes(b@),
        }
    }
}

/// A named message with named fields.
#[derive(Debug, PartialEq, Eq)]
pub struct Event {
    pub name: String,
    pub fields: Vec<(String, Field)>,
}

/// What an [`Event`] says.
#[verifier::ext_equal]
pub struct Message {
    pub name: Seq<char>,
    pub fields: Seq<(Seq<char>, FieldView)>,
}

impl View for Event {
    type V = Message;

    open spec fn view(&self) -> Message {
        Message {
            name: self.name@,
            fields: self.fields@.map_values(|f: (String, Field)| (f.0@, f.1@)),
        }
    }
}

/// What a list of events says, in order.
pub open spec fn messages(events: Seq<Event>) -> Seq<Message> {
    events.map_values(|e: Event| e@)
}

/// A message that carries nothing but the tab it is about.
pub open spec fn tab_message(name: Seq<char>, id: u32) -> Message {
    Message { name, fields: seq![("id"@, FieldView::Number(id as u64))] }
}

/// A message that carries a tab and one text.
pub open spec fn tab_text_message(name: Seq<char>, id: u32, key: Seq<char>, text: Seq<char>) -> Message {
    Message {
        name,
        fields: seq![("id"@, FieldView::Number(id as u64)), (key, FieldView::Text(text))],
    }
}

fn tab_event(name: &str, id: u32) -> (e: Event)
    ensures
        e@ == tab_message(name@, id),
{
    let fields: Vec<(String, Field)> = vec![("id".to_owned(), Field::Number(id as u64))];
    let e = Event { name: name.to_owned(), fields };
    assert(e@.fields == tab_message(name@, id).fields);
    e
}

fn tab_text_event(name: &str, id: u32, key: &str, text: &str) -> (e: Event)
    ensures
        e@ == tab_text_message(name@, id, key@, text@),
{
    let fields: Vec<(String, Field)> = vec![
        ("id".to_owned(), Field::Number(id as u64)),
        (key.to_owned(), Field::Text(text.to_owned())),
    ];
    let e = Event { name: name.to_owned(), fields };
    assert(e@.fields == tab_text_message(name@, id, key@, text@).fields);
    e
}

/// The shell of a tab set its title.
pub open spec fn title_message(id: u32, title: Seq<char>) -> Message {
    tab_text_message("pty-title"@, id, "title"@, title)
}

pub fn pty_title(id: u32, title: &str) -> (e: Event)
    ensures
        e@ == title_message(id, title@),
{
    tab_text_event("pty-title", id, "title", title)
}

/// The remote shell of a tab changed its directory.
pub open spec fn cwd_message(id: u32, cwd: Seq<char>) -> Message {
    tab_text_message("pty-cwd"@, id, "cwd"@, cwd)
}

pub fn pty_cwd(id: u32, cwd: &str) -> (e: Event)
    ensures
        e@ == cwd_message(id, cwd@),
{
    tab_text_event("pty-cwd", id, "cwd", cwd)
}

/// The shell of a tab wrote these bytes.
pub open spec fn output_message(id: u32, data: Seq<u8>) -> Message {
    Message {
        name: "pty-output"@,
        fields: seq![("id"@, FieldView::Number(id as u64)), ("data"@, FieldView::Bytes(data))],
    }
}

pub fn pty_output(id: u32, data: Vec<u8>) -> (e: Event)
    ensures
        e@ == output_message(id, data@),
{
    let ghost sent = data@;
    let fields: Vec<(String, Field)> = vec![
        ("id".to_owned(), Field::Number(id as u64)),
        ("data".to_owned(), Field::Bytes(data)),
    ];
    let e = Event { name: "pty-output".to_owned(), fields };
    assert(e@.fields == output_message(id, sent).fields);
    e
}

/// The shell of a tab is gone.
pub open spec fn exit_message(id: u32) -> Message {
    tab_message("pty-exit"@, id)
}

pub fn pty_exit(id: u32) -> (e: Event)
    ensures
        e@ == exit_message(id),
{
    tab_event("pty-exit", id)
}

/// A tab was connected again.
pub open spec fn reconnected_message(id: u32) -> Message {
    tab_message("pty-reconnected"@, id)
}

pub fn pty_reconnected(id: u32) -> (e: Event)
    ensures
        e@ == reconnected_message(id),
{
    tab_event("pty-reconnected", id)
}

/// Something went wrong in a tab.
pub open spec fn error_message(id: u32, error: Seq<char>) -> Message {
    tab_text_message("pty-error"@, id, "error"@, error)
}

pub fn pty_error(id: u32, error: &str) -> (e: Event)
    ensures
        e@ == error_message(id, error@),
{
    tab_text_event("pty-error", id, "error", error)
}

/// A message about a tab names the tab first, and carries whatever text or bytes
/// it is about unchanged.
pub proof fn law_messages_carry_what_they_are_about(id: u32, text: Seq<char>, data: Seq<u8>)
    ensures
        forall|m: Message|
            #![auto]
            m == title_message(id, text) || m == cwd_message(id, text) || m == error_message(
                id,
                text,
            ) || m == output_message(id, data) ==> m.fields.len() == 2 && m.fields[0] == (
                "id"@,
                FieldView::Number(id as u64),
            ),
        title_message(id, text).name == "pty-title"@,
        title_message(id, text).fields[1] == ("title"@, FieldView::Text(text)),
        cwd_message(id, text).name == "pty-cwd"@,
        cwd_message(id, text).fields[1] == ("cwd"@, FieldView::Text(text)),
        error_message(id, text).name == "pty-error"@,
        error_message(id, text).fields[1] == ("error"@, FieldView::Text(text)),
        output_message(id, data).name == "pty-output"@,
        output_message(id, data).fields[1] == ("data"@, FieldView::Bytes(data)),
        exit_message(id).name == "pty-exit"@,
        exit_message(id).fields == seq![("id"@, FieldView::Number(id as u64))],
        reconnected_message(id).name == "pty-reconnected"@,
        reconnected_message(id).fields == seq![("id"@, FieldView::Number(id as u64))],
{
}

} // verus!
