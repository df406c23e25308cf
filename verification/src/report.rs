//! The lines by which a round of events is put into a log.

use crate::model::{CalendarEvent, CalendarEventView};
use vstd::prelude::*;
use vstd::string::StringExecFns;

verus! {

/// The headline of a round of events: the calendar's name, or `Unnamed
/// Calendar`, then its description in brackets where it has one.
pub open spec fn headline(name: Option<Seq<char>>, description: Option<Seq<char>>) -> Seq<char> {
    "Captured changes of "@ + match name {
        Some(n) => n,
        None => "Unnamed Calendar"@,
    } + match description {
        Some(d) => " ("@ + d + ")"@,
        None => Seq::empty(),
    } + ":"@
}

/// The word for the kind of an event.
pub open spec fn kind_word(event: CalendarEventView) -> Seq<char> {
    match event {
        CalendarEventView::Setup(_) => "Setup"@,
        CalendarEventView::Created(_) => "Created"@,
        CalendarEventView::Updated { .. } => "Updated"@,
        CalendarEventView::Deleted(_) => "Deleted"@,
    }
}

/// The identity key that an event is about.
pub open spec fn subject(event: CalendarEventView) -> Seq<char> {
    match event {
        CalendarEventView::Setup(data) => data.uid,
        CalendarEventView::Created(data) => data.uid,
        CalendarEventView::Updated { event, .. } => event.uid,
        CalendarEventView::Deleted(data) => data.uid,
    }
}

/// The headline of a round of events.
pub fn log_headline(name: &Option<String>, description: &Option<String>) -> (line: String)
    ensures
        line@ == headline(name.deep_view(), description.deep_view()),
{
    let mut line = String::from_str("Captured changes of ");
    match name {
        Some(n) => line.append(n.as_str()),
        None => line.append("Unnamed Calendar"),
    }
    match description {
        Some(d) => {
            let ghost before = line@;
            line.append(" (");
            line.append(d.as_str());
            line.append(")");
            assert(line@ =~= before + (" ("@ + d@ + ")"@));
        },
        None => {
            assert(line@ + Seq::<char>::empty() =~= line@);
        },
    }
    line.append(":");
    line
}

/// The start of the line for one event: the word for its kind, a space, and
/// the identity key.
pub fn log_label(event: &CalendarEvent) -> (label: String)
    ensures
        label@ == kind_word(event@) + " "@ + subject(event@),
{
    let (word, uid) = match event {
        CalendarEvent::Setup(data) => ("Setup", &data.uid),
        CalendarEvent::Created(data) => ("Created", &data.uid),
        CalendarEvent::Updated { event, changed_properties: _ } => ("Updated", &event.uid),
        CalendarEvent::Deleted(data) => ("Deleted", &data.uid),
    };
    let mut label = String::from_str(word);
    label.append(" ");
    label.append(uid.as_str());
    label
}

} // verus!
