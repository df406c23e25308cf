//! What a mirror of the calendar is told: which events it need not hear of,
//! and under which identifier an occurrence is kept there.

use crate::model::{find_property, value_of, Occurrence, PropertyChange, PropertyChangeView, Properties};
use crate::text::{
    chars_of, contains_text, convert_to_non_digits, replace_courses, replace_text, replaced_each,
    stands_at, str_replaced, text_contains, text_of, without_course_numbers, without_digits,
};
use vstd::prelude::*;
use vstd::string::StringExecFns;

verus! {

/// What `chrono` reads from a text by a format: the seconds since the epoch
/// of the date and time written there, taken as UTC; `None` where the text
/// does not follow the format.
pub uninterp spec fn timestamp_of(text: Seq<char>, format: Seq<char>) -> Option<i64>;

/// `chrono::NaiveDateTime::parse_from_str`, read as UTC and given in seconds
/// since the epoch; `None` where the text is refused. The result depends on
/// the two strings alone.
#[verifier::external_body]
fn parse_timestamp(text: &str, format: &str) -> (secs: Option<i64>)
    ensures
        secs == timestamp_of(text@, format@),
{
    match chrono::NaiveDateTime::parse_from_str(text, format) {
        Ok(stamp) => Some(stamp.and_utc().timestamp()),
        Err(_) => None,
    }
}

/// Whether an occurrence only relays a lecture by video: its `DESCRIPTION`
/// says so.
pub open spec fn relays_video(occ: Properties) -> bool {
    match value_of(occ, "DESCRIPTION"@) {
        Some(text) => contains_text(text, "Video\u{fc}bertragung aus"@),
        None => false,
    }
}

/// Whether an occurrence only relays a lecture by video. A mirror takes no
/// such occurrence.
pub fn is_video_transmission(occ: &Occurrence) -> (yes: bool)
    ensures
        yes == relays_video(occ@.properties),
{
    let wanted = String::from_str("DESCRIPTION");
    match find_property(&occ.properties, &wanted) {
        Some(p) => match &p.value {
            Some(text) => text_contains(text.as_str(), "Video\u{fc}bertragung aus"),
            None => false,
        },
        None => false,
    }
}

/// A text without its first `skip` fields and without the separators
/// between the fields that are left. Fields end where `sep` stands; an empty
/// `sep` ends none.
pub open spec fn later_fields(text: Seq<char>, sep: Seq<char>, skip: nat) -> Seq<char>
    decreases text.len(),
{
    if text.len() == 0 {
        Seq::empty()
    } else if sep.len() > 0 && sep.is_prefix_of(text) {
        later_fields(text.skip(sep.len() as int), sep, if skip > 0 { (skip - 1) as nat } else { 0 })
    } else if skip == 0 {
        seq![text[0]] + later_fields(text.drop_first(), sep, skip)
    } else {
        later_fields(text.drop_first(), sep, skip)
    }
}

/// A text without its first `skip` fields and without the separators
/// between the fields that are left.
pub fn fields_after(text: &str, sep: &str, skip: usize) -> (rest: String)
    ensures
        rest@ == later_fields(text@, sep@, skip as nat),
{
    let chars = chars_of(text);
    let mark = chars_of(sep);
    let mut kept: Vec<char> = Vec::new();
    let mut left: usize = skip;
    let mut i: usize = 0;
    assert(chars@.skip(0) =~= chars@);
    assert(kept@ + later_fields(chars@, mark@, skip as nat) =~= later_fields(
        chars@,
        mark@,
        skip as nat,
    ));
    while i < chars.len()
        invariant
            i <= chars.len(),
            kept@ + later_fields(chars@.skip(i as int), mark@, left as nat) == later_fields(
                chars@,
                mark@,
                skip as nat,
            ),
        decreases chars.len() - i,
    {
        let ghost here = chars@.skip(i as int);
        let ghost before = kept@;
        if mark.len() > 0 && stands_at(&chars, &mark, i) {
            assert(here.skip(mark@.len() as int) =~= chars@.skip(i + mark@.len()));
            if left > 0 {
                left -= 1;
            }
            i += mark.len();
        } else {
            assert(here.drop_first() =~= chars@.skip(i + 1));
            assert(here[0] == chars@[i as int]);
            if left == 0 {
                kept.push(chars[i]);
                assert(kept@ + later_fields(chars@.skip(i + 1), mark@, left as nat) =~= before + (
                seq![here[0]] + later_fields(here.drop_first(), mark@, left as nat)));
            }
            i += 1;
        }
    }
    assert(chars@.skip(chars.len() as int).len() == 0);
    assert(kept@ + Seq::<char>::empty() =~= kept@);
    text_of(&kept)
}

/// Whether a list of changes is one change of the `DESCRIPTION` that leaves
/// everything after its second `;` field as it was: the source words the
/// first two fields now in one language, now in another.
pub open spec fn only_rewords(changes: Seq<PropertyChangeView>) -> bool {
    &&& changes.len() == 1
    &&& changes[0].key == "DESCRIPTION"@
    &&& changes[0].from matches Some(from)
    &&& changes[0].to matches Some(to)
    &&& from.value matches Some(old_text)
    &&& to.value matches Some(new_text)
    &&& later_fields(old_text, ";"@, 2) == later_fields(new_text, ";"@, 2)
}

/// Whether an update only rewords the description. A mirror need not hear
/// of such an update.
pub fn is_language_only_update(changes: &Vec<PropertyChange>) -> (yes: bool)
    ensures
        yes == only_rewords(changes.deep_view()),
{
    if changes.len() != 1 {
        assert(changes.deep_view().len() != 1);
        return false;
    }
    let change = &changes[0];
    assert(changes.deep_view()[0] == change@);
    let key = String::from_str("DESCRIPTION");
    if change.key != key {
        return false;
    }
    match (&change.from, &change.to) {
        (Some(from), Some(to)) => match (&from.value, &to.value) {
            (Some(old_text), Some(new_text)) => {
                let a = fields_after(old_text.as_str(), ";", 2);
                let b = fields_after(new_text.as_str(), ";", 2);
                a == b
            },
            _ => false,
        },
        _ => false,
    }
}

/// Whether a text begins with fifteen ASCII characters, the length of a
/// date and time.
pub open spec fn has_stamp(text: Seq<char>) -> bool {
    text.len() >= 15 && forall|i: int| 0 <= i < 15 ==> #[trigger] text[i] <= '\u{7f}'
}

/// The end of an occurrence in seconds since the epoch: what the first
/// fifteen characters of its `DTEND` value say, read as `%Y%m%dT%H%M%S`.
pub open spec fn end_stamp(occ: Properties) -> Option<i64> {
    match value_of(occ, "DTEND"@) {
        Some(text) => if has_stamp(text) {
            timestamp_of(text.take(15), "%Y%m%dT%H%M%S"@)
        } else {
            None
        },
        None => None,
    }
}

/// The end of an occurrence in seconds since the epoch, where its `DTEND`
/// gives one.
pub fn end_seconds(occ: &Occurrence) -> (secs: Option<i64>)
    ensures
        secs == end_stamp(occ@.properties),
{
    let wanted = String::from_str("DTEND");
    match find_property(&occ.properties, &wanted) {
        Some(p) => match &p.value {
            Some(text) => {
                let chars = chars_of(text.as_str());
                if chars.len() < 15 {
                    return None;
                }
                let mut head: Vec<char> = Vec::new();
                let mut i: usize = 0;
                while i < 15
                    invariant
                        i <= 15,
                        chars.len() >= 15,
                        chars@ == text@,
                        value_of(occ@.properties, "DTEND"@) == Some(text@),
                        head@ == chars@.take(i as int),
                        forall|j: int| 0 <= j < i ==> #[trigger] chars@[j] <= '\u{7f}',
                    decreases 15 - i,
                {
                    if chars[i] > '\u{7f}' {
                        assert(!(text@[i as int] <= '\u{7f}'));
                        return None;
                    }
                    head.push(chars[i]);
                    assert(head@ =~= chars@.take(i + 1));
                    i += 1;
                }
                let stamp = text_of(&head);
                parse_timestamp(stamp.as_str(), "%Y%m%dT%H%M%S")
            },
            None => None,
        },
        None => None,
    }
}

/// Whether an occurrence ended long enough ago that its going from the
/// source is the source moving on, not a cancellation: more than 10080
/// seconds before now.
pub fn is_long_past(end_secs: Option<i64>, now_secs: i64) -> (yes: bool)
    ensures
        yes == (end_secs matches Some(e) && e < now_secs - 10080),
{
    match end_secs {
        Some(e) => (e as i128) < (now_secs as i128) - 10080,
        None => false,
    }
}

/// The identifier under which an occurrence is kept in the mirror: its key
/// with the domain of the source shortened to `|` and every digit exchanged
/// for its look-alike.
pub fn mirror_id(uid: &str) -> (id: String)
    ensures
        id@ == without_digits(str_replaced(uid@, "@tum.de"@, "|"@)),
{
    convert_to_non_digits(replace_text(uid, "@tum.de", "|"))
}

/// What `str::to_lowercase` returns for a text.
pub uninterp spec fn lowercased(text: Seq<char>) -> Seq<char>;

/// What `str::trim` returns for a text.
pub uninterp spec fn trimmed(text: Seq<char>) -> Seq<char>;

/// `str::to_lowercase`: the text in lower case. The result depends on the
/// text alone.
#[verifier::external_body]
fn lowercase(text: &str) -> (lower: String)
    ensures
        lower@ == lowercased(text@),
{
    text.to_lowercase()
}

/// `str::trim`: the text without the white space at its ends. The result
/// depends on the text alone.
#[verifier::external_body]
fn trim(text: &str) -> (inner: String)
    ensures
        inner@ == trimmed(text@),
{
    text.trim().to_string()
}

/// What a mirror is to show of an occurrence. A field that is `None` is
/// left as the mirror has it.
#[derive(Debug, PartialEq, Eq)]
pub struct EventDraft {
    pub summary: Option<String>,
    pub color_id: Option<String>,
    pub location: Option<String>,
    pub status: Option<String>,
    pub description: Option<String>,
}

/// The model of an [`EventDraft`].
pub struct EventDraftView {
    pub summary: Option<Seq<char>>,
    pub color_id: Option<Seq<char>>,
    pub location: Option<Seq<char>>,
    pub status: Option<Seq<char>>,
    pub description: Option<Seq<char>>,
}

impl View for EventDraft {
    type V = EventDraftView;

    open spec fn view(&self) -> EventDraftView {
        EventDraftView {
            summary: self.summary.deep_view(),
            color_id: self.color_id.deep_view(),
            location: self.location.deep_view(),
            status: self.status.deep_view(),
            description: self.description.deep_view(),
        }
    }
}

/// A text without its backslashes.
pub open spec fn unslashed(text: Seq<char>) -> Seq<char> {
    str_replaced(text, "\\"@, ""@)
}

/// Where an occurrence takes place: its `LOCATION` without backslashes, or
/// the words for "no place given".
pub open spec fn room_of(occ: Properties) -> Seq<char> {
    match value_of(occ, "LOCATION"@) {
        Some(place) => unslashed(place),
        None => "Kein Ort angegeben"@,
    }
}

/// Whether a title is that of an exam.
pub open spec fn is_exam(title: Seq<char>) -> bool {
    contains_text(title, "Pr\u{fc}fung"@)
}

/// The title that the mirror shows: the `SUMMARY` without backslashes,
/// shortened by the table and freed of course numbers, or the words for "no
/// title given".
pub open spec fn summary_of(occ: Properties, table: Seq<(Seq<char>, Seq<char>)>) -> Seq<char> {
    match value_of(occ, "SUMMARY"@) {
        Some(title) => without_course_numbers(replaced_each(unslashed(title), table)),
        None => "Kein Titel angegeben"@,
    }
}

/// The colour that marks an exam.
pub open spec fn color_for(title: Option<Seq<char>>) -> Option<Seq<char>> {
    match title {
        Some(t) => if is_exam(t) {
            Some("11"@)
        } else {
            None
        },
        None => None,
    }
}

/// The status that the mirror shows: the `STATUS` in lower case.
pub open spec fn status_of(occ: Properties) -> Option<Seq<char>> {
    match value_of(occ, "STATUS"@) {
        Some(status) => Some(lowercased(status)),
        None => None,
    }
}

/// The free text of a description: what follows the second `\;` of the
/// `DESCRIPTION`, without backslashes and without white space at its ends.
pub open spec fn body_of(occ: Properties) -> Seq<char> {
    trimmed(
        unslashed(
            match value_of(occ, "DESCRIPTION"@) {
                Some(text) => later_fields(text, r"\;"@, 2),
                None => Seq::empty(),
            },
        ),
    )
}

/// The line that tells where to go: a note for what takes place online, a
/// link to the map for every other place.
pub open spec fn place_note(place: Seq<char>) -> Seq<char> {
    if contains_text(lowercased(place), "online"@) {
        if contains_text(lowercased(place), "moodle"@) {
            "<a href=\"https://www.moodle.tum.de/my/\">Online auf Moodle</a><br>"@
        } else {
            "Online<br>"@
        }
    } else {
        "<a href=\""@ + ("https://nav.tum.de/search?q="@ + place) + "\">Wo ist das?</a><br>"@
    }
}

/// The description that the mirror shows: the free text, the line that
/// tells where to go, and the identifier by which the event is found again.
pub open spec fn described(body: Seq<char>, place: Seq<char>, id: Seq<char>) -> Seq<char> {
    (if body.len() > 0 {
        body + "<br>"@
    } else {
        body
    }) + place_note(place) + "<br><hr><small>uid:"@ + id + "</small>"@
}

/// The identifier in the mirror of the occurrence with the key `uid`.
pub open spec fn mirror_id_of(uid: Seq<char>) -> Seq<char> {
    without_digits(str_replaced(uid, "@tum.de"@, "|"@))
}

/// What the mirror shows of an occurrence that is new to it.
pub open spec fn new_draft(occ: Properties, uid: Seq<char>, table: Seq<(Seq<char>, Seq<char>)>) -> EventDraftView {
    EventDraftView {
        summary: Some(summary_of(occ, table)),
        color_id: color_for(value_of(occ, "SUMMARY"@)),
        location: Some(without_digits(room_of(occ))),
        status: status_of(occ),
        description: Some(described(body_of(occ), room_of(occ), mirror_id_of(uid))),
    }
}

/// Whether the property called `key` is among the changes.
pub open spec fn has_change(changes: Seq<PropertyChangeView>, key: Seq<char>) -> bool {
    exists|i: int| 0 <= i < changes.len() && (#[trigger] changes[i]).key == key
}

/// What the mirror shows of an occurrence that changed: what the changed
/// properties give, and what the mirror has for the rest.
pub open spec fn updated_draft(
    occ: Properties,
    uid: Seq<char>,
    changes: Seq<PropertyChangeView>,
    known: EventDraftView,
    table: Seq<(Seq<char>, Seq<char>)>,
) -> EventDraftView {
    let location = if has_change(changes, "LOCATION"@) {
        Some(without_digits(room_of(occ)))
    } else {
        known.location
    };
    let place = match location {
        Some(l) => l,
        None => Seq::empty(),
    };
    EventDraftView {
        summary: if has_change(changes, "SUMMARY"@) {
            Some(summary_of(occ, table))
        } else {
            known.summary
        },
        color_id: if has_change(changes, "SUMMARY"@) {
            color_for(value_of(occ, "SUMMARY"@))
        } else {
            color_for(known.summary)
        },
        location,
        status: if has_change(changes, "STATUS"@) {
            status_of(occ)
        } else {
            known.status
        },
        description: if has_change(changes, "DESCRIPTION"@) || has_change(changes, "LOCATION"@) {
            Some(described(body_of(occ), place, mirror_id_of(uid)))
        } else {
            known.description
        },
    }
}

/// The value of the first property called `name`.
fn value_text<'a>(occ: &'a Occurrence, name: &str) -> (value: Option<&'a String>)
    ensures
        value.deep_view() == value_of(occ@.properties, name@),
{
    let wanted = String::from_str(name);
    match find_property(&occ.properties, &wanted) {
        Some(p) => match &p.value {
            Some(v) => Some(v),
            None => None,
        },
        None => None,
    }
}

/// A text without its backslashes.
fn unslash(text: &str) -> (plain: String)
    ensures
        plain@ == unslashed(text@),
{
    replace_text(text, "\\", "")
}

/// Where an occurrence takes place.
fn room(occ: &Occurrence) -> (place: String)
    ensures
        place@ == room_of(occ@.properties),
{
    match value_text(occ, "LOCATION") {
        Some(place) => unslash(place.as_str()),
        None => String::from_str("Kein Ort angegeben"),
    }
}

/// The title that the mirror shows.
fn summary(occ: &Occurrence, table: &Vec<(String, String)>) -> (title: String)
    ensures
        title@ == summary_of(occ@.properties, table.deep_view()),
{
    match value_text(occ, "SUMMARY") {
        Some(title) => {
            let plain = unslash(title.as_str());
            replace_courses(plain.as_str(), table)
        },
        None => String::from_str("Kein Titel angegeben"),
    }
}

/// The colour that marks an exam.
fn color(title: Option<&String>) -> (mark: Option<String>)
    ensures
        mark.deep_view() == color_for(title.deep_view()),
{
    match title {
        Some(t) => if text_contains(t.as_str(), "Pr\u{fc}fung") {
            Some(String::from_str("11"))
        } else {
            None
        },
        None => None,
    }
}

/// The status that the mirror shows.
fn status(occ: &Occurrence) -> (shown: Option<String>)
    ensures
        shown.deep_view() == status_of(occ@.properties),
{
    match value_text(occ, "STATUS") {
        Some(s) => Some(lowercase(s.as_str())),
        None => None,
    }
}

/// The free text of a description.
fn body(occ: &Occurrence) -> (text: String)
    ensures
        text@ == body_of(occ@.properties),
{
    let fields = match value_text(occ, "DESCRIPTION") {
        Some(text) => fields_after(text.as_str(), r"\;", 2),
        None => String::new(),
    };
    let plain = unslash(fields.as_str());
    trim(plain.as_str())
}

/// The description that the mirror shows.
fn describe(body: String, place: &str, id: &str) -> (text: String)
    ensures
        text@ == described(body@, place@, id@),
{
    let lower = lowercase(place);
    let note = if text_contains(lower.as_str(), "online") {
        if text_contains(lower.as_str(), "moodle") {
            String::from_str("<a href=\"https://www.moodle.tum.de/my/\">Online auf Moodle</a><br>")
        } else {
            String::from_str("Online<br>")
        }
    } else {
        let link = String::from_str("https://nav.tum.de/search?q=").concat(place);
        String::from_str("<a href=\"").concat(link.as_str()).concat("\">Wo ist das?</a><br>")
    };
    let empty = body.as_str().is_empty();
    let mut text = body;
    if !empty {
        text.append("<br>");
    }
    text.append(note.as_str());
    text.append("<br><hr><small>uid:");
    text.append(id);
    text.append("</small>");
    text
}

/// What the mirror is to show of an occurrence that is new to it.
pub fn draft_new_event(occ: &Occurrence, uid: &str, table: &Vec<(String, String)>) -> (draft:
    EventDraft)
    ensures
        draft@ == new_draft(occ@.properties, uid@, table.deep_view()),
{
    let place = room(occ);
    let id = mirror_id(uid);
    let description = describe(body(occ), place.as_str(), id.as_str());
    EventDraft {
        summary: Some(summary(occ, table)),
        color_id: color(value_text(occ, "SUMMARY")),
        location: Some(convert_to_non_digits(place)),
        status: status(occ),
        description: Some(description),
    }
}

/// Whether the property called `key` is among the changes.
pub fn changes_hold(changes: &Vec<PropertyChange>, key: &str) -> (yes: bool)
    ensures
        yes == has_change(changes.deep_view(), key@),
{
    let wanted = String::from_str(key);
    let mut i: usize = 0;
    while i < changes.len()
        invariant
            i <= changes.len(),
            wanted@ == key@,
            forall|j: int| 0 <= j < i ==> (#[trigger] changes.deep_view()[j]).key != key@,
        decreases changes.len() - i,
    {
        if changes[i].key == wanted {
            assert(changes.deep_view()[i as int].key == key@);
            return true;
        }
        i += 1;
    }
    false
}

/// What the mirror is to show of an occurrence that changed, given what it
/// shows now.
pub fn draft_updated_event(
    occ: &Occurrence,
    uid: &str,
    changes: &Vec<PropertyChange>,
    known: EventDraft,
    table: &Vec<(String, String)>,
) -> (draft: EventDraft)
    ensures
        draft@ == updated_draft(
            occ@.properties,
            uid@,
            changes.deep_view(),
            known@,
            table.deep_view(),
        ),
{
    let place_changed = changes_hold(changes, "LOCATION");
    let title_changed = changes_hold(changes, "SUMMARY");
    let location = if place_changed {
        Some(convert_to_non_digits(room(occ)))
    } else {
        known.location
    };
    let description = if changes_hold(changes, "DESCRIPTION") || place_changed {
        let id = mirror_id(uid);
        let text = match &location {
            Some(place) => describe(body(occ), place.as_str(), id.as_str()),
            None => {
                let nowhere = "";
                proof {
                    reveal_strlit("");
                    assert(nowhere@ =~= Seq::<char>::empty());
                }
                describe(body(occ), nowhere, id.as_str())
            },
        };
        Some(text)
    } else {
        known.description
    };
    let color_id = if title_changed {
        color(value_text(occ, "SUMMARY"))
    } else {
        color(known.summary.as_ref())
    };
    EventDraft {
        summary: if title_changed {
            Some(summary(occ, table))
        } else {
            known.summary
        },
        color_id,
        location,
        status: if changes_hold(changes, "STATUS") {
            status(occ)
        } else {
            known.status
        },
        description,
    }
}

} // verus!
