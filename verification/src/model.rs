//! The calendar data that the change detector works on, and its mathematical model.
//!
//! Every executable type has a view made of sequences of characters, so that
//! contracts can speak of names, values and parameters without regard to how the
//! strings are stored.

use vstd::prelude::*;
use vstd::string::StringExecFns;

verus! {

/// One content line of a calendar component: a name, optional parameters and
/// an optional value.
#[derive(Debug, PartialEq, Eq)]
pub struct Property {
    /// Property name, upper case by convention of the calendar format.
    pub name: String,
    /// Parameters, each a name with its list of values. They are a mapping:
    /// the order in which the names are listed carries no meaning.
    pub params: Option<Vec<(String, Vec<String>)>>,
    /// Property value, untouched.
    pub value: Option<String>,
}

/// The model of a parameter list.
pub type Params = Seq<(Seq<char>, Seq<Seq<char>>)>;

/// The model of a [`Property`].
pub struct PropertyView {
    pub name: Seq<char>,
    pub params: Option<Params>,
    pub value: Option<Seq<char>>,
}

impl View for Property {
    type V = PropertyView;

    open spec fn view(&self) -> PropertyView {
        PropertyView {
            name: self.name@,
            params: self.params.deep_view(),
            value: self.value.deep_view(),
        }
    }
}

impl DeepView for Property {
    type V = PropertyView;

    open spec fn deep_view(&self) -> PropertyView {
        self@
    }
}

/// Copies a parameter list, string by string.
pub fn clone_params(params: &Vec<(String, Vec<String>)>) -> (copy: Vec<(String, Vec<String>)>)
    ensures
        copy.deep_view() == params.deep_view(),
{
    let mut copy: Vec<(String, Vec<String>)> = Vec::new();
    let mut i: usize = 0;
    while i < params.len()
        invariant
            i <= params.len(),
            copy.len() == i,
            forall|j: int| 0 <= j < i ==> copy.deep_view()[j] == params.deep_view()[j],
        decreases params.len() - i,
    {
        let key = params[i].0.clone();
        let values = params[i].1.clone();
        assert(values.deep_view() =~= params[i as int].1.deep_view());
        copy.push((key, values));
        i += 1;
    }
    assert(copy.deep_view() =~= params.deep_view());
    copy
}

/// Whether two lists of strings hold the same strings in the same order.
pub fn same_strings(a: &Vec<String>, b: &Vec<String>) -> (same: bool)
    ensures
        same == (a.deep_view() == b.deep_view()),
{
    if a.len() != b.len() {
        assert(a.deep_view().len() != b.deep_view().len());
        return false;
    }
    let mut i: usize = 0;
    while i < a.len()
        invariant
            i <= a.len(),
            a.len() == b.len(),
            forall|j: int| 0 <= j < i ==> a.deep_view()[j] == b.deep_view()[j],
        decreases a.len() - i,
    {
        if a[i] != b[i] {
            assert(a.deep_view()[i as int] != b.deep_view()[i as int]);
            return false;
        }
        i += 1;
    }
    assert(a.deep_view() =~= b.deep_view());
    true
}

/// The values that a parameter list gives to a name: those of the first
/// parameter of that name, `None` where there is none.
pub open spec fn param_values(params: Params, name: Seq<char>) -> Option<Seq<Seq<char>>>
    decreases params.len(),
{
    if params.len() == 0 {
        None
    } else if params[0].0 == name {
        Some(params[0].1)
    } else {
        param_values(params.drop_first(), name)
    }
}

/// Whether two parameter lists are the same mapping: they give the same
/// values to every name, in whatever order they list the names.
pub open spec fn same_mapping(a: Params, b: Params) -> bool {
    forall|name: Seq<char>| param_values(a, name) == param_values(b, name)
}

/// Whether the parameters of two properties are equal: both without
/// parameters, or both with the same mapping from names to values.
pub open spec fn params_agree(a: Option<Params>, b: Option<Params>) -> bool {
    match (a, b) {
        (Some(x), Some(y)) => same_mapping(x, y),
        (None, None) => true,
        _ => false,
    }
}

/// Whether every name that `a` lists has the same values in `b`.
pub open spec fn covered_by(a: Params, b: Params) -> bool {
    forall|i: int| 0 <= i < a.len() ==> param_values(a, (#[trigger] a[i]).0) == param_values(b, a[i].0)
}

/// What `param_values` returns, said without recursion.
pub proof fn lemma_param_values(params: Params, name: Seq<char>)
    ensures
        match param_values(params, name) {
            Some(values) => exists|i: int|
                0 <= i < params.len() && (#[trigger] params[i]).0 == name && params[i].1 == values,
            None => forall|i: int| 0 <= i < params.len() ==> (#[trigger] params[i]).0 != name,
        },
    decreases params.len(),
{
    if params.len() == 0 {
    } else if params[0].0 == name {
        assert(params[0].1 == param_values(params, name)->0);
    } else {
        let rest = params.drop_first();
        lemma_param_values(rest, name);
        match param_values(rest, name) {
            Some(values) => {
                let i = choose|i: int|
                    0 <= i < rest.len() && (#[trigger] rest[i]).0 == name && rest[i].1 == values;
                assert(params[i + 1] == rest[i]);
            },
            None => {
                assert forall|i: int| 0 <= i < params.len() implies (#[trigger] params[i]).0
                    != name by {
                    if i > 0 {
                        assert(rest[i - 1] == params[i]);
                    }
                }
            },
        }
    }
}

/// Two lists are the same mapping exactly when each covers the other.
pub proof fn lemma_same_mapping(a: Params, b: Params)
    ensures
        same_mapping(a, b) <==> covered_by(a, b) && covered_by(b, a),
{
    if covered_by(a, b) && covered_by(b, a) {
        assert forall|name: Seq<char>| param_values(a, name) == param_values(b, name) by {
            lemma_param_values(a, name);
            lemma_param_values(b, name);
            if param_values(a, name) is Some {
                let i = choose|i: int| 0 <= i < a.len() && (#[trigger] a[i]).0 == name;
                assert(param_values(a, a[i].0) == param_values(b, a[i].0));
            } else if param_values(b, name) is Some {
                let i = choose|i: int| 0 <= i < b.len() && (#[trigger] b[i]).0 == name;
                assert(param_values(b, b[i].0) == param_values(a, b[i].0));
            }
        }
    }
}

/// `param_values` skips a prefix in which the name does not occur.
proof fn lemma_param_values_skip(params: Params, name: Seq<char>, i: int)
    requires
        0 <= i <= params.len(),
        forall|j: int| 0 <= j < i ==> (#[trigger] params[j]).0 != name,
    ensures
        param_values(params, name) == param_values(params.subrange(i, params.len() as int), name),
    decreases i,
{
    if i == 0 {
        assert(params.subrange(0, params.len() as int) =~= params);
    } else {
        let rest = params.drop_first();
        assert(params[0].0 != name);
        assert forall|j: int| 0 <= j < i - 1 implies (#[trigger] rest[j]).0 != name by {
            assert(rest[j] == params[j + 1]);
        }
        lemma_param_values_skip(rest, name, i - 1);
        assert(rest.subrange(i - 1, rest.len() as int) =~= params.subrange(i, params.len() as int));
    }
}

/// The values of the first parameter called `name`.
pub fn find_param<'a>(params: &'a Vec<(String, Vec<String>)>, name: &String) -> (found: Option<
    &'a Vec<String>,
>)
    ensures
        found.deep_view() == param_values(params.deep_view(), name@),
{
    let mut i: usize = 0;
    while i < params.len()
        invariant
            i <= params.len(),
            forall|j: int| 0 <= j < i ==> (#[trigger] params.deep_view()[j]).0 != name@,
        decreases params.len() - i,
    {
        if params[i].0 == *name {
            proof {
                let all = params.deep_view();
                lemma_param_values_skip(all, name@, i as int);
                assert(all.subrange(i as int, all.len() as int)[0] == all[i as int]);
            }
            return Some(&params[i].1);
        }
        i += 1;
    }
    proof {
        let all = params.deep_view();
        lemma_param_values_skip(all, name@, all.len() as int);
    }
    None
}

/// Whether every name that `a` lists has the same values in `b`.
pub fn params_covered(a: &Vec<(String, Vec<String>)>, b: &Vec<(String, Vec<String>)>) -> (yes: bool)
    ensures
        yes == covered_by(a.deep_view(), b.deep_view()),
{
    let mut i: usize = 0;
    while i < a.len()
        invariant
            i <= a.len(),
            forall|j: int|
                0 <= j < i ==> param_values(a.deep_view(), (#[trigger] a.deep_view()[j]).0)
                    == param_values(b.deep_view(), a.deep_view()[j].0),
        decreases a.len() - i,
    {
        let name = &a[i].0;
        assert(a.deep_view()[i as int].0 == name@);
        let same = match (find_param(a, name), find_param(b, name)) {
            (Some(x), Some(y)) => same_strings(x, y),
            (None, None) => true,
            _ => false,
        };
        if !same {
            return false;
        }
        i += 1;
    }
    true
}

/// Whether two parameter lists are the same mapping from names to values.
pub fn same_params(a: &Vec<(String, Vec<String>)>, b: &Vec<(String, Vec<String>)>) -> (same: bool)
    ensures
        same == same_mapping(a.deep_view(), b.deep_view()),
{
    proof {
        lemma_same_mapping(a.deep_view(), b.deep_view());
    }
    params_covered(a, b) && params_covered(b, a)
}

/// Whether two optional strings are equal.
pub fn same_text(a: &Option<String>, b: &Option<String>) -> (same: bool)
    ensures
        same == (a.deep_view() == b.deep_view()),
{
    match (a, b) {
        (Some(x), Some(y)) => *x == *y,
        (None, None) => true,
        _ => false,
    }
}

/// Whether two properties have the same value and the same parameters.
pub open spec fn same_content(a: PropertyView, b: PropertyView) -> bool {
    a.value == b.value && params_agree(a.params, b.params)
}

/// Whether two observations of a property are the same: both absent, or
/// both present with the same content.
pub open spec fn same_property(a: Option<PropertyView>, b: Option<PropertyView>) -> bool {
    match (a, b) {
        (Some(x), Some(y)) => same_content(x, y),
        (None, None) => true,
        _ => false,
    }
}

impl Clone for Property {
    fn clone(&self) -> (copy: Self)
        ensures
            copy@ == self@,
    {
        let params = match &self.params {
            Some(list) => Some(clone_params(list)),
            None => None,
        };
        Property { name: self.name.clone(), params, value: self.value.clone() }
    }
}

impl Property {
    /// Whether two properties agree in value and in parameters. The names are
    /// not compared, nor the order in which the parameters are listed.
    pub fn same_content(&self, other: &Property) -> (same: bool)
        ensures
            same == same_content(self@, other@),
    {
        if !same_text(&self.value, &other.value) {
            return false;
        }
        match (&self.params, &other.params) {
            (Some(a), Some(b)) => same_params(a, b),
            (None, None) => true,
            _ => false,
        }
    }
}

/// The model of a list of properties: the sequence of their models.
pub type Properties = Seq<PropertyView>;

/// The first property called `name`, if there is one. Where a name occurs more
/// than once, the first occurrence is the one that counts.
pub open spec fn first_named(props: Properties, name: Seq<char>) -> Option<PropertyView>
    decreases props.len(),
{
    if props.len() == 0 {
        None
    } else if props[0].name == name {
        Some(props[0])
    } else {
        first_named(props.drop_first(), name)
    }
}

/// The value of the first property called `name`; `None` where there is no such
/// property or it has no value.
pub open spec fn value_of(props: Properties, name: Seq<char>) -> Option<Seq<char>> {
    match first_named(props, name) {
        Some(p) => p.value,
        None => None,
    }
}

/// `first_named` skips a prefix in which the name does not occur.
pub proof fn lemma_first_named_skip(props: Properties, name: Seq<char>, i: int)
    requires
        0 <= i <= props.len(),
        forall|j: int| 0 <= j < i ==> props[j].name != name,
    ensures
        first_named(props, name) == first_named(props.subrange(i, props.len() as int), name),
    decreases i,
{
    if i == 0 {
        assert(props.subrange(0, props.len() as int) =~= props);
    } else {
        let rest = props.drop_first();
        assert forall|j: int| 0 <= j < i - 1 implies rest[j].name != name by {
            assert(rest[j] == props[j + 1]);
        }
        lemma_first_named_skip(rest, name, i - 1);
        assert(rest.subrange(i - 1, rest.len() as int) =~= props.subrange(i, props.len() as int));
    }
}

/// What `first_named` returns, said without recursion: the property at the
/// least index that carries the name.
pub proof fn lemma_first_named_index(props: Properties, name: Seq<char>)
    ensures
        match first_named(props, name) {
            Some(p) => exists|i: int|
                0 <= i < props.len() && #[trigger] props[i] == p && p.name == name && forall|j: int|
                    0 <= j < i ==> props[j].name != name,
            None => forall|j: int| 0 <= j < props.len() ==> props[j].name != name,
        },
    decreases props.len(),
{
    if props.len() == 0 {
    } else if props[0].name == name {
        assert(props[0] == props[0]);
    } else {
        let rest = props.drop_first();
        lemma_first_named_index(rest, name);
        match first_named(rest, name) {
            Some(p) => {
                let i = choose|i: int|
                    0 <= i < rest.len() && #[trigger] rest[i] == p && p.name == name && forall|j: int|
                        0 <= j < i ==> rest[j].name != name;
                assert(props[i + 1] == p);
                assert forall|j: int| 0 <= j < i + 1 implies props[j].name != name by {
                    if j > 0 {
                        assert(rest[j - 1] == props[j]);
                    }
                }
            },
            None => {
                assert forall|j: int| 0 <= j < props.len() implies props[j].name != name by {
                    if j > 0 {
                        assert(rest[j - 1] == props[j]);
                    }
                }
            },
        }
    }
}

/// Finds the first property called `name` in a list.
pub fn find_property<'a>(props: &'a Vec<Property>, name: &String) -> (found: Option<&'a Property>)
    ensures
        found.deep_view() == first_named(props.deep_view(), name@),
{
    let mut i: usize = 0;
    while i < props.len()
        invariant
            i <= props.len(),
            forall|j: int| 0 <= j < i ==> props.deep_view()[j].name != name@,
        decreases props.len() - i,
    {
        if props[i].name == *name {
            proof {
                let all = props.deep_view();
                lemma_first_named_skip(all, name@, i as int);
                assert(all.subrange(i as int, all.len() as int)[0] == all[i as int]);
            }
            return Some(&props[i]);
        }
        i += 1;
    }
    proof {
        let all = props.deep_view();
        lemma_first_named_skip(all, name@, all.len() as int);
    }
    None
}

/// One event instance from the calendar source: a bag of properties, and the
/// alarms set for it, each a bag of properties of its own.
#[derive(Debug, PartialEq, Eq)]
pub struct Occurrence {
    pub properties: Vec<Property>,
    pub alarms: Vec<Vec<Property>>,
}

/// The model of an [`Occurrence`].
pub struct OccurrenceView {
    pub properties: Properties,
    pub alarms: Seq<Properties>,
}

impl View for Occurrence {
    type V = OccurrenceView;

    open spec fn view(&self) -> OccurrenceView {
        OccurrenceView { properties: self.properties.deep_view(), alarms: self.alarms.deep_view() }
    }
}

impl DeepView for Occurrence {
    type V = OccurrenceView;

    open spec fn deep_view(&self) -> OccurrenceView {
        self@
    }
}

/// Copies a list of alarms, property by property.
pub fn clone_alarms(alarms: &Vec<Vec<Property>>) -> (copy: Vec<Vec<Property>>)
    ensures
        copy.deep_view() == alarms.deep_view(),
{
    let mut copy: Vec<Vec<Property>> = Vec::new();
    let mut i: usize = 0;
    while i < alarms.len()
        invariant
            i <= alarms.len(),
            copy.len() == i,
            forall|j: int| 0 <= j < i ==> copy.deep_view()[j] == alarms.deep_view()[j],
        decreases alarms.len() - i,
    {
        let alarm = alarms[i].clone();
        assert(alarm.deep_view() =~= alarms[i as int].deep_view());
        copy.push(alarm);
        i += 1;
    }
    assert(copy.deep_view() =~= alarms.deep_view());
    copy
}

impl Clone for Occurrence {
    fn clone(&self) -> (copy: Self)
        ensures
            copy@ == self@,
    {
        let properties = self.properties.clone();
        assert(properties.deep_view() =~= self.properties.deep_view());
        Occurrence { properties, alarms: clone_alarms(&self.alarms) }
    }
}

impl Occurrence {
    /// The first property called `name`.
    pub fn get_property(&self, name: &str) -> (found: Option<&Property>)
        ensures
            found.deep_view() == first_named(self@.properties, name@),
    {
        let wanted = String::from_str(name);
        find_property(&self.properties, &wanted)
    }
}

/// A parsed calendar: its own properties and its events in source order.
#[derive(Debug, PartialEq, Eq)]
pub struct Calendar {
    pub properties: Vec<Property>,
    pub events: Vec<Occurrence>,
}

/// The model of a [`Calendar`].
pub struct CalendarView {
    pub properties: Properties,
    pub events: Seq<OccurrenceView>,
}

impl View for Calendar {
    type V = CalendarView;

    open spec fn view(&self) -> CalendarView {
        CalendarView { properties: self.properties.deep_view(), events: self.events.deep_view() }
    }
}

impl Clone for Calendar {
    fn clone(&self) -> (copy: Self)
        ensures
            copy@ == self@,
    {
        let copy = Calendar { properties: self.properties.clone(), events: self.events.clone() };
        assert(copy.properties.deep_view() =~= self.properties.deep_view());
        assert(copy.events.deep_view() =~= self.events.deep_view());
        copy
    }
}

impl Calendar {
    /// The first calendar-level property called `name`.
    pub fn get_property(&self, name: &str) -> (found: Option<&Property>)
        ensures
            found.deep_view() == first_named(self@.properties, name@),
    {
        let wanted = String::from_str(name);
        find_property(&self.properties, &wanted)
    }
}

/// An occurrence together with the identity key under which it is tracked.
#[derive(Debug, PartialEq, Eq)]
pub struct EventData {
    pub uid: String,
    pub ical_data: Occurrence,
}

/// The model of an [`EventData`].
pub struct EventDataView {
    pub uid: Seq<char>,
    pub ical_data: OccurrenceView,
}

impl View for EventData {
    type V = EventDataView;

    open spec fn view(&self) -> EventDataView {
        EventDataView { uid: self.uid@, ical_data: self.ical_data@ }
    }
}

impl Clone for EventData {
    fn clone(&self) -> (copy: Self)
        ensures
            copy@ == self@,
    {
        EventData { uid: self.uid.clone(), ical_data: self.ical_data.clone() }
    }
}

/// One differing property: its name, and the property before and after.
/// `from` is `None` where the property is new, `to` where it is gone.
#[derive(Debug, PartialEq, Eq)]
pub struct PropertyChange {
    pub key: String,
    pub from: Option<Property>,
    pub to: Option<Property>,
}

/// The model of a [`PropertyChange`].
pub struct PropertyChangeView {
    pub key: Seq<char>,
    pub from: Option<PropertyView>,
    pub to: Option<PropertyView>,
}

impl View for PropertyChange {
    type V = PropertyChangeView;

    open spec fn view(&self) -> PropertyChangeView {
        PropertyChangeView {
            key: self.key@,
            from: self.from.deep_view(),
            to: self.to.deep_view(),
        }
    }
}

impl DeepView for PropertyChange {
    type V = PropertyChangeView;

    open spec fn deep_view(&self) -> PropertyChangeView {
        self@
    }
}

impl Clone for PropertyChange {
    fn clone(&self) -> (copy: Self)
        ensures
            copy@ == self@,
    {
        PropertyChange { key: self.key.clone(), from: self.from.clone(), to: self.to.clone() }
    }
}

/// What the detector reports about one occurrence.
#[derive(Debug, PartialEq, Eq)]
pub enum CalendarEvent {
    /// Seen in the first cycle of a detector that had no state.
    Setup(EventData),
    /// Not in the previous snapshot.
    Created(EventData),
    /// In the previous snapshot, with other properties.
    Updated { event: EventData, changed_properties: Vec<PropertyChange> },
    /// In the previous snapshot and no longer in the calendar.
    Deleted(EventData),
}

/// The model of a [`CalendarEvent`].
pub enum CalendarEventView {
    Setup(EventDataView),
    Created(EventDataView),
    Updated { event: EventDataView, changed_properties: Seq<PropertyChangeView> },
    Deleted(EventDataView),
}

impl View for CalendarEvent {
    type V = CalendarEventView;

    open spec fn view(&self) -> CalendarEventView {
        match self {
            CalendarEvent::Setup(data) => CalendarEventView::Setup(data@),
            CalendarEvent::Created(data) => CalendarEventView::Created(data@),
            CalendarEvent::Updated { event, changed_properties } => CalendarEventView::Updated {
                event: event@,
                changed_properties: changed_properties.deep_view(),
            },
            CalendarEvent::Deleted(data) => CalendarEventView::Deleted(data@),
        }
    }
}

impl DeepView for CalendarEvent {
    type V = CalendarEventView;

    open spec fn deep_view(&self) -> CalendarEventView {
        self@
    }
}

impl Clone for CalendarEvent {
    fn clone(&self) -> (copy: Self)
        ensures
            copy@ == self@,
    {
        match self {
            CalendarEvent::Setup(data) => CalendarEvent::Setup(data.clone()),
            CalendarEvent::Created(data) => CalendarEvent::Created(data.clone()),
            CalendarEvent::Updated { event, changed_properties } => {
                let changes = changed_properties.clone();
                assert(changes.deep_view() =~= changed_properties.deep_view());
                CalendarEvent::Updated { event: event.clone(), changed_properties: changes }
            },
            CalendarEvent::Deleted(data) => CalendarEvent::Deleted(data.clone()),
        }
    }
}

} // verus!
