//! Which properties differ between two observations of an occurrence.
//!
//! A property is known by its name; where a name occurs more than once in an
//! occurrence, the first one stands for it. `DTSTAMP` is written anew at every
//! fetch and never counts as a difference.

use crate::model::{
    find_property, first_named, lemma_first_named_index, same_property, Occurrence, Properties,
    Property, PropertyView,
};
use vstd::prelude::*;
use vstd::string::StringExecFns;

verus! {

/// Whether the property called `name` differs between `a` and `b`: it is on
/// one side only, or on both with another value or other parameters.
pub open spec fn differs(a: Properties, b: Properties, name: Seq<char>) -> bool {
    name != "DTSTAMP"@ && !same_property(first_named(a, name), first_named(b, name))
}

/// The differing names that occur among `props`, each once, in the order in
/// which they first occur.
pub open spec fn changed_in(props: Properties, a: Properties, b: Properties) -> Seq<Seq<char>>
    decreases props.len(),
{
    if props.len() == 0 {
        Seq::empty()
    } else {
        let before = changed_in(props.drop_last(), a, b);
        let name = props.last().name;
        if differs(a, b, name) && !before.contains(name) {
            before.push(name)
        } else {
            before
        }
    }
}

/// The names of the properties that differ between `a` and `b`, each once:
/// first those that `a` has, in its order, then those that only `b` has.
pub open spec fn changed_names(a: Properties, b: Properties) -> Seq<Seq<char>> {
    changed_in(a + b, a, b)
}

/// `changed_in` lists a name exactly when it occurs among `props` and differs,
/// and lists no name twice.
pub proof fn lemma_changed_in(props: Properties, a: Properties, b: Properties)
    ensures
        changed_in(props, a, b).no_duplicates(),
        forall|name: Seq<char>| #[trigger]
            changed_in(props, a, b).contains(name) <==> differs(a, b, name) && exists|i: int|
                0 <= i < props.len() && #[trigger] props[i].name == name,
    decreases props.len(),
{
    let out = changed_in(props, a, b);
    if props.len() == 0 {
    } else {
        let front = props.drop_last();
        let before = changed_in(front, a, b);
        let last = props.last().name;
        lemma_changed_in(front, a, b);
        assert forall|name: Seq<char>| #[trigger]
            out.contains(name) <==> differs(a, b, name) && exists|i: int|
                0 <= i < props.len() && #[trigger] props[i].name == name by {
            if out.contains(name) {
                let k = choose|k: int| 0 <= k < out.len() && out[k] == name;
                if k < before.len() {
                    assert(before[k] == name);
                    assert(before.contains(name));
                    let i = choose|i: int| 0 <= i < front.len() && #[trigger] front[i].name == name;
                    assert(props[i].name == name);
                } else {
                    assert(name == last);
                    assert(props[props.len() - 1].name == name);
                }
            }
            if differs(a, b, name) && exists|i: int|
                0 <= i < props.len() && #[trigger] props[i].name == name {
                let i = choose|i: int| 0 <= i < props.len() && #[trigger] props[i].name == name;
                if i < front.len() {
                    assert(front[i].name == name);
                    assert(before.contains(name));
                    let k = choose|k: int| 0 <= k < before.len() && before[k] == name;
                    assert(out[k] == name);
                } else if before.contains(name) {
                    let k = choose|k: int| 0 <= k < before.len() && before[k] == name;
                    assert(out[k] == name);
                } else {
                    assert(out[out.len() - 1] == name);
                }
            }
        }
    }
}

/// The set reading of [`changed_names`]: it holds each differing name once,
/// and nothing else.
pub proof fn lemma_changed_names_exact(a: Properties, b: Properties)
    ensures
        changed_names(a, b).no_duplicates(),
        forall|name: Seq<char>| #[trigger]
            changed_names(a, b).contains(name) <==> differs(a, b, name),
{
    let both = a + b;
    lemma_changed_in(both, a, b);
    assert forall|name: Seq<char>| differs(a, b, name) implies exists|i: int|
        0 <= i < both.len() && #[trigger] both[i].name == name by {
        lemma_first_named_index(a, name);
        lemma_first_named_index(b, name);
        match first_named(a, name) {
            Some(p) => {
                let i = choose|i: int| 0 <= i < a.len() && #[trigger] a[i] == p && p.name == name;
                assert(both[i].name == name);
            },
            None => {
                let q = first_named(b, name)->0;
                let j = choose|j: int| 0 <= j < b.len() && #[trigger] b[j] == q && q.name == name;
                assert(both[a.len() + j].name == name);
            },
        }
    }
}

/// Whether `list` holds the string `wanted`.
pub fn contains_string(list: &Vec<String>, wanted: &String) -> (found: bool)
    ensures
        found == list.deep_view().contains(wanted@),
{
    let mut i: usize = 0;
    while i < list.len()
        invariant
            i <= list.len(),
            forall|j: int| 0 <= j < i ==> list.deep_view()[j] != wanted@,
        decreases list.len() - i,
    {
        if list[i] == *wanted {
            assert(list.deep_view()[i as int] == wanted@);
            return true;
        }
        i += 1;
    }
    false
}

/// Whether the property called `name` differs between two occurrences.
pub fn property_differs(a: &Occurrence, b: &Occurrence, name: &String) -> (changed: bool)
    ensures
        changed == differs(a@.properties, b@.properties, name@),
{
    let volatile = String::from_str("DTSTAMP");
    if *name == volatile {
        return false;
    }
    proof {
        lemma_first_named_index(a@.properties, name@);
        lemma_first_named_index(b@.properties, name@);
    }
    match (find_property(&a.properties, name), find_property(&b.properties, name)) {
        (Some(p), Some(q)) => !p.same_content(q),
        (None, None) => false,
        _ => true,
    }
}

/// Appends to `changed` the differing names among `list` that it does not
/// hold yet.
fn extend_changed(
    changed: &mut Vec<String>,
    list: &Vec<Property>,
    a: &Occurrence,
    b: &Occurrence,
    Ghost(prefix): Ghost<Properties>,
)
    requires
        old(changed).deep_view() == changed_in(prefix, a@.properties, b@.properties),
    ensures
        final(changed).deep_view() == changed_in(prefix + list.deep_view(), a@.properties, b@.properties),
{
    let ghost items = list.deep_view();
    let mut i: usize = 0;
    assert(prefix + items.take(0) =~= prefix);
    while i < list.len()
        invariant
            i <= list.len(),
            items == list.deep_view(),
            changed.deep_view() == changed_in(prefix + items.take(i as int), a@.properties, b@.properties),
        decreases list.len() - i,
    {
        let name = &list[i].name;
        proof {
            let upto = prefix + items.take(i + 1);
            assert(upto.drop_last() =~= prefix + items.take(i as int));
            assert(upto.last().name == name@);
        }
        if property_differs(a, b, name) && !contains_string(changed, name) {
            let ghost before = changed.deep_view();
            changed.push(name.clone());
            assert(changed.deep_view() =~= before.push(name@));
        }
        i += 1;
    }
    assert(items.take(list.len() as int) =~= items);
}

/// The names of the properties that differ between two occurrences, or `None`
/// where none does.
pub fn changed_properties(event1: &Occurrence, event2: &Occurrence) -> (names: Option<Vec<String>>)
    ensures
        names.deep_view() == if changed_names(event1@.properties, event2@.properties).len() == 0 {
            None
        } else {
            Some(changed_names(event1@.properties, event2@.properties))
        },
{
    let mut changed: Vec<String> = Vec::new();
    assert(changed.deep_view() =~= Seq::<Seq<char>>::empty());
    extend_changed(&mut changed, &event1.properties, event1, event2, Ghost(Seq::empty()));
    assert(Seq::<PropertyView>::empty() + event1@.properties =~= event1@.properties);
    extend_changed(&mut changed, &event2.properties, event1, event2, Ghost(event1@.properties));
    if changed.len() == 0 {
        assert(changed.deep_view().len() == 0);
        None
    } else {
        assert(changed.deep_view().len() != 0);
        Some(changed)
    }
}

} // verus!
