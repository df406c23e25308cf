//! The identity of an occurrence across polling cycles.
//!
//! The key is the `UID` value, followed by the value of `RECURRENCE-ID` and
//! then by that of `X-CO-RECURRINGID`. A disambiguator that is present without
//! a value contributes a fixed marker, so that it is told apart from an absent
//! one.

use crate::model::{find_property, first_named, Occurrence, Properties};
use vstd::prelude::*;
use vstd::string::StringExecFns;

verus! {

/// What a disambiguating property adds to the key: its value, the marker
/// where it has none, nothing where the property is absent.
pub open spec fn disambiguator(occ: Properties, name: Seq<char>, marker: Seq<char>) -> Seq<char> {
    match first_named(occ, name) {
        Some(p) => match p.value {
            Some(v) => v,
            None => marker,
        },
        None => Seq::empty(),
    }
}

/// The identity key of an occurrence; `None` where it has no `UID` value.
pub open spec fn identity_key(occ: Properties) -> Option<Seq<char>> {
    match first_named(occ, "UID"@) {
        Some(p) => match p.value {
            Some(uid) => Some(
                uid + disambiguator(occ, "RECURRENCE-ID"@, "R"@) + disambiguator(
                    occ,
                    "X-CO-RECURRINGID"@,
                    "XR"@,
                ),
            ),
            None => None,
        },
        None => None,
    }
}

/// Appends to `key` what the property called `name` adds to it.
fn append_disambiguator(key: &mut String, occ: &Occurrence, name: &str, marker: &str)
    ensures
        final(key)@ == old(key)@ + disambiguator(occ@.properties, name@, marker@),
{
    let wanted = String::from_str(name);
    match find_property(&occ.properties, &wanted) {
        Some(p) => match &p.value {
            Some(v) => key.append(v.as_str()),
            None => key.append(marker),
        },
        None => {
            assert(key@ + Seq::<char>::empty() =~= key@);
        },
    }
}

/// Derives the identity key of an occurrence, or `None` where it cannot be
/// identified because it has no `UID` value.
pub fn resolve_identity(occ: &Occurrence) -> (key: Option<String>)
    ensures
        key.deep_view() == identity_key(occ@.properties),
{
    let uid_name = String::from_str("UID");
    match find_property(&occ.properties, &uid_name) {
        Some(p) => match &p.value {
            Some(uid) => {
                let mut key = uid.clone();
                append_disambiguator(&mut key, occ, "RECURRENCE-ID", "R");
                append_disambiguator(&mut key, occ, "X-CO-RECURRINGID", "XR");
                Some(key)
            },
            None => None,
        },
        None => None,
    }
}

} // verus!
