//! The table of replacements by which course titles are shortened.
//!
//! The table is written down as a JSON object from titles to their short
//! forms. Longer titles are replaced before shorter ones, so that a title is
//! not cut up by the replacement of a part of it; titles of one length go in
//! the order of their characters.

use crate::text::chars_of;
use vstd::multiset::Multiset;
use vstd::prelude::*;
use vstd::string::StringSliceAdditionalSpecFns;
use vstd::utf8::encode_utf8;

verus! {

/// The model of a table: pairs of a title and its short form.
pub type Table = Seq<(Seq<char>, Seq<char>)>;

/// The number of bytes that a text takes.
pub open spec fn byte_len(text: Seq<char>) -> nat {
    encode_utf8(text).len()
}

/// The order of two texts by their characters, the first difference
/// deciding; a text comes before those that it begins.
pub open spec fn lex_at_most(a: Seq<char>, b: Seq<char>) -> bool
    decreases a.len(),
{
    if a.len() == 0 {
        true
    } else if b.len() == 0 {
        false
    } else if a[0] != b[0] {
        a[0] < b[0]
    } else {
        lex_at_most(a.drop_first(), b.drop_first())
    }
}

/// Whether the title `a` may stand before the title `b` in a table: it is
/// longer, or as long and not after `b` by its characters.
pub open spec fn title_precedes(a: Seq<char>, b: Seq<char>) -> bool {
    byte_len(a) > byte_len(b) || (byte_len(a) == byte_len(b) && lex_at_most(a, b))
}

/// Whether a table is in order: each title may stand before all that follow.
pub open spec fn is_ordered(table: Table) -> bool {
    forall|i: int, j: int|
        0 <= i < j < table.len() ==> title_precedes((#[trigger] table[i]).0, (#[trigger] table[j]).0)
}

/// Of two texts one is at most the other.
pub proof fn lemma_lex_total(a: Seq<char>, b: Seq<char>)
    ensures
        lex_at_most(a, b) || lex_at_most(b, a),
    decreases a.len(),
{
    if a.len() > 0 && b.len() > 0 {
        if a[0] == b[0] {
            lemma_lex_total(a.drop_first(), b.drop_first());
        }
    }
}

/// The order by characters is transitive.
pub proof fn lemma_lex_transitive(a: Seq<char>, b: Seq<char>, c: Seq<char>)
    requires
        lex_at_most(a, b),
        lex_at_most(b, c),
    ensures
        lex_at_most(a, c),
    decreases a.len(),
{
    if a.len() > 0 && b.len() > 0 && c.len() > 0 && a[0] == b[0] && b[0] == c[0] {
        lemma_lex_transitive(a.drop_first(), b.drop_first(), c.drop_first());
    }
}

/// Of two titles one may stand before the other.
pub proof fn lemma_precedes_total(a: Seq<char>, b: Seq<char>)
    ensures
        title_precedes(a, b) || title_precedes(b, a),
{
    lemma_lex_total(a, b);
}

/// Standing before is transitive.
pub proof fn lemma_precedes_transitive(a: Seq<char>, b: Seq<char>, c: Seq<char>)
    requires
        title_precedes(a, b),
        title_precedes(b, c),
    ensures
        title_precedes(a, c),
{
    if byte_len(a) == byte_len(b) && byte_len(b) == byte_len(c) {
        lemma_lex_transitive(a, b, c);
    }
}

/// Putting an element into a sequence adds it to what the sequence holds.
pub proof fn lemma_insert_to_multiset<A>(s: Seq<A>, at: int, x: A)
    requires
        0 <= at <= s.len(),
    ensures
        s.insert(at, x).to_multiset() == s.to_multiset().insert(x),
{
    let t = s.insert(at, x);
    assert(t.remove(at) =~= s);
    assert(t[at] == x);
    t.to_multiset_ensures();
    assert(t.contains(x));
    assert(t.to_multiset().remove(x) =~= s.to_multiset());
    assert(t.to_multiset() =~= s.to_multiset().insert(x));
}

/// Whether the text `a` is at most the text `b` in the order of their
/// characters.
pub fn text_at_most(a: &str, b: &str) -> (yes: bool)
    ensures
        yes == lex_at_most(a@, b@),
{
    let x = chars_of(a);
    let y = chars_of(b);
    let mut i: usize = 0;
    assert(x@.skip(0) =~= x@ && y@.skip(0) =~= y@);
    while i < x.len() && i < y.len()
        invariant
            i <= x.len(),
            i <= y.len(),
            x@ == a@,
            y@ == b@,
            lex_at_most(x@, y@) == lex_at_most(x@.skip(i as int), y@.skip(i as int)),
        decreases x.len() - i,
    {
        let ghost p = x@.skip(i as int);
        let ghost q = y@.skip(i as int);
        assert(p[0] == x@[i as int] && q[0] == y@[i as int]);
        if x[i] != y[i] {
            return x[i] < y[i];
        }
        assert(p.drop_first() =~= x@.skip(i + 1));
        assert(q.drop_first() =~= y@.skip(i + 1));
        i += 1;
    }
    let ghost p = x@.skip(i as int);
    let ghost q = y@.skip(i as int);
    assert(p.len() == x.len() - i && q.len() == y.len() - i);
    i == x.len()
}

/// The pairs of the JSON object that a text holds, each key with the value
/// that the object gives it, without regard to order: `None` where the text
/// is no object from strings to strings.
pub uninterp spec fn json_string_pairs(json: Seq<char>) -> Option<Multiset<(Seq<char>, Seq<char>)>>;

/// `serde_json::from_str` for a map from strings to strings, as pairs in the
/// order in which the map hands them out: `None` where the text is refused.
/// Which pairs come out depends on the text alone; their order differs from
/// run to run, so nothing is said of it.
#[verifier::external_body]
fn parse_string_map(json: &str) -> (pairs: Option<Vec<(String, String)>>)
    ensures
        match pairs {
            Some(list) => json_string_pairs(json@) == Some(list.deep_view().to_multiset()),
            None => json_string_pairs(json@) is None,
        },
{
    match serde_json::from_str::<std::collections::HashMap<String, String>>(json) {
        Ok(map) => Some(map.into_iter().collect()),
        Err(_) => None,
    }
}

/// Whether the title `a` may stand before the title `b`.
pub fn precedes(a: &String, b: &String) -> (yes: bool)
    ensures
        yes == title_precedes(a@, b@),
{
    let a_len = a.as_str().as_bytes().len();
    let b_len = b.as_str().as_bytes().len();
    if a_len != b_len {
        a_len > b_len
    } else {
        text_at_most(a.as_str(), b.as_str())
    }
}

/// Puts a table in order: longer titles first, titles of one length by
/// their characters. The table holds what it held.
pub fn order_replacements(pairs: Vec<(String, String)>) -> (ordered: Vec<(String, String)>)
    ensures
        is_ordered(ordered.deep_view()),
        ordered.deep_view().to_multiset() == pairs.deep_view().to_multiset(),
{
    let ghost input = pairs.deep_view();
    let mut ordered: Vec<(String, String)> = Vec::new();
    let mut i: usize = 0;
    assert(ordered.deep_view() =~= input.take(0));
    while i < pairs.len()
        invariant
            i <= pairs.len(),
            input == pairs.deep_view(),
            is_ordered(ordered.deep_view()),
            ordered.deep_view().to_multiset() == input.take(i as int).to_multiset(),
        decreases pairs.len() - i,
    {
        let title = pairs[i].0.clone();
        let short = pairs[i].1.clone();
        let ghost before = ordered.deep_view();
        let mut at: usize = 0;
        while at < ordered.len() && precedes(&ordered[at].0, &title)
            invariant
                at <= ordered.len(),
                before == ordered.deep_view(),
                forall|k: int| 0 <= k < at ==> title_precedes((#[trigger] before[k]).0, title@),
            decreases ordered.len() - at,
        {
            at += 1;
        }
        let ghost item = (title@, short@);
        proof {
            assert(item == input[i as int]);
            assert forall|k: int| at <= k < before.len() implies title_precedes(
                title@,
                (#[trigger] before[k]).0,
            ) by {
                lemma_precedes_total(before[at as int].0, title@);
                if k > at {
                    lemma_precedes_transitive(title@, before[at as int].0, before[k].0);
                }
            }
            lemma_insert_to_multiset(before, at as int, item);
            input.take(i as int).to_multiset_ensures();
            assert(input.take(i + 1) =~= input.take(i as int).push(item));
        }
        ordered.insert(at, (title, short));
        proof {
            let after = ordered.deep_view();
            assert(after =~= before.insert(at as int, item));
            assert forall|x: int, y: int| 0 <= x < y < after.len() implies title_precedes(
                (#[trigger] after[x]).0,
                (#[trigger] after[y]).0,
            ) by {
                if x == at {
                    assert(after[y] == before[y - 1]);
                } else if y == at {
                    assert(after[x] == before[x]);
                } else {
                    let bx = if x < at { x } else { x - 1 };
                    let by = if y < at { y } else { y - 1 };
                    assert(after[x] == before[bx] && after[y] == before[by]);
                }
            }
        }
        i += 1;
    }
    assert(input.take(pairs.len() as int) =~= input);
    ordered
}

/// The table that a configuration text gives, in order, where the text was
/// read as `parsed`; without a table that could be read, the empty table.
pub fn table_from(parsed: Option<Vec<(String, String)>>) -> (table: Vec<(String, String)>)
    ensures
        is_ordered(table.deep_view()),
        table.deep_view().to_multiset() == match parsed {
            Some(pairs) => pairs.deep_view().to_multiset(),
            None => Seq::<(Seq<char>, Seq<char>)>::empty().to_multiset(),
        },
{
    match parsed {
        Some(pairs) => order_replacements(pairs),
        None => {
            let table: Vec<(String, String)> = Vec::new();
            assert(table.deep_view() =~= Seq::<(Seq<char>, Seq<char>)>::empty());
            table
        },
    }
}

/// Reads a table of replacements from its JSON text and puts it in order:
/// the table holds the pairs of the object, longer titles first. A text that
/// is no object of strings gives the empty table.
pub fn load_replacements(json: &str) -> (table: Vec<(String, String)>)
    ensures
        is_ordered(table.deep_view()),
        match json_string_pairs(json@) {
            Some(pairs) => table.deep_view().to_multiset() == pairs,
            None => table.deep_view().len() == 0,
        },
{
    let table = table_from(parse_string_map(json));
    proof {
        table.deep_view().to_multiset_ensures();
        Seq::<(Seq<char>, Seq<char>)>::empty().to_multiset_ensures();
    }
    table
}

} // verus!
