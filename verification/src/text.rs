//! Work on texts: searching and replacing, and the rewriting of titles and
//! places for a calendar that mirrors this one.
//!
//! Course titles are shortened by a table of replacements and freed of their
//! course numbers; digits are exchanged for look-alikes where a mirror would
//! otherwise read a number as something to act on.

use vstd::prelude::*;

verus! {

/// The characters of a text.
pub fn chars_of(text: &str) -> (chars: Vec<char>)
    ensures
        chars@ == text@,
{
    let mut chars: Vec<char> = Vec::new();
    let ghost all = text@;
    for c in it: text.chars()
        invariant
            it.seq() == all,
            chars@ == all.take(it.index()),
    {
        chars.push(c);
        assert(chars@ =~= all.take(it.index() + 1));
    }
    assert(all.take(all.len() as int) =~= all);
    chars
}

/// The text that a list of characters spells.
pub fn text_of(chars: &Vec<char>) -> (text: String)
    ensures
        text@ == chars@,
{
    let mut text = String::new();
    let mut i: usize = 0;
    while i < chars.len()
        invariant
            i <= chars.len(),
            text@ == chars@.take(i as int),
        decreases chars.len() - i,
    {
        text.push(chars[i]);
        assert(text@ =~= chars@.take(i + 1));
        i += 1;
    }
    assert(chars@.take(chars.len() as int) =~= chars@);
    text
}

/// Whether `sep` stands in `text` at `at`.
pub fn stands_at(text: &Vec<char>, sep: &Vec<char>, at: usize) -> (yes: bool)
    requires
        at <= text.len(),
    ensures
        yes == sep@.is_prefix_of(text@.skip(at as int)),
{
    if sep.len() > text.len() - at {
        return false;
    }
    let ghost rest = text@.skip(at as int);
    let mut k: usize = 0;
    while k < sep.len()
        invariant
            k <= sep.len(),
            at + sep.len() <= text.len(),
            rest == text@.skip(at as int),
            forall|j: int| 0 <= j < k ==> sep@[j] == rest[j],
        decreases sep.len() - k,
    {
        if sep[k] != text[at + k] {
            assert(rest[k as int] == text@[at + k]);
            assert(sep@ != rest.subrange(0, sep@.len() as int)) by {
                assert(rest.subrange(0, sep@.len() as int)[k as int] == rest[k as int]);
            }
            return false;
        }
        assert(rest[k as int] == text@[at + k]);
        k += 1;
    }
    assert(sep@ =~= rest.subrange(0, sep@.len() as int));
    true
}

/// Whether `pattern` occurs in `text` as a run of characters.
pub open spec fn contains_text(text: Seq<char>, pattern: Seq<char>) -> bool {
    exists|i: int|
        0 <= i <= text.len() - pattern.len() && #[trigger] text.subrange(i, i + pattern.len())
            == pattern
}

/// Whether `pattern` occurs in `text`.
pub fn text_contains(text: &str, pattern: &str) -> (yes: bool)
    ensures
        yes == contains_text(text@, pattern@),
{
    let chars = chars_of(text);
    let wanted = chars_of(pattern);
    if wanted.len() > chars.len() {
        return false;
    }
    let last = chars.len() - wanted.len();
    let mut i: usize = 0;
    while i <= last
        invariant
            i <= last + 1,
            last == chars.len() - wanted.len(),
            chars@ == text@,
            wanted@ == pattern@,
            forall|j: int| 0 <= j < i ==> #[trigger] chars@.subrange(j, j + wanted@.len()) != wanted@,
        decreases last + 1 - i,
    {
        if stands_at(&chars, &wanted, i) {
            assert(chars@.skip(i as int).subrange(0, wanted@.len() as int) =~= chars@.subrange(
                i as int,
                i + wanted@.len(),
            ));
            return true;
        }
        assert(chars@.skip(i as int).subrange(0, wanted@.len() as int) =~= chars@.subrange(
            i as int,
            i + wanted@.len(),
        ));
        i += 1;
    }
    false
}

/// A text with every match of `from` replaced by `to`, the matches taken
/// from the left and never overlapping. An empty `from` matches before
/// every character and at the end.
pub open spec fn str_replaced(text: Seq<char>, from: Seq<char>, to: Seq<char>) -> Seq<char>
    decreases text.len(),
{
    if from.len() == 0 {
        if text.len() == 0 {
            to
        } else {
            to + (seq![text[0]] + str_replaced(text.drop_first(), from, to))
        }
    } else if text.len() == 0 {
        Seq::empty()
    } else if from.is_prefix_of(text) {
        to + str_replaced(text.skip(from.len() as int), from, to)
    } else {
        seq![text[0]] + str_replaced(text.drop_first(), from, to)
    }
}

/// Appends the characters of `more` to `chars`.
fn push_all(chars: &mut Vec<char>, more: &Vec<char>)
    ensures
        final(chars)@ == old(chars)@ + more@,
{
    let ghost before = chars@;
    let mut i: usize = 0;
    assert(chars@ =~= before + more@.take(0));
    while i < more.len()
        invariant
            i <= more.len(),
            chars@ == before + more@.take(i as int),
        decreases more.len() - i,
    {
        chars.push(more[i]);
        assert(chars@ =~= before + more@.take(i + 1));
        i += 1;
    }
    assert(more@.take(more.len() as int) =~= more@);
}

/// Replaces every match of `from` in `text` by `to`.
pub fn replace_text(text: &str, from: &str, to: &str) -> (out: String)
    ensures
        out@ == str_replaced(text@, from@, to@),
{
    let chars = chars_of(text);
    let mark = chars_of(from);
    let fill = chars_of(to);
    let mut made: Vec<char> = Vec::new();
    let mut i: usize = 0;
    assert(chars@.skip(0) =~= chars@);
    assert(made@ + str_replaced(chars@, mark@, fill@) =~= str_replaced(chars@, mark@, fill@));
    while i < chars.len()
        invariant
            i <= chars.len(),
            made@ + str_replaced(chars@.skip(i as int), mark@, fill@) == str_replaced(
                chars@,
                mark@,
                fill@,
            ),
        decreases chars.len() - i,
    {
        let ghost here = chars@.skip(i as int);
        let ghost before = made@;
        if mark.len() == 0 {
            assert(here.drop_first() =~= chars@.skip(i + 1));
            assert(here[0] == chars@[i as int]);
            push_all(&mut made, &fill);
            made.push(chars[i]);
            assert(made@ + str_replaced(chars@.skip(i + 1), mark@, fill@) =~= before + (fill@ + (
            seq![here[0]] + str_replaced(here.drop_first(), mark@, fill@))));
            i += 1;
        } else if stands_at(&chars, &mark, i) {
            assert(here.skip(mark@.len() as int) =~= chars@.skip(i + mark@.len()));
            push_all(&mut made, &fill);
            assert(made@ + str_replaced(chars@.skip(i + mark@.len()), mark@, fill@) =~= before + (
            fill@ + str_replaced(here.skip(mark@.len() as int), mark@, fill@)));
            i += mark.len();
        } else {
            assert(here.drop_first() =~= chars@.skip(i + 1));
            assert(here[0] == chars@[i as int]);
            made.push(chars[i]);
            assert(made@ + str_replaced(chars@.skip(i + 1), mark@, fill@) =~= before + (
            seq![here[0]] + str_replaced(here.drop_first(), mark@, fill@)));
            i += 1;
        }
    }
    assert(chars@.skip(chars.len() as int).len() == 0);
    if mark.len() == 0 {
        let ghost before = made@;
        push_all(&mut made, &fill);
        assert(str_replaced(chars@.skip(chars.len() as int), mark@, fill@) == fill@);
    } else {
        assert(made@ + Seq::<char>::empty() =~= made@);
    }
    text_of(&made)
}

/// What replacing every match of a regular expression returns: `None` where
/// the pattern does not compile.
pub uninterp spec fn regex_replaced(pattern: Seq<char>, text: Seq<char>, to: Seq<char>) -> Option<
    Seq<char>,
>;

/// `String::push` appends one character.
pub assume_specification[ String::push ](text: &mut String, c: char)
    ensures
        final(text)@ == old(text)@.push(c),
;

/// `regex::Regex::new` followed by `Regex::replace_all`: the text with every
/// non-overlapping match of `pattern` replaced by `to`, or `None` where
/// `pattern` is refused. The result depends on the three strings alone.
#[verifier::external_body]
fn replace_pattern(pattern: &str, text: &str, to: &str) -> (out: Option<String>)
    ensures
        out.deep_view() == regex_replaced(pattern@, text@, to@),
{
    match regex::Regex::new(pattern) {
        Ok(re) => Some(re.replace_all(text, to).into_owned()),
        Err(_) => None,
    }
}

/// The look-alike that stands for a digit; every other character stands for
/// itself.
pub open spec fn look_alike(c: char) -> char {
    if c == '0' {
        '\u{1D7CE}'
    } else if c == '1' {
        '\u{1D7CF}'
    } else if c == '2' {
        '\u{1D7D0}'
    } else if c == '3' {
        '\u{1D7D1}'
    } else if c == '4' {
        '\u{1D7D2}'
    } else if c == '5' {
        '\u{1D7D3}'
    } else if c == '6' {
        '\u{1D7D4}'
    } else if c == '7' {
        '\u{1D7D5}'
    } else if c == '8' {
        '\u{1D7D6}'
    } else if c == '9' {
        '\u{1D7D7}'
    } else {
        c
    }
}

/// A text with each character exchanged for its look-alike.
pub open spec fn without_digits(text: Seq<char>) -> Seq<char> {
    Seq::new(text.len(), |i: int| look_alike(text[i]))
}

/// The look-alike of one character.
fn look_alike_of(c: char) -> (out: char)
    ensures
        out == look_alike(c),
{
    match c {
        '0' => '\u{1D7CE}',
        '1' => '\u{1D7CF}',
        '2' => '\u{1D7D0}',
        '3' => '\u{1D7D1}',
        '4' => '\u{1D7D2}',
        '5' => '\u{1D7D3}',
        '6' => '\u{1D7D4}',
        '7' => '\u{1D7D5}',
        '8' => '\u{1D7D6}',
        '9' => '\u{1D7D7}',
        other => other,
    }
}

/// Exchanges every ASCII digit for the mathematical bold digit of the same
/// value, and leaves the rest as it is.
pub fn convert_to_non_digits(text: String) -> (out: String)
    ensures
        out@ == without_digits(text@),
{
    let mut out = String::new();
    let ghost chars = text@;
    for c in it: text.as_str().chars()
        invariant
            it.seq() == chars,
            out@ == without_digits(chars.take(it.index())),
    {
        out.push(look_alike_of(c));
        assert(out@ =~= without_digits(chars.take(it.index() + 1)));
    }
    assert(chars.take(chars.len() as int) =~= chars);
    out
}

/// The pattern of a course number: two capital letters and four digits, in
/// square or in round brackets.
pub open spec fn course_number_pattern() -> Seq<char> {
    r"\[(([A-Z]{2})(\d{4}))\]|\((([A-Z]{2})(\d{4}))\)"@
}

/// A text without its course numbers.
pub open spec fn without_course_numbers(text: Seq<char>) -> Seq<char> {
    match regex_replaced(course_number_pattern(), text, Seq::empty()) {
        Some(out) => out,
        None => text,
    }
}

/// What a replacement gives that took place, and the text as it was where it
/// did not.
pub fn replaced_or_same(text: &str, replaced: Option<String>) -> (out: String)
    ensures
        out@ == match replaced {
            Some(s) => s@,
            None => text@,
        },
{
    match replaced {
        Some(s) => s,
        None => text.to_owned(),
    }
}

/// Removes every course number from a text: `[AB1234]` and `(AB1234)`.
pub fn remove_lv_id(text: &str) -> (out: String)
    ensures
        out@ == without_course_numbers(text@),
{
    let empty = "";
    proof {
        reveal_strlit("");
        assert(empty@ =~= Seq::<char>::empty());
    }
    let replaced = replace_pattern(r"\[(([A-Z]{2})(\d{4}))\]|\((([A-Z]{2})(\d{4}))\)", text, empty);
    replaced_or_same(text, replaced)
}

/// A text after each replacement of a table, applied in the table's order.
pub open spec fn replaced_each(text: Seq<char>, table: Seq<(Seq<char>, Seq<char>)>) -> Seq<char>
    decreases table.len(),
{
    if table.len() == 0 {
        text
    } else {
        str_replaced(replaced_each(text, table.drop_last()), table.last().0, table.last().1)
    }
}

/// Shortens a course title: applies each replacement of the table in turn,
/// then removes the course numbers.
pub fn replace_courses(input: &str, replacements: &Vec<(String, String)>) -> (out: String)
    ensures
        out@ == without_course_numbers(replaced_each(input@, replacements.deep_view())),
{
    let mut result = input.to_owned();
    let ghost table = replacements.deep_view();
    let mut i: usize = 0;
    assert(table.take(0) =~= Seq::<(Seq<char>, Seq<char>)>::empty());
    while i < replacements.len()
        invariant
            i <= replacements.len(),
            table == replacements.deep_view(),
            result@ == replaced_each(input@, table.take(i as int)),
        decreases replacements.len() - i,
    {
        proof {
            assert(table.take(i + 1).drop_last() =~= table.take(i as int));
            assert(table.take(i + 1).last() == table[i as int]);
        }
        result = replace_text(result.as_str(), replacements[i].0.as_str(), replacements[i].1.as_str());
        i += 1;
    }
    assert(table.take(replacements.len() as int) =~= table);
    remove_lv_id(result.as_str())
}

} // verus!
