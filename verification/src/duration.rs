//! The republish interval of a calendar, read from its duration notation.
//!
//! The notation is a run of tokens, each a decimal magnitude followed by one of
//! the unit letters `W`, `D`, `H`, `M` and `S`. Every other character (the
//! leading `P`, the `T` before the time part, a sign) carries no information
//! and is passed over.

use vstd::prelude::*;

verus! {

/// The interval that holds where a calendar names none that can be used: one hour.
pub const DEFAULT_TTL_SECS: u64 = 3600;

/// How far a duration has been read: the seconds of the tokens completed so
/// far, and the magnitude of the token under way.
pub struct DurationScan {
    pub total: nat,
    pub pending: nat,
}

/// The seconds in one unit, for the five unit letters.
pub open spec fn unit_seconds(c: char) -> Option<nat> {
    if c == 'W' {
        Some(604800)
    } else if c == 'D' {
        Some(86400)
    } else if c == 'H' {
        Some(3600)
    } else if c == 'M' {
        Some(60)
    } else if c == 'S' {
        Some(1)
    } else {
        None
    }
}

/// Whether `c` is one of the ten ASCII digits.
pub open spec fn is_digit(c: char) -> bool {
    '0' <= c <= '9'
}

/// What a magnitude counts for when its unit letter arrives: itself, or
/// nothing where it is too large for 64 bits.
pub open spec fn magnitude_value(pending: nat) -> nat {
    if pending <= u64::MAX {
        pending
    } else {
        0
    }
}

/// Reading one more character.
pub open spec fn scan_step(st: DurationScan, c: char) -> DurationScan {
    if is_digit(c) {
        DurationScan { total: st.total, pending: st.pending * 10 + (c as nat - '0' as nat) as nat }
    } else {
        match unit_seconds(c) {
            Some(secs) => DurationScan {
                total: st.total + magnitude_value(st.pending) * secs,
                pending: 0,
            },
            None => st,
        }
    }
}

/// Reading a whole text from the left.
pub open spec fn scan_duration(text: Seq<char>) -> DurationScan
    decreases text.len(),
{
    if text.len() == 0 {
        DurationScan { total: 0, pending: 0 }
    } else {
        scan_step(scan_duration(text.drop_last()), text.last())
    }
}

/// The length of a duration in seconds: the sum over its tokens of magnitude
/// times unit. Digits that no unit letter follows count for nothing. A text
/// whose sum does not fit in 64 bits denotes no duration.
pub open spec fn duration_seconds(text: Seq<char>) -> Option<u64> {
    let total = scan_duration(text).total;
    if total <= u64::MAX {
        Some(total as u64)
    } else {
        None
    }
}

/// Completed seconds never shrink while more of the text is read.
pub proof fn lemma_scan_total_grows(text: Seq<char>, n: int)
    requires
        0 <= n <= text.len(),
    ensures
        scan_duration(text.take(n)).total <= scan_duration(text).total,
    decreases text.len() - n,
{
    if n == text.len() {
        assert(text.take(n) =~= text);
    } else {
        lemma_scan_total_grows(text, n + 1);
        assert(text.take(n + 1).drop_last() =~= text.take(n));
        assert(scan_duration(text.take(n + 1)) == scan_step(
            scan_duration(text.take(n)),
            text.take(n + 1).last(),
        ));
    }
}

/// Reads a duration and returns its length in seconds, or `None` where the
/// text denotes none.
pub fn rfc5545_to_std_duration(rfc_duration: &str) -> (secs: Option<u64>)
    ensures
        secs == duration_seconds(rfc_duration@),
{
    let mut total: u64 = 0;
    let mut pending: u64 = 0;
    let mut pending_fits: bool = true;
    let ghost text = rfc_duration@;
    for c in it: rfc_duration.chars()
        invariant
            it.seq() == text,
            text == rfc_duration@,
            total == scan_duration(text.take(it.index())).total,
            pending_fits ==> pending == scan_duration(text.take(it.index())).pending,
            !pending_fits ==> scan_duration(text.take(it.index())).pending > u64::MAX,
    {
        proof {
            let n = it.index();
            assert(text.take(n + 1).drop_last() =~= text.take(n));
            assert(text.take(n + 1).last() == c);
            lemma_scan_total_grows(text, n + 1);
        }
        if '0' <= c && c <= '9' {
            if pending_fits {
                let digit: u64 = (c as u64) - ('0' as u64);
                match pending.checked_mul(10) {
                    Some(tenfold) => match tenfold.checked_add(digit) {
                        Some(next) => {
                            pending = next;
                        },
                        None => {
                            pending_fits = false;
                        },
                    },
                    None => {
                        pending_fits = false;
                    },
                }
            }
        } else {
            let unit: Option<u64> = if c == 'W' {
                Some(604800)
            } else if c == 'D' {
                Some(86400)
            } else if c == 'H' {
                Some(3600)
            } else if c == 'M' {
                Some(60)
            } else if c == 'S' {
                Some(1)
            } else {
                None
            };
            if let Some(secs) = unit {
                let magnitude: u64 = if pending_fits {
                    pending
                } else {
                    0
                };
                assert(unit_seconds(c) == Some(secs as nat));
                assert(scan_duration(text.take(it.index() + 1)).total == total + magnitude * secs);
                match magnitude.checked_mul(secs) {
                    Some(span) => match total.checked_add(span) {
                        Some(sum) => {
                            total = sum;
                        },
                        None => {
                            return None;
                        },
                    },
                    None => {
                        return None;
                    },
                }
                pending = 0;
                pending_fits = true;
            }
        }
    }
    proof {
        assert(text.take(text.len() as int) =~= text);
    }
    Some(total)
}

/// How far the notation of a duration has been followed.
#[derive(Clone, Copy, Debug, PartialEq, Eq)]
pub enum Syntax {
    /// Nothing read yet.
    Start,
    /// A sign read; `P` must follow.
    Signed,
    /// `P` read; a token must follow.
    Opened,
    /// `T` read; a token must follow.
    Timed,
    /// One or more digits of a token read; its unit letter must follow.
    Magnitude,
    /// A token complete. The only state in which a duration may end.
    Token,
    /// The text is no duration.
    Broken,
}

/// Following the notation by one more character.
pub open spec fn syntax_step(state: Syntax, c: char) -> Syntax {
    match state {
        Syntax::Start => if c == '+' || c == '-' {
            Syntax::Signed
        } else if c == 'P' {
            Syntax::Opened
        } else {
            Syntax::Broken
        },
        Syntax::Signed => if c == 'P' {
            Syntax::Opened
        } else {
            Syntax::Broken
        },
        Syntax::Opened | Syntax::Token => if c == 'T' {
            Syntax::Timed
        } else if is_digit(c) {
            Syntax::Magnitude
        } else {
            Syntax::Broken
        },
        Syntax::Timed => if is_digit(c) {
            Syntax::Magnitude
        } else {
            Syntax::Broken
        },
        Syntax::Magnitude => if is_digit(c) {
            Syntax::Magnitude
        } else if unit_seconds(c) is Some {
            Syntax::Token
        } else {
            Syntax::Broken
        },
        Syntax::Broken => Syntax::Broken,
    }
}

/// Following the notation through a whole text.
pub open spec fn syntax_of(text: Seq<char>) -> Syntax
    decreases text.len(),
{
    if text.len() == 0 {
        Syntax::Start
    } else {
        syntax_step(syntax_of(text.drop_last()), text.last())
    }
}

/// Whether a text is written as a duration: an optional sign, `P`, then one
/// or more tokens of digits and a unit letter, each of which a `T` may
/// precede.
pub open spec fn is_duration(text: Seq<char>) -> bool {
    syntax_of(text) == Syntax::Token
}

/// The state after one more character.
fn next_syntax(state: Syntax, c: char) -> (next: Syntax)
    ensures
        next == syntax_step(state, c),
{
    let digit = '0' <= c && c <= '9';
    let unit = c == 'W' || c == 'D' || c == 'H' || c == 'M' || c == 'S';
    match state {
        Syntax::Start => if c == '+' || c == '-' {
            Syntax::Signed
        } else if c == 'P' {
            Syntax::Opened
        } else {
            Syntax::Broken
        },
        Syntax::Signed => if c == 'P' {
            Syntax::Opened
        } else {
            Syntax::Broken
        },
        Syntax::Opened | Syntax::Token => if c == 'T' {
            Syntax::Timed
        } else if digit {
            Syntax::Magnitude
        } else {
            Syntax::Broken
        },
        Syntax::Timed => if digit {
            Syntax::Magnitude
        } else {
            Syntax::Broken
        },
        Syntax::Magnitude => if digit {
            Syntax::Magnitude
        } else if unit {
            Syntax::Token
        } else {
            Syntax::Broken
        },
        Syntax::Broken => Syntax::Broken,
    }
}

/// Whether a text is written as a duration.
pub fn denotes_duration(text: &str) -> (yes: bool)
    ensures
        yes == is_duration(text@),
{
    let mut state = Syntax::Start;
    let ghost chars = text@;
    for c in it: text.chars()
        invariant
            it.seq() == chars,
            state == syntax_of(chars.take(it.index())),
    {
        proof {
            let n = it.index();
            assert(chars.take(n + 1).drop_last() =~= chars.take(n));
            assert(chars.take(n + 1).last() == c);
        }
        state = next_syntax(state, c);
    }
    proof {
        assert(chars.take(chars.len() as int) =~= chars);
    }
    match state {
        Syntax::Token => true,
        _ => false,
    }
}

/// The republish interval that a text asks for: its length in seconds where
/// it is written as a duration and the length fits in 64 bits, else the
/// default of one hour.
pub open spec fn interval_or_default(text: Seq<char>) -> u64 {
    if is_duration(text) {
        match duration_seconds(text) {
            Some(secs) => secs,
            None => DEFAULT_TTL_SECS,
        }
    } else {
        DEFAULT_TTL_SECS
    }
}

/// The republish interval that a text asks for, in seconds.
pub fn republish_secs(text: &str) -> (secs: u64)
    ensures
        secs == interval_or_default(text@),
{
    if denotes_duration(text) {
        match rfc5545_to_std_duration(text) {
            Some(secs) => secs,
            None => DEFAULT_TTL_SECS,
        }
    } else {
        DEFAULT_TTL_SECS
    }
}

} // verus!
