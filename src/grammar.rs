//! The grammar of names, as spec functions that read a folded text from a
//! position, and the executable readers that are proved to agree with them.
//!
//! A name is an optional list of substituent clauses joined by `-`, then the
//! parent chain: a chain prefix, `an`, and an ending. A clause is one or more
//! locants joined by `,`, a `-`, an optional multiplicity prefix, a chain
//! prefix and `yl`. A locant is a run of decimal digits whose value fits in a
//! byte.

use vstd::prelude::*;
use crate::lexicon::{Base, base_word, word_at};

verus! {

pub open spec fn is_digit(c: char) -> bool {
    '0' <= c && c <= '9'
}

pub open spec fn digit_of(c: char) -> int {
    c as int - '0' as int
}

/// The number that a run of decimal digits writes.
pub open spec fn digits_value(d: Seq<char>) -> nat
    decreases d.len(),
{
    if d.len() == 0 {
        0
    } else {
        (digits_value(d.drop_last()) * 10 + digit_of(d.last())) as nat
    }
}

/// The end of the run of digits that starts at `i`.
pub open spec fn digit_end(t: Seq<char>, i: int) -> int
    decreases t.len() - i,
{
    if 0 <= i < t.len() && is_digit(t[i]) {
        digit_end(t, i + 1)
    } else {
        i
    }
}

/// The text of the locant that starts at `i`, if one does.
pub open spec fn locant_at(t: Seq<char>, i: int) -> Option<Seq<char>> {
    let j = digit_end(t, i);
    if i < j && digits_value(t.subrange(i, j)) <= 255 {
        Some(t.subrange(i, j))
    } else {
        None
    }
}

/// The locants joined by `,` that start at `i`, and where they end.
pub open spec fn locants_at(t: Seq<char>, i: int) -> Option<(Seq<Seq<char>>, int)>
    decreases t.len() - i,
{
    match locant_at(t, i) {
        None => None,
        Some(d) => {
            let j = i + d.len();
            if i < j && j < t.len() && t[j] == ',' {
                match locants_at(t, j + 1) {
                    Some((ls, k)) => Some((seq![d] + ls, k)),
                    None => None,
                }
            } else {
                Some((seq![d], j))
            }
        },
    }
}

/// The multiplicity prefix written `m` times over: none, di, tri, tetra.
pub open spec fn mult_word(m: nat) -> Seq<char> {
    if m == 1 {
        "di"@
    } else if m == 2 {
        "tri"@
    } else if m == 3 {
        "tetra"@
    } else {
        Seq::empty()
    }
}

/// The multiplicity prefix that starts at `i` (0 where there is none).
pub open spec fn mult_at(t: Seq<char>, i: int) -> nat {
    if word_at(t, i, mult_word(1)) {
        1
    } else if word_at(t, i, mult_word(2)) {
        2
    } else if word_at(t, i, mult_word(3)) {
        3
    } else {
        0
    }
}

/// The chain prefix that starts at `i`, if one does.
pub open spec fn base_at(t: Seq<char>, i: int) -> Option<Base> {
    if word_at(t, i, base_word(Base::Methane)) {
        Some(Base::Methane)
    } else if word_at(t, i, base_word(Base::Ethane)) {
        Some(Base::Ethane)
    } else if word_at(t, i, base_word(Base::Propane)) {
        Some(Base::Propane)
    } else if word_at(t, i, base_word(Base::Butane)) {
        Some(Base::Butane)
    } else if word_at(t, i, base_word(Base::Pentane)) {
        Some(Base::Pentane)
    } else if word_at(t, i, base_word(Base::Hexane)) {
        Some(Base::Hexane)
    } else if word_at(t, i, base_word(Base::Heptane)) {
        Some(Base::Heptane)
    } else if word_at(t, i, base_word(Base::Octane)) {
        Some(Base::Octane)
    } else {
        None
    }
}

/// A substituent clause as written: its locants, its multiplicity prefix
/// and its chain prefix.
pub struct ClauseText {
    pub locants: Seq<Seq<char>>,
    pub mult: nat,
    pub base: Base,
}

/// The clause that starts at `i`, and where it ends.
pub open spec fn clause_at(t: Seq<char>, i: int) -> Option<(ClauseText, int)> {
    match locants_at(t, i) {
        None => None,
        Some((ls, j)) => {
            if j < t.len() && t[j] == '-' {
                let m = mult_at(t, j + 1);
                let k = j + 1 + mult_word(m).len();
                match base_at(t, k) {
                    Some(b) => {
                        let l = k + base_word(b).len();
                        if word_at(t, l, "yl"@) {
                            Some((ClauseText { locants: ls, mult: m, base: b }, l + 2))
                        } else {
                            None
                        }
                    },
                    None => None,
                }
            } else {
                None
            }
        },
    }
}

/// The clauses joined by `-` that start at `i`, and where they end.
pub open spec fn clauses_at(t: Seq<char>, i: int) -> Option<(Seq<ClauseText>, int)>
    decreases t.len() - i,
{
    match clause_at(t, i) {
        None => None,
        Some((c, j)) => {
            if i < j && j < t.len() && t[j] == '-' {
                match clauses_at(t, j + 1) {
                    Some((cs, k)) => Some((seq![c] + cs, k)),
                    None => None,
                }
            } else {
                Some((seq![c], j))
            }
        },
    }
}

/// The ending of a name as written: `kind` is 0 for `e`, 1 for `oïque`, 2
/// for `al`, 3 for `-n-one` and 4 for `-n-ol`; `locant` is `n`, empty for
/// the first three.
pub struct EndingText {
    pub kind: nat,
    pub locant: Seq<char>,
}

pub open spec fn ending_word(kind: nat) -> Seq<char> {
    if kind == 0 {
        "e"@
    } else if kind == 1 {
        "o\u{ef}que"@
    } else if kind == 2 {
        "al"@
    } else if kind == 3 {
        "one"@
    } else {
        "ol"@
    }
}

/// The ending that runs from `i` to the end of `t`, if `t[i..]` is one.
pub open spec fn ending_at(t: Seq<char>, i: int) -> Option<EndingText> {
    let rest = t.subrange(i, t.len() as int);
    if rest == ending_word(0) {
        Some(EndingText { kind: 0, locant: Seq::empty() })
    } else if rest == ending_word(1) {
        Some(EndingText { kind: 1, locant: Seq::empty() })
    } else if rest == ending_word(2) {
        Some(EndingText { kind: 2, locant: Seq::empty() })
    } else if i < t.len() && t[i] == '-' {
        match locant_at(t, i + 1) {
            Some(d) => {
                let j = i + 1 + d.len();
                let word = t.subrange(j + 1, t.len() as int);
                if j < t.len() && t[j] == '-' && word == ending_word(3) {
                    Some(EndingText { kind: 3, locant: d })
                } else if j < t.len() && t[j] == '-' && word == ending_word(4) {
                    Some(EndingText { kind: 4, locant: d })
                } else {
                    None
                }
            },
            None => None,
        }
    } else {
        None
    }
}

/// A whole name as written.
pub struct NameText {
    pub clauses: Seq<ClauseText>,
    pub base: Base,
    pub ending: EndingText,
}

/// The parent chain that runs from `i` to the end of `t`.
pub open spec fn parent_at(t: Seq<char>, i: int) -> Option<(Base, EndingText)> {
    match base_at(t, i) {
        Some(b) => {
            let j = i + base_word(b).len();
            if word_at(t, j, "an"@) {
                match ending_at(t, j + 2) {
                    Some(e) => Some((b, e)),
                    None => None,
                }
            } else {
                None
            }
        },
        None => None,
    }
}

/// The reading of a whole folded text as a name, if it is one.
pub open spec fn name_of_text(t: Seq<char>) -> Option<NameText> {
    if 0 < t.len() && is_digit(t[0]) {
        match clauses_at(t, 0) {
            Some((cs, i)) => match parent_at(t, i) {
                Some((b, e)) => Some(NameText { clauses: cs, base: b, ending: e }),
                None => None,
            },
            None => None,
        }
    } else {
        match parent_at(t, 0) {
            Some((b, e)) => Some(NameText { clauses: Seq::empty(), base: b, ending: e }),
            None => None,
        }
    }
}

} // verus!
