//! The vocabulary of names: chain prefixes, multiplicity prefixes and
//! functional-group suffixes, with the case folding used to compare them.

use vstd::prelude::*;

verus! {

/// Length of a carbon chain, from one to eight carbons, or `Unknown` when the
/// prefix is not one of the eight known ones.
#[derive(Debug, Clone, Copy, PartialEq, Eq, Structural)]
pub enum Base {
    Methane,
    Ethane,
    Propane,
    Butane,
    Pentane,
    Hexane,
    Heptane,
    Octane,
    Unknown,
}

/// The functional group that ends the parent chain.
#[derive(Debug, Clone, Copy, PartialEq, Eq, Structural)]
pub enum Function {
    /// plain alkane, `-e`
    Plain,
    /// carboxylic acid, `-oïque`
    Carboxylic,
    /// aldehyde, `-al`
    Aldehyde,
    /// ketone at carbon `n`, `-n-one`
    Ketones { n: u8 },
    /// alcohol at carbon `n`, `-n-ol`
    Alcohol { n: u8 },
}

/// Folds a character to the form in which the vocabulary is written: ASCII
/// capitals and the capital I with diaeresis become lower case.
pub open spec fn fold_char(c: char) -> char {
    if 'A' <= c && c <= 'Z' {
        ((c as u8) + 32) as char
    } else if c == '\u{cf}' {
        '\u{ef}'
    } else {
        c
    }
}

/// A text with every character folded.
pub open spec fn folded(s: Seq<char>) -> Seq<char> {
    s.map_values(|c: char| fold_char(c))
}

pub fn fold(c: char) -> (r: char)
    ensures
        r == fold_char(c),
{
    if 'A' <= c && c <= 'Z' {
        ((c as u8) + 32) as char
    } else if c == '\u{cf}' {
        '\u{ef}'
    } else {
        c
    }
}

/// The folded characters of `s`, one per character.
pub fn folded_chars(s: &str) -> (r: Vec<char>)
    ensures
        r@ == folded(s@),
{
    let n = s.unicode_len();
    let mut r: Vec<char> = Vec::new();
    let mut i: usize = 0;
    while i < n
        invariant
            n == s@.len(),
            i <= n,
            r@ == folded(s@.take(i as int)),
        decreases n - i,
    {
        let c = s.get_char(i);
        r.push(fold(c));
        assert(s@.take(i + 1) =~= s@.take(i as int).push(c));
        assert(folded(s@.take(i + 1)) =~= folded(s@.take(i as int)).push(fold_char(c)));
        i = i + 1;
    }
    assert(s@.take(n as int) =~= s@);
    r
}

/// `w` stands in `t` from position `i` on.
pub open spec fn word_at(t: Seq<char>, i: int, w: Seq<char>) -> bool {
    0 <= i && i + w.len() <= t.len() && t.subrange(i, i + w.len()) == w
}

pub fn has_word(t: &Vec<char>, i: usize, w: &str) -> (r: bool)
    ensures
        r == word_at(t@, i as int, w@),
{
    let n = w.unicode_len();
    if n > t.len() || i > t.len() - n {
        return false;
    }
    let mut k: usize = 0;
    while k < n
        invariant
            n == w@.len(),
            i + n <= t.len(),
            k <= n,
            forall|m: int| 0 <= m < k ==> t@[i + m] == w@[m],
        decreases n - k,
    {
        if t[i + k] != w.get_char(k) {
            assert(t@.subrange(i as int, i + n)[k as int] != w@[k as int]);
            return false;
        }
        k = k + 1;
    }
    assert(t@.subrange(i as int, i + n) =~= w@);
    true
}

/// The prefix that names a chain of the given length.
pub open spec fn base_word(b: Base) -> Seq<char> {
    match b {
        Base::Methane => "meth"@,
        Base::Ethane => "eth"@,
        Base::Propane => "prop"@,
        Base::Butane => "but"@,
        Base::Pentane => "pent"@,
        Base::Hexane => "hex"@,
        Base::Heptane => "hept"@,
        Base::Octane => "oct"@,
        Base::Unknown => Seq::empty(),
    }
}

} // verus!
