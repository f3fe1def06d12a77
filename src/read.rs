//! Executable readers over a folded text, each proved to agree with the
//! grammar's spec function of the same part.

use vstd::prelude::*;
use crate::grammar::{
    base_at, clause_at, clauses_at, digit_end, digits_value, ending_at, ending_word, is_digit,
    locant_at, locants_at, mult_at, mult_word, parent_at, ClauseText, EndingText,
};
use crate::lexicon::{base_word, has_word, word_at, Base, Function};

verus! {

/// The four locant slots of a clause: the values of its first four
/// locants, then `None`; locants after the fourth are dropped.
pub open spec fn slots(ls: Seq<Seq<char>>) -> Seq<Option<u8>> {
    Seq::new(4, |k: int| if k < ls.len() { Some(digits_value(ls[k]) as u8) } else { None })
}

/// A value never falls when more digits follow.
pub proof fn lemma_value_prefix(d: Seq<char>, k: int)
    requires
        0 <= k <= d.len(),
        forall|m: int| 0 <= m < d.len() ==> is_digit(#[trigger] d[m]),
    ensures
        digits_value(d.take(k)) <= digits_value(d),
    decreases d.len(),
{
    if k == d.len() {
        assert(d.take(k) =~= d);
    } else {
        let p = d.drop_last();
        assert(p.take(k) =~= d.take(k));
        lemma_value_prefix(p, k);
    }
}

pub fn scan_digits(t: &Vec<char>, i: usize) -> (j: usize)
    requires
        i <= t.len(),
    ensures
        j == digit_end(t@, i as int),
        i <= j <= t.len(),
        forall|k: int| i <= k < j ==> is_digit(#[trigger] t@[k]),
{
    let mut k = i;
    while k < t.len() && '0' <= t[k] && t[k] <= '9'
        invariant
            i <= k <= t.len(),
            digit_end(t@, k as int) == digit_end(t@, i as int),
            forall|m: int| i <= m < k ==> is_digit(#[trigger] t@[m]),
        decreases t.len() - k,
    {
        k = k + 1;
    }
    k
}

/// The value of the locant at `i` and where it ends.
pub fn read_locant(t: &Vec<char>, i: usize) -> (r: Option<(u8, usize)>)
    requires
        i <= t.len(),
    ensures
        match locant_at(t@, i as int) {
            Some(d) => r matches Some((v, j)) && v == digits_value(d) && j == i + d.len()
                && j <= t.len(),
            None => r is None,
        },
{
    let j = scan_digits(t, i);
    if j == i {
        return None;
    }
    let ghost d = t@.subrange(i as int, j as int);
    let mut v: u32 = 0;
    let mut k = i;
    while k < j
        invariant
            i <= k <= j <= t.len(),
            d == t@.subrange(i as int, j as int),
            j == digit_end(t@, i as int),
            forall|m: int| i <= m < j ==> is_digit(#[trigger] t@[m]),
            v as nat == digits_value(t@.subrange(i as int, k as int)),
            v <= 255,
        decreases j - k,
    {
        let c = t[k];
        let ghost p = t@.subrange(i as int, k + 1);
        assert(p.drop_last() =~= t@.subrange(i as int, k as int));
        v = v * 10 + (c as u32 - '0' as u32);
        assert(v == digits_value(p));
        if v > 255 {
            proof {
                assert(d.take(k + 1 - i) =~= p);
                assert forall|m: int| 0 <= m < d.len() implies is_digit(#[trigger] d[m]) by {
                    assert(d[m] == t@[i + m]);
                }
                lemma_value_prefix(d, k + 1 - i);
            }
            return None;
        }
        k = k + 1;
    }
    Some((v as u8, j))
}

/// `o` with `acc` put before the locants it read.
pub open spec fn after_locants(
    acc: Seq<Seq<char>>,
    o: Option<(Seq<Seq<char>>, int)>,
) -> Option<(Seq<Seq<char>>, int)> {
    match o {
        Some((ls, e)) => Some((acc + ls, e)),
        None => None,
    }
}

/// The slots of the locants at `i` and where they end.
pub fn read_locants(t: &Vec<char>, i: usize) -> (r: Option<([Option<u8>; 4], usize)>)
    requires
        i <= t.len(),
    ensures
        match locants_at(t@, i as int) {
            Some((ls, j)) => r is Some && (r->0).0@ == slots(ls) && (r->0).1 == j,
            None => r is None,
        },
{
    let mut arr: [Option<u8>; 4] = [None; 4];
    let mut n: usize = 0;
    let mut k = i;
    let ghost mut acc: Seq<Seq<char>> = Seq::empty();
    assert(acc + Seq::<Seq<char>>::empty() =~= acc);
    assert(arr@ =~= slots(acc));
    loop
        invariant
            i <= k <= t.len(),
            n == acc.len(),
            n <= k - i,
            arr@ == slots(acc),
            locants_at(t@, i as int) == after_locants(acc, locants_at(t@, k as int)),
        decreases t.len() - k,
    {
        let ghost d = locant_at(t@, k as int)->0;
        match read_locant(t, k) {
            None => {
                return None;
            },
            Some((v, j)) => {
                if n < 4 {
                    arr[n] = Some(v);
                }
                proof {
                    assert(arr@ =~= slots(acc.push(d)));
                }
                n = n + 1;
                if j < t.len() && t[j] == ',' {
                    proof {
                        assert(locant_at(t@, k as int) == Some(d));
                        match locants_at(t@, j + 1) {
                            Some((ls, e)) => {
                                assert(acc + (seq![d] + ls) =~= acc.push(d) + ls);
                            },
                            None => {},
                        }
                        acc = acc.push(d);
                    }
                    k = j + 1;
                } else {
                    proof {
                        assert(locant_at(t@, k as int) == Some(d));
                        assert(acc + seq![d] =~= acc.push(d));
                    }
                    return Some((arr, j));
                }
            },
        }
    }
}

/// The end of the multiplicity prefix at `i`, or `i` where there is none.
pub fn skip_mult(t: &Vec<char>, i: usize) -> (k: usize)
    requires
        i <= t.len(),
    ensures
        k == i + mult_word(mult_at(t@, i as int)).len(),
        k <= t.len(),
{
    proof {
        reveal_strlit("di");
        reveal_strlit("tri");
        reveal_strlit("tetra");
    }
    if has_word(t, i, "di") {
        i + 2
    } else if has_word(t, i, "tri") {
        i + 3
    } else if has_word(t, i, "tetra") {
        i + 5
    } else {
        i
    }
}

/// The chain prefix at `i` and where it ends.
pub fn read_base(t: &Vec<char>, i: usize) -> (r: Option<(Base, usize)>)
    requires
        i <= t.len(),
    ensures
        match base_at(t@, i as int) {
            Some(b) => r matches Some((c, j)) && c == b && j == i + base_word(b).len()
                && j <= t.len(),
            None => r is None,
        },
{
    proof {
        reveal_strlit("meth");
        reveal_strlit("eth");
        reveal_strlit("prop");
        reveal_strlit("but");
        reveal_strlit("pent");
        reveal_strlit("hex");
        reveal_strlit("hept");
        reveal_strlit("oct");
    }
    if has_word(t, i, "meth") {
        Some((Base::Methane, i + 4))
    } else if has_word(t, i, "eth") {
        Some((Base::Ethane, i + 3))
    } else if has_word(t, i, "prop") {
        Some((Base::Propane, i + 4))
    } else if has_word(t, i, "but") {
        Some((Base::Butane, i + 3))
    } else if has_word(t, i, "pent") {
        Some((Base::Pentane, i + 4))
    } else if has_word(t, i, "hex") {
        Some((Base::Hexane, i + 3))
    } else if has_word(t, i, "hept") {
        Some((Base::Heptane, i + 4))
    } else if has_word(t, i, "oct") {
        Some((Base::Octane, i + 3))
    } else {
        None
    }
}

/// A substituent as the library holds it: four locant slots and a chain.
pub type Alkyl = ([Option<u8>; 4], Base);

pub open spec fn alkyl_view(a: Alkyl) -> (Seq<Option<u8>>, Base) {
    (a.0@, a.1)
}

/// The substituent that a clause describes.
pub open spec fn alkyl_of(c: ClauseText) -> (Seq<Option<u8>>, Base) {
    (slots(c.locants), c.base)
}

/// The substituent of the clause at `i` and where the clause ends.
pub fn read_clause(t: &Vec<char>, i: usize) -> (r: Option<(Alkyl, usize)>)
    requires
        i <= t.len(),
    ensures
        match clause_at(t@, i as int) {
            Some((c, j)) => r matches Some((a, e)) && alkyl_view(a) == alkyl_of(c) && e == j
                && e <= t.len(),
            None => r is None,
        },
{
    proof {
        reveal_strlit("yl");
    }
    let (arr, j) = match read_locants(t, i) {
        Some(p) => p,
        None => {
            return None;
        },
    };
    if j >= t.len() || t[j] != '-' {
        return None;
    }
    let k = skip_mult(t, j + 1);
    let (b, l) = match read_base(t, k) {
        Some(p) => p,
        None => {
            return None;
        },
    };
    if has_word(t, l, "yl") {
        Some(((arr, b), l + 2))
    } else {
        None
    }
}

pub open spec fn alkyls_view(v: Seq<Alkyl>) -> Seq<(Seq<Option<u8>>, Base)> {
    v.map_values(|a: Alkyl| alkyl_view(a))
}

/// The substituents that a list of clauses describes, in order.
pub open spec fn alkyls_of(cs: Seq<ClauseText>) -> Seq<(Seq<Option<u8>>, Base)> {
    cs.map_values(|c: ClauseText| alkyl_of(c))
}

/// `o` with `acc` put before the clauses it read.
pub open spec fn after_clauses(
    acc: Seq<ClauseText>,
    o: Option<(Seq<ClauseText>, int)>,
) -> Option<(Seq<ClauseText>, int)> {
    match o {
        Some((cs, e)) => Some((acc + cs, e)),
        None => None,
    }
}

/// The substituents of the clauses at `i` and where they end.
pub fn read_clauses(t: &Vec<char>, i: usize) -> (r: Option<(Vec<Alkyl>, usize)>)
    requires
        i <= t.len(),
    ensures
        match clauses_at(t@, i as int) {
            Some((cs, j)) => r matches Some((v, e)) && alkyls_view(v@) == alkyls_of(cs) && e == j && e <= t.len(),
            None => r is None,
        },
{
    let mut v: Vec<Alkyl> = Vec::new();
    let mut k = i;
    let ghost mut acc: Seq<ClauseText> = Seq::empty();
    assert(acc + Seq::<ClauseText>::empty() =~= acc);
    loop
        invariant
            i <= k <= t.len(),
            v@.len() == acc.len(),
            alkyls_view(v@) == alkyls_of(acc),
            clauses_at(t@, i as int) == after_clauses(acc, clauses_at(t@, k as int)),
        decreases t.len() - k,
    {
        let ghost c = (clause_at(t@, k as int)->0).0;
        match read_clause(t, k) {
            None => {
                return None;
            },
            Some((a, j)) => {
                let ghost before = v@;
                v.push(a);
                proof {
                    assert(alkyl_view(a) == alkyl_of(c));
                    assert(v@ == before.push(a));
                    assert forall|m: int| 0 <= m < before.len() implies alkyl_view(v@[m])
                        == alkyl_of(acc[m]) by {
                        assert(alkyls_view(before)[m] == alkyls_of(acc)[m]);
                    }
                    assert(alkyls_view(v@) =~= alkyls_of(acc.push(c)));
                }
                if k < j && j < t.len() && t[j] == '-' {
                    proof {
                        match clauses_at(t@, j + 1) {
                            Some((cs, e)) => {
                                assert(acc + (seq![c] + cs) =~= acc.push(c) + cs);
                            },
                            None => {},
                        }
                        acc = acc.push(c);
                    }
                    k = j + 1;
                } else {
                    proof {
                        assert(acc + seq![c] =~= acc.push(c));
                    }
                    return Some((v, j));
                }
            },
        }
    }
}

/// `t[i..]` is `w`.
pub fn rest_is(t: &Vec<char>, i: usize, w: &str) -> (r: bool)
    requires
        i <= t.len(),
    ensures
        r == (t@.subrange(i as int, t@.len() as int) == w@),
{
    let n = w.unicode_len();
    if t.len() - i != n {
        assert(t@.subrange(i as int, t@.len() as int).len() != w@.len());
        return false;
    }
    has_word(t, i, w)
}

/// The functional group that an ending writes.
pub open spec fn function_of(e: EndingText) -> Function {
    if e.kind == 0 {
        Function::Plain
    } else if e.kind == 1 {
        Function::Carboxylic
    } else if e.kind == 2 {
        Function::Aldehyde
    } else if e.kind == 3 {
        Function::Ketones { n: digits_value(e.locant) as u8 }
    } else {
        Function::Alcohol { n: digits_value(e.locant) as u8 }
    }
}

/// The functional group of the ending that runs from `i` to the end.
pub fn read_ending(t: &Vec<char>, i: usize) -> (r: Option<Function>)
    requires
        i <= t.len(),
    ensures
        match ending_at(t@, i as int) {
            Some(e) => r == Some(function_of(e)),
            None => r is None,
        },
{
    if rest_is(t, i, "e") {
        Some(Function::Plain)
    } else if rest_is(t, i, "o\u{ef}que") {
        Some(Function::Carboxylic)
    } else if rest_is(t, i, "al") {
        Some(Function::Aldehyde)
    } else if i < t.len() && t[i] == '-' {
        let (n, j) = match read_locant(t, i + 1) {
            Some(p) => p,
            None => {
                return None;
            },
        };
        if j < t.len() && t[j] == '-' && rest_is(t, j + 1, "one") {
            Some(Function::Ketones { n })
        } else if j < t.len() && t[j] == '-' && rest_is(t, j + 1, "ol") {
            Some(Function::Alcohol { n })
        } else {
            None
        }
    } else {
        None
    }
}

/// The parent chain and functional group that run from `i` to the end.
pub fn read_parent(t: &Vec<char>, i: usize) -> (r: Option<(Base, Function)>)
    requires
        i <= t.len(),
    ensures
        match parent_at(t@, i as int) {
            Some((b, e)) => r == Some((b, function_of(e))),
            None => r is None,
        },
{
    proof {
        reveal_strlit("an");
    }
    let (b, j) = match read_base(t, i) {
        Some(p) => p,
        None => {
            return None;
        },
    };
    if !has_word(t, j, "an") {
        return None;
    }
    match read_ending(t, j + 2) {
        Some(f) => Some((b, f)),
        None => None,
    }
}

} // verus!
