//! What the grammar's readers mean: the spelling of a name from its parts,
//! and the facts about `Compound::parse` that follow.

use vstd::prelude::*;
use crate::grammar::{
    base_at, clause_at, clauses_at, digit_end, digits_value, ending_at, ending_word, is_digit,
    locant_at, locants_at, mult_at, mult_word, name_of_text, parent_at, ClauseText, EndingText,
    NameText,
};
use crate::lexicon::{base_word, fold_char, folded, word_at, Base};
use crate::{compound_of, parsed};
use crate::read::slots;

verus! {

/// `parts` joined by `sep`.
pub open spec fn joined(parts: Seq<Seq<char>>, sep: char) -> Seq<char>
    decreases parts.len(),
{
    if parts.len() == 0 {
        Seq::empty()
    } else if parts.len() == 1 {
        parts[0]
    } else {
        parts[0] + seq![sep] + joined(parts.drop_first(), sep)
    }
}

/// A locant: one or more decimal digits whose value fits in a byte.
pub open spec fn locant_ok(d: Seq<char>) -> bool {
    &&& d.len() > 0
    &&& forall|k: int| 0 <= k < d.len() ==> is_digit(#[trigger] d[k])
    &&& digits_value(d) <= 255
}

pub open spec fn clause_ok(c: ClauseText) -> bool {
    &&& c.locants.len() > 0
    &&& forall|k: int| 0 <= k < c.locants.len() ==> locant_ok(#[trigger] c.locants[k])
    &&& c.mult <= 3
    &&& c.base != Base::Unknown
}

/// The text of a clause: `1,5-diethyl`.
pub open spec fn clause_text(c: ClauseText) -> Seq<char> {
    joined(c.locants, ',') + seq!['-'] + mult_word(c.mult) + base_word(c.base) + "yl"@
}

pub open spec fn ending_ok(e: EndingText) -> bool {
    &&& e.kind <= 4
    &&& e.kind < 3 ==> e.locant.len() == 0
    &&& e.kind >= 3 ==> locant_ok(e.locant)
}

/// The text of an ending: `e`, `oïque`, `al`, `-2-one`, `-2-ol`.
pub open spec fn ending_text(e: EndingText) -> Seq<char> {
    if e.kind < 3 {
        ending_word(e.kind)
    } else {
        seq!['-'] + e.locant + seq!['-'] + ending_word(e.kind)
    }
}

pub open spec fn name_ok(n: NameText) -> bool {
    &&& forall|k: int| 0 <= k < n.clauses.len() ==> clause_ok(#[trigger] n.clauses[k])
    &&& n.base != Base::Unknown
    &&& ending_ok(n.ending)
}

pub open spec fn clause_texts(cs: Seq<ClauseText>) -> Seq<Seq<char>> {
    cs.map_values(|c: ClauseText| clause_text(c))
}

/// The text of a name, in lower case: its clauses joined by `-`, the
/// parent chain's prefix, `an` and the ending.
pub open spec fn name_text(n: NameText) -> Seq<char> {
    joined(clause_texts(n.clauses), '-') + base_word(n.base) + "an"@ + ending_text(n.ending)
}

proof fn lemma_joined_cons(p: Seq<char>, ps: Seq<Seq<char>>, sep: char)
    requires
        ps.len() > 0,
    ensures
        joined(seq![p] + ps, sep) == p + seq![sep] + joined(ps, sep),
{
    assert((seq![p] + ps).drop_first() =~= ps);
    assert((seq![p] + ps)[0] == p);
}

proof fn lemma_joined_first(ps: Seq<Seq<char>>, sep: char)
    requires
        ps.len() > 0,
        ps[0].len() > 0,
    ensures
        joined(ps, sep).len() >= ps[0].len(),
        joined(ps, sep)[0] == ps[0][0],
{
}

proof fn lemma_digit_end(t: Seq<char>, i: int)
    requires
        0 <= i <= t.len(),
    ensures
        i <= digit_end(t, i) <= t.len(),
        forall|k: int| i <= k < digit_end(t, i) ==> is_digit(#[trigger] t[k]),
    decreases t.len() - i,
{
    if i < t.len() && is_digit(t[i]) {
        lemma_digit_end(t, i + 1);
    }
}

proof fn lemma_locant(t: Seq<char>, i: int)
    requires
        0 <= i <= t.len(),
        locant_at(t, i) is Some,
    ensures
        ({
            let d = locant_at(t, i)->0;
            locant_ok(d) && i + d.len() <= t.len() && t.subrange(i, i + d.len()) == d
        }),
{
    lemma_digit_end(t, i);
    let j = digit_end(t, i);
    let d = t.subrange(i, j);
    assert forall|k: int| 0 <= k < d.len() implies is_digit(#[trigger] d[k]) by {
        assert(d[k] == t[i + k]);
    }
}

proof fn lemma_locants(t: Seq<char>, i: int)
    requires
        0 <= i <= t.len(),
        locants_at(t, i) is Some,
    ensures
        ({
            let (ls, j) = locants_at(t, i)->0;
            &&& i < j <= t.len()
            &&& ls.len() > 0
            &&& forall|k: int| 0 <= k < ls.len() ==> locant_ok(#[trigger] ls[k])
            &&& t.subrange(i, j) == joined(ls, ',')
        }),
    decreases t.len() - i,
{
    lemma_locant(t, i);
    let d = locant_at(t, i)->0;
    let j = i + d.len();
    if i < j && j < t.len() && t[j] == ',' {
        lemma_locants(t, j + 1);
        let (rest, k) = locants_at(t, j + 1)->0;
        let ls = seq![d] + rest;
        lemma_joined_cons(d, rest, ',');
        assert(t.subrange(i, k) =~= d + seq![','] + t.subrange(j + 1, k));
        assert forall|m: int| 0 <= m < ls.len() implies locant_ok(#[trigger] ls[m]) by {
            if m > 0 {
                assert(ls[m] == rest[m - 1]);
            }
        }
    } else {
        assert(joined(seq![d], ',') == d);
    }
}

proof fn lemma_mult(t: Seq<char>, i: int)
    requires
        0 <= i <= t.len(),
    ensures
        mult_at(t, i) <= 3,
        word_at(t, i, mult_word(mult_at(t, i))),
{
    if mult_at(t, i) == 0 {
        assert(t.subrange(i, i) =~= mult_word(0));
    }
}

proof fn lemma_base(t: Seq<char>, i: int)
    requires
        base_at(t, i) is Some,
    ensures
        word_at(t, i, base_word(base_at(t, i)->0)),
        base_at(t, i)->0 != Base::Unknown,
{
}

proof fn lemma_concat(t: Seq<char>, i: int, j: int, k: int)
    requires
        0 <= i <= j <= k <= t.len(),
    ensures
        t.subrange(i, k) == t.subrange(i, j) + t.subrange(j, k),
{
    assert(t.subrange(i, k) =~= t.subrange(i, j) + t.subrange(j, k));
}

#[verifier::spinoff_prover]
proof fn lemma_clause(t: Seq<char>, i: int)
    requires
        0 <= i <= t.len(),
        clause_at(t, i) is Some,
    ensures
        ({
            let (c, j) = clause_at(t, i)->0;
            i < j <= t.len() && clause_ok(c) && t.subrange(i, j) == clause_text(c)
        }),
{
    reveal_strlit("yl");
    lemma_locants(t, i);
    let (ls, j) = locants_at(t, i)->0;
    lemma_mult(t, j + 1);
    let m = mult_at(t, j + 1);
    let k = j + 1 + mult_word(m).len();
    lemma_base(t, k);
    let b = base_at(t, k)->0;
    let l = k + base_word(b).len();
    lemma_concat(t, i, j, l + 2);
    lemma_concat(t, j, j + 1, l + 2);
    lemma_concat(t, j + 1, k, l + 2);
    lemma_concat(t, k, l, l + 2);
    assert(t.subrange(j, j + 1) =~= seq!['-']);
    assert(t.subrange(i, l + 2) =~= joined(ls, ',') + seq!['-'] + mult_word(m) + base_word(b)
        + "yl"@);
}

#[verifier::spinoff_prover]
proof fn lemma_clauses(t: Seq<char>, i: int)
    requires
        0 <= i <= t.len(),
        clauses_at(t, i) is Some,
    ensures
        ({
            let (cs, j) = clauses_at(t, i)->0;
            &&& i < j <= t.len()
            &&& cs.len() > 0
            &&& forall|k: int| 0 <= k < cs.len() ==> clause_ok(#[trigger] cs[k])
            &&& t.subrange(i, j) == joined(clause_texts(cs), '-')
        }),
    decreases t.len() - i,
{
    lemma_clause(t, i);
    let (c, j) = clause_at(t, i)->0;
    if i < j && j < t.len() && t[j] == '-' {
        lemma_clauses(t, j + 1);
        let (rest, k) = clauses_at(t, j + 1)->0;
        let cs = seq![c] + rest;
        assert(clause_texts(cs) =~= seq![clause_text(c)] + clause_texts(rest));
        lemma_joined_cons(clause_text(c), clause_texts(rest), '-');
        assert(t.subrange(i, k) =~= t.subrange(i, j) + seq!['-'] + t.subrange(j + 1, k));
        assert forall|m: int| 0 <= m < cs.len() implies clause_ok(#[trigger] cs[m]) by {
            if m > 0 {
                assert(cs[m] == rest[m - 1]);
            }
        }
    } else {
        assert(clause_texts(seq![c]) =~= seq![clause_text(c)]);
    }
}

proof fn lemma_ending(t: Seq<char>, i: int)
    requires
        0 <= i <= t.len(),
        ending_at(t, i) is Some,
    ensures
        ending_ok(ending_at(t, i)->0),
        t.subrange(i, t.len() as int) == ending_text(ending_at(t, i)->0),
{
    let rest = t.subrange(i, t.len() as int);
    if rest == ending_word(0) || rest == ending_word(1) || rest == ending_word(2) {
    } else {
        lemma_locant(t, i + 1);
        let d = locant_at(t, i + 1)->0;
        let j = i + 1 + d.len();
        assert(t.subrange(i, t.len() as int) =~= seq!['-'] + d + seq!['-'] + t.subrange(
            j + 1,
            t.len() as int,
        ));
    }
}

proof fn lemma_parent(t: Seq<char>, i: int)
    requires
        0 <= i <= t.len(),
        parent_at(t, i) is Some,
    ensures
        ({
            let (b, e) = parent_at(t, i)->0;
            &&& b != Base::Unknown
            &&& ending_ok(e)
            &&& t.subrange(i, t.len() as int) == base_word(b) + "an"@ + ending_text(e)
        }),
{
    reveal_strlit("an");
    lemma_base(t, i);
    let b = base_at(t, i)->0;
    let j = i + base_word(b).len();
    lemma_ending(t, j + 2);
    assert(t.subrange(i, t.len() as int) =~= t.subrange(i, j) + t.subrange(j, j + 2)
        + t.subrange(j + 2, t.len() as int));
}

/// Whatever a text reads as, it is spelled by a well-formed name: the
/// readers accept the grammar's text and nothing else.
#[verifier::spinoff_prover]
pub proof fn lemma_reading_spells(t: Seq<char>)
    requires
        name_of_text(t) is Some,
    ensures
        name_ok(name_of_text(t)->0),
        name_text(name_of_text(t)->0) == t,
{
    let n = name_of_text(t)->0;
    if 0 < t.len() && is_digit(t[0]) {
        lemma_clauses(t, 0);
        let (cs, i) = clauses_at(t, 0)->0;
        lemma_parent(t, i);
        let (b, e) = parent_at(t, i)->0;
        assert(n == NameText { clauses: cs, base: b, ending: e });
        let j = joined(clause_texts(cs), '-');
        assert(t.subrange(0, i) == j);
        assert(name_text(n) =~= t.subrange(0, i) + t.subrange(i, t.len() as int));
        assert(t =~= t.subrange(0, i) + t.subrange(i, t.len() as int));
    } else {
        lemma_parent(t, 0);
        let (b, e) = parent_at(t, 0)->0;
        assert(n == NameText { clauses: Seq::empty(), base: b, ending: e });
        assert(joined(clause_texts(Seq::<ClauseText>::empty()), '-') =~= Seq::<char>::empty());
        assert(name_text(n) =~= t.subrange(0, t.len() as int));
        assert(t =~= t.subrange(0, t.len() as int));
    }
}

proof fn lemma_word_char(t: Seq<char>, i: int, w: Seq<char>, m: int)
    requires
        word_at(t, i, w),
        0 <= m < w.len(),
    ensures
        t[i + m] == w[m],
{
    assert(t.subrange(i, i + w.len())[m] == t[i + m]);
}

proof fn lemma_split(t: Seq<char>, i: int, x: Seq<char>, y: Seq<char>)
    requires
        word_at(t, i, x + y),
    ensures
        word_at(t, i, x),
        word_at(t, i + x.len(), y),
{
    assert forall|m: int| 0 <= m < x.len() implies t[i + m] == x[m] by {
        lemma_word_char(t, i, x + y, m);
    }
    assert forall|m: int| 0 <= m < y.len() implies t[i + x.len() + m] == y[m] by {
        lemma_word_char(t, i, x + y, x.len() + m);
    }
    assert(t.subrange(i, i + x.len()) =~= x);
    assert(t.subrange(i + x.len(), i + x.len() + y.len()) =~= y);
}

proof fn lemma_digit_end_at(t: Seq<char>, i: int, j: int)
    requires
        0 <= i <= j <= t.len(),
        forall|k: int| i <= k < j ==> is_digit(#[trigger] t[k]),
        j == t.len() || !is_digit(t[j]),
    ensures
        digit_end(t, i) == j,
    decreases j - i,
{
    if i < j {
        lemma_digit_end_at(t, i + 1, j);
    }
}

proof fn lemma_locant_reads(t: Seq<char>, i: int, d: Seq<char>)
    requires
        locant_ok(d),
        word_at(t, i, d),
        i + d.len() == t.len() || !is_digit(t[i + d.len()]),
    ensures
        locant_at(t, i) == Some(d),
{
    assert forall|k: int| i <= k < i + d.len() implies is_digit(#[trigger] t[k]) by {
        lemma_word_char(t, i, d, k - i);
    }
    lemma_digit_end_at(t, i, i + d.len());
}

proof fn lemma_locants_read(t: Seq<char>, i: int, ls: Seq<Seq<char>>)
    requires
        ls.len() > 0,
        forall|k: int| 0 <= k < ls.len() ==> locant_ok(#[trigger] ls[k]),
        word_at(t, i, joined(ls, ',') + seq!['-']),
    ensures
        locants_at(t, i) == Some((ls, i + joined(ls, ',').len())),
    decreases ls.len(),
{
    let d = ls[0];
    assert(locant_ok(ls[0]));
    if ls.len() == 1 {
        lemma_split(t, i, d, seq!['-']);
        lemma_word_char(t, i + d.len(), seq!['-'], 0);
        lemma_locant_reads(t, i, d);
    } else {
        let rest = ls.drop_first();
        assert(seq![d] + rest =~= ls);
        lemma_joined_cons(d, rest, ',');
        let jr = joined(rest, ',');
        assert(joined(ls, ',') + seq!['-'] =~= d + (seq![','] + (jr + seq!['-'])));
        lemma_split(t, i, d, seq![','] + (jr + seq!['-']));
        lemma_split(t, i + d.len(), seq![','], jr + seq!['-']);
        lemma_word_char(t, i + d.len(), seq![','], 0);
        lemma_locant_reads(t, i, d);
        assert forall|k: int| 0 <= k < rest.len() implies locant_ok(#[trigger] rest[k]) by {
            assert(rest[k] == ls[k + 1]);
        }
        lemma_locants_read(t, i + d.len() + 1, rest);
    }
}

#[verifier::spinoff_prover]
proof fn lemma_base_reads(t: Seq<char>, i: int, b: Base)
    requires
        b != Base::Unknown,
        word_at(t, i, base_word(b)),
    ensures
        base_at(t, i) == Some(b),
{
    reveal_strlit("meth");
    reveal_strlit("eth");
    reveal_strlit("prop");
    reveal_strlit("but");
    reveal_strlit("pent");
    reveal_strlit("hex");
    reveal_strlit("hept");
    reveal_strlit("oct");
    let w = base_word(b);
    assert forall|m: int| 0 <= m < w.len() implies t[i + m] == w[m] by {
        lemma_word_char(t, i, w, m);
    }
    assert forall|v: Base| v != Base::Unknown && v != b implies !word_at(t, i, base_word(v)) by {
        if word_at(t, i, base_word(v)) {
            let u = base_word(v);
            assert forall|m: int| 0 <= m < u.len() implies t[i + m] == u[m] by {
                lemma_word_char(t, i, u, m);
            }
            assert(t[i] == w[0] && t[i] == u[0]);
            assert(t[i + 1] == w[1] && t[i + 1] == u[1]);
            assert(t[i + 2] == w[2] && t[i + 2] == u[2]);
        }
    }
}

#[verifier::spinoff_prover]
proof fn lemma_mult_reads(t: Seq<char>, i: int, m: nat, b: Base)
    requires
        m <= 3,
        b != Base::Unknown,
        word_at(t, i, mult_word(m) + base_word(b)),
    ensures
        mult_at(t, i) == m,
{
    reveal_strlit("di");
    reveal_strlit("tri");
    reveal_strlit("tetra");
    reveal_strlit("meth");
    reveal_strlit("eth");
    reveal_strlit("prop");
    reveal_strlit("but");
    reveal_strlit("pent");
    reveal_strlit("hex");
    reveal_strlit("hept");
    reveal_strlit("oct");
    let w = mult_word(m) + base_word(b);
    assert(w.len() >= 3);
    assert forall|k: int| 0 <= k < w.len() implies t[i + k] == w[k] by {
        lemma_word_char(t, i, w, k);
    }
    assert forall|v: nat| 1 <= v <= 3 && v != m implies !word_at(t, i, mult_word(v)) by {
        if word_at(t, i, mult_word(v)) {
            let u = mult_word(v);
            assert forall|k: int| 0 <= k < u.len() implies t[i + k] == u[k] by {
                lemma_word_char(t, i, u, k);
            }
            assert(t[i] == w[0] && t[i] == u[0]);
            assert(t[i + 1] == w[1] && t[i + 1] == u[1]);
        }
    }
    if m > 0 {
        lemma_split(t, i, mult_word(m), base_word(b));
    }
}

#[verifier::spinoff_prover]
proof fn lemma_clause_reads(t: Seq<char>, i: int, c: ClauseText)
    requires
        clause_ok(c),
        word_at(t, i, clause_text(c)),
    ensures
        clause_at(t, i) == Some((c, i + clause_text(c).len())),
{
    reveal_strlit("yl");
    let jl = joined(c.locants, ',');
    let mw = mult_word(c.mult);
    let bw = base_word(c.base);
    assert(clause_text(c) =~= (jl + seq!['-']) + ((mw + bw) + "yl"@));
    lemma_split(t, i, jl + seq!['-'], (mw + bw) + "yl"@);
    lemma_locants_read(t, i, c.locants);
    let j = i + jl.len();
    lemma_split(t, i, jl, seq!['-']);
    lemma_word_char(t, j, seq!['-'], 0);
    lemma_split(t, j + 1, mw + bw, "yl"@);
    lemma_mult_reads(t, j + 1, c.mult, c.base);
    lemma_split(t, j + 1, mw, bw);
    lemma_base_reads(t, j + 1 + mw.len(), c.base);
}

#[verifier::spinoff_prover]
proof fn lemma_clauses_read(t: Seq<char>, i: int, cs: Seq<ClauseText>)
    requires
        cs.len() > 0,
        forall|k: int| 0 <= k < cs.len() ==> clause_ok(#[trigger] cs[k]),
        word_at(t, i, joined(clause_texts(cs), '-')),
        ({
            let j = i + joined(clause_texts(cs), '-').len();
            j == t.len() || t[j] != '-'
        }),
    ensures
        clauses_at(t, i) == Some((cs, i + joined(clause_texts(cs), '-').len())),
    decreases cs.len(),
{
    reveal_strlit("yl");
    let c = cs[0];
    assert(clause_ok(cs[0]));
    let ct = clause_text(c);
    assert(ct.len() > 0);
    if cs.len() == 1 {
        assert(clause_texts(cs) =~= seq![ct]);
        lemma_clause_reads(t, i, c);
    } else {
        let rest = cs.drop_first();
        assert(clause_texts(cs) =~= seq![ct] + clause_texts(rest));
        lemma_joined_cons(ct, clause_texts(rest), '-');
        let jr = joined(clause_texts(rest), '-');
        assert(joined(clause_texts(cs), '-') =~= ct + (seq!['-'] + jr));
        lemma_split(t, i, ct, seq!['-'] + jr);
        lemma_split(t, i + ct.len(), seq!['-'], jr);
        lemma_word_char(t, i + ct.len(), seq!['-'], 0);
        lemma_clause_reads(t, i, c);
        assert forall|k: int| 0 <= k < rest.len() implies clause_ok(#[trigger] rest[k]) by {
            assert(rest[k] == cs[k + 1]);
        }
        lemma_clauses_read(t, i + ct.len() + 1, rest);
        assert(seq![c] + rest =~= cs);
    }
}

#[verifier::spinoff_prover]
proof fn lemma_ending_reads(t: Seq<char>, i: int, e: EndingText)
    requires
        ending_ok(e),
        0 <= i <= t.len(),
        t.subrange(i, t.len() as int) == ending_text(e),
    ensures
        ending_at(t, i) == Some(e),
{
    reveal_strlit("e");
    reveal_strlit("o\u{ef}que");
    reveal_strlit("al");
    reveal_strlit("one");
    reveal_strlit("ol");
    let rest = t.subrange(i, t.len() as int);
    if e.kind < 3 {
        assert(e.locant =~= Seq::<char>::empty());
    } else {
        let d = e.locant;
        let w = ending_word(e.kind);
        assert(rest[0] == '-');
        assert(rest != ending_word(0) && rest != ending_word(1) && rest != ending_word(2)) by {
            assert(ending_word(0)[0] != '-' && ending_word(1)[0] != '-' && ending_word(2)[0]
                != '-');
        }
        assert(word_at(t, i, rest));
        assert(ending_text(e) =~= seq!['-'] + (d + (seq!['-'] + w)));
        lemma_split(t, i, seq!['-'], d + (seq!['-'] + w));
        lemma_split(t, i + 1, d, seq!['-'] + w);
        lemma_split(t, i + 1 + d.len(), seq!['-'], w);
        lemma_word_char(t, i + 1 + d.len(), seq!['-'], 0);
        lemma_locant_reads(t, i + 1, d);
        let j = i + 1 + d.len();
        assert(t.subrange(j + 1, t.len() as int) =~= w);
        if e.kind == 4 {
            assert(w.len() != ending_word(3).len());
        }
    }
}

#[verifier::spinoff_prover]
proof fn lemma_parent_reads(t: Seq<char>, i: int, b: Base, e: EndingText)
    requires
        b != Base::Unknown,
        ending_ok(e),
        0 <= i <= t.len(),
        t.subrange(i, t.len() as int) == base_word(b) + "an"@ + ending_text(e),
    ensures
        parent_at(t, i) == Some((b, e)),
{
    reveal_strlit("an");
    let bw = base_word(b);
    let et = ending_text(e);
    assert(word_at(t, i, t.subrange(i, t.len() as int)));
    assert(bw + "an"@ + et =~= bw + ("an"@ + et));
    lemma_split(t, i, bw, "an"@ + et);
    lemma_split(t, i + bw.len(), "an"@, et);
    lemma_base_reads(t, i, b);
    let j = i + bw.len() + 2;
    assert(t.subrange(j, t.len() as int) =~= et);
    lemma_ending_reads(t, j, e);
}

proof fn lemma_base_first(b: Base)
    requires
        b != Base::Unknown,
    ensures
        base_word(b).len() > 0,
        !is_digit(base_word(b)[0]),
        base_word(b)[0] != '-',
{
    reveal_strlit("meth");
    reveal_strlit("eth");
    reveal_strlit("prop");
    reveal_strlit("but");
    reveal_strlit("pent");
    reveal_strlit("hex");
    reveal_strlit("hept");
    reveal_strlit("oct");
}

proof fn lemma_clauses_start_with_digit(cs: Seq<ClauseText>)
    requires
        cs.len() > 0,
        forall|k: int| 0 <= k < cs.len() ==> clause_ok(#[trigger] cs[k]),
    ensures
        joined(clause_texts(cs), '-').len() > 0,
        is_digit(joined(clause_texts(cs), '-')[0]),
{
    let c = cs[0];
    assert(clause_ok(c));
    assert(c.locants.len() > 0 && locant_ok(c.locants[0]));
    lemma_joined_first(c.locants, ',');
    assert(clause_texts(cs)[0] == clause_text(c));
    lemma_joined_first(clause_texts(cs), '-');
    assert(is_digit(c.locants[0][0]));
}

/// The text of every well-formed name reads back as that name.
#[verifier::spinoff_prover]
#[verifier::rlimit(40)]
pub proof fn lemma_spelling_reads(n: NameText)
    requires
        name_ok(n),
    ensures
        name_of_text(name_text(n)) == Some(n),
{
    lemma_base_first(n.base);
    let t = name_text(n);
    let jc = joined(clause_texts(n.clauses), '-');
    let p = base_word(n.base) + "an"@ + ending_text(n.ending);
    assert(t =~= jc + p);
    assert(p[0] == base_word(n.base)[0]);
    assert(t.subrange(0, t.len() as int) =~= jc + p);
    lemma_split(t, 0, jc, p);
    assert(t.subrange(jc.len() as int, t.len() as int) =~= p);
    lemma_parent_reads(t, jc.len() as int, n.base, n.ending);
    if n.clauses.len() == 0 {
        assert(jc.len() == 0);
        assert(n.clauses =~= Seq::<ClauseText>::empty());
    } else {
        lemma_clauses_read(t, 0, n.clauses);
        lemma_clauses_start_with_digit(n.clauses);
        assert(t[0] == jc[0]);
    }
}

/// Every well-formed name, written in any mix of cases, parses to the
/// compound that it describes.
pub proof fn lemma_names_parse(s: Seq<char>, n: NameText)
    requires
        name_ok(n),
        folded(s) == name_text(n),
    ensures
        parsed(s) == Some(compound_of(n)),
{
    lemma_spelling_reads(n);
}

/// A text that no well-formed name spells, in any mix of cases, does not
/// parse: `Compound::parse` returns `None` on it.
pub proof fn lemma_non_names_rejected(s: Seq<char>)
    requires
        forall|n: NameText| name_ok(n) ==> name_text(n) != folded(s),
    ensures
        parsed(s) is None,
{
    if name_of_text(folded(s)) is Some {
        lemma_reading_spells(folded(s));
    }
}

/// A clause with four or more locants keeps the first four, in order, and
/// drops the rest.
pub proof fn lemma_first_four_locants(ls: Seq<Seq<char>>)
    requires
        ls.len() >= 4,
    ensures
        slots(ls) == seq![
            Some(digits_value(ls[0]) as u8),
            Some(digits_value(ls[1]) as u8),
            Some(digits_value(ls[2]) as u8),
            Some(digits_value(ls[3]) as u8),
        ],
{
    assert(slots(ls) =~= seq![
        Some(digits_value(ls[0]) as u8),
        Some(digits_value(ls[1]) as u8),
        Some(digits_value(ls[2]) as u8),
        Some(digits_value(ls[3]) as u8),
    ]);
}

/// Parsing depends on the text alone: two calls on equal texts give equal
/// compounds, or `None` both times.
pub proof fn lemma_parse_deterministic(s1: Seq<char>, s2: Seq<char>)
    requires
        s1 == s2,
    ensures
        parsed(s1) == parsed(s2),
{
}

/// The upper case of a character of the alphabet in which names are
/// written: ASCII letters and the i with diaeresis; other characters stay.
pub open spec fn upper_char(c: char) -> char {
    if 'a' <= c && c <= 'z' {
        ((c as u8) - 32) as char
    } else if c == '\u{ef}' {
        '\u{cf}'
    } else {
        c
    }
}

pub open spec fn uppercased(s: Seq<char>) -> Seq<char> {
    s.map_values(|c: char| upper_char(c))
}

/// A text and its upper case parse to the same result.
pub proof fn lemma_case_insensitive(s: Seq<char>)
    ensures
        parsed(uppercased(s)) == parsed(s),
{
    assert forall|k: int| 0 <= k < s.len() implies fold_char(upper_char(s[k])) == fold_char(
        s[k],
    ) by {
        let c = s[k];
        if 'a' <= c && c <= 'z' {
            assert(((((c as u8) - 32) as char) as u8) + 32 == c as u8);
        }
    }
    assert(folded(uppercased(s)) =~= folded(s));
}

} // verus!
