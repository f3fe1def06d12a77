//! Parsing of organic compound names (linear alkanes with alkyl branches and
//! one terminal functional group) into a structured value.
//!
//! Names are read without regard to case. A name is an optional list of
//! substituent clauses (`1,5-diethyl`) followed by the parent chain and its
//! ending (`octan-2-ol`). Locants must fit in a byte.

pub mod lexicon;
pub mod grammar;
pub mod read;
pub mod laws;

use vstd::prelude::*;
pub use lexicon::{Base, Function};
use lexicon::{folded, folded_chars};
use grammar::{clause_at, clauses_at, ending_at, name_of_text, parent_at, NameText};
use read::{
    alkyls_of, alkyls_view, function_of, read_base, read_clause, read_clauses, read_ending,
    read_parent, Alkyl,
};

verus! {

/// The substituents of a compound in the order in which the name gives them;
/// each has up to four locants and the length of its chain.
#[derive(Debug, Clone, PartialEq, Eq)]
pub struct Alkyls(pub Vec<Alkyl>);

impl std::ops::Deref for Alkyls {
    type Target = Vec<Alkyl>;

    fn deref(&self) -> &Vec<Alkyl> {
        &self.0
    }
}

impl std::ops::DerefMut for Alkyls {
    fn deref_mut(&mut self) -> &mut Vec<Alkyl> {
        &mut self.0
    }
}

impl View for Alkyls {
    type V = Seq<(Seq<Option<u8>>, Base)>;

    open spec fn view(&self) -> Self::V {
        alkyls_view(self.0@)
    }
}

/// A parsed compound: its substituents, its parent chain and its
/// functional group.
#[derive(Debug, Clone, PartialEq, Eq)]
pub struct Compound {
    pub alkyls: Alkyls,
    pub alkane: Base,
    pub function: Function,
}

impl View for Compound {
    type V = (Seq<(Seq<Option<u8>>, Base)>, Base, Function);

    open spec fn view(&self) -> Self::V {
        (self.alkyls@, self.alkane, self.function)
    }
}

/// The compound that a name, as written, describes.
pub open spec fn compound_of(n: NameText) -> (Seq<(Seq<Option<u8>>, Base)>, Base, Function) {
    (alkyls_of(n.clauses), n.base, function_of(n.ending))
}

/// The compound that the text `s` names, if it is a name.
pub open spec fn parsed(s: Seq<char>) -> Option<(Seq<(Seq<Option<u8>>, Base)>, Base, Function)> {
    match name_of_text(folded(s)) {
        Some(n) => Some(compound_of(n)),
        None => None,
    }
}

impl Compound {
    /// Reads a whole name, in any mix of cases; `None` where the text is not
    /// one. `laws::lemma_names_parse` and `laws::lemma_non_names_rejected`
    /// state which texts these are: the spellings of well-formed names.
    pub fn parse(src: &str) -> (r: Option<Compound>)
        ensures
            match parsed(src@) {
                Some(m) => r matches Some(c) && c@ == m,
                None => r is None,
            },
    {
        let t = folded_chars(src);
        let (alkyls, i) = if t.len() > 0 && '0' <= t[0] && t[0] <= '9' {
            match read_clauses(&t, 0) {
                Some(p) => p,
                None => {
                    return None;
                },
            }
        } else {
            (Vec::new(), 0)
        };
        proof {
            assert(alkyls_view(Seq::<Alkyl>::empty()) =~= alkyls_of(Seq::empty()));
        }
        match read_parent(&t, i) {
            Some((alkane, function)) => Some(Compound { alkyls: Alkyls(alkyls), alkane, function }),
            None => None,
        }
    }

    /// The whole text is a name.
    pub fn is_name(src: &str) -> (r: bool)
        ensures
            r == (name_of_text(folded(src@)) is Some),
    {
        let t = folded_chars(src);
        if t.len() > 0 && '0' <= t[0] && t[0] <= '9' {
            match read_clauses(&t, 0) {
                Some((_, i)) => read_parent(&t, i).is_some(),
                None => false,
            }
        } else {
            read_parent(&t, 0).is_some()
        }
    }

    /// The whole text is a parent chain with its ending (`octan-2-ol`).
    pub fn is_parent_chain(src: &str) -> (r: bool)
        ensures
            r == (parent_at(folded(src@), 0) is Some),
    {
        let t = folded_chars(src);
        read_parent(&t, 0).is_some()
    }
}

impl Alkyls {
    /// The substituents of a text that is wholly a list of clauses
    /// (`1,5-dipentyl-2-ethyl`); none where it is not one.
    pub fn from_str(src: &str) -> (r: Alkyls)
        ensures
            match clauses_at(folded(src@), 0) {
                Some((cs, j)) => r@ == (if j == src@.len() { alkyls_of(cs) } else { Seq::empty() }),
                None => r@ == Seq::<(Seq<Option<u8>>, Base)>::empty(),
            },
    {
        let t = folded_chars(src);
        proof {
            assert(alkyls_view(Seq::<Alkyl>::empty()) =~= Seq::empty());
        }
        match read_clauses(&t, 0) {
            Some((v, j)) => if j == t.len() {
                Alkyls(v)
            } else {
                Alkyls(Vec::new())
            },
            None => Alkyls(Vec::new()),
        }
    }

    /// The whole text is a list of clauses.
    pub fn is_list(src: &str) -> (r: bool)
        ensures
            r == (clauses_at(folded(src@), 0) matches Some((_, j)) && j == src@.len()),
    {
        let t = folded_chars(src);
        match read_clauses(&t, 0) {
            Some((_, j)) => j == t.len(),
            None => false,
        }
    }

    /// The whole text is one clause (`1,5-dipentyl`).
    pub fn is_single(src: &str) -> (r: bool)
        ensures
            r == (clause_at(folded(src@), 0) matches Some((_, j)) && j == src@.len()),
    {
        let t = folded_chars(src);
        match read_clause(&t, 0) {
            Some((_, j)) => j == t.len(),
            None => false,
        }
    }
}

impl Base {
    /// The chain that a whole text names as a prefix (`meth`, `OCT`);
    /// `Unknown` for any other text.
    pub fn from_str(src: &str) -> (r: Base)
        ensures
            r == (match grammar::base_at(folded(src@), 0) {
                Some(b) => if lexicon::base_word(b).len() == src@.len() { b } else { Base::Unknown },
                None => Base::Unknown,
            }),
    {
        let t = folded_chars(src);
        match read_base(&t, 0) {
            Some((b, j)) => if j == t.len() {
                b
            } else {
                Base::Unknown
            },
            None => Base::Unknown,
        }
    }
}

impl Function {
    /// The functional group that a whole ending writes (`e`, `oïque`,
    /// `al`, `-2-one`, `-2-ol`); `Plain` for any other text.
    pub fn from_str(src: &str) -> (r: Function)
        ensures
            r == (match ending_at(folded(src@), 0) {
                Some(e) => function_of(e),
                None => Function::Plain,
            }),
    {
        let t = folded_chars(src);
        match read_ending(&t, 0) {
            Some(f) => f,
            None => Function::Plain,
        }
    }
}

} // verus!
