//! Real numbers as they are carried through the library.

use vstd::prelude::*;
use crate::text::{Separator, tokens_of, is_numeral, split, numeral, texts, digits_end};

verus! {

/// A real number that the library stores and hands on without computing with
/// it: the numeral it was written with, or the bits of a single-precision value.
#[derive(Debug)]
pub enum Scalar {
    Numeral(String),
    Bits(u32),
}

/// What a [`Scalar`] holds.
pub enum ScalarView {
    Numeral(Seq<char>),
    Bits(u32),
}

impl View for Scalar {
    type V = ScalarView;

    open spec fn view(&self) -> ScalarView {
        match self {
            Scalar::Numeral(s) => ScalarView::Numeral(s@),
            Scalar::Bits(b) => ScalarView::Bits(*b),
        }
    }
}

/// The views of a list of scalars.
pub open spec fn scalar_views(v: Seq<Scalar>) -> Seq<ScalarView> {
    Seq::new(v.len(), |i: int| v[i]@)
}

/// A list of texts as numerals.
pub open spec fn as_numerals(tokens: Seq<Seq<char>>) -> Seq<ScalarView> {
    Seq::new(tokens.len(), |i: int| ScalarView::Numeral(tokens[i]))
}

/// A list of bit patterns as scalars.
pub open spec fn as_bits(words: Seq<u32>) -> Seq<ScalarView> {
    Seq::new(words.len(), |i: int| ScalarView::Bits(words[i]))
}

/// Whether every text of a list is a numeral.
pub open spec fn all_numerals(tokens: Seq<Seq<char>>) -> bool {
    forall|i: int| 0 <= i < tokens.len() ==> is_numeral(#[trigger] tokens[i])
}

/// The numerals that a value spells under a separator, where each of its
/// tokens is one.
pub open spec fn numerals_of(sep: Separator, value: Seq<char>) -> Option<Seq<ScalarView>> {
    if all_numerals(tokens_of(sep, value)) {
        Some(as_numerals(tokens_of(sep, value)))
    } else {
        None
    }
}

/// The numeral `0`.
pub open spec fn zero() -> ScalarView {
    ScalarView::Numeral("0"@)
}

/// The numeral `1`.
pub open spec fn one() -> ScalarView {
    ScalarView::Numeral("1"@)
}

/// A scalar stands for a number when its text, if it has one, is a numeral.
pub open spec fn is_number(v: ScalarView) -> bool {
    match v {
        ScalarView::Numeral(t) => is_numeral(t),
        ScalarView::Bits(_) => true,
    }
}

/// Whether every scalar of a list stands for a number.
pub open spec fn all_numbers(s: Seq<ScalarView>) -> bool {
    forall|i: int| 0 <= i < s.len() ==> is_number(#[trigger] s[i])
}

/// The numerals `0` and `1` stand for numbers.
pub proof fn lemma_zero_one()
    ensures
        is_number(zero()),
        is_number(one()),
{
    reveal_strlit("0");
    reveal_strlit("1");
    reveal_with_fuel(digits_end, 3);
    assert("0"@.len() == 1 && "0"@[0] == '0');
    assert("1"@.len() == 1 && "1"@[0] == '1');
    assert(digits_end("0"@, 0) == 1);
    assert(digits_end("1"@, 0) == 1);
}

/// What was read as numerals stands for numbers.
pub proof fn lemma_numerals_are_numbers(tokens: Seq<Seq<char>>)
    requires
        all_numerals(tokens),
    ensures
        all_numbers(as_numerals(tokens)),
{
}

/// Bit patterns stand for numbers.
pub proof fn lemma_bits_are_numbers(words: Seq<u32>)
    ensures
        all_numbers(as_bits(words)),
{
}

impl Scalar {
    /// A scalar is well formed when it stands for a number.
    pub open spec fn wf(&self) -> bool {
        is_number(self@)
    }

    /// The numeral `0`.
    pub fn zero() -> (r: Scalar)
        ensures
            r@ == zero(),
    {
        Scalar::Numeral("0".to_owned())
    }

    /// The numeral `1`.
    pub fn one() -> (r: Scalar)
        ensures
            r@ == one(),
    {
        Scalar::Numeral("1".to_owned())
    }

    /// A scalar that holds what this one holds.
    pub fn copy(&self) -> (r: Scalar)
        ensures
            r@ == self@,
    {
        match self {
            Scalar::Numeral(s) => Scalar::Numeral(s.clone()),
            Scalar::Bits(b) => Scalar::Bits(*b),
        }
    }
}

/// A copy of a list of scalars.
pub fn copy_scalars(v: &Vec<Scalar>) -> (r: Vec<Scalar>)
    ensures
        scalar_views(r@) == scalar_views(v@),
{
    let mut r: Vec<Scalar> = Vec::new();
    let mut i: usize = 0;
    while i < v.len()
        invariant
            i <= v.len(),
            r.len() == i,
            forall|j: int| 0 <= j < i ==> r[j]@ == v[j]@,
        decreases v.len() - i,
    {
        r.push(v[i].copy());
        i += 1;
    }
    assert(scalar_views(r@) =~= scalar_views(v@));
    r
}

/// The scalars that stand for a list of bit patterns.
pub fn scalars_of_bits(words: &Vec<u32>) -> (r: Vec<Scalar>)
    ensures
        scalar_views(r@) == as_bits(words@),
{
    let mut r: Vec<Scalar> = Vec::new();
    let mut i: usize = 0;
    while i < words.len()
        invariant
            i <= words.len(),
            r.len() == i,
            forall|j: int| 0 <= j < i ==> r[j]@ == ScalarView::Bits(words[j]),
        decreases words.len() - i,
    {
        r.push(Scalar::Bits(words[i]));
        i += 1;
    }
    assert(scalar_views(r@) =~= as_bits(words@));
    r
}

/// Reads a list of numerals: `None` where a token is no numeral.
pub fn parse_scalars(sep: Separator, value: &str) -> (r: Option<Vec<Scalar>>)
    ensures
        match r {
            Some(v) => numerals_of(sep, value@) == Some(scalar_views(v@)),
            None => numerals_of(sep, value@) is None,
        },
{
    let tokens = split(sep, value);
    let ghost toks = tokens_of(sep, value@);
    let mut out: Vec<Scalar> = Vec::new();
    let mut i: usize = 0;
    while i < tokens.len()
        invariant
            toks == tokens_of(sep, value@),
            texts(tokens@) == toks,
            i <= tokens.len(),
            out.len() == i,
            forall|j: int| 0 <= j < i ==> is_numeral(#[trigger] toks[j]),
            forall|j: int| 0 <= j < i ==> out[j]@ == ScalarView::Numeral(toks[j]),
        decreases tokens.len() - i,
    {
        assert(toks[i as int] == tokens[i as int]@);
        if !numeral(tokens[i].as_str()) {
            assert(!is_numeral(toks[i as int]));
            return None;
        }
        out.push(Scalar::Numeral(tokens[i].clone()));
        i += 1;
    }
    assert(toks.len() == tokens.len());
    assert(scalar_views(out@) =~= as_numerals(toks));
    Some(out)
}

} // verus!
