//! How attribute values compare: with the text of a filter argument, and
//! with one another when a collection is sorted.

use crate::error::{failure, Error, ErrorKind};
use crate::model::resource::{AttributeValue, ValueView};
use crate::text::{
    bool_of_text, chars_before, chars_eq, chars_of, glob_match, glob_matches, i64_of_text,
    lemma_text_before_asymmetric, lemma_text_before_irreflexive, lemma_text_before_total,
    lemma_text_before_transitive, parse_bool, parse_i64, text_before,
};
use vstd::prelude::*;
use vstd::string::*;

verus! {

/// Where one value stands relative to another.
#[derive(Clone, Copy, Debug, PartialEq, Eq, Structural)]
pub enum Rank {
    Before,
    Same,
    After,
}

impl Rank {
    /// The rank seen from the other side.
    pub open spec fn reversed(self) -> Rank {
        match self {
            Rank::Before => Rank::After,
            Rank::Same => Rank::Same,
            Rank::After => Rank::Before,
        }
    }

    /// The rank seen from the other side.
    pub fn reverse(self) -> (r: Rank)
        ensures
            r == self.reversed(),
    {
        match self {
            Rank::Before => Rank::After,
            Rank::Same => Rank::Same,
            Rank::After => Rank::Before,
        }
    }
}

/// Integers in their numeric order.
pub open spec fn rank_of_ints(a: int, b: int) -> Rank {
    if a < b {
        Rank::Before
    } else if a == b {
        Rank::Same
    } else {
        Rank::After
    }
}

/// Texts in lexical order.
pub open spec fn rank_of_texts(a: Seq<char>, b: Seq<char>) -> Rank {
    if text_before(a, b) {
        Rank::Before
    } else if a == b {
        Rank::Same
    } else {
        Rank::After
    }
}

/// Truth values: `false` before `true`.
pub open spec fn rank_of_bools(a: bool, b: bool) -> Rank {
    if !a && b {
        Rank::Before
    } else if a == b {
        Rank::Same
    } else {
        Rank::After
    }
}

/// Whether `value` equals what `arg` writes, read as a value of the same
/// type: an integer is compared as a number, a truth value as such, and
/// text is matched against `arg` as a pattern in which `*` stands for any
/// run of characters. `None` where `arg` writes no value of that type, or
/// the type is one that the engine does not compare.
pub open spec fn equals_text(value: ValueView, arg: Seq<char>) -> Option<bool> {
    match value {
        ValueView::Text(s) => Some(glob_matches(arg, s)),
        ValueView::Integer(n) => match i64_of_text(arg) {
            Some(m) => Some(n == m),
            None => None,
        },
        ValueView::Bool(b) => match bool_of_text(arg) {
            Some(c) => Some(b == c),
            None => None,
        },
        ValueView::Null => None,
        ValueView::Other(_) => None,
    }
}

/// Where `value` stands relative to what `arg` writes, in the order of its
/// type: numeric for integers, lexical for text, `false` before `true`.
/// `None` as for `equals_text`.
pub open spec fn rank_against_text(value: ValueView, arg: Seq<char>) -> Option<Rank> {
    match value {
        ValueView::Text(s) => Some(rank_of_texts(s, arg)),
        ValueView::Integer(n) => match i64_of_text(arg) {
            Some(m) => Some(rank_of_ints(n as int, m as int)),
            None => None,
        },
        ValueView::Bool(b) => match bool_of_text(arg) {
            Some(c) => Some(rank_of_bools(b, c)),
            None => None,
        },
        ValueView::Null => None,
        ValueView::Other(_) => None,
    }
}

/// The place of a value's type among the types.
pub open spec fn type_index(value: ValueView) -> int {
    match value {
        ValueView::Null => 0,
        ValueView::Bool(_) => 1,
        ValueView::Integer(_) => 2,
        ValueView::Text(_) => 3,
        ValueView::Other(_) => 4,
    }
}

/// Where `a` stands relative to `b`: values of one type in the order of
/// that type, values of different types by their types. Values that the
/// engine does not compare all rank the same.
pub open spec fn rank_of_values(a: ValueView, b: ValueView) -> Rank {
    match (a, b) {
        (ValueView::Bool(x), ValueView::Bool(y)) => rank_of_bools(x, y),
        (ValueView::Integer(x), ValueView::Integer(y)) => rank_of_ints(x as int, y as int),
        (ValueView::Text(x), ValueView::Text(y)) => rank_of_texts(x, y),
        _ => rank_of_ints(type_index(a), type_index(b)),
    }
}

/// Seen from the other side a rank is reversed.
pub proof fn lemma_rank_reverses(a: ValueView, b: ValueView)
    ensures
        rank_of_values(b, a) == rank_of_values(a, b).reversed(),
{
    match (a, b) {
        (ValueView::Text(x), ValueView::Text(y)) => {
            if text_before(x, y) {
                lemma_text_before_asymmetric(x, y);
                lemma_text_before_irreflexive(x);
            } else if x != y {
                lemma_text_before_total(x, y);
            } else {
                lemma_text_before_irreflexive(x);
            }
        },
        _ => {},
    }
}

/// Ranks chain: from the ranks of `a` to `b` and of `b` to `c` follows that
/// of `a` to `c`, unless the two point in opposite directions.
pub proof fn lemma_rank_chains(a: ValueView, b: ValueView, c: ValueView)
    ensures
        rank_of_values(a, b) == Rank::Same ==> rank_of_values(a, c) == rank_of_values(b, c),
        rank_of_values(b, c) == Rank::Same ==> rank_of_values(a, c) == rank_of_values(a, b),
        rank_of_values(a, b) == Rank::Before && rank_of_values(b, c) == Rank::Before
            ==> rank_of_values(a, c) == Rank::Before,
        rank_of_values(a, b) == Rank::After && rank_of_values(b, c) == Rank::After
            ==> rank_of_values(a, c) == Rank::After,
{
    match (a, b, c) {
        (ValueView::Text(x), ValueView::Text(y), ValueView::Text(z)) => {
            lemma_text_before_irreflexive(x);
            lemma_text_before_irreflexive(y);
            lemma_text_before_irreflexive(z);
            if text_before(x, y) && text_before(y, z) {
                lemma_text_before_transitive(x, y, z);
            }
            if x != y && !text_before(x, y) {
                lemma_text_before_total(x, y);
            }
            if y != z && !text_before(y, z) {
                lemma_text_before_total(y, z);
            }
            if text_before(z, y) && text_before(y, x) {
                lemma_text_before_transitive(z, y, x);
                lemma_text_before_asymmetric(z, x);
            }
        },
        _ => {},
    }
}

/// The rank of `a` relative to `b`, in lexical order.
pub fn rank_texts(a: &str, b: &str) -> (r: Rank)
    ensures
        r == rank_of_texts(a@, b@),
{
    let x = chars_of(a);
    let y = chars_of(b);
    if chars_before(&x, &y) {
        Rank::Before
    } else if chars_eq(&x, &y) {
        Rank::Same
    } else {
        Rank::After
    }
}

/// The rank of `a` relative to `b`, in numeric order.
pub fn rank_ints(a: i64, b: i64) -> (r: Rank)
    ensures
        r == rank_of_ints(a as int, b as int),
{
    if a < b {
        Rank::Before
    } else if a == b {
        Rank::Same
    } else {
        Rank::After
    }
}

/// The rank of `a` relative to `b`, `false` before `true`.
pub fn rank_bools(a: bool, b: bool) -> (r: Rank)
    ensures
        r == rank_of_bools(a, b),
{
    if !a && b {
        Rank::Before
    } else if a == b {
        Rank::Same
    } else {
        Rank::After
    }
}

impl AttributeValue {
    /// Whether the value equals what `arg` writes, where `arg` writes a
    /// value of its type.
    pub fn equals(&self, arg: &str) -> (r: Option<bool>)
        ensures
            r == equals_text(self@, arg@),
    {
        match self {
            AttributeValue::Text(s) => Some(glob_match(arg, s.as_str())),
            AttributeValue::Integer(n) => match parse_i64(arg) {
                Some(m) => Some(*n == m),
                None => None,
            },
            AttributeValue::Bool(b) => match parse_bool(arg) {
                Some(c) => Some(*b == c),
                None => None,
            },
            AttributeValue::Null => None,
            AttributeValue::Other(_) => None,
        }
    }

    /// Where the value stands relative to what `arg` writes, where `arg`
    /// writes a value of its type.
    pub fn rank_against(&self, arg: &str) -> (r: Option<Rank>)
        ensures
            r == rank_against_text(self@, arg@),
    {
        match self {
            AttributeValue::Text(s) => Some(rank_texts(s.as_str(), arg)),
            AttributeValue::Integer(n) => match parse_i64(arg) {
                Some(m) => Some(rank_ints(*n, m)),
                None => None,
            },
            AttributeValue::Bool(b) => match parse_bool(arg) {
                Some(c) => Some(rank_bools(*b, c)),
                None => None,
            },
            AttributeValue::Null => None,
            AttributeValue::Other(_) => None,
        }
    }

    /// Whether the value equals what `arg` writes. Where `arg` cannot be
    /// read as a value of this type the answer is `WrongFieldType`, about
    /// the attribute `field`.
    pub fn eq_with_str(&self, arg: &str, field: &str) -> (r: Result<bool, Error>)
        ensures
            match r {
                Ok(b) => equals_text(self@, arg@) == Some(b),
                Err(e) => equals_text(self@, arg@) is None && e@ == failure(
                    ErrorKind::WrongFieldType,
                    field@,
                    arg@,
                ),
            },
    {
        match self.equals(arg) {
            Some(b) => Ok(b),
            None => Err(Error::new(ErrorKind::WrongFieldType, field, arg)),
        }
    }

    /// Where the value stands relative to what `arg` writes, with
    /// `WrongFieldType` as for `eq_with_str`.
    pub fn rank_with_str(&self, arg: &str, field: &str) -> (r: Result<Rank, Error>)
        ensures
            match r {
                Ok(rank) => rank_against_text(self@, arg@) == Some(rank),
                Err(e) => rank_against_text(self@, arg@) is None && e@ == failure(
                    ErrorKind::WrongFieldType,
                    field@,
                    arg@,
                ),
            },
    {
        match self.rank_against(arg) {
            Some(rank) => Ok(rank),
            None => Err(Error::new(ErrorKind::WrongFieldType, field, arg)),
        }
    }

    /// Where the value stands relative to `other`.
    pub fn rank(&self, other: &AttributeValue) -> (r: Rank)
        ensures
            r == rank_of_values(self@, other@),
    {
        match (self, other) {
            (AttributeValue::Bool(x), AttributeValue::Bool(y)) => rank_bools(*x, *y),
            (AttributeValue::Integer(x), AttributeValue::Integer(y)) => rank_ints(*x, *y),
            (AttributeValue::Text(x), AttributeValue::Text(y)) => rank_texts(
                x.as_str(),
                y.as_str(),
            ),
            _ => rank_ints(self.type_number(), other.type_number()),
        }
    }

    fn type_number(&self) -> (n: i64)
        ensures
            n == type_index(self@),
    {
        match self {
            AttributeValue::Null => 0,
            AttributeValue::Bool(_) => 1,
            AttributeValue::Integer(_) => 2,
            AttributeValue::Text(_) => 3,
            AttributeValue::Other(_) => 4,
        }
    }
}

} // verus!
