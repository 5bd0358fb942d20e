//! Decoded constant terms.

use vstd::prelude::*;
use crate::atom::Atom;

verus! {

/// A decoded constant.
///
/// A float is held by its IEEE 754 bits. A big integer is a sign byte (1 for
/// negative) followed by the magnitude, least significant byte first.
#[derive(Debug, PartialEq, Eq)]
pub enum Literal {
    Integer(i64),
    Float(u64),
    BigInteger(Vec<u8>),
    Atom(Atom),
    Binary(Vec<u8>),
    Tuple(Vec<Literal>),
    Nil,
    List(Vec<Literal>, Box<Literal>),
    MapPairs(Vec<(Literal, Literal)>),
    String(Vec<u8>),
}

/// A [`Literal`] with sequences in place of vectors.
#[verifier::ext_equal]
pub enum LiteralView {
    Integer(i64),
    Float(u64),
    BigInteger(Seq<u8>),
    Atom(Atom),
    Binary(Seq<u8>),
    Tuple(Seq<LiteralView>),
    Nil,
    List(Seq<LiteralView>, Box<LiteralView>),
    MapPairs(Seq<(LiteralView, LiteralView)>),
    String(Seq<u8>),
}

impl Literal {
    pub open spec fn view(&self) -> LiteralView
        decreases self,
    {
        match self {
            Literal::Integer(n) => LiteralView::Integer(*n),
            Literal::Float(bits) => LiteralView::Float(*bits),
            Literal::BigInteger(bytes) => LiteralView::BigInteger(bytes@),
            Literal::Atom(atom) => LiteralView::Atom(*atom),
            Literal::Binary(bytes) => LiteralView::Binary(bytes@),
            Literal::Tuple(items) => LiteralView::Tuple(
                Seq::new(
                    items@.len(),
                    |i: int|
                        if 0 <= i < items@.len() {
                            items@[i].view()
                        } else {
                            arbitrary()
                        },
                ),
            ),
            Literal::Nil => LiteralView::Nil,
            Literal::List(items, tail) => LiteralView::List(
                Seq::new(
                    items@.len(),
                    |i: int|
                        if 0 <= i < items@.len() {
                            items@[i].view()
                        } else {
                            arbitrary()
                        },
                ),
                Box::new(tail.view()),
            ),
            Literal::MapPairs(pairs) => LiteralView::MapPairs(
                Seq::new(
                    pairs@.len(),
                    |i: int|
                        if 0 <= i < pairs@.len() {
                            (pairs@[i].0.view(), pairs@[i].1.view())
                        } else {
                            arbitrary()
                        },
                ),
            ),
            Literal::String(bytes) => LiteralView::String(bytes@),
        }
    }
}

/// The views of a sequence of literals.
pub open spec fn literal_views(literals: Seq<Literal>) -> Seq<LiteralView> {
    Seq::new(literals.len(), |i: int| literals[i].view())
}

/// The views of a sequence of literal pairs.
pub open spec fn pair_views(pairs: Seq<(Literal, Literal)>) -> Seq<(LiteralView, LiteralView)> {
    Seq::new(pairs.len(), |i: int| (pairs[i].0.view(), pairs[i].1.view()))
}

pub proof fn lemma_literal_views_push(literals: Seq<Literal>, last: Literal)
    ensures
        literal_views(literals.push(last)) == literal_views(literals).push(last.view()),
{
    assert(literal_views(literals.push(last)) =~= literal_views(literals).push(last.view()));
}

pub proof fn lemma_pair_views_push(pairs: Seq<(Literal, Literal)>, key: Literal, value: Literal)
    ensures
        pair_views(pairs.push((key, value))) == pair_views(pairs).push((key.view(), value.view())),
{
    assert(pair_views(pairs.push((key, value))) =~= pair_views(pairs).push(
        (key.view(), value.view()),
    ));
}

pub proof fn lemma_tuple_view(items: Vec<Literal>)
    ensures
        Literal::Tuple(items).view() == LiteralView::Tuple(literal_views(items@)),
{
    assert(Literal::Tuple(items).view()->Tuple_0 =~= literal_views(items@));
}

pub proof fn lemma_list_view(items: Vec<Literal>, tail: Box<Literal>)
    ensures
        Literal::List(items, tail).view() == LiteralView::List(
            literal_views(items@),
            Box::new(tail.view()),
        ),
{
    assert(Literal::List(items, tail).view()->List_0 =~= literal_views(items@));
}

pub proof fn lemma_map_view(pairs: Vec<(Literal, Literal)>)
    ensures
        Literal::MapPairs(pairs).view() == LiteralView::MapPairs(pair_views(pairs@)),
{
    assert(Literal::MapPairs(pairs).view()->MapPairs_0 =~= pair_views(pairs@));
}

/// Copies of the literals in `items`.
pub fn copy_literals(items: &Vec<Literal>) -> (r: Vec<Literal>)
    ensures
        literal_views(r@) == literal_views(items@),
    decreases items,
{
    let mut copy: Vec<Literal> = Vec::new();
    let mut i: usize = 0;
    while i < items.len()
        invariant
            i <= items@.len(),
            literal_views(copy@) == literal_views(items@).take(i as int),
        decreases items@.len() - i,
    {
        proof {
            assert(decreases_to!(items => items@[i as int]));
        }
        let item = copy_literal(&items[i]);
        proof {
            lemma_literal_views_push(copy@, item);
        }
        copy.push(item);
        i += 1;
        assert(literal_views(copy@) =~= literal_views(items@).take(i as int));
    }
    assert(literal_views(items@).take(items@.len() as int) =~= literal_views(items@));
    copy
}

fn copy_pairs(pairs: &Vec<(Literal, Literal)>) -> (r: Vec<(Literal, Literal)>)
    ensures
        pair_views(r@) == pair_views(pairs@),
    decreases pairs,
{
    let mut copy: Vec<(Literal, Literal)> = Vec::new();
    let mut i: usize = 0;
    while i < pairs.len()
        invariant
            i <= pairs@.len(),
            pair_views(copy@) == pair_views(pairs@).take(i as int),
        decreases pairs@.len() - i,
    {
        proof {
            assert(decreases_to!(pairs => pairs@[i as int]));
            assert(decreases_to!(pairs@[i as int] => pairs@[i as int].0));
            assert(decreases_to!(pairs@[i as int] => pairs@[i as int].1));
        }
        let key = copy_literal(&pairs[i].0);
        let value = copy_literal(&pairs[i].1);
        proof {
            lemma_pair_views_push(copy@, key, value);
        }
        copy.push((key, value));
        i += 1;
        assert(pair_views(copy@) =~= pair_views(pairs@).take(i as int));
    }
    assert(pair_views(pairs@).take(pairs@.len() as int) =~= pair_views(pairs@));
    copy
}

fn copy_literal(literal: &Literal) -> (r: Literal)
    ensures
        r.view() == literal.view(),
    decreases literal,
{
    match literal {
        Literal::Integer(n) => Literal::Integer(*n),
        Literal::Float(bits) => Literal::Float(*bits),
        Literal::BigInteger(bytes) => Literal::BigInteger(
            vstd::slice::slice_to_vec(bytes.as_slice()),
        ),
        Literal::Atom(atom) => Literal::Atom(*atom),
        Literal::Binary(bytes) => Literal::Binary(vstd::slice::slice_to_vec(bytes.as_slice())),
        Literal::Tuple(items) => {
            let copy = copy_literals(items);
            proof {
                lemma_tuple_view(copy);
                lemma_tuple_view(*items);
            }
            Literal::Tuple(copy)
        },
        Literal::Nil => Literal::Nil,
        Literal::List(items, tail) => {
            let copy = copy_literals(items);
            let tail_copy = Box::new(copy_literal(tail));
            proof {
                lemma_list_view(copy, tail_copy);
                lemma_list_view(*items, *tail);
            }
            Literal::List(copy, tail_copy)
        },
        Literal::MapPairs(pairs) => {
            let copy = copy_pairs(pairs);
            proof {
                lemma_map_view(copy);
                lemma_map_view(*pairs);
            }
            Literal::MapPairs(copy)
        },
        Literal::String(bytes) => Literal::String(vstd::slice::slice_to_vec(bytes.as_slice())),
    }
}

impl Clone for Literal {
    fn clone(&self) -> (r: Self)
        ensures
            r.view() == self.view(),
    {
        copy_literal(self)
    }
}

} // verus!
