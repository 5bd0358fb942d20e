//! Laws of the node budget: decoding a term costs a node for each term in it.

use vstd::layout::size_of;
use vstd::prelude::*;
use super::bounded::{u32_at, u8_at};
use super::budget::node_charged;
use super::etf::{
    at, entered, list_term, pairs_at, spent, tagged_term, term_at, terms_at, tuple_term, EtfState,
};
use super::literal::{Literal, LiteralView};

verus! {

/// How many terms there are in a term, itself among them.
pub open spec fn term_count(term: LiteralView) -> nat
    decreases term, 0nat,
{
    match term {
        LiteralView::Tuple(items) => 1 + terms_count(items, items.len()),
        LiteralView::List(items, tail) => 1 + terms_count(items, items.len()) + term_count(*tail),
        LiteralView::MapPairs(pairs) => 1 + pairs_count(pairs, pairs.len()),
        _ => 1,
    }
}

/// How many terms there are in the first `n` terms.
pub open spec fn terms_count(items: Seq<LiteralView>, n: nat) -> nat
    decreases items, n,
{
    if n == 0 || n > items.len() {
        0
    } else {
        terms_count(items, (n - 1) as nat) + term_count(items[n - 1])
    }
}

/// How many terms there are in the first `n` pairs.
pub open spec fn pairs_count(pairs: Seq<(LiteralView, LiteralView)>, n: nat) -> nat
    decreases pairs, n,
{
    if n == 0 || n > pairs.len() {
        0
    } else {
        pairs_count(pairs, (n - 1) as nat) + term_count(pairs[n - 1].0) + term_count(
            pairs[n - 1].1,
        )
    }
}

proof fn lemma_terms_count_prefix(items: Seq<LiteralView>, more: Seq<LiteralView>, n: nat)
    requires
        n <= items.len() <= more.len(),
        forall|i: int| 0 <= i < n ==> items[i] == more[i],
    ensures
        terms_count(items, n) == terms_count(more, n),
    decreases n,
{
    if n > 0 {
        lemma_terms_count_prefix(items, more, (n - 1) as nat);
    }
}

proof fn lemma_pairs_count_prefix(
    pairs: Seq<(LiteralView, LiteralView)>,
    more: Seq<(LiteralView, LiteralView)>,
    n: nat,
)
    requires
        n <= pairs.len() <= more.len(),
        forall|i: int| 0 <= i < n ==> pairs[i] == more[i],
    ensures
        pairs_count(pairs, n) == pairs_count(more, n),
    decreases n,
{
    if n > 0 {
        lemma_pairs_count_prefix(pairs, more, (n - 1) as nat);
    }
}

/// How many nodes are left.
spec fn nodes(s: EtfState) -> int {
    s.budget.nodes_remaining as int
}

proof fn lemma_term(b: Seq<u8>, depth: nat, s: EtfState)
    requires
        term_at(b, depth, s).0 is Ok,
    ensures
        nodes(term_at(b, depth, s).1) == nodes(s) - term_count(term_at(b, depth, s).0->Ok_0),
    decreases depth, 2nat,
{
    let budget = node_charged(s.budget).1;
    let p = s.pos + 1;
    let t = at(spent(s, budget), p);
    lemma_tagged(b, b[s.pos as int], depth, t);
}

proof fn lemma_tagged(b: Seq<u8>, tag: u8, depth: nat, s: EtfState)
    requires
        tagged_term(b, tag, depth, s).0 is Ok,
    ensures
        nodes(tagged_term(b, tag, depth, s).1) == nodes(s) + 1 - term_count(
            tagged_term(b, tag, depth, s).0->Ok_0,
        ),
    decreases depth, 1nat,
{
    if tag == 104 {
        let (arity, p) = u8_at(b, s.pos);
        lemma_tuple(b, arity->Ok_0 as nat, depth, at(s, p));
    } else if tag == 105 {
        let (arity, p) = u32_at(b, s.pos);
        lemma_tuple(b, arity->Ok_0 as nat, depth, at(s, p));
    } else if tag == 108 {
        let (len, p) = u32_at(b, s.pos);
        lemma_list(b, len->Ok_0 as nat, depth, at(s, p));
    } else if tag == 113 {
        lemma_terms(b, 3, Seq::empty(), (depth - 1) as nat, s);
    } else if tag == 116 {
        let (len, p) = u32_at(b, s.pos);
        let t = at(s, p);
        let (_, u) = entered(
            b,
            len->Ok_0 as nat,
            2,
            size_of::<(Literal, Literal)>(),
            "ETF map size"@,
            "ETF map allocation size overflow"@,
            depth,
            t,
        );
        lemma_pairs(b, len->Ok_0 as nat, Seq::empty(), (depth - 1) as nat, u);
    }
}

proof fn lemma_tuple(b: Seq<u8>, arity: nat, depth: nat, s: EtfState)
    requires
        tuple_term(b, arity, depth, s).0 is Ok,
    ensures
        nodes(tuple_term(b, arity, depth, s).1) == nodes(s) + 1 - term_count(
            tuple_term(b, arity, depth, s).0->Ok_0,
        ),
    decreases depth, 0nat,
{
    let (_, t) = entered(
        b,
        arity,
        1,
        size_of::<Literal>(),
        "ETF tuple arity"@,
        "ETF tuple allocation size overflow"@,
        depth,
        s,
    );
    lemma_terms(b, arity, Seq::empty(), (depth - 1) as nat, t);
}

proof fn lemma_list(b: Seq<u8>, len: nat, depth: nat, s: EtfState)
    requires
        list_term(b, len, depth, s).0 is Ok,
    ensures
        nodes(list_term(b, len, depth, s).1) == nodes(s) + 1 - term_count(
            list_term(b, len, depth, s).0->Ok_0,
        ),
    decreases depth, 0nat,
{
    let (_, t) = entered(
        b,
        len,
        1,
        size_of::<Literal>(),
        "ETF list length"@,
        "ETF list allocation size overflow"@,
        depth,
        s,
    );
    lemma_terms(b, len, Seq::empty(), (depth - 1) as nat, t);
    let (_, u) = terms_at(b, len, Seq::empty(), (depth - 1) as nat, t);
    lemma_term(b, (depth - 1) as nat, u);
}

proof fn lemma_terms(b: Seq<u8>, n: nat, found: Seq<LiteralView>, depth: nat, s: EtfState)
    requires
        terms_at(b, n, found, depth, s).0 is Ok,
    ensures
        ({
            let (items, t) = terms_at(b, n, found, depth, s);
            &&& items->Ok_0.len() == found.len() + n
            &&& nodes(t) == nodes(s) + terms_count(found, found.len()) - terms_count(
                items->Ok_0,
                items->Ok_0.len(),
            )
        }),
    decreases depth, n + 3,
{
    if n > 0 {
        lemma_term(b, depth, s);
        let (term, t) = term_at(b, depth, s);
        let more = found.push(term->Ok_0);
        lemma_terms_count_prefix(found, more, found.len());
        lemma_terms(b, (n - 1) as nat, more, depth, t);
    }
}

proof fn lemma_pairs(
    b: Seq<u8>,
    n: nat,
    found: Seq<(LiteralView, LiteralView)>,
    depth: nat,
    s: EtfState,
)
    requires
        pairs_at(b, n, found, depth, s).0 is Ok,
    ensures
        ({
            let (pairs, t) = pairs_at(b, n, found, depth, s);
            &&& pairs->Ok_0.len() == found.len() + n
            &&& nodes(t) == nodes(s) + pairs_count(found, found.len()) - pairs_count(
                pairs->Ok_0,
                pairs->Ok_0.len(),
            )
        }),
    decreases depth, n + 3,
{
    if n > 0 {
        lemma_term(b, depth, s);
        let (key, t) = term_at(b, depth, s);
        lemma_term(b, depth, t);
        let (value, u) = term_at(b, depth, t);
        let more = found.push((key->Ok_0, value->Ok_0));
        lemma_pairs_count_prefix(found, more, found.len());
        lemma_pairs(b, (n - 1) as nat, more, depth, u);
    }
}

/// Decoding a term costs as many nodes as there are terms in it.
pub proof fn law_nodes_are_counted(b: Seq<u8>, depth: nat, s: EtfState)
    requires
        term_at(b, depth, s).0 is Ok,
    ensures
        term_at(b, depth, s).1.budget.nodes_remaining == s.budget.nodes_remaining - term_count(
            term_at(b, depth, s).0->Ok_0,
        ),
{
    lemma_term(b, depth, s);
}

} // verus!
