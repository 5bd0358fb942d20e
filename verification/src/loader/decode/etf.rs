//! Literals in the External Term Format.
//!
//! Nesting, decoded nodes, and bytes are budgeted, so that a crafted literal
//! table cannot exhaust the stack or the memory of the loader.

use vstd::layout::size_of;
use vstd::prelude::*;
use vstd::string::*;
use vstd::utf8::{decode_utf8, valid_utf8};
use crate::atom::{atom_named, interned, AtomTable, ATOM_LIMIT};
use crate::error::{decode_error, decode_fault, outcome, outcome_seq, LoadError, LoadFault};
use crate::text::{decimal_u64, int_text, nat_text, utf8_text};
use super::bounded::{
    be_u64, bytes_at, count_fault, i32_at, u16_at, u32_at, u8_at, BoundedCursor,
};
use super::budget::{
    atom_charged, bytes_charged, node_charged, table_charged, DecodeBudget,
};
use super::literal::{
    lemma_list_view, lemma_literal_views_push, lemma_map_view, lemma_pair_views_push,
    lemma_tuple_view, literal_views, pair_views, Literal, LiteralView,
};
use super::numbers::{
    le_value, lemma_le_value_bound, lemma_pow256_grows, lemma_pow256_values, pow256,
};

verus! {

/// How far decoding has come: the position, the names interned so far, and the
/// budget, whose depth is kept apart.
#[verifier::ext_equal]
pub struct EtfState {
    pub pos: nat,
    pub names: Seq<Seq<char>>,
    pub budget: DecodeBudget,
}

/// An answer together with the state after it.
pub type Etf<T> = (Result<T, LoadFault>, EtfState);

/// A budget without its depth.
pub open spec fn flat(budget: DecodeBudget) -> DecodeBudget {
    DecodeBudget { depth_remaining: 0, ..budget }
}

pub open spec fn at(s: EtfState, pos: nat) -> EtfState {
    EtfState { pos, ..s }
}

pub open spec fn spent(s: EtfState, budget: DecodeBudget) -> EtfState {
    EtfState { budget, ..s }
}

/// The atom that `bytes` name; a name that is new costs one atom of the budget.
pub open spec fn atom_literal(bytes: Seq<u8>, s: EtfState) -> Etf<LiteralView> {
    if valid_utf8(bytes) {
        match atom_named(s.names, decode_utf8(bytes)) {
            Some(atom) => (Ok(LiteralView::Atom(atom)), s),
            None => match atom_charged(s.budget) {
                (Err(e), budget) => (Err(e), spent(s, budget)),
                (Ok(_), budget) => {
                    let (atom, names) = interned(s.names, decode_utf8(bytes));
                    (Ok(LiteralView::Atom(atom)), EtfState { names, budget, ..s })
                },
            },
        }
    } else {
        (Err(decode_fault("ETF atom is not valid UTF-8"@)), s)
    }
}

/// Reads the name of an atom, of `len` bytes.
pub open spec fn atom_term(b: Seq<u8>, len: nat, s: EtfState) -> Etf<LiteralView> {
    match bytes_at(b, s.pos, len) {
        (Err(e), p) => (Err(e), at(s, p)),
        (Ok(name), p) => atom_literal(name, at(s, p)),
    }
}

/// Reads `len` bytes that have to be paid for.
pub open spec fn charged_run(b: Seq<u8>, len: nat, s: EtfState) -> Etf<Seq<u8>> {
    match bytes_charged(s.budget, len) {
        (Err(e), budget) => (Err(e), spent(s, budget)),
        (Ok(_), budget) => match bytes_at(b, s.pos, len) {
            (Err(e), p) => (Err(e), at(spent(s, budget), p)),
            (Ok(run), p) => (Ok(run), at(spent(s, budget), p)),
        },
    }
}

/// The integer of a sign byte and a magnitude of at most eight bytes.
pub open spec fn short_integer(sign: u8, magnitude: Seq<u8>) -> Result<LiteralView, LoadFault> {
    let value = if sign == 1 {
        -(le_value(magnitude) as int)
    } else {
        le_value(magnitude) as int
    };
    if sign > 1 {
        Err(decode_fault("invalid bignum sign "@ + nat_text(sign as nat)))
    } else if i64::MIN <= value <= i64::MAX {
        Ok(LiteralView::Integer(value as i64))
    } else {
        Err(decode_fault("ETF bignum "@ + int_text(value) + " is outside i64 range"@))
    }
}

/// Reads the sign and the `len` magnitude bytes of an integer.
pub open spec fn big_term(b: Seq<u8>, len: nat, s: EtfState) -> Etf<LiteralView> {
    match u8_at(b, s.pos) {
        (Err(e), p) => (Err(e), at(s, p)),
        (Ok(sign), p) => match bytes_at(b, p, len) {
            (Err(e), q) => (Err(e), at(s, q)),
            (Ok(magnitude), q) => if len <= 8 {
                (short_integer(sign, magnitude), at(s, q))
            } else if len + 1 > usize::MAX {
                (Err(decode_fault("ETF bignum allocation size overflow"@)), at(s, q))
            } else {
                match bytes_charged(s.budget, len + 1) {
                    (Err(e), budget) => (Err(e), at(spent(s, budget), q)),
                    (Ok(_), budget) => (
                        Ok(LiteralView::BigInteger(seq![sign] + magnitude)),
                        at(spent(s, budget), q),
                    ),
                }
            },
        },
    }
}

pub open spec fn too_deep() -> LoadFault {
    decode_fault("ETF nesting exceeds limit"@)
}

/// What reading `count` elements of at least `min` bytes and `size` bytes of
/// memory costs before the first is read.
pub open spec fn entered(
    b: Seq<u8>,
    count: nat,
    min: nat,
    size: nat,
    label: Seq<char>,
    overflow: Seq<char>,
    depth: nat,
    s: EtfState,
) -> Etf<()> {
    match count_fault((b.len() - s.pos) as nat, count, min, label) {
        Some(e) => (Err(e), s),
        None => match table_charged(s.budget, count, size, overflow) {
            (Err(e), budget) => (Err(e), spent(s, budget)),
            (Ok(_), budget) => if depth == 0 {
                (Err(too_deep()), spent(s, budget))
            } else {
                (Ok(()), spent(s, budget))
            },
        },
    }
}

/// Reads a tuple of `arity` elements.
pub open spec fn tuple_term(b: Seq<u8>, arity: nat, depth: nat, s: EtfState) -> Etf<LiteralView>
    decreases depth, 0nat,
{
    match entered(
        b,
        arity,
        1,
        size_of::<Literal>(),
        "ETF tuple arity"@,
        "ETF tuple allocation size overflow"@,
        depth,
        s,
    ) {
        (Err(e), t) => (Err(e), t),
        (Ok(_), t) => if depth > 0 {
            match terms_at(b, arity, Seq::empty(), (depth - 1) as nat, t) {
                (Err(e), u) => (Err(e), u),
                (Ok(items), u) => (Ok(LiteralView::Tuple(items)), u),
            }
        } else {
            (Err(too_deep()), t)
        },
    }
}

/// Reads a list of `len` elements and its tail.
pub open spec fn list_term(b: Seq<u8>, len: nat, depth: nat, s: EtfState) -> Etf<LiteralView>
    decreases depth, 0nat,
{
    match entered(
        b,
        len,
        1,
        size_of::<Literal>(),
        "ETF list length"@,
        "ETF list allocation size overflow"@,
        depth,
        s,
    ) {
        (Err(e), t) => (Err(e), t),
        (Ok(_), t) => if depth > 0 {
            match terms_at(b, len, Seq::empty(), (depth - 1) as nat, t) {
                (Err(e), u) => (Err(e), u),
                (Ok(items), u) => match term_at(b, (depth - 1) as nat, u) {
                    (Err(e), v) => (Err(e), v),
                    (Ok(tail), v) => (Ok(LiteralView::List(items, Box::new(tail))), v),
                },
            }
        } else {
            (Err(too_deep()), t)
        },
    }
}

/// Reads a map of `len` pairs.
pub open spec fn map_term(b: Seq<u8>, len: nat, depth: nat, s: EtfState) -> Etf<LiteralView>
    decreases depth, 0nat,
{
    match entered(
        b,
        len,
        2,
        size_of::<(Literal, Literal)>(),
        "ETF map size"@,
        "ETF map allocation size overflow"@,
        depth,
        s,
    ) {
        (Err(e), t) => (Err(e), t),
        (Ok(_), t) => if depth > 0 {
            match pairs_at(b, len, Seq::empty(), (depth - 1) as nat, t) {
                (Err(e), u) => (Err(e), u),
                (Ok(pairs), u) => (Ok(LiteralView::MapPairs(pairs)), u),
            }
        } else {
            (Err(too_deep()), t)
        },
    }
}

/// Reads an external function: a tuple of its module, name and arity.
pub open spec fn export_term(b: Seq<u8>, depth: nat, s: EtfState) -> Etf<LiteralView>
    decreases depth, 0nat,
{
    if depth == 0 {
        (Err(too_deep()), s)
    } else {
        match terms_at(b, 3, Seq::empty(), (depth - 1) as nat, s) {
            (Err(e), t) => (Err(e), t),
            (Ok(items), t) => match table_charged(
                t.budget,
                3,
                size_of::<Literal>(),
                "ETF tuple allocation size overflow"@,
            ) {
                (Err(e), budget) => (Err(e), spent(t, budget)),
                (Ok(_), budget) => (Ok(LiteralView::Tuple(items)), spent(t, budget)),
            },
        }
    }
}

/// Reads what follows a tag.
pub open spec fn tagged_term(b: Seq<u8>, tag: u8, depth: nat, s: EtfState) -> Etf<LiteralView>
    decreases depth, 1nat,
{
    if tag == 70 {
        match bytes_at(b, s.pos, 8) {
            (Err(e), p) => (Err(e), at(s, p)),
            (Ok(_), p) => (Ok(LiteralView::Float(be_u64(b, s.pos as int) as u64)), at(s, p)),
        }
    } else if tag == 97 {
        match u8_at(b, s.pos) {
            (Err(e), p) => (Err(e), at(s, p)),
            (Ok(n), p) => (Ok(LiteralView::Integer(n as i64)), at(s, p)),
        }
    } else if tag == 98 {
        match i32_at(b, s.pos) {
            (Err(e), p) => (Err(e), at(s, p)),
            (Ok(n), p) => (Ok(LiteralView::Integer(n as i64)), at(s, p)),
        }
    } else if tag == 100 || tag == 118 {
        match u16_at(b, s.pos) {
            (Err(e), p) => (Err(e), at(s, p)),
            (Ok(len), p) => atom_term(b, len as nat, at(s, p)),
        }
    } else if tag == 119 {
        match u8_at(b, s.pos) {
            (Err(e), p) => (Err(e), at(s, p)),
            (Ok(len), p) => atom_term(b, len as nat, at(s, p)),
        }
    } else if tag == 104 {
        match u8_at(b, s.pos) {
            (Err(e), p) => (Err(e), at(s, p)),
            (Ok(arity), p) => tuple_term(b, arity as nat, depth, at(s, p)),
        }
    } else if tag == 105 {
        match u32_at(b, s.pos) {
            (Err(e), p) => (Err(e), at(s, p)),
            (Ok(arity), p) => tuple_term(b, arity as nat, depth, at(s, p)),
        }
    } else if tag == 106 {
        (Ok(LiteralView::Nil), s)
    } else if tag == 107 {
        match u16_at(b, s.pos) {
            (Err(e), p) => (Err(e), at(s, p)),
            (Ok(len), p) => match charged_run(b, len as nat, at(s, p)) {
                (Err(e), t) => (Err(e), t),
                (Ok(run), t) => (Ok(LiteralView::String(run)), t),
            },
        }
    } else if tag == 108 {
        match u32_at(b, s.pos) {
            (Err(e), p) => (Err(e), at(s, p)),
            (Ok(len), p) => list_term(b, len as nat, depth, at(s, p)),
        }
    } else if tag == 109 {
        match u32_at(b, s.pos) {
            (Err(e), p) => (Err(e), at(s, p)),
            (Ok(len), p) => match charged_run(b, len as nat, at(s, p)) {
                (Err(e), t) => (Err(e), t),
                (Ok(run), t) => (Ok(LiteralView::Binary(run)), t),
            },
        }
    } else if tag == 110 {
        match u8_at(b, s.pos) {
            (Err(e), p) => (Err(e), at(s, p)),
            (Ok(len), p) => big_term(b, len as nat, at(s, p)),
        }
    } else if tag == 111 {
        match u32_at(b, s.pos) {
            (Err(e), p) => (Err(e), at(s, p)),
            (Ok(len), p) => big_term(b, len as nat, at(s, p)),
        }
    } else if tag == 113 {
        export_term(b, depth, s)
    } else if tag == 116 {
        match u32_at(b, s.pos) {
            (Err(e), p) => (Err(e), at(s, p)),
            (Ok(len), p) => map_term(b, len as nat, depth, at(s, p)),
        }
    } else {
        (Err(decode_fault("unsupported ETF literal tag "@ + nat_text(tag as nat))), s)
    }
}

/// Reads one term.
pub open spec fn term_at(b: Seq<u8>, depth: nat, s: EtfState) -> Etf<LiteralView>
    decreases depth, 2nat,
{
    match node_charged(s.budget) {
        (Err(e), budget) => (Err(e), spent(s, budget)),
        (Ok(_), budget) => match u8_at(b, s.pos) {
            (Err(e), p) => (Err(e), at(spent(s, budget), p)),
            (Ok(tag), p) => tagged_term(b, tag, depth, at(spent(s, budget), p)),
        },
    }
}

/// Reads `n` terms after those in `found`.
pub open spec fn terms_at(
    b: Seq<u8>,
    n: nat,
    found: Seq<LiteralView>,
    depth: nat,
    s: EtfState,
) -> Etf<Seq<LiteralView>>
    decreases depth, n + 3,
{
    if n == 0 {
        (Ok(found), s)
    } else {
        match term_at(b, depth, s) {
            (Err(e), t) => (Err(e), t),
            (Ok(term), t) => terms_at(b, (n - 1) as nat, found.push(term), depth, t),
        }
    }
}

/// Reads `n` pairs of terms after those in `found`.
pub open spec fn pairs_at(
    b: Seq<u8>,
    n: nat,
    found: Seq<(LiteralView, LiteralView)>,
    depth: nat,
    s: EtfState,
) -> Etf<Seq<(LiteralView, LiteralView)>>
    decreases depth, n + 3,
{
    if n == 0 {
        (Ok(found), s)
    } else {
        match term_at(b, depth, s) {
            (Err(e), t) => (Err(e), t),
            (Ok(key), t) => match term_at(b, depth, t) {
                (Err(e), u) => (Err(e), u),
                (Ok(value), u) => pairs_at(b, (n - 1) as nat, found.push((key, value)), depth, u),
            },
        }
    }
}

/// The outcome of a function that answers a literal.
pub open spec fn literal_outcome(r: Result<Literal, LoadError>) -> Result<LiteralView, LoadFault> {
    match r {
        Ok(literal) => Ok(literal.view()),
        Err(e) => Err(e@),
    }
}

/// The outcome of a function that answers literals.
pub open spec fn literals_outcome(r: Result<Vec<Literal>, LoadError>) -> Result<
    Seq<LiteralView>,
    LoadFault,
> {
    match r {
        Ok(literals) => Ok(literal_views(literals@)),
        Err(e) => Err(e@),
    }
}

spec fn pairs_outcome(r: Result<Vec<(Literal, Literal)>, LoadError>) -> Result<
    Seq<(LiteralView, LiteralView)>,
    LoadFault,
> {
    match r {
        Ok(pairs) => Ok(pair_views(pairs@)),
        Err(e) => Err(e@),
    }
}

/// The state of a decoder.
pub open spec fn etf_state(cursor: BoundedCursor<'_>, table: AtomTable, budget: DecodeBudget) -> EtfState {
    EtfState { pos: cursor.pos(), names: table@, budget: flat(budget) }
}

/// The atom table has room for one atom per node that may still be decoded.
pub open spec fn roomy(table: AtomTable, budget: DecodeBudget) -> bool {
    table.wf() && table@.len() + budget.nodes_remaining <= ATOM_LIMIT
}

/// What every decoding step keeps: the input, the depth, and room for atoms.
pub open spec fn stepped(
    cursor: BoundedCursor<'_>,
    budget: DecodeBudget,
    cursor_after: BoundedCursor<'_>,
    table_after: AtomTable,
    budget_after: DecodeBudget,
) -> bool {
    &&& cursor_after.wf()
    &&& cursor_after.all() == cursor.all()
    &&& roomy(table_after, budget_after)
    &&& budget_after.depth_remaining == budget.depth_remaining
}

fn copy_run(run: &[u8]) -> (r: Vec<u8>)
    ensures
        r@ == run@,
{
    vstd::slice::slice_to_vec(run)
}

fn decode_atom_literal(
    bytes: &[u8],
    table: &mut AtomTable,
    budget: &mut DecodeBudget,
    Ghost(pos): Ghost<nat>,
) -> (r: Result<Literal, LoadError>)
    requires
        old(table).wf(),
        old(table)@.len() < ATOM_LIMIT,
    ensures
        final(table).wf(),
        final(table)@.len() <= old(table)@.len() + 1,
        final(budget).nodes_remaining == old(budget).nodes_remaining,
        final(budget).depth_remaining == old(budget).depth_remaining,
        (
            literal_outcome(r),
            EtfState { pos, names: final(table)@, budget: flat(*final(budget)) },
        ) == atom_literal(
            bytes@,
            EtfState { pos, names: old(table)@, budget: flat(*old(budget)) },
        ),
{
    match utf8_text(bytes) {
        Some(name) => match table.lookup(name) {
            Some(atom) => Ok(Literal::Atom(atom)),
            None => {
                budget.charge_atom()?;
                Ok(Literal::Atom(table.intern(name)))
            },
        },
        None => Err(decode_error("ETF atom is not valid UTF-8")),
    }
}

fn decode_atom_term(
    cursor: &mut BoundedCursor<'_>,
    len: usize,
    table: &mut AtomTable,
    budget: &mut DecodeBudget,
) -> (r: Result<Literal, LoadError>)
    requires
        old(cursor).wf(),
        old(table).wf(),
        old(table)@.len() + old(budget).nodes_remaining < ATOM_LIMIT,
    ensures
        stepped(*old(cursor), *old(budget), *final(cursor), *final(table), *final(budget)),
        (literal_outcome(r), etf_state(*final(cursor), *final(table), *final(budget)))
            == atom_term(
            old(cursor).all(),
            len as nat,
            etf_state(*old(cursor), *old(table), *old(budget)),
        ),
{
    let name = cursor.read_bytes(len)?;
    decode_atom_literal(name, table, budget, Ghost(cursor.pos()))
}

fn read_charged_run(
    cursor: &mut BoundedCursor<'_>,
    len: usize,
    table: &AtomTable,
    budget: &mut DecodeBudget,
) -> (r: Result<Vec<u8>, LoadError>)
    requires
        old(cursor).wf(),
        roomy(*table, *old(budget)),
    ensures
        stepped(*old(cursor), *old(budget), *final(cursor), *table, *final(budget)),
        (outcome_seq(r), etf_state(*final(cursor), *table, *final(budget))) == charged_run(
            old(cursor).all(),
            len as nat,
            etf_state(*old(cursor), *table, *old(budget)),
        ),
{
    budget.charge_bytes(len)?;
    let run = cursor.read_bytes(len)?;
    Ok(copy_run(run))
}

/// The integer of a sign byte and a magnitude of at most eight bytes.
fn decode_short_integer(sign: u8, magnitude: &[u8]) -> (r: Result<Literal, LoadError>)
    requires
        magnitude@.len() <= 8,
    ensures
        literal_outcome(r) == short_integer(sign, magnitude@),
{
    if sign > 1 {
        let mut text = "invalid bignum sign ".to_owned();
        text.append(decimal_u64(sign as u64).as_str());
        return Err(LoadError::DecodeError(text));
    }
    let mut value: i128 = 0;
    let mut i: usize = magnitude.len();
    proof {
        lemma_pow256_values();
        assert(magnitude@.skip(i as int) =~= Seq::<u8>::empty());
    }
    while i > 0
        invariant
            i <= magnitude@.len() <= 8,
            value == le_value(magnitude@.skip(i as int)),
            value < 0x1_0000_0000_0000_0000,
            pow256(8) == 0x1_0000_0000_0000_0000,
        decreases i,
    {
        i -= 1;
        proof {
            let s = magnitude@.skip(i as int);
            assert(s.skip(1) =~= magnitude@.skip(i + 1));
            lemma_le_value_bound(s);
            lemma_pow256_grows(s.len(), 8);
        }
        value = value * 256 + magnitude[i] as i128;
    }
    assert(magnitude@.skip(0) =~= magnitude@);
    if sign == 1 {
        if value <= 0x8000_0000_0000_0000 {
            Ok(Literal::Integer((-value) as i64))
        } else {
            let mut text = "ETF bignum ".to_owned();
            let mut digits = "-".to_owned();
            digits.append(decimal_u64(value as u64).as_str());
            text.append(digits.as_str());
            text.append(" is outside i64 range");
            Err(LoadError::DecodeError(text))
        }
    } else if value <= 0x7fff_ffff_ffff_ffff {
        Ok(Literal::Integer(value as i64))
    } else {
        let mut text = "ETF bignum ".to_owned();
        text.append(decimal_u64(value as u64).as_str());
        text.append(" is outside i64 range");
        Err(LoadError::DecodeError(text))
    }
}

fn decode_big_integer(
    cursor: &mut BoundedCursor<'_>,
    len: usize,
    table: &AtomTable,
    budget: &mut DecodeBudget,
) -> (r: Result<Literal, LoadError>)
    requires
        old(cursor).wf(),
        roomy(*table, *old(budget)),
    ensures
        stepped(*old(cursor), *old(budget), *final(cursor), *table, *final(budget)),
        (literal_outcome(r), etf_state(*final(cursor), *table, *final(budget))) == big_term(
            old(cursor).all(),
            len as nat,
            etf_state(*old(cursor), *table, *old(budget)),
        ),
{
    let sign: u8 = cursor.read_u8()?;
    let magnitude = cursor.read_bytes(len)?;
    if len <= 8 {
        return decode_short_integer(sign, magnitude);
    }
    let capacity: usize = match len.checked_add(1) {
        Some(capacity) => capacity,
        None => {
            return Err(decode_error("ETF bignum allocation size overflow"));
        },
    };
    budget.charge_bytes(capacity)?;
    let mut out: Vec<u8> = Vec::new();
    out.push(sign);
    let mut rest = copy_run(magnitude);
    out.append(&mut rest);
    assert(out@ =~= seq![sign] + magnitude@);
    Ok(Literal::BigInteger(out))
}

/// Checks and pays for a collection of `count` elements, and goes one level
/// deeper.
fn enter(
    cursor: &BoundedCursor<'_>,
    count: usize,
    min: usize,
    size: usize,
    label: &str,
    overflow: &str,
    table: &AtomTable,
    budget: &mut DecodeBudget,
) -> (r: Result<(), LoadError>)
    requires
        cursor.wf(),
    ensures
        final(budget).nodes_remaining == old(budget).nodes_remaining,
        (outcome(r), etf_state(*cursor, *table, *final(budget))) == entered(
            cursor.all(),
            count as nat,
            min as nat,
            size as nat,
            label@,
            overflow@,
            old(budget).depth_remaining as nat,
            etf_state(*cursor, *table, *old(budget)),
        ),
        r is Ok ==> old(budget).depth_remaining > 0 && final(budget).depth_remaining
            == old(budget).depth_remaining - 1,
        r is Err ==> final(budget).depth_remaining == old(budget).depth_remaining,
{
    cursor.ensure_count(count, min, label)?;
    budget.charge_table(count, size, overflow)?;
    budget.descend()
}

fn decode_tuple(
    cursor: &mut BoundedCursor<'_>,
    arity: usize,
    table: &mut AtomTable,
    budget: &mut DecodeBudget,
) -> (r: Result<Literal, LoadError>)
    requires
        old(cursor).wf(),
        roomy(*old(table), *old(budget)),
    ensures
        stepped(*old(cursor), *old(budget), *final(cursor), *final(table), *final(budget)),
        (literal_outcome(r), etf_state(*final(cursor), *final(table), *final(budget))) == tuple_term(
            old(cursor).all(),
            arity as nat,
            old(budget).depth_remaining as nat,
            etf_state(*old(cursor), *old(table), *old(budget)),
        ),
    decreases old(budget).depth_remaining, 0nat,
{
    enter(
        cursor,
        arity,
        1,
        core::mem::size_of::<Literal>(),
        "ETF tuple arity",
        "ETF tuple allocation size overflow",
        table,
        budget,
    )?;
    let result = decode_terms(cursor, arity, table, budget);
    budget.ascend();
    let items = result?;
    proof {
        lemma_tuple_view(items);
    }
    Ok(Literal::Tuple(items))
}

fn decode_list(
    cursor: &mut BoundedCursor<'_>,
    len: usize,
    table: &mut AtomTable,
    budget: &mut DecodeBudget,
) -> (r: Result<Literal, LoadError>)
    requires
        old(cursor).wf(),
        roomy(*old(table), *old(budget)),
    ensures
        stepped(*old(cursor), *old(budget), *final(cursor), *final(table), *final(budget)),
        (literal_outcome(r), etf_state(*final(cursor), *final(table), *final(budget))) == list_term(
            old(cursor).all(),
            len as nat,
            old(budget).depth_remaining as nat,
            etf_state(*old(cursor), *old(table), *old(budget)),
        ),
    decreases old(budget).depth_remaining, 0nat,
{
    enter(
        cursor,
        len,
        1,
        core::mem::size_of::<Literal>(),
        "ETF list length",
        "ETF list allocation size overflow",
        table,
        budget,
    )?;
    match decode_terms(cursor, len, table, budget) {
        Err(e) => {
            budget.ascend();
            Err(e)
        },
        Ok(items) => {
            let result = decode_external_term(cursor, table, budget);
            budget.ascend();
            let tail = Box::new(result?);
            proof {
                lemma_list_view(items, tail);
            }
            Ok(Literal::List(items, tail))
        },
    }
}

fn decode_map(
    cursor: &mut BoundedCursor<'_>,
    len: usize,
    table: &mut AtomTable,
    budget: &mut DecodeBudget,
) -> (r: Result<Literal, LoadError>)
    requires
        old(cursor).wf(),
        roomy(*old(table), *old(budget)),
    ensures
        stepped(*old(cursor), *old(budget), *final(cursor), *final(table), *final(budget)),
        (literal_outcome(r), etf_state(*final(cursor), *final(table), *final(budget))) == map_term(
            old(cursor).all(),
            len as nat,
            old(budget).depth_remaining as nat,
            etf_state(*old(cursor), *old(table), *old(budget)),
        ),
    decreases old(budget).depth_remaining, 0nat,
{
    enter(
        cursor,
        len,
        2,
        core::mem::size_of::<(Literal, Literal)>(),
        "ETF map size",
        "ETF map allocation size overflow",
        table,
        budget,
    )?;
    let result = decode_pairs(cursor, len, table, budget);
    budget.ascend();
    let pairs = result?;
    proof {
        lemma_map_view(pairs);
    }
    Ok(Literal::MapPairs(pairs))
}

fn decode_export(
    cursor: &mut BoundedCursor<'_>,
    table: &mut AtomTable,
    budget: &mut DecodeBudget,
) -> (r: Result<Literal, LoadError>)
    requires
        old(cursor).wf(),
        roomy(*old(table), *old(budget)),
    ensures
        stepped(*old(cursor), *old(budget), *final(cursor), *final(table), *final(budget)),
        (literal_outcome(r), etf_state(*final(cursor), *final(table), *final(budget))) == export_term(
            old(cursor).all(),
            old(budget).depth_remaining as nat,
            etf_state(*old(cursor), *old(table), *old(budget)),
        ),
    decreases old(budget).depth_remaining, 0nat,
{
    budget.descend()?;
    match decode_terms(cursor, 3, table, budget) {
        Err(e) => {
            budget.ascend();
            Err(e)
        },
        Ok(items) => {
            let result = budget.charge_table(
                3,
                core::mem::size_of::<Literal>(),
                "ETF tuple allocation size overflow",
            );
            budget.ascend();
            result?;
            proof {
                lemma_tuple_view(items);
            }
            Ok(Literal::Tuple(items))
        },
    }
}

fn decode_tagged_term(
    cursor: &mut BoundedCursor<'_>,
    tag: u8,
    table: &mut AtomTable,
    budget: &mut DecodeBudget,
) -> (r: Result<Literal, LoadError>)
    requires
        old(cursor).wf(),
        old(table).wf(),
        old(table)@.len() + old(budget).nodes_remaining < ATOM_LIMIT,
    ensures
        stepped(*old(cursor), *old(budget), *final(cursor), *final(table), *final(budget)),
        (literal_outcome(r), etf_state(*final(cursor), *final(table), *final(budget))) == tagged_term(
            old(cursor).all(),
            tag,
            old(budget).depth_remaining as nat,
            etf_state(*old(cursor), *old(table), *old(budget)),
        ),
    decreases old(budget).depth_remaining, 1nat,
{
    if tag == 70 {
        let run = cursor.read_bytes(8)?;
        let a: u64 = (run[0] as u64) * 256 + run[1] as u64;
        let b: u64 = (run[2] as u64) * 256 + run[3] as u64;
        let c: u64 = (run[4] as u64) * 256 + run[5] as u64;
        let d: u64 = (run[6] as u64) * 256 + run[7] as u64;
        let high: u64 = a * 65536 + b;
        let low: u64 = c * 65536 + d;
        Ok(Literal::Float(high * 0x1_0000_0000 + low))
    } else if tag == 97 {
        let n: u8 = cursor.read_u8()?;
        Ok(Literal::Integer(n as i64))
    } else if tag == 98 {
        let n: i32 = cursor.read_i32()?;
        Ok(Literal::Integer(n as i64))
    } else if tag == 100 || tag == 118 {
        let len: u16 = cursor.read_u16()?;
        decode_atom_term(cursor, len as usize, table, budget)
    } else if tag == 119 {
        let len: u8 = cursor.read_u8()?;
        decode_atom_term(cursor, len as usize, table, budget)
    } else if tag == 104 {
        let arity: u8 = cursor.read_u8()?;
        decode_tuple(cursor, arity as usize, table, budget)
    } else if tag == 105 {
        let arity: u32 = cursor.read_u32()?;
        decode_tuple(cursor, arity as usize, table, budget)
    } else if tag == 106 {
        Ok(Literal::Nil)
    } else if tag == 107 {
        let len: u16 = cursor.read_u16()?;
        let run = read_charged_run(cursor, len as usize, table, budget)?;
        Ok(Literal::String(run))
    } else if tag == 108 {
        let len: u32 = cursor.read_u32()?;
        decode_list(cursor, len as usize, table, budget)
    } else if tag == 109 {
        let len: u32 = cursor.read_u32()?;
        let run = read_charged_run(cursor, len as usize, table, budget)?;
        Ok(Literal::Binary(run))
    } else if tag == 110 {
        let len: u8 = cursor.read_u8()?;
        decode_big_integer(cursor, len as usize, table, budget)
    } else if tag == 111 {
        let len: u32 = cursor.read_u32()?;
        decode_big_integer(cursor, len as usize, table, budget)
    } else if tag == 113 {
        decode_export(cursor, table, budget)
    } else if tag == 116 {
        let len: u32 = cursor.read_u32()?;
        decode_map(cursor, len as usize, table, budget)
    } else {
        let mut text = "unsupported ETF literal tag ".to_owned();
        text.append(decimal_u64(tag as u64).as_str());
        Err(LoadError::DecodeError(text))
    }
}

/// Decodes the term at the cursor.
pub fn decode_external_term(
    cursor: &mut BoundedCursor<'_>,
    table: &mut AtomTable,
    budget: &mut DecodeBudget,
) -> (r: Result<Literal, LoadError>)
    requires
        old(cursor).wf(),
        roomy(*old(table), *old(budget)),
    ensures
        stepped(*old(cursor), *old(budget), *final(cursor), *final(table), *final(budget)),
        (literal_outcome(r), etf_state(*final(cursor), *final(table), *final(budget))) == term_at(
            old(cursor).all(),
            old(budget).depth_remaining as nat,
            etf_state(*old(cursor), *old(table), *old(budget)),
        ),
    decreases old(budget).depth_remaining, 2nat,
{
    budget.charge_node()?;
    let tag: u8 = cursor.read_u8()?;
    decode_tagged_term(cursor, tag, table, budget)
}

fn decode_terms(
    cursor: &mut BoundedCursor<'_>,
    n: usize,
    table: &mut AtomTable,
    budget: &mut DecodeBudget,
) -> (r: Result<Vec<Literal>, LoadError>)
    requires
        old(cursor).wf(),
        roomy(*old(table), *old(budget)),
    ensures
        stepped(*old(cursor), *old(budget), *final(cursor), *final(table), *final(budget)),
        (literals_outcome(r), etf_state(*final(cursor), *final(table), *final(budget))) == terms_at(
            old(cursor).all(),
            n as nat,
            Seq::empty(),
            old(budget).depth_remaining as nat,
            etf_state(*old(cursor), *old(table), *old(budget)),
        ),
    decreases old(budget).depth_remaining, n as nat + 3,
{
    let mut items: Vec<Literal> = Vec::new();
    let mut left: usize = n;
    assert(literal_views(items@) =~= Seq::empty());
    while left > 0
        invariant
            left <= n,
            stepped(*old(cursor), *old(budget), *cursor, *table, *budget),
            terms_at(
                old(cursor).all(),
                n as nat,
                Seq::empty(),
                old(budget).depth_remaining as nat,
                etf_state(*old(cursor), *old(table), *old(budget)),
            ) == terms_at(
                old(cursor).all(),
                left as nat,
                literal_views(items@),
                old(budget).depth_remaining as nat,
                etf_state(*cursor, *table, *budget),
            ),
        decreases left,
    {
        let item = decode_external_term(cursor, table, budget)?;
        proof {
            lemma_literal_views_push(items@, item);
        }
        items.push(item);
        left -= 1;
    }
    Ok(items)
}

fn decode_pairs(
    cursor: &mut BoundedCursor<'_>,
    n: usize,
    table: &mut AtomTable,
    budget: &mut DecodeBudget,
) -> (r: Result<Vec<(Literal, Literal)>, LoadError>)
    requires
        old(cursor).wf(),
        roomy(*old(table), *old(budget)),
    ensures
        stepped(*old(cursor), *old(budget), *final(cursor), *final(table), *final(budget)),
        (pairs_outcome(r), etf_state(*final(cursor), *final(table), *final(budget))) == pairs_at(
            old(cursor).all(),
            n as nat,
            Seq::empty(),
            old(budget).depth_remaining as nat,
            etf_state(*old(cursor), *old(table), *old(budget)),
        ),
    decreases old(budget).depth_remaining, n as nat + 3,
{
    let mut pairs: Vec<(Literal, Literal)> = Vec::new();
    let mut left: usize = n;
    assert(pair_views(pairs@) =~= Seq::empty());
    while left > 0
        invariant
            left <= n,
            stepped(*old(cursor), *old(budget), *cursor, *table, *budget),
            pairs_at(
                old(cursor).all(),
                n as nat,
                Seq::empty(),
                old(budget).depth_remaining as nat,
                etf_state(*old(cursor), *old(table), *old(budget)),
            ) == pairs_at(
                old(cursor).all(),
                left as nat,
                pair_views(pairs@),
                old(budget).depth_remaining as nat,
                etf_state(*cursor, *table, *budget),
            ),
        decreases left,
    {
        let key = decode_external_term(cursor, table, budget)?;
        let value = decode_external_term(cursor, table, budget)?;
        proof {
            lemma_pair_views_push(pairs@, key, value);
        }
        pairs.push((key, value));
        left -= 1;
    }
    Ok(pairs)
}

} // verus!
