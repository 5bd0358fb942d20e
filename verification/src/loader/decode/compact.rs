//! The compact term encoding of instruction operands.

use vstd::prelude::*;
use vstd::string::*;
use crate::atom::Atom;
use crate::error::{decode_error, decode_fault, outcome, LoadError, LoadFault};
use crate::text::{decimal_i64, decimal_u64, int_text, nat_text};
use crate::term::{is_small, SMALL_INT_MAX, SMALL_INT_MIN};
use super::bounded::Read;
use super::budget::{
    bytes_charged, default_budget, node_charged, DecodeBudget, MAX_TABLE_ENTRIES,
};
use super::literal::{lemma_literal_views_push, literal_views, Literal, LiteralView};
use super::numbers::{
    le_bytes, lemma_le_bytes_value, lemma_twos_complement_sign, magnitude_le, read_word,
    small_from_magnitude, twos_complement, word_value,
};

verus! {

/// One entry of an allocation list.
#[derive(Debug, Clone, Copy, PartialEq, Eq, Structural)]
pub enum Allocation {
    Words(u64),
    Floats(u64),
    Funs(u64),
    Unknown { tag: u64, value: u64 },
}

/// Decoded compact operand.
#[derive(Debug, PartialEq, Eq)]
pub enum Operand {
    Integer(i64),
    Unsigned(u64),
    Atom(Option<Atom>),
    X(u32),
    Y(u32),
    Label(u32),
    Character(u64),
    Literal(usize),
    List(Vec<Operand>),
    FloatRegister(u32),
    Allocation(Vec<Allocation>),
    TypedRegister { register: Box<Operand>, type_index: u64 },
}

/// An [`Operand`] with sequences in place of vectors.
#[verifier::ext_equal]
pub enum OperandView {
    Integer(i64),
    Unsigned(u64),
    Atom(Option<Atom>),
    X(u32),
    Y(u32),
    Label(u32),
    Character(u64),
    Literal(usize),
    List(Seq<OperandView>),
    FloatRegister(u32),
    Allocation(Seq<Allocation>),
    TypedRegister { register: Box<OperandView>, type_index: u64 },
}

impl Operand {
    pub open spec fn view(&self) -> OperandView
        decreases self,
    {
        match self {
            Operand::Integer(n) => OperandView::Integer(*n),
            Operand::Unsigned(n) => OperandView::Unsigned(*n),
            Operand::Atom(atom) => OperandView::Atom(*atom),
            Operand::X(n) => OperandView::X(*n),
            Operand::Y(n) => OperandView::Y(*n),
            Operand::Label(n) => OperandView::Label(*n),
            Operand::Character(n) => OperandView::Character(*n),
            Operand::Literal(n) => OperandView::Literal(*n),
            Operand::List(items) => OperandView::List(
                Seq::new(
                    items@.len(),
                    |i: int|
                        if 0 <= i < items@.len() {
                            items@[i].view()
                        } else {
                            arbitrary()
                        },
                ),
            ),
            Operand::FloatRegister(n) => OperandView::FloatRegister(*n),
            Operand::Allocation(entries) => OperandView::Allocation(entries@),
            Operand::TypedRegister { register, type_index } => OperandView::TypedRegister {
                register: Box::new(register.view()),
                type_index: *type_index,
            },
        }
    }
}

/// The views of a sequence of operands.
pub open spec fn operand_views(operands: Seq<Operand>) -> Seq<OperandView> {
    Seq::new(operands.len(), |i: int| operands[i].view())
}

pub proof fn lemma_operand_views_push(operands: Seq<Operand>, last: Operand)
    ensures
        operand_views(operands.push(last)) == operand_views(operands).push(last.view()),
{
    assert(operand_views(operands.push(last)) =~= operand_views(operands).push(last.view()));
}

pub proof fn lemma_operand_list_view(items: Vec<Operand>)
    ensures
        Operand::List(items).view() == OperandView::List(operand_views(items@)),
{
    assert(Operand::List(items).view()->List_0 =~= operand_views(items@));
}

/// A copy of an allocation list.
fn copy_allocations(entries: &Vec<Allocation>) -> (r: Vec<Allocation>)
    ensures
        r@ == entries@,
{
    let mut copy: Vec<Allocation> = Vec::new();
    let mut i: usize = 0;
    while i < entries.len()
        invariant
            i <= entries@.len(),
            copy@ == entries@.take(i as int),
        decreases entries@.len() - i,
    {
        copy.push(entries[i]);
        i += 1;
        assert(copy@ =~= entries@.take(i as int));
    }
    assert(entries@.take(entries@.len() as int) =~= entries@);
    copy
}

/// Copies of the operands in `items`.
pub fn copy_operands(items: &Vec<Operand>) -> (r: Vec<Operand>)
    ensures
        operand_views(r@) == operand_views(items@),
    decreases items,
{
    let mut copy: Vec<Operand> = Vec::new();
    let mut i: usize = 0;
    while i < items.len()
        invariant
            i <= items@.len(),
            operand_views(copy@) == operand_views(items@).take(i as int),
        decreases items@.len() - i,
    {
        proof {
            assert(decreases_to!(items => items@[i as int]));
        }
        let ghost before = copy@;
        let item = copy_operand(&items[i]);
        proof {
            lemma_operand_views_push(before, item);
        }
        copy.push(item);
        i += 1;
        assert(operand_views(copy@) =~= operand_views(items@).take(i as int));
    }
    assert(operand_views(items@).take(items@.len() as int) =~= operand_views(items@));
    copy
}

fn copy_operand(operand: &Operand) -> (r: Operand)
    ensures
        r.view() == operand.view(),
    decreases operand,
{
    match operand {
        Operand::Integer(n) => Operand::Integer(*n),
        Operand::Unsigned(n) => Operand::Unsigned(*n),
        Operand::Atom(atom) => Operand::Atom(*atom),
        Operand::X(n) => Operand::X(*n),
        Operand::Y(n) => Operand::Y(*n),
        Operand::Label(n) => Operand::Label(*n),
        Operand::Character(n) => Operand::Character(*n),
        Operand::Literal(n) => Operand::Literal(*n),
        Operand::List(items) => {
            let copy = copy_operands(items);
            proof {
                lemma_operand_list_view(copy);
                lemma_operand_list_view(*items);
            }
            Operand::List(copy)
        },
        Operand::FloatRegister(n) => Operand::FloatRegister(*n),
        Operand::Allocation(entries) => Operand::Allocation(copy_allocations(entries)),
        Operand::TypedRegister { register, type_index } => Operand::TypedRegister {
            register: Box::new(copy_operand(register)),
            type_index: *type_index,
        },
    }
}

impl Clone for Operand {
    fn clone(&self) -> (r: Self)
        ensures
            r.view() == self.view(),
    {
        copy_operand(self)
    }
}

/// The text of an optional atom.
pub open spec fn atom_option_text(atom: Option<Atom>) -> Seq<char> {
    match atom {
        None => "Atom(None)"@,
        Some(atom) => "Atom(Some(Atom("@ + nat_text(atom.0 as nat) + ")))"@,
    }
}

/// The text of an allocation entry.
pub open spec fn allocation_text(entry: Allocation) -> Seq<char> {
    match entry {
        Allocation::Words(n) => "Words("@ + nat_text(n as nat) + ")"@,
        Allocation::Floats(n) => "Floats("@ + nat_text(n as nat) + ")"@,
        Allocation::Funs(n) => "Funs("@ + nat_text(n as nat) + ")"@,
        Allocation::Unknown { tag, value } => "Unknown { tag: "@ + nat_text(tag as nat)
            + ", value: "@ + nat_text(value as nat) + " }"@,
    }
}

/// The texts of the first `n` entries, with commas between them.
pub open spec fn allocations_text(entries: Seq<Allocation>, n: nat) -> Seq<char>
    decreases n,
{
    if n == 0 {
        Seq::empty()
    } else if n == 1 {
        allocation_text(entries[0])
    } else {
        allocations_text(entries, (n - 1) as nat) + ", "@ + allocation_text(entries[n - 1])
    }
}

/// The text by which messages name an operand.
pub open spec fn operand_text(operand: OperandView) -> Seq<char>
    decreases operand, 0nat,
{
    match operand {
        OperandView::Integer(n) => "Integer("@ + int_text(n as int) + ")"@,
        OperandView::Unsigned(n) => "Unsigned("@ + nat_text(n as nat) + ")"@,
        OperandView::Atom(atom) => atom_option_text(atom),
        OperandView::X(n) => "X("@ + nat_text(n as nat) + ")"@,
        OperandView::Y(n) => "Y("@ + nat_text(n as nat) + ")"@,
        OperandView::Label(n) => "Label("@ + nat_text(n as nat) + ")"@,
        OperandView::Character(n) => "Character("@ + nat_text(n as nat) + ")"@,
        OperandView::Literal(n) => "Literal("@ + nat_text(n as nat) + ")"@,
        OperandView::List(items) => "List(["@ + operands_text(items, items.len()) + "])"@,
        OperandView::FloatRegister(n) => "FloatRegister("@ + nat_text(n as nat) + ")"@,
        OperandView::Allocation(entries) => "Allocation(["@ + allocations_text(
            entries,
            entries.len(),
        ) + "])"@,
        OperandView::TypedRegister { register, type_index } => "TypedRegister { register: "@
            + operand_text(*register) + ", type_index: "@ + nat_text(type_index as nat) + " }"@,
    }
}

/// The texts of the first `n` operands, with commas between them.
pub open spec fn operands_text(items: Seq<OperandView>, n: nat) -> Seq<char>
    decreases items, n,
{
    if n == 0 || n > items.len() {
        Seq::empty()
    } else if n == 1 {
        operand_text(items[0])
    } else {
        operands_text(items, (n - 1) as nat) + ", "@ + operand_text(items[n - 1])
    }
}

fn wrapped(name: &str, number: &str, end: &str) -> (r: String)
    ensures
        r@ == name@ + number@ + end@,
{
    let mut text = name.to_owned();
    text.append(number);
    text.append(end);
    text
}

fn allocation_string(entry: &Allocation) -> (r: String)
    ensures
        r@ == allocation_text(*entry),
{
    match entry {
        Allocation::Words(n) => wrapped("Words(", decimal_u64(*n).as_str(), ")"),
        Allocation::Floats(n) => wrapped("Floats(", decimal_u64(*n).as_str(), ")"),
        Allocation::Funs(n) => wrapped("Funs(", decimal_u64(*n).as_str(), ")"),
        Allocation::Unknown { tag, value } => {
            let mut text = wrapped("Unknown { tag: ", decimal_u64(*tag).as_str(), ", value: ");
            text.append(decimal_u64(*value).as_str());
            text.append(" }");
            text
        },
    }
}

fn allocations_string(entries: &Vec<Allocation>) -> (r: String)
    ensures
        r@ == allocations_text(entries@, entries@.len()),
{
    let mut text = String::new();
    let mut i: usize = 0;
    assert(text@ =~= Seq::empty());
    while i < entries.len()
        invariant
            i <= entries@.len(),
            text@ == allocations_text(entries@, i as nat),
        decreases entries@.len() - i,
    {
        if i == 0 {
            text = allocation_string(&entries[i]);
        } else {
            text.append(", ");
            text.append(allocation_string(&entries[i]).as_str());
        }
        i += 1;
    }
    text
}

/// The text by which messages name operands, with commas between them.
pub fn operands_string(items: &Vec<Operand>) -> (r: String)
    ensures
        r@ == operands_text(operand_views(items@), items@.len()),
    decreases items,
{
    let mut text = String::new();
    let mut i: usize = 0;
    assert(text@ =~= Seq::empty());
    while i < items.len()
        invariant
            i <= items@.len(),
            text@ == operands_text(operand_views(items@), i as nat),
        decreases items@.len() - i,
    {
        proof {
            assert(decreases_to!(items => items@[i as int]));
        }
        if i == 0 {
            text = items[i].debug_string();
        } else {
            text.append(", ");
            text.append(items[i].debug_string().as_str());
        }
        i += 1;
    }
    text
}

impl Operand {
    /// The text by which messages name this operand.
    pub fn debug_string(&self) -> (r: String)
        ensures
            r@ == operand_text(self.view()),
        decreases self,
    {
        match self {
            Operand::Integer(n) => wrapped("Integer(", decimal_i64(*n).as_str(), ")"),
            Operand::Unsigned(n) => wrapped("Unsigned(", decimal_u64(*n).as_str(), ")"),
            Operand::Atom(atom) => match atom {
                None => "Atom(None)".to_owned(),
                Some(atom) => wrapped(
                    "Atom(Some(Atom(",
                    decimal_u64(atom.0 as u64).as_str(),
                    ")))",
                ),
            },
            Operand::X(n) => wrapped("X(", decimal_u64(*n as u64).as_str(), ")"),
            Operand::Y(n) => wrapped("Y(", decimal_u64(*n as u64).as_str(), ")"),
            Operand::Label(n) => wrapped("Label(", decimal_u64(*n as u64).as_str(), ")"),
            Operand::Character(n) => wrapped("Character(", decimal_u64(*n).as_str(), ")"),
            Operand::Literal(n) => wrapped("Literal(", decimal_u64(*n as u64).as_str(), ")"),
            Operand::List(items) => {
                let inner = operands_string(items);
                proof {
                    lemma_operand_list_view(*items);
                }
                wrapped("List([", inner.as_str(), "])")
            },
            Operand::FloatRegister(n) => wrapped(
                "FloatRegister(",
                decimal_u64(*n as u64).as_str(),
                ")",
            ),
            Operand::Allocation(entries) => wrapped(
                "Allocation([",
                allocations_string(entries).as_str(),
                "])",
            ),
            Operand::TypedRegister { register, type_index } => {
                let mut text = wrapped(
                    "TypedRegister { register: ",
                    register.debug_string().as_str(),
                    ", type_index: ",
                );
                text.append(decimal_u64(*type_index).as_str());
                text.append(" }");
                text
            },
        }
    }
}

/// The label number that an operand stands for.
pub open spec fn label_number(operand: OperandView) -> Result<u32, LoadFault> {
    match operand {
        OperandView::Integer(value) => in_u32(value as int, "label"@),
        OperandView::Unsigned(value) => in_u32(value as int, "label"@),
        OperandView::Label(value) => Ok(value),
        other => Err(
            decode_fault("label operand was not an integer label: "@ + operand_text(other)),
        ),
    }
}

/// The label number that an operand stands for.
pub fn expect_label(operand: &Operand) -> (r: Result<u32, LoadError>)
    ensures
        outcome(r) == label_number(operand.view()),
{
    match operand {
        Operand::Integer(value) => unsigned_u32(*value, "label"),
        Operand::Unsigned(value) => {
            if *value <= 0xffff_ffff {
                Ok(*value as u32)
            } else {
                let mut text = "label".to_owned();
                text.append(" value ");
                text.append(decimal_u64(*value).as_str());
                text.append(" out of range");
                Err(LoadError::DecodeError(text))
            }
        },
        Operand::Label(value) => Ok(*value),
        other => {
            let mut text = "label operand was not an integer label: ".to_owned();
            text.append(other.debug_string().as_str());
            Err(LoadError::DecodeError(text))
        },
    }
}

/// What a compact value holds: a number of at most eight bytes, or the bytes of
/// a wider one.
#[verifier::ext_equal]
pub enum Payload {
    Small(i64),
    Big(Seq<u8>),
}

/// Reads one byte.
pub open spec fn compact_byte(b: Seq<u8>, at: nat) -> Read<u8> {
    if at < b.len() {
        (Ok(b[at as int]), at + 1)
    } else {
        (Err(decode_fault("truncated compact term"@)), at)
    }
}

/// Reads `len` bytes.
pub open spec fn compact_bytes(b: Seq<u8>, at: nat, len: nat) -> Read<Seq<u8>> {
    if at + len > usize::MAX {
        (Err(decode_fault("compact term offset overflow"@)), at)
    } else if at + len > b.len() {
        (Err(decode_fault("truncated compact term"@)), at)
    } else {
        (Ok(b.subrange(at as int, (at + len) as int)), at + len)
    }
}

/// `value` as 32 bits without a sign.
pub open spec fn in_u32(value: int, context: Seq<char>) -> Result<u32, LoadFault> {
    if 0 <= value <= u32::MAX {
        Ok(value as u32)
    } else {
        Err(decode_fault(context + " value "@ + int_text(value) + " out of range"@))
    }
}

/// `value` as 64 bits without a sign.
pub open spec fn in_u64(value: int, context: Seq<char>) -> Result<u64, LoadFault> {
    if 0 <= value <= u64::MAX {
        Ok(value as u64)
    } else {
        Err(decode_fault(context + " value "@ + int_text(value) + " out of range"@))
    }
}

/// Reads a tagged value.
///
/// The low three bits of the first byte are the tag. Bit 3 clear: the value is
/// in the upper four bits. Bit 3 set, bit 4 clear: the upper three bits and the
/// next byte. Both set: the upper three bits count the bytes that follow, less
/// two; seven says that a compact number follows which counts them, less nine.
pub open spec fn tagged_at(b: Seq<u8>, at: nat) -> Read<(u8, Payload)>
    decreases b.len() - at, 0nat,
{
    match compact_byte(b, at) {
        (Err(e), p) => (Err(e), p),
        (Ok(first), p) => {
            let tag = (first % 8) as u8;
            let upper = (first / 32) as nat;
            if (first / 8) % 2 == 0 {
                (Ok((tag, Payload::Small((first / 16) as i64))), p)
            } else if (first / 16) % 2 == 0 {
                match compact_byte(b, p) {
                    (Err(e), q) => (Err(e), q),
                    (Ok(low), q) => (Ok((tag, Payload::Small((upper * 256 + low) as i64))), q),
                }
            } else if upper < 7 {
                match compact_bytes(b, p, upper + 2) {
                    (Err(e), q) => (Err(e), q),
                    (Ok(run), q) => (
                        Ok((tag, Payload::Small(word_value(run, tag == 1) as i64))),
                        q,
                    ),
                }
            } else {
                match unsigned_at(b, p) {
                    (Err(e), q) => (Err(e), q),
                    (Ok(extra), q) => if extra + 9 > usize::MAX {
                        (Err(decode_fault("compact integer too large"@)), q)
                    } else {
                        match compact_bytes(b, q, (extra + 9) as nat) {
                            (Err(e), z) => (Err(e), z),
                            (Ok(run), z) => (Ok((tag, Payload::Big(run))), z),
                        }
                    },
                }
            }
        },
    }
}

/// Reads a tagged value of at most eight bytes.
pub open spec fn integer_at(b: Seq<u8>, at: nat) -> Read<(u8, i64)>
    decreases b.len() - at, 1nat,
{
    match tagged_at(b, at) {
        (Err(e), p) => (Err(e), p),
        (Ok((tag, Payload::Small(value))), p) => (Ok((tag, value)), p),
        (Ok((tag, Payload::Big(run))), p) => (
            Err(
                decode_fault(
                    "compact integer with "@ + nat_text(run.len())
                        + " bytes is too large for this context"@,
                ),
            ),
            p,
        ),
    }
}

pub open spec fn wrong_tag(tag: u8) -> LoadFault {
    decode_fault("expected unsigned compact operand, got tag "@ + nat_text(tag as nat))
}

/// Reads an unsigned value of 32 bits.
pub open spec fn unsigned_at(b: Seq<u8>, at: nat) -> Read<u32>
    decreases b.len() - at, 2nat,
{
    match integer_at(b, at) {
        (Err(e), p) => (Err(e), p),
        (Ok((tag, value)), p) => if tag != 0 {
            (Err(wrong_tag(tag)), p)
        } else {
            (in_u32(value as int, "unsigned compact operand"@), p)
        },
    }
}

/// Reads an unsigned value of 64 bits.
pub open spec fn unsigned64_at(b: Seq<u8>, at: nat) -> Read<u64> {
    match integer_at(b, at) {
        (Err(e), p) => (Err(e), p),
        (Ok((tag, value)), p) => if tag != 0 {
            (Err(wrong_tag(tag)), p)
        } else {
            (in_u64(value as int, "unsigned compact operand"@), p)
        },
    }
}

/// A tagged value takes at least one byte and ends within the input.
pub proof fn lemma_tagged_advances(b: Seq<u8>, at: nat)
    ensures
        tagged_at(b, at).0 is Ok ==> at < tagged_at(b, at).1 <= b.len(),
        integer_at(b, at).0 is Ok ==> at < integer_at(b, at).1 <= b.len(),
        unsigned_at(b, at).0 is Ok ==> at < unsigned_at(b, at).1 <= b.len(),
        unsigned64_at(b, at).0 is Ok ==> at < unsigned64_at(b, at).1 <= b.len(),
    decreases b.len() - at,
{
    if at < b.len() {
        lemma_tagged_advances(b, at + 1);
    }
}

/// How far the decoding of operands has come: the position, the literals that
/// operands brought with them, and what may still be spent on those.
#[verifier::ext_equal]
pub struct CompactState {
    pub pos: nat,
    pub extras: Seq<LiteralView>,
    pub budget: DecodeBudget,
}

/// An answer together with the state after it.
pub type Decoded<T> = (Result<T, LoadFault>, CompactState);

pub open spec fn moved(s: CompactState, pos: nat) -> CompactState {
    CompactState { pos, ..s }
}

/// An operand for a literal that comes after the module's `known` literals.
pub open spec fn extra_operand(literal: LiteralView, known: nat, s: CompactState) -> Decoded<
    OperandView,
> {
    (
        Ok(OperandView::Literal((known + s.extras.len()) as usize)),
        CompactState { extras: s.extras.push(literal), ..s },
    )
}

/// An integer operand: inline when a term can hold it, else a literal.
pub open spec fn integer_operand(value: i64, known: nat, s: CompactState) -> Decoded<OperandView> {
    if is_small(value as int) {
        (Ok(OperandView::Integer(value)), s)
    } else {
        extra_operand(LiteralView::Integer(value), known, s)
    }
}

/// The literal bytes of a big integer: its sign, and its magnitude with the
/// least significant byte first.
pub open spec fn big_literal(value: int) -> Seq<u8> {
    if value < 0 {
        seq![1u8] + le_bytes((-value) as nat)
    } else {
        seq![0u8] + le_bytes(value as nat)
    }
}

/// An integer operand of more than eight bytes.
pub open spec fn big_operand(run: Seq<u8>, known: nat, s: CompactState) -> Decoded<OperandView> {
    match node_charged(s.budget) {
        (Err(e), budget) => (Err(e), CompactState { budget, ..s }),
        (Ok(_), budget) => match bytes_charged(budget, run.len()) {
            (Err(e), budget) => (Err(e), CompactState { budget, ..s }),
            (Ok(_), budget) => {
                let value = twos_complement(run);
                if i64::MIN <= value <= i64::MAX {
                    integer_operand(value as i64, known, CompactState { budget, ..s })
                } else {
                    extra_operand(
                        LiteralView::BigInteger(big_literal(value)),
                        known,
                        CompactState { budget, ..s },
                    )
                }
            },
        },
    }
}

/// An atom operand: zero is the empty list, other numbers count from one.
pub open spec fn atom_operand(value: i64, atoms: Seq<Atom>) -> Result<OperandView, LoadFault> {
    if value == 0 {
        Ok(OperandView::Atom(None))
    } else if 1 <= value <= atoms.len() {
        Ok(OperandView::Atom(Some(atoms[value - 1])))
    } else {
        Err(decode_fault("atom index "@ + int_text(value as int) + " out of range"@))
    }
}

/// One allocation entry.
pub open spec fn allocation(tag: u64, value: u64) -> Allocation {
    if tag == 0 {
        Allocation::Words(value)
    } else if tag == 1 {
        Allocation::Floats(value)
    } else if tag == 2 {
        Allocation::Funs(value)
    } else {
        Allocation::Unknown { tag, value }
    }
}

/// Reads `n` allocation entries after those in `found`.
pub open spec fn allocations_at(b: Seq<u8>, at: nat, n: nat, found: Seq<Allocation>) -> Read<
    Seq<Allocation>,
>
    decreases n,
{
    if n == 0 {
        (Ok(found), at)
    } else {
        match unsigned64_at(b, at) {
            (Err(e), p) => (Err(e), p),
            (Ok(tag), p) => match unsigned64_at(b, p) {
                (Err(e), q) => (Err(e), q),
                (Ok(value), q) => allocations_at(
                    b,
                    q,
                    (n - 1) as nat,
                    found.push(allocation(tag, value)),
                ),
            },
        }
    }
}

/// A literal operand, or the fault of an index past the `known` literals.
pub open spec fn literal_operand(index: u64, known: nat) -> Result<OperandView, LoadFault> {
    if index > usize::MAX {
        Err(decode_fault("literal index "@ + nat_text(index as nat) + " out of range"@))
    } else if index >= known {
        Err(decode_fault("literal index "@ + nat_text(index as nat) + " out of range"@))
    } else {
        Ok(OperandView::Literal(index as usize))
    }
}

pub open spec fn mapped<T, U>(r: Result<T, LoadFault>, f: spec_fn(T) -> U) -> Result<U, LoadFault> {
    match r {
        Ok(value) => Ok(f(value)),
        Err(e) => Err(e),
    }
}

/// Reads one operand.
pub open spec fn operand_at(
    b: Seq<u8>,
    atoms: Seq<Atom>,
    known: nat,
    s: CompactState,
) -> Decoded<OperandView>
    decreases b.len() - s.pos, 0nat,
{
    proof {
        lemma_tagged_advances(b, s.pos);
    }
    match tagged_at(b, s.pos) {
        (Err(e), p) => (Err(e), moved(s, p)),
        (Ok((tag, Payload::Big(run))), p) => if tag == 1 {
            big_operand(run, known, moved(s, p))
        } else {
            (
                Err(
                    decode_fault(
                        "compact integer with "@ + nat_text(run.len())
                            + " bytes is too large for tag "@ + nat_text(tag as nat),
                    ),
                ),
                moved(s, p),
            )
        },
        (Ok((tag, Payload::Small(value))), p) => {
            let t = moved(s, p);
            if tag == 0 {
                (
                    mapped(
                        in_u64(value as int, "unsigned compact operand"@),
                        |n: u64| OperandView::Unsigned(n),
                    ),
                    t,
                )
            } else if tag == 1 {
                integer_operand(value, known, t)
            } else if tag == 2 {
                (atom_operand(value, atoms), t)
            } else if tag == 3 {
                (mapped(in_u32(value as int, "x register"@), |n: u32| OperandView::X(n)), t)
            } else if tag == 4 {
                (mapped(in_u32(value as int, "y register"@), |n: u32| OperandView::Y(n)), t)
            } else if tag == 5 {
                (mapped(in_u32(value as int, "label"@), |n: u32| OperandView::Label(n)), t)
            } else if tag == 6 {
                (
                    mapped(in_u64(value as int, "character"@), |n: u64| OperandView::Character(n)),
                    t,
                )
            } else {
                extended_at(b, atoms, known, value, t)
            }
        },
    }
}

/// Reads what follows an extended tag with the given number.
pub open spec fn extended_at(
    b: Seq<u8>,
    atoms: Seq<Atom>,
    known: nat,
    subtag: i64,
    s: CompactState,
) -> Decoded<OperandView>
    decreases b.len() - s.pos, 1nat,
{
    proof {
        lemma_tagged_advances(b, s.pos);
    }
    if subtag == 1 {
        match unsigned_at(b, s.pos) {
            (Err(e), p) => (Err(e), moved(s, p)),
            (Ok(len), p) => if len > MAX_TABLE_ENTRIES {
                (Err(decode_fault("extended list length exceeds limit"@)), moved(s, p))
            } else {
                match operands_at(b, atoms, known, len as nat, Seq::empty(), moved(s, p)) {
                    (Err(e), t) => (Err(e), t),
                    (Ok(items), t) => (Ok(OperandView::List(items)), t),
                }
            },
        }
    } else if subtag == 2 {
        match unsigned_at(b, s.pos) {
            (Err(e), p) => (Err(e), moved(s, p)),
            (Ok(n), p) => (Ok(OperandView::FloatRegister(n)), moved(s, p)),
        }
    } else if subtag == 3 {
        match unsigned_at(b, s.pos) {
            (Err(e), p) => (Err(e), moved(s, p)),
            (Ok(len), p) => if len > MAX_TABLE_ENTRIES {
                (Err(decode_fault("allocation list length exceeds limit"@)), moved(s, p))
            } else {
                match allocations_at(b, p, len as nat, Seq::empty()) {
                    (Err(e), q) => (Err(e), moved(s, q)),
                    (Ok(entries), q) => (Ok(OperandView::Allocation(entries)), moved(s, q)),
                }
            },
        }
    } else if subtag == 0 || subtag == 4 {
        match unsigned64_at(b, s.pos) {
            (Err(e), p) => (Err(e), moved(s, p)),
            (Ok(index), p) => (literal_operand(index, known), moved(s, p)),
        }
    } else if subtag == 5 {
        match operand_at(b, atoms, known, s) {
            (Err(e), t) => (Err(e), t),
            (Ok(register), t) => match unsigned64_at(b, t.pos) {
                (Err(e), p) => (Err(e), moved(t, p)),
                (Ok(type_index), p) => (
                    Ok(OperandView::TypedRegister { register: Box::new(register), type_index }),
                    moved(t, p),
                ),
            },
        }
    } else {
        (
            Err(decode_fault("unsupported compact extended tag "@ + int_text(subtag as int))),
            s,
        )
    }
}

/// Reads `n` operands after those in `found`. Every operand takes at least one
/// byte, as [`CompactDecoder::read_operand`] states.
pub open spec fn operands_at(
    b: Seq<u8>,
    atoms: Seq<Atom>,
    known: nat,
    n: nat,
    found: Seq<OperandView>,
    s: CompactState,
) -> Decoded<Seq<OperandView>>
    decreases b.len() - s.pos, n + 1,
{
    if n == 0 {
        (Ok(found), s)
    } else {
        match operand_at(b, atoms, known, s) {
            (Err(e), t) => (Err(e), t),
            (Ok(operand), t) => if s.pos < t.pos <= b.len() {
                operands_at(b, atoms, known, (n - 1) as nat, found.push(operand), t)
            } else {
                (Err(decode_fault("truncated compact term"@)), t)
            },
        }
    }
}

/// One decoded compact-encoded value: either an `i64` or, for payloads wider
/// than eight bytes, a borrowed big-endian two's-complement byte slice.
enum CompactValue<'a> {
    Small(i64),
    Big(&'a [u8]),
}

spec fn payload(value: CompactValue<'_>) -> Payload {
    match value {
        CompactValue::Small(n) => Payload::Small(n),
        CompactValue::Big(run) => Payload::Big(run@),
    }
}

spec fn payload_outcome(r: Result<(u8, CompactValue<'_>), LoadError>) -> Result<
    (u8, Payload),
    LoadFault,
> {
    match r {
        Ok((tag, value)) => Ok((tag, payload(value))),
        Err(e) => Err(e@),
    }
}

/// The outcome of a function that answers an operand.
pub open spec fn operand_outcome(r: Result<Operand, LoadError>) -> Result<OperandView, LoadFault> {
    match r {
        Ok(operand) => Ok(operand.view()),
        Err(e) => Err(e@),
    }
}

/// The outcome of a function that answers operands.
pub open spec fn operands_outcome(r: Result<Vec<Operand>, LoadError>) -> Result<
    Seq<OperandView>,
    LoadFault,
> {
    match r {
        Ok(operands) => Ok(operand_views(operands@)),
        Err(e) => Err(e@),
    }
}

fn value_out_of_range(context: &str, value: i64) -> (e: LoadError)
    ensures
        e@ == decode_fault(context@ + " value "@ + int_text(value as int) + " out of range"@),
{
    let mut text = context.to_owned();
    text.append(" value ");
    text.append(decimal_i64(value).as_str());
    text.append(" out of range");
    LoadError::DecodeError(text)
}

pub fn unsigned_u32(value: i64, context: &str) -> (r: Result<u32, LoadError>)
    ensures
        outcome(r) == in_u32(value as int, context@),
{
    if 0 <= value && value <= 0xffff_ffff {
        Ok(value as u32)
    } else {
        Err(value_out_of_range(context, value))
    }
}

pub fn unsigned_u64(value: i64, context: &str) -> (r: Result<u64, LoadError>)
    ensures
        outcome(r) == in_u64(value as int, context@),
{
    if 0 <= value {
        Ok(value as u64)
    } else {
        Err(value_out_of_range(context, value))
    }
}

/// Reads operands of a run of bytes.
pub struct CompactDecoder<'a> {
    bytes: &'a [u8],
    offset: usize,
    atoms: &'a [Atom],
    literals: &'a [Literal],
    /// Integer operands that no term can hold; they become constants after the
    /// module's own.
    extra_literals: Vec<Literal>,
    /// Bounds what oversized integer operands may cost.
    budget: DecodeBudget,
}

impl<'a> CompactDecoder<'a> {
    /// The bytes being read.
    pub closed spec fn all(&self) -> Seq<u8> {
        self.bytes@
    }

    /// The module's atoms.
    pub closed spec fn atoms(&self) -> Seq<Atom> {
        self.atoms@
    }

    /// How many literals the module has itself.
    pub closed spec fn known(&self) -> nat {
        self.literals@.len()
    }

    /// How far decoding has come.
    pub closed spec fn state(&self) -> CompactState {
        CompactState {
            pos: self.offset as nat,
            extras: literal_views(self.extra_literals@),
            budget: self.budget,
        }
    }

    /// The position lies within the bytes, every extra literal took a byte, and
    /// literal indices are machine words.
    pub open spec fn wf(&self) -> bool {
        &&& self.state().pos <= self.all().len()
        &&& self.state().extras.len() <= self.state().pos
        &&& self.known() + self.all().len() <= usize::MAX
    }

    /// Reads the same input as `other`.
    pub open spec fn same_input(&self, other: &Self) -> bool {
        &&& self.all() == other.all()
        &&& self.atoms() == other.atoms()
        &&& self.known() == other.known()
    }

    pub fn new(bytes: &'a [u8], atoms: &'a [Atom], literals: &'a [Literal]) -> (r: Self)
        requires
            literals@.len() + bytes@.len() <= usize::MAX,
        ensures
            r.wf(),
            r.all() == bytes@,
            r.atoms() == atoms@,
            r.known() == literals@.len(),
            r.state() == (CompactState {
                pos: 0,
                extras: Seq::<LiteralView>::empty(),
                budget: default_budget(),
            }),
    {
        let r = CompactDecoder {
            bytes,
            offset: 0,
            atoms,
            literals,
            extra_literals: Vec::new(),
            budget: DecodeBudget::default(),
        };
        assert(r.state().extras =~= Seq::<LiteralView>::empty());
        r
    }

    /// The literals that operands brought so far, which are then forgotten.
    ///
    /// Operands refer to them by the number of the module's own literals plus
    /// their position, so they belong after the module's literal table.
    pub fn take_extra_literals(&mut self) -> (r: Vec<Literal>)
        requires
            old(self).wf(),
        ensures
            final(self).wf(),
            final(self).same_input(old(self)),
            literal_views(r@) == old(self).state().extras,
            final(self).state() == (CompactState {
                extras: Seq::<LiteralView>::empty(),
                ..old(self).state()
            }),
    {
        let mut taken: Vec<Literal> = Vec::new();
        std::mem::swap(&mut taken, &mut self.extra_literals);
        assert(self.state().extras =~= Seq::<LiteralView>::empty());
        taken
    }

    pub fn is_empty(&self) -> (r: bool)
        requires
            self.wf(),
        ensures
            r == (self.state().pos == self.all().len()),
    {
        self.offset >= self.bytes.len()
    }

    pub fn offset(&self) -> (r: usize)
        ensures
            r == self.state().pos,
    {
        self.offset
    }

    pub fn read_opcode(&mut self) -> (r: Result<u8, LoadError>)
        requires
            old(self).wf(),
        ensures
            final(self).wf(),
            final(self).same_input(old(self)),
            outcome(r) == compact_byte(old(self).all(), old(self).state().pos).0,
            final(self).state() == moved(
                old(self).state(),
                compact_byte(old(self).all(), old(self).state().pos).1,
            ),
    {
        self.read_byte()
    }

    fn read_byte(&mut self) -> (r: Result<u8, LoadError>)
        requires
            old(self).wf(),
        ensures
            final(self).wf(),
            *final(self) == (CompactDecoder { offset: final(self).offset, ..*old(self) }),
            (outcome(r), final(self).offset as nat) == compact_byte(
                old(self).all(),
                old(self).offset as nat,
            ),
    {
        if self.offset < self.bytes.len() {
            let byte: u8 = self.bytes[self.offset];
            self.offset += 1;
            Ok(byte)
        } else {
            Err(decode_error("truncated compact term"))
        }
    }

    fn read_bytes(&mut self, len: usize) -> (r: Result<&'a [u8], LoadError>)
        requires
            old(self).wf(),
        ensures
            final(self).wf(),
            *final(self) == (CompactDecoder { offset: final(self).offset, ..*old(self) }),
            match compact_bytes(old(self).all(), old(self).offset as nat, len as nat) {
                (Ok(run), end) => r matches Ok(x) && x@ == run && final(self).offset == end,
                (Err(e), end) => r matches Err(x) && x@ == e && final(self).offset == end,
            },
    {
        let end: usize = match self.offset.checked_add(len) {
            Some(end) => end,
            None => {
                return Err(decode_error("compact term offset overflow"));
            },
        };
        if end > self.bytes.len() {
            return Err(decode_error("truncated compact term"));
        }
        let run = vstd::slice::slice_subrange(self.bytes, self.offset, end);
        self.offset = end;
        Ok(run)
    }

    fn read_tagged_value(&mut self) -> (r: Result<(u8, CompactValue<'a>), LoadError>)
        requires
            old(self).wf(),
        ensures
            final(self).wf(),
            *final(self) == (CompactDecoder { offset: final(self).offset, ..*old(self) }),
            (payload_outcome(r), final(self).offset as nat) == tagged_at(
                old(self).all(),
                old(self).offset as nat,
            ),
        decreases old(self).all().len() - old(self).state().pos, 0nat,
    {
        let first: u8 = self.read_byte()?;
        let tag: u8 = first % 8;
        let upper: u8 = first / 32;
        if (first / 8) % 2 == 0 {
            Ok((tag, CompactValue::Small((first / 16) as i64)))
        } else if (first / 16) % 2 == 0 {
            let low: u8 = self.read_byte()?;
            Ok((tag, CompactValue::Small((upper as i64) * 256 + low as i64)))
        } else if upper < 7 {
            let run = self.read_bytes(upper as usize + 2)?;
            Ok((tag, CompactValue::Small(read_word(run, tag == 1))))
        } else {
            let extra: u32 = self.read_unsigned()?;
            let count: usize = match (extra as usize).checked_add(9) {
                Some(count) => count,
                None => {
                    return Err(decode_error("compact integer too large"));
                },
            };
            let run = self.read_bytes(count)?;
            Ok((tag, CompactValue::Big(run)))
        }
    }

    fn read_tagged_integer(&mut self) -> (r: Result<(u8, i64), LoadError>)
        requires
            old(self).wf(),
        ensures
            final(self).wf(),
            *final(self) == (CompactDecoder { offset: final(self).offset, ..*old(self) }),
            (outcome(r), final(self).offset as nat) == integer_at(
                old(self).all(),
                old(self).offset as nat,
            ),
        decreases old(self).all().len() - old(self).state().pos, 1nat,
    {
        let (tag, value) = self.read_tagged_value()?;
        match value {
            CompactValue::Small(n) => Ok((tag, n)),
            CompactValue::Big(run) => {
                let mut text = "compact integer with ".to_owned();
                text.append(decimal_u64(run.len() as u64).as_str());
                text.append(" bytes is too large for this context");
                Err(LoadError::DecodeError(text))
            },
        }
    }

    fn read_unsigned(&mut self) -> (r: Result<u32, LoadError>)
        requires
            old(self).wf(),
        ensures
            final(self).wf(),
            *final(self) == (CompactDecoder { offset: final(self).offset, ..*old(self) }),
            (outcome(r), final(self).offset as nat) == unsigned_at(
                old(self).all(),
                old(self).offset as nat,
            ),
        decreases old(self).all().len() - old(self).state().pos, 2nat,
    {
        let (tag, value) = self.read_tagged_integer()?;
        if tag != 0 {
            let mut text = "expected unsigned compact operand, got tag ".to_owned();
            text.append(decimal_u64(tag as u64).as_str());
            return Err(LoadError::DecodeError(text));
        }
        unsigned_u32(value, "unsigned compact operand")
    }

    fn read_unsigned_u64(&mut self) -> (r: Result<u64, LoadError>)
        requires
            old(self).wf(),
        ensures
            final(self).wf(),
            *final(self) == (CompactDecoder { offset: final(self).offset, ..*old(self) }),
            (outcome(r), final(self).offset as nat) == unsigned64_at(
                old(self).all(),
                old(self).offset as nat,
            ),
    {
        let (tag, value) = self.read_tagged_integer()?;
        if tag != 0 {
            let mut text = "expected unsigned compact operand, got tag ".to_owned();
            text.append(decimal_u64(tag as u64).as_str());
            return Err(LoadError::DecodeError(text));
        }
        unsigned_u64(value, "unsigned compact operand")
    }

    /// Reads a tag and a value of at most eight bytes.
    pub fn read_raw_compact_i64(&mut self) -> (r: Result<(u8, i64), LoadError>)
        requires
            old(self).wf(),
        ensures
            final(self).wf(),
            final(self).same_input(old(self)),
            outcome(r) == integer_at(old(self).all(), old(self).state().pos).0,
            final(self).state() == moved(
                old(self).state(),
                integer_at(old(self).all(), old(self).state().pos).1,
            ),
    {
        self.read_tagged_integer()
    }

    fn push_extra_literal(&mut self, literal: Literal) -> (r: Operand)
        requires
            old(self).wf(),
            old(self).state().extras.len() < old(self).state().pos,
        ensures
            final(self).wf(),
            final(self).same_input(old(self)),
            (Ok::<OperandView, LoadFault>(r.view()), final(self).state()) == extra_operand(
                literal.view(),
                old(self).known(),
                old(self).state(),
            ),
    {
        let index: usize = self.literals.len() + self.extra_literals.len();
        proof {
            lemma_literal_views_push(self.extra_literals@, literal);
        }
        self.extra_literals.push(literal);
        Operand::Literal(index)
    }

    /// An integer operand, which becomes a constant when no term can hold it.
    fn integer_operand(&mut self, value: i64) -> (r: Operand)
        requires
            old(self).wf(),
            old(self).state().extras.len() < old(self).state().pos,
        ensures
            final(self).wf(),
            final(self).same_input(old(self)),
            (Ok::<OperandView, LoadFault>(r.view()), final(self).state()) == integer_operand(
                value,
                old(self).known(),
                old(self).state(),
            ),
    {
        if SMALL_INT_MIN <= value && value <= SMALL_INT_MAX {
            Operand::Integer(value)
        } else {
            self.push_extra_literal(Literal::Integer(value))
        }
    }

    /// An integer operand of more than eight bytes.
    fn big_integer_operand(&mut self, run: &[u8]) -> (r: Result<Operand, LoadError>)
        requires
            old(self).wf(),
            old(self).state().extras.len() < old(self).state().pos,
            run@.len() > 0,
        ensures
            final(self).wf(),
            final(self).same_input(old(self)),
            (operand_outcome(r), final(self).state()) == big_operand(
                run@,
                old(self).known(),
                old(self).state(),
            ),
    {
        match self.budget.charge_node() {
            Ok(_) => {},
            Err(e) => {
                return Err(e);
            },
        }
        match self.budget.charge_bytes(run.len()) {
            Ok(_) => {},
            Err(e) => {
                return Err(e);
            },
        }
        let negative = run[0] >= 128;
        let magnitude = magnitude_le(run);
        proof {
            lemma_twos_complement_sign(run@);
            let value = twos_complement(run@);
            if value < 0 {
                lemma_le_bytes_value((-value) as nat);
            } else {
                lemma_le_bytes_value(value as nat);
                assert(value == 0 ==> le_bytes(value as nat) =~= Seq::<u8>::empty());
            }
        }
        match small_from_magnitude(negative, &magnitude) {
            Some(small) => Ok(self.integer_operand(small)),
            None => {
                let mut bytes: Vec<u8> = Vec::new();
                let mut rest = magnitude;
                bytes.push(
                    if negative {
                        1u8
                    } else {
                        0u8
                    },
                );
                bytes.append(&mut rest);
                assert(bytes@ =~= big_literal(twos_complement(run@)));
                Ok(self.push_extra_literal(Literal::BigInteger(bytes)))
            },
        }
    }

    fn atom_operand(&self, value: i64) -> (r: Result<Operand, LoadError>)
        ensures
            operand_outcome(r) == atom_operand(value, self.atoms()),
    {
        if value == 0 {
            return Ok(Operand::Atom(None));
        }
        if value >= 1 && (value as u64) <= self.atoms.len() as u64 {
            return Ok(Operand::Atom(Some(self.atoms[(value - 1) as usize])));
        }
        let mut text = "atom index ".to_owned();
        text.append(decimal_i64(value).as_str());
        text.append(" out of range");
        Err(LoadError::DecodeError(text))
    }

    /// Reads one operand.
    pub fn read_operand(&mut self) -> (r: Result<Operand, LoadError>)
        requires
            old(self).wf(),
        ensures
            final(self).wf(),
            final(self).same_input(old(self)),
            (operand_outcome(r), final(self).state()) == operand_at(
                old(self).all(),
                old(self).atoms(),
                old(self).known(),
                old(self).state(),
            ),
            r is Ok ==> final(self).state().pos > old(self).state().pos,
        decreases old(self).all().len() - old(self).state().pos, 0nat,
    {
        proof {
            lemma_tagged_advances(self.all(), self.offset as nat);
        }
        let (tag, value) = self.read_tagged_value()?;
        let value: i64 = match value {
            CompactValue::Small(value) => value,
            CompactValue::Big(run) => {
                if tag == 1 {
                    return self.big_integer_operand(run);
                }
                let mut text = "compact integer with ".to_owned();
                text.append(decimal_u64(run.len() as u64).as_str());
                text.append(" bytes is too large for tag ");
                text.append(decimal_u64(tag as u64).as_str());
                return Err(LoadError::DecodeError(text));
            },
        };
        if tag == 0 {
            let n: u64 = unsigned_u64(value, "unsigned compact operand")?;
            Ok(Operand::Unsigned(n))
        } else if tag == 1 {
            Ok(self.integer_operand(value))
        } else if tag == 2 {
            self.atom_operand(value)
        } else if tag == 3 {
            let n: u32 = unsigned_u32(value, "x register")?;
            Ok(Operand::X(n))
        } else if tag == 4 {
            let n: u32 = unsigned_u32(value, "y register")?;
            Ok(Operand::Y(n))
        } else if tag == 5 {
            let n: u32 = unsigned_u32(value, "label")?;
            Ok(Operand::Label(n))
        } else if tag == 6 {
            let n: u64 = unsigned_u64(value, "character")?;
            Ok(Operand::Character(n))
        } else {
            self.read_extended(value)
        }
    }

    #[verifier::rlimit(60)]
    fn read_extended(&mut self, subtag: i64) -> (r: Result<Operand, LoadError>)
        requires
            old(self).wf(),
        ensures
            final(self).wf(),
            final(self).same_input(old(self)),
            (operand_outcome(r), final(self).state()) == extended_at(
                old(self).all(),
                old(self).atoms(),
                old(self).known(),
                subtag,
                old(self).state(),
            ),
            r is Ok ==> final(self).state().pos >= old(self).state().pos,
        decreases old(self).all().len() - old(self).state().pos, 1nat,
    {
        proof {
            lemma_tagged_advances(self.all(), self.offset as nat);
        }
        if subtag == 1 {
            let len: u32 = self.read_unsigned()?;
            if len as u64 > MAX_TABLE_ENTRIES as u64 {
                return Err(decode_error("extended list length exceeds limit"));
            }
            let items = self.read_operands(len)?;
            proof {
                lemma_operand_list_view(items);
            }
            Ok(Operand::List(items))
        } else if subtag == 2 {
            let n: u32 = self.read_unsigned()?;
            Ok(Operand::FloatRegister(n))
        } else if subtag == 3 {
            let len: u32 = self.read_unsigned()?;
            if len as u64 > MAX_TABLE_ENTRIES as u64 {
                return Err(decode_error("allocation list length exceeds limit"));
            }
            let entries = self.read_allocations(len)?;
            Ok(Operand::Allocation(entries))
        } else if subtag == 0 || subtag == 4 {
            let index: u64 = self.read_unsigned_u64()?;
            if index >= self.literals.len() as u64 {
                let mut text = "literal index ".to_owned();
                text.append(decimal_u64(index).as_str());
                text.append(" out of range");
                return Err(LoadError::DecodeError(text));
            }
            Ok(Operand::Literal(index as usize))
        } else if subtag == 5 {
            let register = self.read_operand()?;
            proof {
                lemma_tagged_advances(self.all(), self.offset as nat);
            }
            let type_index: u64 = self.read_unsigned_u64()?;
            Ok(Operand::TypedRegister { register: Box::new(register), type_index })
        } else {
            let mut text = "unsupported compact extended tag ".to_owned();
            text.append(decimal_i64(subtag).as_str());
            Err(LoadError::DecodeError(text))
        }
    }

    /// Reads `len` operands.
    pub fn read_operands(&mut self, len: u32) -> (r: Result<Vec<Operand>, LoadError>)
        requires
            old(self).wf(),
        ensures
            final(self).wf(),
            final(self).same_input(old(self)),
            (operands_outcome(r), final(self).state()) == operands_at(
                old(self).all(),
                old(self).atoms(),
                old(self).known(),
                len as nat,
                Seq::empty(),
                old(self).state(),
            ),
            r is Ok ==> final(self).state().pos >= old(self).state().pos,
        decreases old(self).all().len() - old(self).state().pos, len as nat + 1,
    {
        let mut items: Vec<Operand> = Vec::new();
        let mut left: u32 = len;
        assert(operand_views(items@) =~= Seq::empty());
        while left > 0
            invariant
                self.wf(),
                self.same_input(old(self)),
                left <= len,
                self.state().pos >= old(self).state().pos,
                left < len ==> self.state().pos > old(self).state().pos,
                operands_at(
                    old(self).all(),
                    old(self).atoms(),
                    old(self).known(),
                    len as nat,
                    Seq::empty(),
                    old(self).state(),
                ) == operands_at(
                    old(self).all(),
                    old(self).atoms(),
                    old(self).known(),
                    left as nat,
                    operand_views(items@),
                    self.state(),
                ),
            decreases left,
        {
            let operand = self.read_operand()?;
            proof {
                lemma_operand_views_push(items@, operand);
            }
            items.push(operand);
            left -= 1;
        }
        Ok(items)
    }

    #[verifier::rlimit(60)]
    fn read_allocations(&mut self, len: u32) -> (r: Result<Vec<Allocation>, LoadError>)
        requires
            old(self).wf(),
        ensures
            final(self).wf(),
            *final(self) == (CompactDecoder { offset: final(self).offset, ..*old(self) }),
            ({
                let expected = allocations_at(
                    old(self).all(),
                    old(self).offset as nat,
                    len as nat,
                    Seq::empty(),
                );
                &&& expected.1 == final(self).offset
                &&& match r {
                    Ok(entries) => expected.0 == Ok::<Seq<Allocation>, LoadFault>(entries@),
                    Err(e) => expected.0 == Err::<Seq<Allocation>, LoadFault>(e@),
                }
            }),
            r is Ok ==> final(self).offset >= old(self).offset,
    {
        let mut entries: Vec<Allocation> = Vec::new();
        let mut left: u32 = len;
        assert(entries@ =~= Seq::empty());
        while left > 0
            invariant
                self.wf(),
                *self == (CompactDecoder { offset: self.offset, ..*old(self) }),
                self.offset >= old(self).offset,
                left <= len,
                allocations_at(old(self).all(), old(self).offset as nat, len as nat, Seq::empty())
                    == allocations_at(
                    old(self).all(),
                    self.offset as nat,
                    left as nat,
                    entries@,
                ),
            decreases left,
        {
            proof {
                lemma_tagged_advances(self.all(), self.offset as nat);
            }
            let tag: u64 = self.read_unsigned_u64()?;
            proof {
                lemma_tagged_advances(self.all(), self.offset as nat);
            }
            let value: u64 = self.read_unsigned_u64()?;
            let entry = if tag == 0 {
                Allocation::Words(value)
            } else if tag == 1 {
                Allocation::Floats(value)
            } else if tag == 2 {
                Allocation::Funs(value)
            } else {
                Allocation::Unknown { tag, value }
            };
            entries.push(entry);
            left -= 1;
        }
        Ok(entries)
    }
}

} // verus!
