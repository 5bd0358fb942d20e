//! The tables of a module: atoms, imports, exports, lambdas, lines, literals.

use std::io::Read as _;

use vstd::layout::size_of;
use vstd::prelude::*;
use vstd::string::*;
use vstd::utf8::{decode_utf8, valid_utf8};
use crate::atom::{atom_named, interned, Atom, AtomTable};
use crate::error::{decode_error, decode_fault, outcome, outcome_seq, LoadError, LoadFault};
use crate::text::{decimal_i64, decimal_u64, int_text, nat_text, utf8_text};
use super::bounded::{
    bytes_at, count_fault, i32_at, trailing, u32_at, u8_at, BoundedCursor, Read,
};
use super::budget::{
    atom_charged, bytes_charged, node_charged, table_charged, Charged, DecodeBudget,
};
use super::compact::{integer_at, CompactDecoder};
use super::etf::{
    at, decode_external_term, etf_state, flat, literals_outcome, roomy, spent, term_at, Etf,
    EtfState,
};
use super::literal::{lemma_literal_views_push, literal_views, Literal, LiteralView};

verus! {

/// A function that the module calls and another defines.
#[derive(Debug, Clone, Copy, PartialEq, Eq, Structural)]
pub struct ImportEntry {
    pub module: Atom,
    pub function: Atom,
    pub arity: u8,
}

/// A function that other modules may call.
#[derive(Debug, Clone, Copy, PartialEq, Eq, Structural)]
pub struct ExportEntry {
    pub function: Atom,
    pub arity: u8,
    pub label: u32,
}

/// A function that closures are made of.
#[derive(Debug, Clone, Copy, PartialEq, Eq, Structural)]
pub struct LambdaEntry {
    pub function: Atom,
    pub arity: u8,
    pub label: u32,
    pub num_free: u32,
    /// Identifies the lambda by module, function, arity and free variables. The
    /// chunk does not name the module, so the loader fills this in later.
    pub unique_id: u64,
}

/// A source position.
#[derive(Debug, Clone, Copy, PartialEq, Eq, Structural)]
pub struct LineInfo {
    pub file: u32,
    pub line: u32,
}

/// The atom with the given number; they count from one.
pub open spec fn atom_at(index: u32, atoms: Seq<Atom>) -> Result<Atom, LoadFault> {
    if index == 0 {
        Err(decode_fault("atom index 0 is invalid here"@))
    } else if index <= atoms.len() {
        Ok(atoms[index - 1])
    } else {
        Err(decode_fault("atom index "@ + nat_text(index as nat) + " out of range"@))
    }
}

fn resolve_atom(index: u32, atoms: &[Atom]) -> (r: Result<Atom, LoadError>)
    ensures
        outcome(r) == atom_at(index, atoms@),
{
    if index == 0 {
        return Err(decode_error("atom index 0 is invalid here"));
    }
    if (index - 1) as usize >= atoms.len() {
        let mut text = "atom index ".to_owned();
        text.append(decimal_u64(index as u64).as_str());
        text.append(" out of range");
        return Err(LoadError::DecodeError(text));
    }
    Ok(atoms[(index - 1) as usize])
}

/// An arity, which is one byte.
pub open spec fn arity_of(value: u32) -> Result<u8, LoadFault> {
    if value <= 255 {
        Ok(value as u8)
    } else {
        Err(decode_fault("arity "@ + nat_text(value as nat) + " out of range"@))
    }
}

fn checked_arity(value: u32) -> (r: Result<u8, LoadError>)
    ensures
        outcome(r) == arity_of(value),
{
    if value <= 255 {
        Ok(value as u8)
    } else {
        let mut text = "arity ".to_owned();
        text.append(decimal_u64(value as u64).as_str());
        text.append(" out of range");
        Err(LoadError::DecodeError(text))
    }
}

/// Reads a compact number that starts at `at`.
pub open spec fn number_at(b: Seq<u8>, at: nat) -> Read<(u8, i64)> {
    match integer_at(b.subrange(at as int, b.len() as int), 0) {
        (Err(e), _) => (Err(e), at),
        (Ok(tagged), len) => match bytes_at(b, at, len) {
            (Err(e), p) => (Err(e), p),
            (Ok(_), p) => (Ok(tagged), p),
        },
    }
}

/// Reads the compact number at the cursor, without moving it.
fn peek_number(cursor: &BoundedCursor<'_>) -> (r: Result<(u8, i64, usize), LoadError>)
    requires
        cursor.wf(),
    ensures
        ({
            let rest = cursor.all().subrange(cursor.pos() as int, cursor.all().len() as int);
            match integer_at(rest, 0) {
                (Err(e), _) => r matches Err(x) && x@ == e,
                (Ok((tag, value)), len) => r matches Ok(x) && x.0 == tag && x.1 == value && x.2
                    == len,
            }
        }),
{
    let no_atoms: Vec<Atom> = Vec::new();
    let no_literals: Vec<Literal> = Vec::new();
    let rest = cursor.remaining();
    assert(rest@.len() <= usize::MAX) by {
        assert(rest@.len() == rest.len());
    }
    let mut decoder = CompactDecoder::new(rest, no_atoms.as_slice(), no_literals.as_slice());
    let (tag, value) = decoder.read_raw_compact_i64()?;
    Ok((tag, value, decoder.offset()))
}

/// Reads the compact number at the cursor.
fn read_number(cursor: &mut BoundedCursor<'_>) -> (r: Result<(u8, i64), LoadError>)
    requires
        old(cursor).wf(),
    ensures
        final(cursor).wf(),
        final(cursor).all() == old(cursor).all(),
        (outcome(r), final(cursor).pos()) == number_at(old(cursor).all(), old(cursor).pos()),
{
    let (tag, value, len) = peek_number(cursor)?;
    cursor.advance(len)?;
    Ok((tag, value))
}

// ---------------------------------------------------------------------------
// Atoms
// ---------------------------------------------------------------------------

/// Reads the length of an atom's name: one byte, or a compact number.
pub open spec fn name_length(b: Seq<u8>, compact: bool, s: EtfState) -> Etf<nat> {
    if compact {
        match integer_at(b.subrange(s.pos as int, b.len() as int), 0) {
            (Err(e), _) => (Err(e), s),
            (Ok((tag, value)), len) => if tag != 0 || value < 0 {
                (Err(decode_fault("malformed AtU8 atom length"@)), s)
            } else {
                match bytes_at(b, s.pos, len) {
                    (Err(e), p) => (Err(e), at(s, p)),
                    (Ok(_), p) => if value > usize::MAX {
                        (Err(decode_fault("atom length out of range"@)), at(s, p))
                    } else {
                        (Ok(value as nat), at(s, p))
                    },
                }
            },
        }
    } else {
        match u8_at(b, s.pos) {
            (Err(e), p) => (Err(e), at(s, p)),
            (Ok(len), p) => (Ok(len as nat), at(s, p)),
        }
    }
}

/// The atom of a name; a name that is new costs one atom of the budget.
pub open spec fn module_atom(name: Seq<u8>, s: EtfState) -> Etf<Atom> {
    if !valid_utf8(name) {
        (Err(decode_fault("atom name is not valid UTF-8"@)), s)
    } else {
        match atom_named(s.names, decode_utf8(name)) {
            Some(atom) => (Ok(atom), s),
            None => match atom_charged(s.budget) {
                (Err(e), budget) => (Err(e), spent(s, budget)),
                (Ok(_), budget) => {
                    let (atom, names) = interned(s.names, decode_utf8(name));
                    (Ok(atom), EtfState { names, budget, ..s })
                },
            },
        }
    }
}

/// Reads one atom.
pub open spec fn atom_entry(b: Seq<u8>, compact: bool, s: EtfState) -> Etf<Atom> {
    match node_charged(s.budget) {
        (Err(e), budget) => (Err(e), spent(s, budget)),
        (Ok(_), budget) => match name_length(b, compact, spent(s, budget)) {
            (Err(e), t) => (Err(e), t),
            (Ok(len), t) => match bytes_at(b, t.pos, len) {
                (Err(e), p) => (Err(e), at(t, p)),
                (Ok(name), p) => module_atom(name, at(t, p)),
            },
        },
    }
}

/// Reads `n` atoms after those in `found`.
pub open spec fn atom_entries(
    b: Seq<u8>,
    compact: bool,
    n: nat,
    found: Seq<Atom>,
    s: EtfState,
) -> Etf<Seq<Atom>>
    decreases n,
{
    if n == 0 {
        (Ok(found), s)
    } else {
        match atom_entry(b, compact, s) {
            (Err(e), t) => (Err(e), t),
            (Ok(atom), t) => atom_entries(b, compact, (n - 1) as nat, found.push(atom), t),
        }
    }
}

/// The atoms of an atom chunk. A negative count says that the lengths of names
/// are compact numbers.
pub open spec fn atom_chunk(b: Seq<u8>, names: Seq<Seq<char>>, budget: DecodeBudget) -> Etf<
    Seq<Atom>,
> {
    let s = EtfState { pos: 0, names, budget };
    match i32_at(b, 0) {
        (Err(e), p) => (Err(e), at(s, p)),
        (Ok(raw), p) => {
            let count = if raw < 0 {
                (-raw) as nat
            } else {
                raw as nat
            };
            match count_fault((b.len() - p) as nat, count, 1, "atom count"@) {
                Some(e) => (Err(e), at(s, p)),
                None => match table_charged(
                    budget,
                    count,
                    size_of::<Atom>(),
                    "atom table allocation size overflow"@,
                ) {
                    (Err(e), budget) => (Err(e), at(spent(s, budget), p)),
                    (Ok(_), budget) => match atom_entries(
                        b,
                        raw < 0,
                        count,
                        Seq::empty(),
                        at(spent(s, budget), p),
                    ) {
                        (Err(e), t) => (Err(e), t),
                        (Ok(atoms), t) => if t.pos == b.len() {
                            (Ok(atoms), t)
                        } else {
                            (Err(decode_fault("trailing atom chunk data"@)), t)
                        },
                    },
                },
            }
        },
    }
}

/// The state of a chunk decoder, with the whole budget.
spec fn chunk_state(cursor: BoundedCursor<'_>, table: AtomTable, budget: DecodeBudget) -> EtfState {
    EtfState { pos: cursor.pos(), names: table@, budget }
}

spec fn chunk_stepped(
    cursor: BoundedCursor<'_>,
    budget: DecodeBudget,
    cursor_after: BoundedCursor<'_>,
    table_after: AtomTable,
    budget_after: DecodeBudget,
) -> bool {
    &&& cursor_after.wf()
    &&& cursor_after.all() == cursor.all()
    &&& roomy(table_after, budget_after)
    &&& budget_after.depth_remaining == budget.depth_remaining
}

fn read_name_length(
    cursor: &mut BoundedCursor<'_>,
    compact: bool,
    Ghost(s): Ghost<EtfState>,
) -> (r: Result<usize, LoadError>)
    requires
        old(cursor).wf(),
        s.pos == old(cursor).pos(),
    ensures
        final(cursor).wf(),
        final(cursor).all() == old(cursor).all(),
        ({
            let expected = name_length(old(cursor).all(), compact, s);
            &&& expected.1 == at(s, final(cursor).pos())
            &&& match r {
                Ok(len) => expected.0 == Ok::<nat, LoadFault>(len as nat),
                Err(e) => expected.0 == Err::<nat, LoadFault>(e@),
            }
        }),
{
    if compact {
        let (tag, value, len) = peek_number(cursor)?;
        if tag != 0 || value < 0 {
            return Err(decode_error("malformed AtU8 atom length"));
        }
        cursor.advance(len)?;
        if value as u64 > usize::MAX as u64 {
            return Err(decode_error("atom length out of range"));
        }
        Ok(value as usize)
    } else {
        let len: u8 = cursor.read_u8()?;
        Ok(len as usize)
    }
}

fn decode_atom_entry(
    cursor: &mut BoundedCursor<'_>,
    compact: bool,
    table: &mut AtomTable,
    budget: &mut DecodeBudget,
) -> (r: Result<Atom, LoadError>)
    requires
        old(cursor).wf(),
        roomy(*old(table), *old(budget)),
    ensures
        chunk_stepped(*old(cursor), *old(budget), *final(cursor), *final(table), *final(budget)),
        (outcome(r), chunk_state(*final(cursor), *final(table), *final(budget))) == atom_entry(
            old(cursor).all(),
            compact,
            chunk_state(*old(cursor), *old(table), *old(budget)),
        ),
{
    budget.charge_node()?;
    let ghost s = chunk_state(*cursor, *table, *budget);
    let len: usize = read_name_length(cursor, compact, Ghost(s))?;
    let bytes = cursor.read_bytes(len)?;
    let name = match utf8_text(bytes) {
        Some(name) => name,
        None => {
            return Err(decode_error("atom name is not valid UTF-8"));
        },
    };
    match table.lookup(name) {
        Some(atom) => Ok(atom),
        None => {
            budget.charge_atom()?;
            Ok(table.intern(name))
        },
    }
}

/// Decodes an atom chunk.
#[verifier::loop_isolation(false)]
pub fn decode_atom_chunk(bytes: &[u8], table: &mut AtomTable, budget: &mut DecodeBudget) -> (r:
    Result<Vec<Atom>, LoadError>)
    requires
        roomy(*old(table), *old(budget)),
    ensures
        roomy(*final(table), *final(budget)),
        ({
            let (expected, s) = atom_chunk(bytes@, old(table)@, *old(budget));
            &&& outcome_seq(r) == expected
            &&& final(table)@ == s.names
            &&& *final(budget) == s.budget
        }),
{
    let mut cursor = BoundedCursor::new(bytes);
    let raw_count: i32 = cursor.read_i32()?;
    let compact = raw_count < 0;
    let count: usize = if compact {
        (-(raw_count as i64)) as usize
    } else {
        raw_count as usize
    };
    cursor.ensure_count(count, 1, "atom count")?;
    budget.charge_table(
        count,
        core::mem::size_of::<Atom>(),
        "atom table allocation size overflow",
    )?;
    let ghost start = chunk_state(cursor, *table, *budget);
    let mut atoms: Vec<Atom> = Vec::new();
    let mut left: usize = count;
    assert(atoms@ =~= Seq::empty());
    while left > 0
        invariant
            left <= count,
            cursor.wf(),
            cursor.all() == bytes@,
            roomy(*table, *budget),
            budget.depth_remaining == old(budget).depth_remaining,
            atom_entries(bytes@, compact, count as nat, Seq::empty(), start) == atom_entries(
                bytes@,
                compact,
                left as nat,
                atoms@,
                chunk_state(cursor, *table, *budget),
            ),
        decreases left,
    {
        let atom = decode_atom_entry(&mut cursor, compact, table, budget)?;
        atoms.push(atom);
        left -= 1;
    }
    if cursor.remaining_len() != 0 {
        return Err(decode_error("trailing atom chunk data"));
    }
    Ok(atoms)
}

// ---------------------------------------------------------------------------
// Imports, exports and lambdas
// ---------------------------------------------------------------------------

/// What is left after reading part of a table: the position and the budget.
pub struct TableState {
    pub pos: nat,
    pub budget: DecodeBudget,
}

/// An answer together with the state after it.
pub type Tabled<T> = (Result<T, LoadFault>, TableState);

/// Reads an atom by its number.
pub open spec fn atom_ref(b: Seq<u8>, pos: nat, atoms: Seq<Atom>) -> Read<Atom> {
    match u32_at(b, pos) {
        (Err(e), p) => (Err(e), p),
        (Ok(index), p) => (atom_at(index, atoms), p),
    }
}

/// Reads an arity.
pub open spec fn arity_ref(b: Seq<u8>, pos: nat) -> Read<u8> {
    match u32_at(b, pos) {
        (Err(e), p) => (Err(e), p),
        (Ok(value), p) => (arity_of(value), p),
    }
}

fn read_atom_ref(cursor: &mut BoundedCursor<'_>, atoms: &[Atom]) -> (r: Result<Atom, LoadError>)
    requires
        old(cursor).wf(),
    ensures
        final(cursor).wf(),
        final(cursor).all() == old(cursor).all(),
        (outcome(r), final(cursor).pos()) == atom_ref(
            old(cursor).all(),
            old(cursor).pos(),
            atoms@,
        ),
{
    let index: u32 = cursor.read_u32()?;
    resolve_atom(index, atoms)
}

fn read_arity(cursor: &mut BoundedCursor<'_>) -> (r: Result<u8, LoadError>)
    requires
        old(cursor).wf(),
    ensures
        final(cursor).wf(),
        final(cursor).all() == old(cursor).all(),
        (outcome(r), final(cursor).pos()) == arity_ref(old(cursor).all(), old(cursor).pos()),
{
    let value: u32 = cursor.read_u32()?;
    checked_arity(value)
}

/// Reads the header of a table: the number of its entries, which take at least
/// `min` bytes each in the chunk and `size` bytes of memory.
pub open spec fn table_header(
    b: Seq<u8>,
    min: nat,
    size: nat,
    label: Seq<char>,
    overflow: Seq<char>,
    budget: DecodeBudget,
) -> Tabled<nat> {
    match u32_at(b, 0) {
        (Err(e), pos) => (Err(e), TableState { pos, budget }),
        (Ok(count), pos) => match count_fault((b.len() - pos) as nat, count as nat, min, label) {
            Some(e) => (Err(e), TableState { pos, budget }),
            None => match table_charged(budget, count as nat, size, overflow) {
                (Err(e), budget) => (Err(e), TableState { pos, budget }),
                (Ok(_), budget) => (Ok(count as nat), TableState { pos, budget }),
            },
        },
    }
}

fn read_table_header(
    cursor: &mut BoundedCursor<'_>,
    min: usize,
    size: usize,
    label: &str,
    overflow: &str,
    budget: &mut DecodeBudget,
) -> (r: Result<usize, LoadError>)
    requires
        old(cursor).wf(),
        old(cursor).pos() == 0,
    ensures
        final(cursor).wf(),
        final(cursor).all() == old(cursor).all(),
        ({
            let (expected, s) = table_header(
                old(cursor).all(),
                min as nat,
                size as nat,
                label@,
                overflow@,
                *old(budget),
            );
            &&& s == table_state(*final(cursor), *final(budget))
            &&& match r {
                Ok(count) => expected == Ok::<nat, LoadFault>(count as nat),
                Err(e) => expected == Err::<nat, LoadFault>(e@),
            }
        }),
{
    let count: u32 = cursor.read_u32()?;
    let count: usize = count as usize;
    cursor.ensure_count(count, min, label)?;
    budget.charge_table(count, size, overflow)?;
    Ok(count)
}

/// The state of a table decoder.
pub open spec fn table_state(cursor: BoundedCursor<'_>, budget: DecodeBudget) -> TableState {
    TableState { pos: cursor.pos(), budget }
}

/// Ends a table: nothing may be left.
pub open spec fn table_end<T>(b: Seq<u8>, entries: Tabled<Seq<T>>, name: Seq<char>) -> Charged<
    Seq<T>,
> {
    match entries {
        (Err(e), s) => (Err(e), s.budget),
        (Ok(items), s) => if s.pos == b.len() {
            (Ok(items), s.budget)
        } else {
            (Err(trailing(name)), s.budget)
        },
    }
}

/// Reads one import: the numbers of two atoms, and an arity.
pub open spec fn import_entry(b: Seq<u8>, atoms: Seq<Atom>, pos: nat) -> Read<ImportEntry> {
    match atom_ref(b, pos, atoms) {
        (Err(e), p) => (Err(e), p),
        (Ok(module), p1) => {
            match atom_ref(b, p1, atoms) {
                (Err(e), p) => (Err(e), p),
                (Ok(function), p2) => {
                    match arity_ref(b, p2) {
                        (Err(e), p) => (Err(e), p),
                        (Ok(arity), p3) => (Ok(ImportEntry { module, function, arity }), p3),
                    }
                },
            }
        },
    }
}

fn read_import_entry(cursor: &mut BoundedCursor<'_>, atoms: &[Atom]) -> (r: Result<
    ImportEntry,
    LoadError,
>)
    requires
        old(cursor).wf(),
    ensures
        final(cursor).wf(),
        final(cursor).all() == old(cursor).all(),
        (outcome(r), final(cursor).pos()) == import_entry(
            old(cursor).all(),
            atoms@,
            old(cursor).pos(),
        ),
{
    let module = read_atom_ref(cursor, atoms)?;
    let function = read_atom_ref(cursor, atoms)?;
    let arity: u8 = read_arity(cursor)?;
    Ok(ImportEntry { module, function, arity })
}

/// Reads `n` entries after those in `found`.
pub open spec fn import_entries(
    b: Seq<u8>,
    atoms: Seq<Atom>,
    n: nat,
    found: Seq<ImportEntry>,
    s: TableState,
) -> Tabled<Seq<ImportEntry>>
    decreases n,
{
    if n == 0 {
        (Ok(found), s)
    } else {
        match node_charged(s.budget) {
            (Err(e), budget) => (Err(e), TableState { budget, ..s }),
            (Ok(_), budget) => match import_entry(b, atoms, s.pos) {
                (Err(e), pos) => (Err(e), TableState { pos, budget }),
                (Ok(entry), pos) => import_entries(
                    b,
                    atoms,
                    (n - 1) as nat,
                    found.push(entry),
                    TableState { pos, budget },
                ),
            },
        }
    }
}

/// The entries of the import chunk.
pub open spec fn import_chunk(b: Seq<u8>, atoms: Seq<Atom>, budget: DecodeBudget) -> Charged<
    Seq<ImportEntry>,
> {
    match table_header(
        b,
        12,
        size_of::<ImportEntry>(),
        "import count"@,
        "import table allocation size overflow"@,
        budget,
    ) {
        (Err(e), s) => (Err(e), s.budget),
        (Ok(count), s) => table_end(
            b,
            import_entries(b, atoms, count, Seq::empty(), s),
            "import"@,
        ),
    }
}

/// Decodes the import chunk.
#[verifier::loop_isolation(false)]
pub fn decode_import_chunk(bytes: &[u8], atoms: &[Atom], budget: &mut DecodeBudget) -> (r: Result<
    Vec<ImportEntry>,
    LoadError,
>)
    ensures
        (outcome_seq(r), *final(budget)) == import_chunk(bytes@, atoms@, *old(budget)),
{
    let mut cursor = BoundedCursor::new(bytes);
    let count: usize = read_table_header(
        &mut cursor,
        12,
        core::mem::size_of::<ImportEntry>(),
        "import count",
        "import table allocation size overflow",
        budget,
    )?;
    let ghost start = table_state(cursor, *budget);
    let mut entries: Vec<ImportEntry> = Vec::new();
    let mut left: usize = count;
    assert(entries@ =~= Seq::empty());
    while left > 0
        invariant
            left <= count,
            cursor.wf(),
            cursor.all() == bytes@,
            import_entries(bytes@, atoms@, count as nat, Seq::empty(), start) == import_entries(
                bytes@,
                atoms@,
                left as nat,
                entries@,
                table_state(cursor, *budget),
            ),
        decreases left,
    {
        budget.charge_node()?;
        let entry = read_import_entry(&mut cursor, atoms)?;
        entries.push(entry);
        left -= 1;
    }
    cursor.expect_empty("import")?;
    Ok(entries)
}

/// Reads one export: the number of an atom, an arity, and a label.
pub open spec fn export_entry(b: Seq<u8>, atoms: Seq<Atom>, pos: nat) -> Read<ExportEntry> {
    match atom_ref(b, pos, atoms) {
        (Err(e), p) => (Err(e), p),
        (Ok(function), p1) => {
            match arity_ref(b, p1) {
                (Err(e), p) => (Err(e), p),
                (Ok(arity), p2) => {
                    match u32_at(b, p2) {
                        (Err(e), p) => (Err(e), p),
                        (Ok(label), p3) => (Ok(ExportEntry { function, arity, label }), p3),
                    }
                },
            }
        },
    }
}

fn read_export_entry(cursor: &mut BoundedCursor<'_>, atoms: &[Atom]) -> (r: Result<
    ExportEntry,
    LoadError,
>)
    requires
        old(cursor).wf(),
    ensures
        final(cursor).wf(),
        final(cursor).all() == old(cursor).all(),
        (outcome(r), final(cursor).pos()) == export_entry(
            old(cursor).all(),
            atoms@,
            old(cursor).pos(),
        ),
{
    let function = read_atom_ref(cursor, atoms)?;
    let arity: u8 = read_arity(cursor)?;
    let label: u32 = cursor.read_u32()?;
    Ok(ExportEntry { function, arity, label })
}

/// Reads `n` entries after those in `found`.
pub open spec fn export_entries(
    b: Seq<u8>,
    atoms: Seq<Atom>,
    n: nat,
    found: Seq<ExportEntry>,
    s: TableState,
) -> Tabled<Seq<ExportEntry>>
    decreases n,
{
    if n == 0 {
        (Ok(found), s)
    } else {
        match node_charged(s.budget) {
            (Err(e), budget) => (Err(e), TableState { budget, ..s }),
            (Ok(_), budget) => match export_entry(b, atoms, s.pos) {
                (Err(e), pos) => (Err(e), TableState { pos, budget }),
                (Ok(entry), pos) => export_entries(
                    b,
                    atoms,
                    (n - 1) as nat,
                    found.push(entry),
                    TableState { pos, budget },
                ),
            },
        }
    }
}

/// The entries of the export chunk.
pub open spec fn export_chunk(b: Seq<u8>, atoms: Seq<Atom>, budget: DecodeBudget) -> Charged<
    Seq<ExportEntry>,
> {
    match table_header(
        b,
        12,
        size_of::<ExportEntry>(),
        "export count"@,
        "export table allocation size overflow"@,
        budget,
    ) {
        (Err(e), s) => (Err(e), s.budget),
        (Ok(count), s) => table_end(
            b,
            export_entries(b, atoms, count, Seq::empty(), s),
            "export"@,
        ),
    }
}

/// Decodes the export chunk.
#[verifier::loop_isolation(false)]
pub fn decode_export_chunk(bytes: &[u8], atoms: &[Atom], budget: &mut DecodeBudget) -> (r: Result<
    Vec<ExportEntry>,
    LoadError,
>)
    ensures
        (outcome_seq(r), *final(budget)) == export_chunk(bytes@, atoms@, *old(budget)),
{
    let mut cursor = BoundedCursor::new(bytes);
    let count: usize = read_table_header(
        &mut cursor,
        12,
        core::mem::size_of::<ExportEntry>(),
        "export count",
        "export table allocation size overflow",
        budget,
    )?;
    let ghost start = table_state(cursor, *budget);
    let mut entries: Vec<ExportEntry> = Vec::new();
    let mut left: usize = count;
    assert(entries@ =~= Seq::empty());
    while left > 0
        invariant
            left <= count,
            cursor.wf(),
            cursor.all() == bytes@,
            export_entries(bytes@, atoms@, count as nat, Seq::empty(), start) == export_entries(
                bytes@,
                atoms@,
                left as nat,
                entries@,
                table_state(cursor, *budget),
            ),
        decreases left,
    {
        budget.charge_node()?;
        let entry = read_export_entry(&mut cursor, atoms)?;
        entries.push(entry);
        left -= 1;
    }
    cursor.expect_empty("export")?;
    Ok(entries)
}

/// Reads one lambda. Its index and its old identifier are not kept.
pub open spec fn lambda_entry(b: Seq<u8>, atoms: Seq<Atom>, pos: nat) -> Read<LambdaEntry> {
    match atom_ref(b, pos, atoms) {
        (Err(e), p) => (Err(e), p),
        (Ok(function), p1) => {
            match arity_ref(b, p1) {
                (Err(e), p) => (Err(e), p),
                (Ok(arity), p2) => {
                    match u32_at(b, p2) {
                        (Err(e), p) => (Err(e), p),
                        (Ok(label), p3) => {
                            match u32_at(b, p3) {
                                (Err(e), p) => (Err(e), p),
                                (Ok(_), p4) => {
                                    match u32_at(b, p4) {
                                        (Err(e), p) => (Err(e), p),
                                        (Ok(num_free), p5) => {
                                            match u32_at(b, p5) {
                                                (Err(e), p) => (Err(e), p),
                                                (Ok(_), p6) => (Ok(LambdaEntry { function, arity, label, num_free, unique_id: 0 }), p6),
                                            }
                                        },
                                    }
                                },
                            }
                        },
                    }
                },
            }
        },
    }
}

fn read_lambda_entry(cursor: &mut BoundedCursor<'_>, atoms: &[Atom]) -> (r: Result<
    LambdaEntry,
    LoadError,
>)
    requires
        old(cursor).wf(),
    ensures
        final(cursor).wf(),
        final(cursor).all() == old(cursor).all(),
        (outcome(r), final(cursor).pos()) == lambda_entry(
            old(cursor).all(),
            atoms@,
            old(cursor).pos(),
        ),
{
    let function = read_atom_ref(cursor, atoms)?;
    let arity: u8 = read_arity(cursor)?;
    let label: u32 = cursor.read_u32()?;
    let _: u32 = cursor.read_u32()?;
    let num_free: u32 = cursor.read_u32()?;
    let _: u32 = cursor.read_u32()?;
    Ok(LambdaEntry { function, arity, label, num_free, unique_id: 0 })
}

/// Reads `n` entries after those in `found`.
pub open spec fn lambda_entries(
    b: Seq<u8>,
    atoms: Seq<Atom>,
    n: nat,
    found: Seq<LambdaEntry>,
    s: TableState,
) -> Tabled<Seq<LambdaEntry>>
    decreases n,
{
    if n == 0 {
        (Ok(found), s)
    } else {
        match node_charged(s.budget) {
            (Err(e), budget) => (Err(e), TableState { budget, ..s }),
            (Ok(_), budget) => match lambda_entry(b, atoms, s.pos) {
                (Err(e), pos) => (Err(e), TableState { pos, budget }),
                (Ok(entry), pos) => lambda_entries(
                    b,
                    atoms,
                    (n - 1) as nat,
                    found.push(entry),
                    TableState { pos, budget },
                ),
            },
        }
    }
}

/// The entries of the lambda chunk.
pub open spec fn lambda_chunk(b: Seq<u8>, atoms: Seq<Atom>, budget: DecodeBudget) -> Charged<
    Seq<LambdaEntry>,
> {
    match table_header(
        b,
        24,
        size_of::<LambdaEntry>(),
        "lambda count"@,
        "lambda table allocation size overflow"@,
        budget,
    ) {
        (Err(e), s) => (Err(e), s.budget),
        (Ok(count), s) => table_end(
            b,
            lambda_entries(b, atoms, count, Seq::empty(), s),
            "lambda"@,
        ),
    }
}

/// Decodes the lambda chunk.
#[verifier::loop_isolation(false)]
pub fn decode_lambda_chunk(bytes: &[u8], atoms: &[Atom], budget: &mut DecodeBudget) -> (r: Result<
    Vec<LambdaEntry>,
    LoadError,
>)
    ensures
        (outcome_seq(r), *final(budget)) == lambda_chunk(bytes@, atoms@, *old(budget)),
{
    let mut cursor = BoundedCursor::new(bytes);
    let count: usize = read_table_header(
        &mut cursor,
        24,
        core::mem::size_of::<LambdaEntry>(),
        "lambda count",
        "lambda table allocation size overflow",
        budget,
    )?;
    let ghost start = table_state(cursor, *budget);
    let mut entries: Vec<LambdaEntry> = Vec::new();
    let mut left: usize = count;
    assert(entries@ =~= Seq::empty());
    while left > 0
        invariant
            left <= count,
            cursor.wf(),
            cursor.all() == bytes@,
            lambda_entries(bytes@, atoms@, count as nat, Seq::empty(), start) == lambda_entries(
                bytes@,
                atoms@,
                left as nat,
                entries@,
                table_state(cursor, *budget),
            ),
        decreases left,
    {
        budget.charge_node()?;
        let entry = read_lambda_entry(&mut cursor, atoms)?;
        entries.push(entry);
        left -= 1;
    }
    cursor.expect_empty("lambda")?;
    Ok(entries)
}

// ---------------------------------------------------------------------------
// Strings and lines
// ---------------------------------------------------------------------------

/// The string chunk holds its bytes as they are.
pub fn decode_string_chunk(bytes: &[u8]) -> (r: Vec<u8>)
    ensures
        r@ == bytes@,
{
    vstd::slice::slice_to_vec(bytes)
}

/// A number in a line chunk, named by `what` in messages.
pub open spec fn line_number(value: i64, what: Seq<char>) -> Result<u32, LoadFault> {
    if 0 <= value <= u32::MAX {
        Ok(value as u32)
    } else {
        Err(decode_fault(what + int_text(value as int) + " out of range"@))
    }
}

fn checked_line_number(value: i64, what: &str) -> (r: Result<u32, LoadError>)
    ensures
        outcome(r) == line_number(value, what@),
{
    if 0 <= value && value <= 0xffff_ffff {
        Ok(value as u32)
    } else {
        let mut text = what.to_owned();
        text.append(decimal_i64(value).as_str());
        text.append(" out of range");
        Err(LoadError::DecodeError(text))
    }
}

/// Reads one line: its number, or the number of a file and then that of a line
/// in it. Lines without a file are in the one named last.
pub open spec fn line_entry(b: Seq<u8>, file: u32, pos: nat) -> Read<LineInfo> {
    match number_at(b, pos) {
        (Err(e), p) => (Err(e), p),
        (Ok((tag, value)), p) => if tag == 0 || tag == 1 {
            match line_number(value, "line number "@) {
                Err(e) => (Err(e), p),
                Ok(line) => (Ok(LineInfo { file, line }), p),
            }
        } else if tag == 2 {
            match line_number(value, "line file index "@) {
                Err(e) => (Err(e), p),
                Ok(file) => match number_at(b, p) {
                    (Err(e), q) => (Err(e), q),
                    (Ok((line_tag, line_value)), q) => if line_tag != 1 {
                        (
                            Err(
                                decode_fault(
                                    "expected line number after file ref, got compact tag "@
                                        + nat_text(line_tag as nat),
                                ),
                            ),
                            q,
                        )
                    } else {
                        match line_number(line_value, "line number "@) {
                            Err(e) => (Err(e), q),
                            Ok(line) => (Ok(LineInfo { file, line }), q),
                        }
                    },
                },
            }
        } else {
            (Err(decode_fault("unsupported line compact tag "@ + nat_text(tag as nat))), p)
        },
    }
}

/// Reads `n` lines after those in `found`.
pub open spec fn line_entries(
    b: Seq<u8>,
    n: nat,
    file: u32,
    found: Seq<LineInfo>,
    s: TableState,
) -> Tabled<Seq<LineInfo>>
    decreases n,
{
    if n == 0 {
        (Ok(found), s)
    } else {
        match node_charged(s.budget) {
            (Err(e), budget) => (Err(e), TableState { budget, ..s }),
            (Ok(_), budget) => match line_entry(b, file, s.pos) {
                (Err(e), pos) => (Err(e), TableState { pos, budget }),
                (Ok(entry), pos) => line_entries(
                    b,
                    (n - 1) as nat,
                    entry.file,
                    found.push(entry),
                    TableState { pos, budget },
                ),
            },
        }
    }
}

/// Reads the header of a line chunk: a version, flags, the number of line
/// instructions, the number of lines and the number of files. Only the number
/// of lines is used.
pub open spec fn line_header(b: Seq<u8>) -> Read<u32> {
    match u32_at(b, 0) {
        (Err(e), p) => (Err(e), p),
        (Ok(_), p1) => match u32_at(b, p1) {
            (Err(e), p) => (Err(e), p),
            (Ok(_), p2) => match u32_at(b, p2) {
                (Err(e), p) => (Err(e), p),
                (Ok(_), p3) => match u32_at(b, p3) {
                    (Err(e), p) => (Err(e), p),
                    (Ok(count), p4) => match u32_at(b, p4) {
                        (Err(e), p) => (Err(e), p),
                        (Ok(_), p5) => (Ok(count), p5),
                    },
                },
            },
        },
    }
}

/// The lines of a line chunk; an empty chunk has none. What follows the last
/// line is not looked at.
pub open spec fn line_chunk(b: Seq<u8>, budget: DecodeBudget) -> Charged<Seq<LineInfo>> {
    if b.len() == 0 {
        (Ok(Seq::empty()), budget)
    } else {
        match line_header(b) {
            (Err(e), _) => (Err(e), budget),
            (Ok(count), pos) => match count_fault(
                (b.len() - pos) as nat,
                count as nat,
                1,
                "line count"@,
            ) {
                Some(e) => (Err(e), budget),
                None => match table_charged(
                    budget,
                    count as nat,
                    size_of::<LineInfo>(),
                    "line table allocation size overflow"@,
                ) {
                    (Err(e), budget) => (Err(e), budget),
                    (Ok(_), budget) => {
                        let (lines, s) = line_entries(
                            b,
                            count as nat,
                            0,
                            Seq::empty(),
                            TableState { pos, budget },
                        );
                        (lines, s.budget)
                    },
                },
            },
        }
    }
}

fn read_line_header(cursor: &mut BoundedCursor<'_>) -> (r: Result<u32, LoadError>)
    requires
        old(cursor).wf(),
        old(cursor).pos() == 0,
    ensures
        final(cursor).wf(),
        final(cursor).all() == old(cursor).all(),
        (outcome(r), final(cursor).pos()) == line_header(old(cursor).all()),
{
    let _: u32 = cursor.read_u32()?;
    let _: u32 = cursor.read_u32()?;
    let _: u32 = cursor.read_u32()?;
    let count: u32 = cursor.read_u32()?;
    let _: u32 = cursor.read_u32()?;
    Ok(count)
}

fn read_line_entry(cursor: &mut BoundedCursor<'_>, file: u32) -> (r: Result<LineInfo, LoadError>)
    requires
        old(cursor).wf(),
    ensures
        final(cursor).wf(),
        final(cursor).all() == old(cursor).all(),
        (outcome(r), final(cursor).pos()) == line_entry(
            old(cursor).all(),
            file,
            old(cursor).pos(),
        ),
{
    let (tag, value) = read_number(cursor)?;
    if tag == 0 || tag == 1 {
        let line: u32 = checked_line_number(value, "line number ")?;
        Ok(LineInfo { file, line })
    } else if tag == 2 {
        let file: u32 = checked_line_number(value, "line file index ")?;
        let (line_tag, line_value) = read_number(cursor)?;
        if line_tag != 1 {
            let mut text = "expected line number after file ref, got compact tag ".to_owned();
            text.append(decimal_u64(line_tag as u64).as_str());
            return Err(LoadError::DecodeError(text));
        }
        let line: u32 = checked_line_number(line_value, "line number ")?;
        Ok(LineInfo { file, line })
    } else {
        let mut text = "unsupported line compact tag ".to_owned();
        text.append(decimal_u64(tag as u64).as_str());
        Err(LoadError::DecodeError(text))
    }
}

/// Decodes a line chunk.
#[verifier::loop_isolation(false)]
pub fn decode_line_chunk(bytes: &[u8], budget: &mut DecodeBudget) -> (r: Result<
    Vec<LineInfo>,
    LoadError,
>)
    ensures
        (outcome_seq(r), *final(budget)) == line_chunk(bytes@, *old(budget)),
{
    let mut lines: Vec<LineInfo> = Vec::new();
    assert(lines@ =~= Seq::empty());
    if bytes.len() == 0 {
        return Ok(lines);
    }
    let mut cursor = BoundedCursor::new(bytes);
    let count: u32 = read_line_header(&mut cursor)?;
    let count: usize = count as usize;
    cursor.ensure_count(count, 1, "line count")?;
    budget.charge_table(
        count,
        core::mem::size_of::<LineInfo>(),
        "line table allocation size overflow",
    )?;
    let ghost start = table_state(cursor, *budget);
    let mut file: u32 = 0;
    let mut left: usize = count;
    while left > 0
        invariant
            left <= count,
            cursor.wf(),
            cursor.all() == bytes@,
            line_entries(bytes@, count as nat, 0, Seq::empty(), start) == line_entries(
                bytes@,
                left as nat,
                file,
                lines@,
                table_state(cursor, *budget),
            ),
        decreases left,
    {
        budget.charge_node()?;
        let entry = read_line_entry(&mut cursor, file)?;
        file = entry.file;
        lines.push(entry);
        left -= 1;
    }
    Ok(lines)
}

// ---------------------------------------------------------------------------
// Literals
// ---------------------------------------------------------------------------

/// The state after a literal's own bytes were decoded, back in the chunk.
pub open spec fn back(s: EtfState, inner: EtfState) -> EtfState {
    EtfState { pos: s.pos, ..inner }
}

/// Decodes the bytes of one literal: the version byte, a term, and no more.
pub open spec fn literal_bytes(b: Seq<u8>, depth: nat, s: EtfState) -> Etf<LiteralView> {
    match u8_at(b, 0) {
        (Err(e), _) => (Err(e), s),
        (Ok(version), p) => if version != 131 {
            (Err(decode_fault("ETF literal missing version byte"@)), s)
        } else {
            match term_at(b, depth, at(s, p)) {
                (Err(e), t) => (Err(e), back(s, t)),
                (Ok(literal), t) => if t.pos == b.len() {
                    (Ok(literal), back(s, t))
                } else {
                    (Err(trailing("literal ETF"@)), back(s, t))
                },
            }
        },
    }
}

/// Reads one literal: the number of its bytes, and the bytes.
pub open spec fn literal_entry(b: Seq<u8>, depth: nat, s: EtfState) -> Etf<LiteralView> {
    match node_charged(s.budget) {
        (Err(e), budget) => (Err(e), spent(s, budget)),
        (Ok(_), budget) => match u32_at(b, s.pos) {
            (Err(e), p) => (Err(e), at(spent(s, budget), p)),
            (Ok(size), p) => match bytes_at(b, p, size as nat) {
                (Err(e), q) => (Err(e), at(spent(s, budget), q)),
                (Ok(run), q) => literal_bytes(run, depth, at(spent(s, budget), q)),
            },
        },
    }
}

/// Reads `n` literals after those in `found`.
pub open spec fn literal_entries(
    b: Seq<u8>,
    n: nat,
    found: Seq<LiteralView>,
    depth: nat,
    s: EtfState,
) -> Etf<Seq<LiteralView>>
    decreases n,
{
    if n == 0 {
        (Ok(found), s)
    } else {
        match literal_entry(b, depth, s) {
            (Err(e), t) => (Err(e), t),
            (Ok(literal), t) => literal_entries(b, (n - 1) as nat, found.push(literal), depth, t),
        }
    }
}

/// The literals of an uncompressed literal table.
pub open spec fn literal_table(b: Seq<u8>, depth: nat, s: EtfState) -> Etf<Seq<LiteralView>> {
    match table_header(
        b,
        4,
        size_of::<Literal>(),
        "literal count"@,
        "literal table allocation size overflow"@,
        s.budget,
    ) {
        (Err(e), h) => (Err(e), EtfState { pos: h.pos, budget: h.budget, ..s }),
        (Ok(count), h) => match literal_entries(
            b,
            count,
            Seq::empty(),
            depth,
            EtfState { pos: h.pos, budget: h.budget, ..s },
        ) {
            (Err(e), t) => (Err(e), t),
            (Ok(literals), t) => if t.pos == b.len() {
                (Ok(literals), t)
            } else {
                (Err(trailing("literal"@)), t)
            },
        },
    }
}

fn decode_literal_bytes(run: &[u8], table: &mut AtomTable, budget: &mut DecodeBudget, Ghost(pos): Ghost<
    nat,
>) -> (r: Result<Literal, LoadError>)
    requires
        roomy(*old(table), *old(budget)),
    ensures
        roomy(*final(table), *final(budget)),
        final(budget).depth_remaining == old(budget).depth_remaining,
        ({
            let s = EtfState { pos, names: old(table)@, budget: flat(*old(budget)) };
            let (expected, t) = literal_bytes(run@, old(budget).depth_remaining as nat, s);
            &&& t == (EtfState { pos, names: final(table)@, budget: flat(*final(budget)) })
            &&& match r {
                Ok(literal) => expected == Ok::<LiteralView, LoadFault>(literal.view()),
                Err(e) => expected == Err::<LiteralView, LoadFault>(e@),
            }
        }),
{
    let mut cursor = BoundedCursor::new(run);
    let version: u8 = cursor.read_u8()?;
    if version != 131 {
        return Err(decode_error("ETF literal missing version byte"));
    }
    let literal = decode_external_term(&mut cursor, table, budget)?;
    cursor.expect_empty("literal ETF")?;
    Ok(literal)
}

/// Decodes an uncompressed literal table.
#[verifier::loop_isolation(false)]
pub fn decode_literal_table(payload: &[u8], table: &mut AtomTable, budget: &mut DecodeBudget) -> (r:
    Result<Vec<Literal>, LoadError>)
    requires
        roomy(*old(table), *old(budget)),
    ensures
        roomy(*final(table), *final(budget)),
        final(budget).depth_remaining == old(budget).depth_remaining,
        ({
            let s = EtfState { pos: 0, names: old(table)@, budget: flat(*old(budget)) };
            let (expected, t) = literal_table(payload@, old(budget).depth_remaining as nat, s);
            &&& literals_outcome(r) == expected
            &&& final(table)@ == t.names
            &&& flat(*final(budget)) == t.budget
        }),
{
    let mut cursor = BoundedCursor::new(payload);
    let count: usize = read_table_header(
        &mut cursor,
        4,
        core::mem::size_of::<Literal>(),
        "literal count",
        "literal table allocation size overflow",
        budget,
    )?;
    let ghost depth = budget.depth_remaining as nat;
    let ghost start = etf_state(cursor, *table, *budget);
    let mut literals: Vec<Literal> = Vec::new();
    let mut left: usize = count;
    assert(literal_views(literals@) =~= Seq::empty());
    while left > 0
        invariant
            left <= count,
            cursor.wf(),
            cursor.all() == payload@,
            roomy(*table, *budget),
            budget.depth_remaining == old(budget).depth_remaining,
            literal_entries(payload@, count as nat, Seq::empty(), depth, start)
                == literal_entries(
                payload@,
                left as nat,
                literal_views(literals@),
                depth,
                etf_state(cursor, *table, *budget),
            ),
        decreases left,
    {
        budget.charge_node()?;
        let size: u32 = cursor.read_u32()?;
        let run = cursor.read_bytes(size as usize)?;
        let literal = decode_literal_bytes(run, table, budget, Ghost(cursor.pos()))?;
        proof {
            lemma_literal_views_push(literals@, literal);
        }
        literals.push(literal);
        left -= 1;
    }
    cursor.expect_empty("literal")?;
    Ok(literals)
}

/// What [`inflate`] answers: the first `limit` bytes of what a zlib stream
/// holds, or the text of why it cannot be read so far.
pub uninterp spec fn inflated(stream: Seq<u8>, limit: u64) -> Result<Seq<u8>, Seq<char>>;

/// `flate2::read::ZlibDecoder`, read to its end or up to `limit` bytes: the
/// bytes that the zlib stream holds, at most `limit` of them, or the text of
/// the decoder's error.
#[verifier::external_body]
fn inflate(stream: &[u8], limit: u64) -> (r: Result<Vec<u8>, String>)
    ensures
        match r {
            Ok(out) => inflated(stream@, limit) == Ok::<Seq<u8>, Seq<char>>(out@) && out@.len()
                <= limit,
            Err(text) => inflated(stream@, limit) == Err::<Seq<u8>, Seq<char>>(text@),
        },
{
    let mut out = Vec::new();
    let mut reader = flate2::read::ZlibDecoder::new(stream).take(limit);
    match reader.read_to_end(&mut out) {
        Ok(_) => Ok(out),
        Err(error) => Err(error.to_string()),
    }
}

/// What to make of inflated bytes that should be `declared` many and have to
/// be paid for.
pub open spec fn inflated_payload(
    result: Result<Seq<u8>, Seq<char>>,
    declared: nat,
    budget: DecodeBudget,
) -> Charged<Seq<u8>> {
    match result {
        Err(text) => (Err(decode_fault("zlib literal decode failed: "@ + text)), budget),
        Ok(out) => if out.len() > budget.bytes_remaining {
            (Err(decode_fault("literal chunk exceeds decode byte budget"@)), budget)
        } else if out.len() != declared {
            (
                Err(
                    decode_fault(
                        "literal chunk decompressed to "@ + nat_text(out.len())
                            + " bytes, expected "@ + nat_text(declared),
                    ),
                ),
                budget,
            )
        } else {
            match bytes_charged(budget, out.len()) {
                (Err(e), budget) => (Err(e), budget),
                (Ok(_), budget) => (Ok(out), budget),
            }
        },
    }
}

/// The result of inflating, with its text as a sequence.
pub open spec fn inflate_result(r: Result<Vec<u8>, String>) -> Result<Seq<u8>, Seq<char>> {
    match r {
        Ok(out) => Ok(out@),
        Err(text) => Err(text@),
    }
}

/// Accepts inflated bytes when they are as many as declared and within the
/// budget.
pub fn accept_inflated(
    result: Result<Vec<u8>, String>,
    declared: usize,
    budget: &mut DecodeBudget,
) -> (r: Result<Vec<u8>, LoadError>)
    ensures
        (outcome_seq(r), *final(budget)) == inflated_payload(
            inflate_result(result),
            declared as nat,
            *old(budget),
        ),
{
    let out = match result {
        Ok(out) => out,
        Err(error) => {
            let mut text = "zlib literal decode failed: ".to_owned();
            text.append(error.as_str());
            return Err(LoadError::DecodeError(text));
        },
    };
    if out.len() > budget.bytes_remaining {
        return Err(decode_error("literal chunk exceeds decode byte budget"));
    }
    if out.len() != declared {
        let mut text = "literal chunk decompressed to ".to_owned();
        text.append(decimal_u64(out.len() as u64).as_str());
        text.append(" bytes, expected ");
        text.append(decimal_u64(declared as u64).as_str());
        return Err(LoadError::DecodeError(text));
    }
    budget.charge_bytes(out.len())?;
    Ok(out)
}

/// The most bytes that are inflated: one more than are declared, or than the budget
/// has left if these are fewer, so that a stream that holds more shows.
pub open spec fn inflate_limit(declared: nat, budget: DecodeBudget) -> u64 {
    let most = if declared < budget.bytes_remaining {
        declared
    } else {
        budget.bytes_remaining as nat
    };
    if most >= u64::MAX {
        u64::MAX
    } else {
        (most + 1) as u64
    }
}

/// Inflates a zlib stream without holding more than one byte over what is declared,
/// and over what the budget allows.
fn decompress_bounded(stream: &[u8], declared: usize, budget: &mut DecodeBudget) -> (r: Result<
    Vec<u8>,
    LoadError,
>)
    ensures
        (outcome_seq(r), *final(budget)) == inflated_payload(
            inflated(stream@, inflate_limit(declared as nat, *old(budget))),
            declared as nat,
            *old(budget),
        ),
{
    let most: usize = if declared < budget.bytes_remaining {
        declared
    } else {
        budget.bytes_remaining
    };
    let limit: u64 = (most as u64).saturating_add(1);
    let result = inflate(stream, limit);
    accept_inflated(result, declared, budget)
}

/// The uncompressed literal table of a literal chunk: the declared size, where
/// zero says that the table is stored as it is, and the stored bytes.
pub open spec fn literal_payload(b: Seq<u8>, budget: DecodeBudget) -> Charged<Seq<u8>> {
    match u32_at(b, 0) {
        (Err(e), _) => (Err(e), budget),
        (Ok(declared), p) => {
            let stored = b.subrange(p as int, b.len() as int);
            if declared == 0 {
                match bytes_charged(budget, stored.len()) {
                    (Err(e), budget) => (Err(e), budget),
                    (Ok(_), budget) => (Ok(stored), budget),
                }
            } else {
                inflated_payload(
                    inflated(stored, inflate_limit(declared as nat, budget)),
                    declared as nat,
                    budget,
                )
            }
        },
    }
}

/// The literals of a literal chunk.
pub open spec fn literal_chunk(b: Seq<u8>, names: Seq<Seq<char>>, budget: DecodeBudget) -> Etf<
    Seq<LiteralView>,
> {
    match literal_payload(b, budget) {
        (Err(e), budget) => (Err(e), EtfState { pos: 0, names, budget: flat(budget) }),
        (Ok(payload), after) => literal_table(
            payload,
            budget.depth_remaining as nat,
            EtfState { pos: 0, names, budget: flat(after) },
        ),
    }
}

/// Decodes a literal chunk.
pub fn decode_literal_chunk(bytes: &[u8], table: &mut AtomTable, budget: &mut DecodeBudget) -> (r:
    Result<Vec<Literal>, LoadError>)
    requires
        roomy(*old(table), *old(budget)),
    ensures
        roomy(*final(table), *final(budget)),
        final(budget).depth_remaining == old(budget).depth_remaining,
        ({
            let (expected, t) = literal_chunk(bytes@, old(table)@, *old(budget));
            &&& literals_outcome(r) == expected
            &&& final(table)@ == t.names
            &&& flat(*final(budget)) == t.budget
        }),
{
    let mut cursor = BoundedCursor::new(bytes);
    let declared: u32 = cursor.read_u32()?;
    let payload: Vec<u8> = if declared == 0 {
        budget.charge_bytes(cursor.remaining_len())?;
        vstd::slice::slice_to_vec(cursor.remaining())
    } else {
        decompress_bounded(cursor.remaining(), declared as usize, budget)?
    };
    decode_literal_table(payload.as_slice(), table, budget)
}

} // verus!
