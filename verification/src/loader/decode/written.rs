//! How the tables of a module are written, and laws that decoding gives them back.

use vstd::layout::size_of;
use vstd::prelude::*;
use crate::atom::Atom;
use crate::error::LoadFault;
use super::bounded::{be_u32, u32_at};
use super::budget::{node_charged, DecodeBudget, MAX_TABLE_ENTRIES};
use super::chunks::{
    export_chunk, export_entries, export_entry, import_chunk, import_entries, import_entry,
    lambda_chunk, lambda_entries, lambda_entry, ExportEntry, ImportEntry, LambdaEntry, TableState,
};

verus! {

/// Whether bytes have a part at a place.
pub open spec fn has_part(b: Seq<u8>, at: nat, part: Seq<u8>) -> bool {
    &&& at + part.len() <= b.len() <= usize::MAX
    &&& forall|i: int| 0 <= i < part.len() ==> #[trigger] b[at + i] == part[i]
}

/// A number of 32 bits, most significant byte first.
pub open spec fn word(n: u32) -> Seq<u8> {
    seq![
        (n as int / 16777216) as u8,
        (n as int / 65536 % 256) as u8,
        (n as int / 256 % 256) as u8,
        (n as int % 256) as u8,
    ]
}

/// A part that starts with another has both, one after the other.
pub proof fn lemma_parts(b: Seq<u8>, at: nat, first: Seq<u8>, rest: Seq<u8>)
    requires
        has_part(b, at, first + rest),
    ensures
        has_part(b, at, first),
        has_part(b, at + first.len(), rest),
{
    let whole = first + rest;
    assert forall|i: int| 0 <= i < first.len() implies #[trigger] b[at + i] == first[i] by {
        assert(b[at + i] == whole[i]);
    }
    assert forall|i: int| 0 <= i < rest.len() implies #[trigger] b[at + first.len() + i]
        == rest[i] by {
        assert(b[at + (first.len() + i)] == whole[first.len() + i]);
    }
}

/// A number that was written is read back.
pub proof fn lemma_word(b: Seq<u8>, at: nat, n: u32)
    requires
        has_part(b, at, word(n)),
    ensures
        u32_at(b, at) == (Ok::<u32, LoadFault>(n), at + 4),
{
    let part = word(n);
    assert(b[at as int + 0] == part[0]);
    assert(b[at as int + 1] == part[1]);
    assert(b[at as int + 2] == part[2]);
    assert(b[at as int + 3] == part[3]);
    assert(be_u32(b, at as int) == n);
}

/// A table: how many rows there are, and the rows.
pub open spec fn table_bytes(count: nat, rows: Seq<u8>) -> Seq<u8> {
    word(count as u32) + rows
}

/// Whether a budget is enough for a table.
pub open spec fn pays_for(budget: DecodeBudget, count: nat, size: nat) -> bool {
    &&& count <= MAX_TABLE_ENTRIES
    &&& count <= budget.nodes_remaining
    &&& count * size <= budget.bytes_remaining
}

/// A row of the import table, as it is written: module, function, arity.
pub struct ImportRow {
    pub module: u32,
    pub function: u32,
    pub arity: u8,
}

/// The bytes of a row.
pub open spec fn import_row(row: ImportRow) -> Seq<u8> {
    word(row.module) + word(row.function) + word(row.arity as u32)
}

/// The bytes of rows.
pub open spec fn import_rows(rows: Seq<ImportRow>) -> Seq<u8>
    decreases rows.len(),
{
    if rows.len() == 0 {
        Seq::empty()
    } else {
        import_row(rows[0]) + import_rows(rows.skip(1))
    }
}

/// Whether the atoms of a row are in the table.
pub open spec fn import_row_is_valid(row: ImportRow, atoms: Seq<Atom>) -> bool {
    1 <= row.module <= atoms.len() && 1 <= row.function <= atoms.len()
}

/// What a row stands for.
pub open spec fn import_of(row: ImportRow, atoms: Seq<Atom>) -> ImportEntry {
    ImportEntry { module: atoms[row.module - 1], function: atoms[row.function - 1], arity: row.arity }
}

proof fn lemma_import_row(b: Seq<u8>, at: nat, row: ImportRow, atoms: Seq<Atom>)
    requires
        has_part(b, at, import_row(row)),
        import_row_is_valid(row, atoms),
    ensures
        import_entry(b, atoms, at) == (Ok::<ImportEntry, LoadFault>(import_of(row, atoms)), at + 12),
{
    lemma_parts(b, at, word(row.module) + word(row.function), word(row.arity as u32));
    lemma_parts(b, at, word(row.module), word(row.function));
    lemma_word(b, at + 0, row.module);
    lemma_word(b, at + 4, row.function);
    lemma_word(b, at + 8, row.arity as u32);
}

proof fn lemma_import_rows(
    b: Seq<u8>,
    rows: Seq<ImportRow>,
    atoms: Seq<Atom>,
    found: Seq<ImportEntry>,
    s: TableState,
)
    requires
        has_part(b, s.pos, import_rows(rows)),
        forall|i: int| 0 <= i < rows.len() ==> import_row_is_valid(#[trigger] rows[i], atoms),
        rows.len() <= s.budget.nodes_remaining,
    ensures
        ({
            let (entries, t) = import_entries(b, atoms, rows.len(), found, s);
            &&& entries == Ok::<Seq<ImportEntry>, LoadFault>(
                found + rows.map_values(|row: ImportRow| import_of(row, atoms)),
            )
            &&& t.pos == s.pos + import_rows(rows).len()
            &&& import_rows(rows).len() == 12 * rows.len()
        }),
    decreases rows.len(),
{
    let entries = rows.map_values(|row: ImportRow| import_of(row, atoms));
    if rows.len() == 0 {
        assert(found + entries =~= found);
    } else {
        lemma_parts(b, s.pos, import_row(rows[0]), import_rows(rows.skip(1)));
        lemma_import_row(b, s.pos, rows[0], atoms);
        let budget = node_charged(s.budget).1;
        let more = found.push(import_of(rows[0], atoms));
        assert forall|i: int| 0 <= i < rows.skip(1).len() implies import_row_is_valid(
            #[trigger] rows.skip(1)[i],
            atoms,
        ) by {
            assert(rows.skip(1)[i] == rows[i + 1]);
        }
        lemma_import_rows(b, rows.skip(1), atoms, more, TableState { pos: s.pos + 12, budget });
        let rest = rows.skip(1).map_values(|row: ImportRow| import_of(row, atoms));
        assert(more + rest =~= found + entries);
    }
}

/// Decoding an import table gives back its rows, whatever is in the words that are not kept.
pub proof fn law_import_table_is_read_back(
    rows: Seq<ImportRow>,
    atoms: Seq<Atom>,
    budget: DecodeBudget,
)
    requires
        forall|i: int| 0 <= i < rows.len() ==> import_row_is_valid(#[trigger] rows[i], atoms),
        pays_for(budget, rows.len(), size_of::<ImportEntry>()),
        table_bytes(rows.len(), import_rows(rows)).len() <= usize::MAX,
    ensures
        import_chunk(table_bytes(rows.len(), import_rows(rows)), atoms, budget).0 == Ok::<
            Seq<ImportEntry>,
            LoadFault,
        >(rows.map_values(|row: ImportRow| import_of(row, atoms))),
{
    let b = table_bytes(rows.len(), import_rows(rows));
    let count = rows.len() as u32;
    let entries = rows.map_values(|row: ImportRow| import_of(row, atoms));
    lemma_parts(b, 0, word(count), import_rows(rows));
    lemma_word(b, 0, count);
    let size = size_of::<ImportEntry>();
    let left = (budget.bytes_remaining - rows.len() * size) as usize;
    let paid = DecodeBudget { bytes_remaining: left, ..budget };
    let s = TableState { pos: 4, budget: paid };
    lemma_import_rows(b, rows, atoms, Seq::empty(), s);
    assert(Seq::<ImportEntry>::empty() + entries =~= entries);
}

/// A row of the export table, as it is written: function, arity, label.
pub struct ExportRow {
    pub function: u32,
    pub arity: u8,
    pub label: u32,
}

/// The bytes of a row.
pub open spec fn export_row(row: ExportRow) -> Seq<u8> {
    word(row.function) + word(row.arity as u32) + word(row.label)
}

/// The bytes of rows.
pub open spec fn export_rows(rows: Seq<ExportRow>) -> Seq<u8>
    decreases rows.len(),
{
    if rows.len() == 0 {
        Seq::empty()
    } else {
        export_row(rows[0]) + export_rows(rows.skip(1))
    }
}

/// Whether the atoms of a row are in the table.
pub open spec fn export_row_is_valid(row: ExportRow, atoms: Seq<Atom>) -> bool {
    1 <= row.function <= atoms.len()
}

/// What a row stands for.
pub open spec fn export_of(row: ExportRow, atoms: Seq<Atom>) -> ExportEntry {
    ExportEntry { function: atoms[row.function - 1], arity: row.arity, label: row.label }
}

proof fn lemma_export_row(b: Seq<u8>, at: nat, row: ExportRow, atoms: Seq<Atom>)
    requires
        has_part(b, at, export_row(row)),
        export_row_is_valid(row, atoms),
    ensures
        export_entry(b, atoms, at) == (Ok::<ExportEntry, LoadFault>(export_of(row, atoms)), at + 12),
{
    lemma_parts(b, at, word(row.function) + word(row.arity as u32), word(row.label));
    lemma_parts(b, at, word(row.function), word(row.arity as u32));
    lemma_word(b, at + 0, row.function);
    lemma_word(b, at + 4, row.arity as u32);
    lemma_word(b, at + 8, row.label);
}

proof fn lemma_export_rows(
    b: Seq<u8>,
    rows: Seq<ExportRow>,
    atoms: Seq<Atom>,
    found: Seq<ExportEntry>,
    s: TableState,
)
    requires
        has_part(b, s.pos, export_rows(rows)),
        forall|i: int| 0 <= i < rows.len() ==> export_row_is_valid(#[trigger] rows[i], atoms),
        rows.len() <= s.budget.nodes_remaining,
    ensures
        ({
            let (entries, t) = export_entries(b, atoms, rows.len(), found, s);
            &&& entries == Ok::<Seq<ExportEntry>, LoadFault>(
                found + rows.map_values(|row: ExportRow| export_of(row, atoms)),
            )
            &&& t.pos == s.pos + export_rows(rows).len()
            &&& export_rows(rows).len() == 12 * rows.len()
        }),
    decreases rows.len(),
{
    let entries = rows.map_values(|row: ExportRow| export_of(row, atoms));
    if rows.len() == 0 {
        assert(found + entries =~= found);
    } else {
        lemma_parts(b, s.pos, export_row(rows[0]), export_rows(rows.skip(1)));
        lemma_export_row(b, s.pos, rows[0], atoms);
        let budget = node_charged(s.budget).1;
        let more = found.push(export_of(rows[0], atoms));
        assert forall|i: int| 0 <= i < rows.skip(1).len() implies export_row_is_valid(
            #[trigger] rows.skip(1)[i],
            atoms,
        ) by {
            assert(rows.skip(1)[i] == rows[i + 1]);
        }
        lemma_export_rows(b, rows.skip(1), atoms, more, TableState { pos: s.pos + 12, budget });
        let rest = rows.skip(1).map_values(|row: ExportRow| export_of(row, atoms));
        assert(more + rest =~= found + entries);
    }
}

/// Decoding an export table gives back its rows, whatever is in the words that are not kept.
pub proof fn law_export_table_is_read_back(
    rows: Seq<ExportRow>,
    atoms: Seq<Atom>,
    budget: DecodeBudget,
)
    requires
        forall|i: int| 0 <= i < rows.len() ==> export_row_is_valid(#[trigger] rows[i], atoms),
        pays_for(budget, rows.len(), size_of::<ExportEntry>()),
        table_bytes(rows.len(), export_rows(rows)).len() <= usize::MAX,
    ensures
        export_chunk(table_bytes(rows.len(), export_rows(rows)), atoms, budget).0 == Ok::<
            Seq<ExportEntry>,
            LoadFault,
        >(rows.map_values(|row: ExportRow| export_of(row, atoms))),
{
    let b = table_bytes(rows.len(), export_rows(rows));
    let count = rows.len() as u32;
    let entries = rows.map_values(|row: ExportRow| export_of(row, atoms));
    lemma_parts(b, 0, word(count), export_rows(rows));
    lemma_word(b, 0, count);
    let size = size_of::<ExportEntry>();
    let left = (budget.bytes_remaining - rows.len() * size) as usize;
    let paid = DecodeBudget { bytes_remaining: left, ..budget };
    let s = TableState { pos: 4, budget: paid };
    lemma_export_rows(b, rows, atoms, Seq::empty(), s);
    assert(Seq::<ExportEntry>::empty() + entries =~= entries);
}

/// A row of the lambda table, as it is written: function, arity, label, index, num_free, old_uniq.
pub struct LambdaRow {
    pub function: u32,
    pub arity: u8,
    pub label: u32,
    pub index: u32,
    pub num_free: u32,
    pub old_uniq: u32,
}

/// The bytes of a row.
pub open spec fn lambda_row(row: LambdaRow) -> Seq<u8> {
    word(row.function) + word(row.arity as u32) + word(row.label) + word(row.index) + word(row.num_free) + word(row.old_uniq)
}

/// The bytes of rows.
pub open spec fn lambda_rows(rows: Seq<LambdaRow>) -> Seq<u8>
    decreases rows.len(),
{
    if rows.len() == 0 {
        Seq::empty()
    } else {
        lambda_row(rows[0]) + lambda_rows(rows.skip(1))
    }
}

/// Whether the atoms of a row are in the table.
pub open spec fn lambda_row_is_valid(row: LambdaRow, atoms: Seq<Atom>) -> bool {
    1 <= row.function <= atoms.len()
}

/// What a row stands for.
pub open spec fn lambda_of(row: LambdaRow, atoms: Seq<Atom>) -> LambdaEntry {
    LambdaEntry {
        function: atoms[row.function - 1],
        arity: row.arity,
        label: row.label,
        num_free: row.num_free,
        unique_id: 0,
    }
}

proof fn lemma_lambda_row(b: Seq<u8>, at: nat, row: LambdaRow, atoms: Seq<Atom>)
    requires
        has_part(b, at, lambda_row(row)),
        lambda_row_is_valid(row, atoms),
    ensures
        lambda_entry(b, atoms, at) == (Ok::<LambdaEntry, LoadFault>(lambda_of(row, atoms)), at + 24),
{
    lemma_parts(b, at, word(row.function) + word(row.arity as u32) + word(row.label) + word(row.index) + word(row.num_free), word(row.old_uniq));
    lemma_parts(b, at, word(row.function) + word(row.arity as u32) + word(row.label) + word(row.index), word(row.num_free));
    lemma_parts(b, at, word(row.function) + word(row.arity as u32) + word(row.label), word(row.index));
    lemma_parts(b, at, word(row.function) + word(row.arity as u32), word(row.label));
    lemma_parts(b, at, word(row.function), word(row.arity as u32));
    lemma_word(b, at + 0, row.function);
    lemma_word(b, at + 4, row.arity as u32);
    lemma_word(b, at + 8, row.label);
    lemma_word(b, at + 12, row.index);
    lemma_word(b, at + 16, row.num_free);
    lemma_word(b, at + 20, row.old_uniq);
}

proof fn lemma_lambda_rows(
    b: Seq<u8>,
    rows: Seq<LambdaRow>,
    atoms: Seq<Atom>,
    found: Seq<LambdaEntry>,
    s: TableState,
)
    requires
        has_part(b, s.pos, lambda_rows(rows)),
        forall|i: int| 0 <= i < rows.len() ==> lambda_row_is_valid(#[trigger] rows[i], atoms),
        rows.len() <= s.budget.nodes_remaining,
    ensures
        ({
            let (entries, t) = lambda_entries(b, atoms, rows.len(), found, s);
            &&& entries == Ok::<Seq<LambdaEntry>, LoadFault>(
                found + rows.map_values(|row: LambdaRow| lambda_of(row, atoms)),
            )
            &&& t.pos == s.pos + lambda_rows(rows).len()
            &&& lambda_rows(rows).len() == 24 * rows.len()
        }),
    decreases rows.len(),
{
    let entries = rows.map_values(|row: LambdaRow| lambda_of(row, atoms));
    if rows.len() == 0 {
        assert(found + entries =~= found);
    } else {
        lemma_parts(b, s.pos, lambda_row(rows[0]), lambda_rows(rows.skip(1)));
        lemma_lambda_row(b, s.pos, rows[0], atoms);
        let budget = node_charged(s.budget).1;
        let more = found.push(lambda_of(rows[0], atoms));
        assert forall|i: int| 0 <= i < rows.skip(1).len() implies lambda_row_is_valid(
            #[trigger] rows.skip(1)[i],
            atoms,
        ) by {
            assert(rows.skip(1)[i] == rows[i + 1]);
        }
        lemma_lambda_rows(b, rows.skip(1), atoms, more, TableState { pos: s.pos + 24, budget });
        let rest = rows.skip(1).map_values(|row: LambdaRow| lambda_of(row, atoms));
        assert(more + rest =~= found + entries);
    }
}

/// Decoding a lambda table gives back its rows, whatever is in the words that are not kept.
pub proof fn law_lambda_table_is_read_back(
    rows: Seq<LambdaRow>,
    atoms: Seq<Atom>,
    budget: DecodeBudget,
)
    requires
        forall|i: int| 0 <= i < rows.len() ==> lambda_row_is_valid(#[trigger] rows[i], atoms),
        pays_for(budget, rows.len(), size_of::<LambdaEntry>()),
        table_bytes(rows.len(), lambda_rows(rows)).len() <= usize::MAX,
    ensures
        lambda_chunk(table_bytes(rows.len(), lambda_rows(rows)), atoms, budget).0 == Ok::<
            Seq<LambdaEntry>,
            LoadFault,
        >(rows.map_values(|row: LambdaRow| lambda_of(row, atoms))),
{
    let b = table_bytes(rows.len(), lambda_rows(rows));
    let count = rows.len() as u32;
    let entries = rows.map_values(|row: LambdaRow| lambda_of(row, atoms));
    lemma_parts(b, 0, word(count), lambda_rows(rows));
    lemma_word(b, 0, count);
    let size = size_of::<LambdaEntry>();
    let left = (budget.bytes_remaining - rows.len() * size) as usize;
    let paid = DecodeBudget { bytes_remaining: left, ..budget };
    let s = TableState { pos: 4, budget: paid };
    lemma_lambda_rows(b, rows, atoms, Seq::empty(), s);
    assert(Seq::<LambdaEntry>::empty() + entries =~= entries);
}

} // verus!
