//! Loading a module: from the bytes of a file to a registered module.

use std::collections::HashMap;
use std::sync::Arc;

use vstd::prelude::*;
use vstd::utf8::encode_utf8;
use crate::atom::{Atom, AtomTable, ATOM_LIMIT};
use crate::error::{decode_error, decode_fault, outcome, outcome_seq, LoadError, LoadFault};
use crate::module::{
    promoted, next_generation, ExportTable, Module, ModuleOrigin, ModuleRegistry, ModuleVersions,
    ResolvedImport, ResolvedImportTarget,
};
use crate::native::{
    denial_stub, AllCapabilitiesPolicy, BifRegistry, CapabilityPolicy, NativeEntry, NativeFunction,
    DENIAL_STUB,
};
use super::decode::budget::{
    default_budget, Charged, DecodeBudget, DEFAULT_DECODE_NODE_BUDGET, MAX_TABLE_ENTRIES,
};
use super::decode::chunks::{
    atom_chunk, decode_atom_chunk, decode_export_chunk, decode_import_chunk, decode_lambda_chunk,
    decode_line_chunk, decode_literal_chunk, decode_string_chunk, export_chunk, import_chunk,
    lambda_chunk, line_chunk, literal_chunk, literal_entries, literal_entry, literal_payload,
    table_header, ExportEntry, ImportEntry, LambdaEntry, LineInfo,
};
use super::decode::code::{all_encode, code_chunk, decode_code_and_literals, Item};
use super::decode::compact::Operand;
use super::decode::etf::{flat, literals_outcome, roomy, EtfState};
use super::decode::indices::{
    all_name_literals, law_decoded_operands_name_literals, lemma_instruction_names_literals,
};
use super::decode::instruction::Instruction;
use super::decode::literal::{literal_views, Literal, LiteralView};
use super::decode::bounded::be_u32;
use super::parser::{
    be32, chunk_view, chunk_views, chunks_of, container, first_chunk, parse_beam_chunks, ChunkView,
    FourCC,
};
use super::validate::{
    code_of, keeps_arities, law_code_is_unambiguous, law_validation_does_not_depend_on_bindings,
    none_bound, operands_of, validate_module, validation, CodeView,
};
use super::report::{
    groups_denied, groups_unresolved, DeniedImportEntry, UnresolvedImportEntry,
    UnresolvedImportReport,
};

verus! {

/// The decoded tables of a module.
#[derive(Debug)]
pub struct ParsedModule {
    pub name: Atom,
    pub atoms: Vec<Atom>,
    pub instructions: Vec<Instruction>,
    pub imports: Vec<ImportEntry>,
    pub exports: Vec<ExportEntry>,
    pub lambdas: Vec<LambdaEntry>,
    pub literals: Vec<Literal>,
    pub string_table: Vec<u8>,
    pub line_info: Vec<LineInfo>,
}

/// What a [`ParsedModule`] was decoded from.
#[verifier::ext_equal]
pub struct ParsedView {
    pub name: Atom,
    pub atoms: Seq<Atom>,
    pub items: Seq<Item>,
    pub imports: Seq<ImportEntry>,
    pub exports: Seq<ExportEntry>,
    pub lambdas: Seq<LambdaEntry>,
    pub literals: Seq<LiteralView>,
    pub string_table: Seq<u8>,
    pub line_info: Seq<LineInfo>,
}

/// Whether `parsed` was decoded from what `v` says.
pub open spec fn parsed_from(parsed: ParsedModule, v: ParsedView) -> bool {
    &&& parsed.name == v.name
    &&& parsed.atoms@ == v.atoms
    &&& all_encode(parsed.instructions@, v.items)
    &&& parsed.imports@ == v.imports
    &&& parsed.exports@ == v.exports
    &&& parsed.lambdas@ == v.lambdas
    &&& literal_views(parsed.literals@) == v.literals
    &&& parsed.string_table@ == v.string_table
    &&& parsed.line_info@ == v.line_info
}

// ---------------------------------------------------------------------------
// Lambda identifiers
// ---------------------------------------------------------------------------

/// Where the hash of a lambda starts.
pub const HASH_START: u64 = 0xcbf2_9ce4_8422_2325;

/// What the hash of a lambda is multiplied by for each byte.
pub const HASH_FACTOR: u64 = 0x0000_0100_0000_01b3;

/// The hash after one more byte.
pub open spec fn hash_byte(hash: u64, byte: u8) -> u64 {
    (hash ^ (byte as u64)).wrapping_mul(HASH_FACTOR)
}

/// The hash after more bytes.
pub open spec fn hash_bytes(hash: u64, bytes: Seq<u8>) -> u64
    decreases bytes.len(),
{
    if bytes.len() == 0 {
        hash
    } else {
        hash_byte(hash_bytes(hash, bytes.drop_last()), bytes.last())
    }
}

/// A number as eight bytes, most significant first.
pub open spec fn be64(n: nat) -> Seq<u8> {
    be32(n / 0x1_0000_0000) + be32(n % 0x1_0000_0000)
}

/// What identifies a lambda, as bytes: the names of its module and function,
/// each after its length, its arity, and the number of its free variables.
pub open spec fn lambda_bytes(
    module: Seq<char>,
    function: Seq<char>,
    arity: u8,
    num_free: u32,
) -> Seq<u8> {
    let m = encode_utf8(module);
    let f = encode_utf8(function);
    be64(m.len()) + m + be64(f.len()) + f + seq![arity] + be32(num_free as nat)
}

/// The identifier of a lambda, or the fault of an unknown atom.
pub open spec fn lambda_id(
    names: Seq<Seq<char>>,
    module: Atom,
    function: Atom,
    arity: u8,
    num_free: u32,
) -> Result<u64, LoadFault> {
    if module.0 >= names.len() {
        Err(decode_fault("module atom is not interned"@))
    } else if function.0 >= names.len() {
        Err(decode_fault("lambda function atom is not interned"@))
    } else {
        Ok(
            hash_bytes(
                HASH_START,
                lambda_bytes(
                    names[module.0 as int],
                    names[function.0 as int],
                    arity,
                    num_free,
                ),
            ),
        )
    }
}

proof fn lemma_hash_append(hash: u64, a: Seq<u8>, b: Seq<u8>)
    ensures
        hash_bytes(hash, a + b) == hash_bytes(hash_bytes(hash, a), b),
    decreases b.len(),
{
    if b.len() == 0 {
        assert(a + b =~= a);
    } else {
        lemma_hash_append(hash, a, b.drop_last());
        assert((a + b).drop_last() =~= a + b.drop_last());
        assert((a + b).last() == b.last());
    }
}

pub fn hash_run(hash: u64, bytes: &[u8]) -> (r: u64)
    ensures
        r == hash_bytes(hash, bytes@),
{
    let mut value: u64 = hash;
    let mut i: usize = 0;
    while i < bytes.len()
        invariant
            i <= bytes@.len(),
            value == hash_bytes(hash, bytes@.take(i as int)),
        decreases bytes@.len() - i,
    {
        proof {
            let longer = bytes@.take(i + 1);
            assert(longer.drop_last() =~= bytes@.take(i as int));
        }
        value = (value ^ (bytes[i] as u64)).wrapping_mul(HASH_FACTOR);
        i += 1;
    }
    assert(bytes@.take(bytes@.len() as int) =~= bytes@);
    value
}

fn hash_u32(hash: u64, n: u32) -> (r: u64)
    ensures
        r == hash_bytes(hash, be32(n as nat)),
{
    let bytes: [u8; 4] = [
        (n / 0x100_0000) as u8,
        ((n / 0x1_0000) % 256) as u8,
        ((n / 0x100) % 256) as u8,
        (n % 256) as u8,
    ];
    assert(bytes@ =~= be32(n as nat));
    hash_run(hash, &bytes)
}

fn hash_u64(hash: u64, n: u64) -> (r: u64)
    ensures
        r == hash_bytes(hash, be64(n as nat)),
{
    proof {
        lemma_hash_append(hash, be32(n as nat / 0x1_0000_0000), be32(n as nat % 0x1_0000_0000));
    }
    let high: u32 = (n / 0x1_0000_0000) as u32;
    let low: u32 = (n % 0x1_0000_0000) as u32;
    hash_u32(hash_u32(hash, high), low)
}

/// The identifier of a lambda. It depends on names and not on atoms, so it
/// survives loading with a differently filled atom table.
pub fn lambda_unique_id(
    table: &AtomTable,
    module_name: Atom,
    function_name: Atom,
    arity: u8,
    num_free: u32,
) -> (r: Result<u64, LoadError>)
    ensures
        outcome(r) == lambda_id(table@, module_name, function_name, arity, num_free),
{
    let module = match table.resolve(module_name) {
        Some(name) => name,
        None => {
            return Err(decode_error("module atom is not interned"));
        },
    };
    let function = match table.resolve(function_name) {
        Some(name) => name,
        None => {
            return Err(decode_error("lambda function atom is not interned"));
        },
    };
    let m = module.as_bytes();
    let f = function.as_bytes();
    let last: [u8; 1] = [arity];
    proof {
        let a = be64(m@.len());
        let b = be64(f@.len());
        let c = seq![arity];
        let d = be32(num_free as nat);
        assert(last@ =~= c);
        lemma_hash_append(HASH_START, a, m@);
        lemma_hash_append(HASH_START, a + m@, b);
        lemma_hash_append(HASH_START, a + m@ + b, f@);
        lemma_hash_append(HASH_START, a + m@ + b + f@, c);
        lemma_hash_append(HASH_START, a + m@ + b + f@ + c, d);
    }
    let mut hash: u64 = hash_u64(HASH_START, m.len() as u64);
    hash = hash_run(hash, m);
    hash = hash_u64(hash, f.len() as u64);
    hash = hash_run(hash, f);
    hash = hash_run(hash, &last);
    Ok(hash_u32(hash, num_free))
}

/// Identical names, arity and free variables give identical identifiers, in
/// whatever atom tables the names are.
pub proof fn law_lambda_id_depends_on_names(
    names: Seq<Seq<char>>,
    others: Seq<Seq<char>>,
    module: Atom,
    function: Atom,
    other_module: Atom,
    other_function: Atom,
    arity: u8,
    num_free: u32,
)
    requires
        module.0 < names.len(),
        function.0 < names.len(),
        other_module.0 < others.len(),
        other_function.0 < others.len(),
        names[module.0 as int] == others[other_module.0 as int],
        names[function.0 as int] == others[other_function.0 as int],
    ensures
        lambda_id(names, module, function, arity, num_free) == lambda_id(
            others,
            other_module,
            other_function,
            arity,
            num_free,
        ),
{
}

/// A lambda with its identifier.
pub open spec fn identified(names: Seq<Seq<char>>, module: Atom, lambda: LambdaEntry) -> Result<
    LambdaEntry,
    LoadFault,
> {
    match lambda_id(names, module, lambda.function, lambda.arity, lambda.num_free) {
        Ok(unique_id) => Ok(LambdaEntry { unique_id, ..lambda }),
        Err(e) => Err(e),
    }
}

/// Lambdas with their identifiers, after those in `found`.
pub open spec fn all_identified(
    names: Seq<Seq<char>>,
    module: Atom,
    lambdas: Seq<LambdaEntry>,
    found: Seq<LambdaEntry>,
) -> Result<Seq<LambdaEntry>, LoadFault>
    decreases lambdas.len(),
{
    if lambdas.len() == 0 {
        Ok(found)
    } else {
        match identified(names, module, lambdas[0]) {
            Err(e) => Err(e),
            Ok(lambda) => all_identified(names, module, lambdas.skip(1), found.push(lambda)),
        }
    }
}

fn assign_lambda_unique_ids(module_name: Atom, lambdas: Vec<LambdaEntry>, table: &AtomTable) -> (r:
    Result<Vec<LambdaEntry>, LoadError>)
    ensures
        outcome_seq(r) == all_identified(table@, module_name, lambdas@, Seq::empty()),
{
    let mut found: Vec<LambdaEntry> = Vec::new();
    let mut i: usize = 0;
    assert(lambdas@.skip(0) =~= lambdas@);
    assert(found@ =~= Seq::empty());
    while i < lambdas.len()
        invariant
            i <= lambdas@.len(),
            all_identified(table@, module_name, lambdas@, Seq::empty()) == all_identified(
                table@,
                module_name,
                lambdas@.skip(i as int),
                found@,
            ),
        decreases lambdas@.len() - i,
    {
        let lambda = lambdas[i];
        assert(lambdas@.skip(i as int)[0] == lambda);
        assert(lambdas@.skip(i as int).skip(1) =~= lambdas@.skip(i + 1));
        let unique_id: u64 = lambda_unique_id(
            table,
            module_name,
            lambda.function,
            lambda.arity,
            lambda.num_free,
        )?;
        found.push(
            LambdaEntry {
                function: lambda.function,
                arity: lambda.arity,
                label: lambda.label,
                num_free: lambda.num_free,
                unique_id,
            },
        );
        i += 1;
    }
    Ok(found)
}

// ---------------------------------------------------------------------------
// Chunks
// ---------------------------------------------------------------------------

/// The data of the first chunk with the given identifier.
pub open spec fn chunk_data(chunks: Seq<ChunkView>, tag: Seq<u8>) -> Option<Seq<u8>>
    decreases chunks.len(),
{
    if chunks.len() == 0 {
        None
    } else if chunks[0].tag == tag {
        Some(chunks[0].data)
    } else {
        chunk_data(chunks.skip(1), tag)
    }
}

fn same_tag(a: &FourCC, b: &FourCC) -> (r: bool)
    ensures
        r == (a@ == b@),
{
    let same = a[0] == b[0] && a[1] == b[1] && a[2] == b[2] && a[3] == b[3];
    assert(same ==> a@ =~= b@);
    same
}

fn find_chunk<'a>(chunks: &Vec<(FourCC, &'a [u8])>, tag: FourCC) -> (r: Option<&'a [u8]>)
    ensures
        match chunk_data(chunk_views(chunks@), tag@) {
            Some(data) => r matches Some(x) && x@ == data,
            None => r is None,
        },
{
    let mut i: usize = 0;
    let ghost views = chunk_views(chunks@);
    assert(views.skip(0) =~= views);
    while i < chunks.len()
        invariant
            i <= chunks@.len(),
            views == chunk_views(chunks@),
            chunk_data(views, tag@) == chunk_data(views.skip(i as int), tag@),
        decreases chunks@.len() - i,
    {
        assert(views.skip(i as int)[0] == chunk_view(chunks@[i as int]));
        assert(views.skip(i as int).skip(1) =~= views.skip(i + 1));
        if same_tag(&chunks[i].0, &tag) {
            return Some(chunks[i].1);
        }
        i += 1;
    }
    None
}

/// `AtU8`.
pub open spec fn tag_atu8() -> Seq<u8> {
    seq![65u8, 116u8, 85u8, 56u8]
}

/// `Atom`.
pub open spec fn tag_atom() -> Seq<u8> {
    seq![65u8, 116u8, 111u8, 109u8]
}

/// `LitT`.
pub open spec fn tag_literals() -> Seq<u8> {
    seq![76u8, 105u8, 116u8, 84u8]
}

/// `Code`.
pub open spec fn tag_code() -> Seq<u8> {
    seq![67u8, 111u8, 100u8, 101u8]
}

/// `ImpT`.
pub open spec fn tag_imports() -> Seq<u8> {
    seq![73u8, 109u8, 112u8, 84u8]
}

/// `ExpT`.
pub open spec fn tag_exports() -> Seq<u8> {
    seq![69u8, 120u8, 112u8, 84u8]
}

/// `FunT`.
pub open spec fn tag_lambdas() -> Seq<u8> {
    seq![70u8, 117u8, 110u8, 84u8]
}

/// `StrT`.
pub open spec fn tag_strings() -> Seq<u8> {
    seq![83u8, 116u8, 114u8, 84u8]
}

/// `Line`.
pub open spec fn tag_lines() -> Seq<u8> {
    seq![76u8, 105u8, 110u8, 101u8]
}

/// The atom chunk: `AtU8`, or else `Atom`.
pub open spec fn atom_data(chunks: Seq<ChunkView>) -> Option<Seq<u8>> {
    match chunk_data(chunks, tag_atu8()) {
        Some(data) => Some(data),
        None => chunk_data(chunks, tag_atom()),
    }
}

/// The literals of a module, which may have none, and what is left after them.
pub open spec fn module_literals(
    chunks: Seq<ChunkView>,
    names: Seq<Seq<char>>,
    budget: DecodeBudget,
) -> (Result<Seq<LiteralView>, LoadFault>, Seq<Seq<char>>, DecodeBudget) {
    match chunk_data(chunks, tag_literals()) {
        None => (Ok(Seq::empty()), names, budget),
        Some(data) => {
            let (literals, s) = literal_chunk(data, names, budget);
            (
                literals,
                s.names,
                DecodeBudget { depth_remaining: budget.depth_remaining, ..s.budget },
            )
        },
    }
}

/// The imports of a module, which may have none.
pub open spec fn module_imports(
    chunks: Seq<ChunkView>,
    atoms: Seq<Atom>,
    budget: DecodeBudget,
) -> Charged<Seq<ImportEntry>> {
    match chunk_data(chunks, tag_imports()) {
        None => (Ok(Seq::empty()), budget),
        Some(data) => import_chunk(data, atoms, budget),
    }
}

/// The exports of a module, which may have none.
pub open spec fn module_exports(
    chunks: Seq<ChunkView>,
    atoms: Seq<Atom>,
    budget: DecodeBudget,
) -> Charged<Seq<ExportEntry>> {
    match chunk_data(chunks, tag_exports()) {
        None => (Ok(Seq::empty()), budget),
        Some(data) => export_chunk(data, atoms, budget),
    }
}

/// The lambdas of a module, which may have none, with their identifiers.
pub open spec fn module_lambdas(
    chunks: Seq<ChunkView>,
    atoms: Seq<Atom>,
    names: Seq<Seq<char>>,
    budget: DecodeBudget,
) -> Charged<Seq<LambdaEntry>> {
    match chunk_data(chunks, tag_lambdas()) {
        None => (Ok(Seq::empty()), budget),
        Some(data) => match lambda_chunk(data, atoms, budget) {
            (Err(e), budget) => (Err(e), budget),
            (Ok(lambdas), budget) => (
                all_identified(names, atoms[0], lambdas, Seq::empty()),
                budget,
            ),
        },
    }
}

/// The lines of a module, which may have none.
pub open spec fn module_lines(chunks: Seq<ChunkView>, budget: DecodeBudget) -> Charged<
    Seq<LineInfo>,
> {
    match chunk_data(chunks, tag_lines()) {
        None => (Ok(Seq::empty()), budget),
        Some(data) => line_chunk(data, budget),
    }
}

/// The tables of a module, given its atoms and literals.
pub open spec fn module_tables(
    chunks: Seq<ChunkView>,
    atoms: Seq<Atom>,
    literals: Seq<LiteralView>,
    names: Seq<Seq<char>>,
    budget: DecodeBudget,
) -> Result<ParsedView, LoadFault> {
    match chunk_data(chunks, tag_code()) {
        None => Err(LoadFault::MissingChunk("Code"@)),
        Some(code) => match code_chunk(code, atoms, literals.len()) {
            Err(e) => Err(e),
            Ok((items, extras)) => match module_imports(chunks, atoms, budget) {
                (Err(e), _) => Err(e),
                (Ok(imports), budget) => match module_exports(chunks, atoms, budget) {
                    (Err(e), _) => Err(e),
                    (Ok(exports), budget) => match module_lambdas(chunks, atoms, names, budget) {
                        (Err(e), _) => Err(e),
                        (Ok(lambdas), budget) => match module_lines(chunks, budget) {
                            (Err(e), _) => Err(e),
                            (Ok(line_info), _) => Ok(
                                ParsedView {
                                    name: atoms[0],
                                    atoms,
                                    items,
                                    imports,
                                    exports,
                                    lambdas,
                                    literals: literals + extras,
                                    string_table: match chunk_data(chunks, tag_strings()) {
                                        Some(data) => data,
                                        None => Seq::empty(),
                                    },
                                    line_info,
                                },
                            ),
                        },
                    },
                },
            },
        },
    }
}

/// What decoding a module answers, and the names interned after it.
///
/// The first atom names the module. Literals that operands bring with them come
/// after those of the literal chunk.
pub open spec fn decoded_module(b: Seq<u8>, names: Seq<Seq<char>>) -> (
    Result<ParsedView, LoadFault>,
    Seq<Seq<char>>,
) {
    match container(b) {
        None => (Err(LoadFault::InvalidFormat), names),
        Some(chunks) => match atom_data(chunks) {
            None => (Err(LoadFault::MissingChunk("Atom/AtU8"@)), names),
            Some(data) => match atom_chunk(data, names, default_budget()) {
                (Err(e), s) => (Err(e), s.names),
                (Ok(atoms), s) => if atoms.len() == 0 {
                    (Err(decode_fault("atom chunk is empty"@)), s.names)
                } else {
                    match module_literals(chunks, s.names, s.budget) {
                        (Err(e), names, _) => (Err(e), names),
                        (Ok(literals), names, budget) => (
                            module_tables(chunks, atoms, literals, names, budget),
                            names,
                        ),
                    }
                },
            },
        },
    }
}

proof fn lemma_chunks_fit(s: Seq<u8>, found: Seq<ChunkView>, bound: nat)
    requires
        s.len() <= bound,
        forall|i: int| 0 <= i < found.len() ==> (#[trigger] found[i]).data.len() <= bound,
    ensures
        chunks_of(s, found) matches Some(chunks) ==> forall|i: int|
            0 <= i < chunks.len() ==> (#[trigger] chunks[i]).data.len() <= bound,
    decreases s.len(),
{
    if s.len() > 0 {
        match first_chunk(s) {
            None => {},
            Some((chunk, rest)) => {
                lemma_chunks_fit(rest, found.push(chunk), bound);
            },
        }
    }
}

proof fn lemma_data_fits(chunks: Seq<ChunkView>, tag: Seq<u8>, bound: nat)
    requires
        forall|i: int| 0 <= i < chunks.len() ==> (#[trigger] chunks[i]).data.len() <= bound,
    ensures
        chunk_data(chunks, tag) matches Some(data) ==> data.len() <= bound,
    decreases chunks.len(),
{
    if chunks.len() > 0 && chunks[0].tag != tag {
        assert forall|i: int| 0 <= i < chunks.skip(1).len() implies (#[trigger] chunks.skip(
            1,
        )[i]).data.len() <= bound by {
            assert(chunks.skip(1)[i] == chunks[i + 1]);
        }
        lemma_data_fits(chunks.skip(1), tag, bound);
    }
}

proof fn lemma_entries_counted(
    b: Seq<u8>,
    n: nat,
    found: Seq<LiteralView>,
    depth: nat,
    s: EtfState,
)
    ensures
        literal_entries(b, n, found, depth, s).0 matches Ok(literals) ==> literals.len() == n
            + found.len(),
    decreases n,
{
    if n > 0 {
        match literal_entry(b, depth, s) {
            (Err(e), t) => {},
            (Ok(literal), t) => {
                lemma_entries_counted(b, (n - 1) as nat, found.push(literal), depth, t);
            },
        }
    }
}

proof fn lemma_few_literals(data: Seq<u8>, names: Seq<Seq<char>>, budget: DecodeBudget)
    ensures
        literal_chunk(data, names, budget).0 matches Ok(literals) ==> literals.len()
            <= MAX_TABLE_ENTRIES,
{
    match literal_payload(data, budget) {
        (Err(e), _) => {},
        (Ok(payload), after) => {
            let depth = budget.depth_remaining as nat;
            let s = EtfState { pos: 0, names, budget: flat(after) };
            match table_header(
                payload,
                4,
                vstd::layout::size_of::<Literal>(),
                "literal count"@,
                "literal table allocation size overflow"@,
                s.budget,
            ) {
                (Err(e), h) => {},
                (Ok(count), h) => {
                    lemma_entries_counted(
                        payload,
                        count,
                        Seq::empty(),
                        depth,
                        EtfState { pos: h.pos, budget: h.budget, ..s },
                    );
                },
            }
        },
    }
}

fn load_literals(
    chunks: &Vec<(FourCC, &[u8])>,
    table: &mut AtomTable,
    budget: &mut DecodeBudget,
) -> (r: Result<Vec<Literal>, LoadError>)
    requires
        roomy(*old(table), *old(budget)),
    ensures
        roomy(*final(table), *final(budget)),
        (literals_outcome(r), final(table)@, *final(budget)) == module_literals(
            chunk_views(chunks@),
            old(table)@,
            *old(budget),
        ),
        r matches Ok(literals) ==> literals@.len() <= MAX_TABLE_ENTRIES,
{
    let tag: FourCC = [76, 105, 116, 84];
    assert(tag@ =~= tag_literals());
    match find_chunk(chunks, tag) {
        None => {
            let literals: Vec<Literal> = Vec::new();
            assert(literal_views(literals@) =~= Seq::empty());
            Ok(literals)
        },
        Some(data) => {
            proof {
                lemma_few_literals(data@, table@, *budget);
            }
            decode_literal_chunk(data, table, budget)
        },
    }
}

fn load_imports(chunks: &Vec<(FourCC, &[u8])>, atoms: &Vec<Atom>, budget: &mut DecodeBudget) -> (r:
    Result<Vec<ImportEntry>, LoadError>)
    ensures
        (outcome_seq(r), *final(budget)) == module_imports(
            chunk_views(chunks@),
            atoms@,
            *old(budget),
        ),
{
    let tag: FourCC = [73, 109, 112, 84];
    assert(tag@ =~= tag_imports());
    match find_chunk(chunks, tag) {
        None => Ok(Vec::new()),
        Some(data) => decode_import_chunk(data, atoms.as_slice(), budget),
    }
}

fn load_exports(chunks: &Vec<(FourCC, &[u8])>, atoms: &Vec<Atom>, budget: &mut DecodeBudget) -> (r:
    Result<Vec<ExportEntry>, LoadError>)
    ensures
        (outcome_seq(r), *final(budget)) == module_exports(
            chunk_views(chunks@),
            atoms@,
            *old(budget),
        ),
{
    let tag: FourCC = [69, 120, 112, 84];
    assert(tag@ =~= tag_exports());
    match find_chunk(chunks, tag) {
        None => Ok(Vec::new()),
        Some(data) => decode_export_chunk(data, atoms.as_slice(), budget),
    }
}

fn load_lambdas(
    chunks: &Vec<(FourCC, &[u8])>,
    atoms: &Vec<Atom>,
    table: &AtomTable,
    budget: &mut DecodeBudget,
) -> (r: Result<Vec<LambdaEntry>, LoadError>)
    requires
        atoms@.len() > 0,
    ensures
        (outcome_seq(r), *final(budget)) == module_lambdas(
            chunk_views(chunks@),
            atoms@,
            table@,
            *old(budget),
        ),
{
    let tag: FourCC = [70, 117, 110, 84];
    assert(tag@ =~= tag_lambdas());
    match find_chunk(chunks, tag) {
        None => Ok(Vec::new()),
        Some(data) => {
            let lambdas = decode_lambda_chunk(data, atoms.as_slice(), budget)?;
            assign_lambda_unique_ids(atoms[0], lambdas, table)
        },
    }
}

fn load_lines(chunks: &Vec<(FourCC, &[u8])>, budget: &mut DecodeBudget) -> (r: Result<
    Vec<LineInfo>,
    LoadError,
>)
    ensures
        (outcome_seq(r), *final(budget)) == module_lines(chunk_views(chunks@), *old(budget)),
{
    let tag: FourCC = [76, 105, 110, 101];
    assert(tag@ =~= tag_lines());
    match find_chunk(chunks, tag) {
        None => Ok(Vec::new()),
        Some(data) => decode_line_chunk(data, budget),
    }
}

/// What a decoded module comes from, or the fault.
pub open spec fn parse_outcome(
    r: Result<ParsedModule, LoadError>,
    expected: Result<ParsedView, LoadFault>,
) -> bool {
    match r {
        Ok(parsed) => expected matches Ok(v) && parsed_from(parsed, v),
        Err(e) => expected == Err::<ParsedView, LoadFault>(e@),
    }
}

/// Decodes the tables of a module that come after its atoms and literals.
fn load_tables(
    chunks: &Vec<(FourCC, &[u8])>,
    atoms: Vec<Atom>,
    literals: Vec<Literal>,
    table: &AtomTable,
    budget: &mut DecodeBudget,
) -> (r: Result<ParsedModule, LoadError>)
    requires
        atoms@.len() > 0,
        chunk_data(chunk_views(chunks@), tag_code()) matches Some(code) ==> literals@.len()
            + code.len() <= usize::MAX,
    ensures
        parse_outcome(
            r,
            module_tables(
                chunk_views(chunks@),
                atoms@,
                literal_views(literals@),
                table@,
                *old(budget),
            ),
        ),
{
    let tag: FourCC = [67, 111, 100, 101];
    assert(tag@ =~= tag_code());
    let code = match find_chunk(chunks, tag) {
        Some(code) => code,
        None => {
            return Err(LoadError::MissingChunk("Code".to_owned()));
        },
    };
    let (instructions, extras) = match decode_code_and_literals(
        code,
        atoms.as_slice(),
        literals.as_slice(),
    ) {
        Ok(decoded) => decoded,
        Err(e) => {
            return Err(e);
        },
    };
    let imports = load_imports(chunks, &atoms, budget)?;
    let exports = load_exports(chunks, &atoms, budget)?;
    let lambdas = load_lambdas(chunks, &atoms, table, budget)?;
    let tag: FourCC = [83, 116, 114, 84];
    assert(tag@ =~= tag_strings());
    let string_table = match find_chunk(chunks, tag) {
        Some(data) => decode_string_chunk(data),
        None => Vec::new(),
    };
    let line_info = load_lines(chunks, budget)?;
    let mut all_literals = literals;
    let mut extras = extras;
    let ghost before = all_literals@;
    let ghost more = extras@;
    all_literals.append(&mut extras);
    assert(literal_views(all_literals@) =~= literal_views(before) + literal_views(more));
    Ok(
        ParsedModule {
            name: atoms[0],
            atoms,
            instructions,
            imports,
            exports,
            lambdas,
            literals: all_literals,
            string_table,
            line_info,
        },
    )
}

/// Decodes a module; new names are interned.
///
/// The table needs room for as many atoms as one module may intern.
pub fn load_beam_chunks(bytes: &[u8], atom_table: &mut AtomTable) -> (r: Result<
    ParsedModule,
    LoadError,
>)
    requires
        old(atom_table).wf(),
        old(atom_table)@.len() + DEFAULT_DECODE_NODE_BUDGET <= ATOM_LIMIT,
        bytes@.len() + MAX_TABLE_ENTRIES <= usize::MAX,
    ensures
        final(atom_table).wf(),
        parse_outcome(r, decoded_module(bytes@, old(atom_table)@).0),
        final(atom_table)@ == decoded_module(bytes@, old(atom_table)@).1,
{
    let mut budget: DecodeBudget = Default::default();
    let chunks = parse_beam_chunks(bytes)?;
    let ghost views = chunk_views(chunks@);
    proof {
        lemma_chunks_fit(
            bytes@.subrange(12, be_u32(bytes@, 4) + 8),
            Seq::empty(),
            bytes@.len(),
        );
        lemma_data_fits(views, tag_code(), bytes@.len());
    }
    let tag: FourCC = [65, 116, 85, 56];
    assert(tag@ =~= tag_atu8());
    let data = match find_chunk(&chunks, tag) {
        Some(data) => data,
        None => {
            let tag: FourCC = [65, 116, 111, 109];
            assert(tag@ =~= tag_atom());
            match find_chunk(&chunks, tag) {
                Some(data) => data,
                None => {
                    return Err(LoadError::MissingChunk("Atom/AtU8".to_owned()));
                },
            }
        },
    };
    let atoms = decode_atom_chunk(data, atom_table, &mut budget)?;
    if atoms.len() == 0 {
        return Err(decode_error("atom chunk is empty"));
    }
    let literals = load_literals(&chunks, atom_table, &mut budget)?;
    load_tables(&chunks, atoms, literals, atom_table, &mut budget)
}

// ---------------------------------------------------------------------------
// Imports
// ---------------------------------------------------------------------------

/// What the host says of an import: the native function of its name, if it has
/// one, and whether loaded code gets the capability that the function needs.
#[derive(Debug, Clone, Copy, PartialEq, Eq, Structural)]
pub struct HostAnswer {
    pub entry: Option<NativeEntry>,
    pub granted: bool,
}

/// What a native function is bound to: itself when it is granted, otherwise the
/// function that answers for denied ones.
pub open spec fn native_binding(entry: NativeEntry, granted: bool) -> NativeEntry {
    if granted {
        entry
    } else {
        NativeEntry {
            function: NativeFunction(DENIAL_STUB),
            dirty_kind: None,
            capability: entry.capability,
        }
    }
}

/// What an import is bound to. A native function comes before a module; a module
/// that is not loaded is looked up when the function is called.
pub open spec fn import_target(
    import: ImportEntry,
    answer: HostAnswer,
    modules: Map<u32, ModuleVersions>,
) -> ResolvedImportTarget {
    let ImportEntry { module, function, arity } = import;
    match answer.entry {
        Some(entry) => ResolvedImportTarget::Native(native_binding(entry, answer.granted)),
        None => if !modules.contains_key(module.0) {
            ResolvedImportTarget::Deferred { module, function, arity }
        } else {
            let exports = modules[module.0].current.exports@;
            if exports.contains_key((function, arity)) {
                ResolvedImportTarget::Code { module, label: exports[(function, arity)] }
            } else {
                ResolvedImportTarget::Unresolved { module, function, arity }
            }
        },
    }
}

/// An import with what it is bound to.
pub open spec fn bound_import(
    import: ImportEntry,
    answer: HostAnswer,
    modules: Map<u32, ModuleVersions>,
) -> ResolvedImport {
    ResolvedImport {
        module: import.module,
        function: import.function,
        arity: import.arity,
        target: import_target(import, answer, modules),
    }
}

/// The imports with what each is bound to.
pub open spec fn bound_imports(
    imports: Seq<ImportEntry>,
    answers: Seq<HostAnswer>,
    modules: Map<u32, ModuleVersions>,
) -> Seq<Option<ResolvedImport>> {
    Seq::new(imports.len(), |i: int| Some(bound_import(imports[i], answers[i], modules)))
}

/// The imports among the first `n` that their loaded modules do not export.
pub open spec fn unexported(
    imports: Seq<ImportEntry>,
    answers: Seq<HostAnswer>,
    modules: Map<u32, ModuleVersions>,
    n: nat,
) -> Seq<UnresolvedImportEntry>
    decreases n,
{
    if n == 0 {
        Seq::empty()
    } else {
        let before = unexported(imports, answers, modules, (n - 1) as nat);
        let ImportEntry { module, function, arity } = imports[n - 1];
        if import_target(imports[n - 1], answers[n - 1], modules) is Unresolved {
            before.push(UnresolvedImportEntry { module, function, arity })
        } else {
            before
        }
    }
}

/// The imports among the first `n` whose modules are not loaded.
pub open spec fn unloaded(
    imports: Seq<ImportEntry>,
    answers: Seq<HostAnswer>,
    modules: Map<u32, ModuleVersions>,
    n: nat,
) -> Seq<UnresolvedImportEntry>
    decreases n,
{
    if n == 0 {
        Seq::empty()
    } else {
        let before = unloaded(imports, answers, modules, (n - 1) as nat);
        let ImportEntry { module, function, arity } = imports[n - 1];
        if import_target(imports[n - 1], answers[n - 1], modules) is Deferred {
            before.push(UnresolvedImportEntry { module, function, arity })
        } else {
            before
        }
    }
}

/// The imports among the first `n` that the host denied.
pub open spec fn refused(imports: Seq<ImportEntry>, answers: Seq<HostAnswer>, n: nat) -> Seq<
    DeniedImportEntry,
>
    decreases n,
{
    if n == 0 {
        Seq::empty()
    } else {
        let before = refused(imports, answers, (n - 1) as nat);
        let ImportEntry { module, function, arity } = imports[n - 1];
        match answers[n - 1].entry {
            Some(entry) => if answers[n - 1].granted {
                before
            } else {
                before.push(
                    DeniedImportEntry { module, function, arity, capability: entry.capability },
                )
            },
            None => before,
        }
    }
}

/// Whether a report lists the imports that were not bound, by reason.
pub open spec fn reports(
    report: UnresolvedImportReport,
    imports: Seq<ImportEntry>,
    answers: Seq<HostAnswer>,
    modules: Map<u32, ModuleVersions>,
) -> bool {
    &&& report.wf()
    &&& groups_unresolved(
        report.unresolved_groups(),
        unexported(imports, answers, modules, imports.len()),
    )
    &&& groups_unresolved(
        report.deferred_groups(),
        unloaded(imports, answers, modules, imports.len()),
    )
    &&& groups_denied(report.denied_groups(), refused(imports, answers, imports.len()))
}

fn bind_import(import: ImportEntry, answer: HostAnswer, registry: &ModuleRegistry) -> (r:
    ResolvedImport)
    ensures
        r == bound_import(import, answer, registry@),
{
    let ImportEntry { module, function, arity } = import;
    let target = match answer.entry {
        Some(entry) => if answer.granted {
            ResolvedImportTarget::Native(entry)
        } else {
            ResolvedImportTarget::Native(
                NativeEntry {
                    function: denial_stub(),
                    dirty_kind: None,
                    capability: entry.capability,
                },
            )
        },
        None => match registry.lookup(module) {
            None => ResolvedImportTarget::Deferred { module, function, arity },
            Some(loaded) => match loaded.exports.get(function, arity) {
                Some(label) => ResolvedImportTarget::Code { module, label },
                None => ResolvedImportTarget::Unresolved { module, function, arity },
            },
        },
    };
    ResolvedImport { module, function, arity, target }
}

/// Binds imports, given what the host says of each.
pub fn resolve_with_answers(
    imports: &Vec<ImportEntry>,
    answers: &Vec<HostAnswer>,
    module_registry: &ModuleRegistry,
) -> (r: (Vec<Option<ResolvedImport>>, UnresolvedImportReport))
    requires
        imports@.len() == answers@.len(),
    ensures
        r.0@ == bound_imports(imports@, answers@, module_registry@),
        reports(r.1, imports@, answers@, module_registry@),
{
    let mut resolved: Vec<Option<ResolvedImport>> = Vec::new();
    let mut missing: Vec<UnresolvedImportEntry> = Vec::new();
    let mut deferred: Vec<UnresolvedImportEntry> = Vec::new();
    let mut denied: Vec<DeniedImportEntry> = Vec::new();
    let mut i: usize = 0;
    while i < imports.len()
        invariant
            i <= imports@.len(),
            imports@.len() == answers@.len(),
            resolved@ == bound_imports(imports@, answers@, module_registry@).take(i as int),
            missing@ == unexported(imports@, answers@, module_registry@, i as nat),
            deferred@ == unloaded(imports@, answers@, module_registry@, i as nat),
            denied@ == refused(imports@, answers@, i as nat),
        decreases imports@.len() - i,
    {
        let import = imports[i];
        let answer = answers[i];
        let bound = bind_import(import, answer, module_registry);
        match answer.entry {
            Some(entry) => if !answer.granted {
                denied.push(
                    DeniedImportEntry::new(
                        import.module,
                        import.function,
                        import.arity,
                        entry.capability,
                    ),
                );
            },
            None => {},
        }
        match bound.target {
            ResolvedImportTarget::Deferred { .. } => {
                deferred.push(
                    UnresolvedImportEntry::new(import.module, import.function, import.arity),
                );
            },
            ResolvedImportTarget::Unresolved { .. } => {
                missing.push(
                    UnresolvedImportEntry::new(import.module, import.function, import.arity),
                );
            },
            _ => {},
        }
        resolved.push(Some(bound));
        proof {
            let all = bound_imports(imports@, answers@, module_registry@);
            assert(all.take(i + 1) =~= all.take(i as int).push(all[i as int]));
        }
        i += 1;
    }
    proof {
        let all = bound_imports(imports@, answers@, module_registry@);
        assert(all.take(imports@.len() as int) =~= all);
    }
    (resolved, UnresolvedImportReport::with_denied(missing, deferred, denied))
}

/// Whether the answers are what the host's registry and policy said.
pub open spec fn host_said<B: BifRegistry, P: CapabilityPolicy>(
    bifs: &B,
    policy: &P,
    imports: Seq<ImportEntry>,
    answers: Seq<HostAnswer>,
) -> bool {
    &&& answers.len() == imports.len()
    &&& forall|i: int|
        0 <= i < imports.len() ==> call_ensures(
            B::lookup,
            (bifs, imports[i].module, imports[i].function, imports[i].arity),
            (#[trigger] answers[i]).entry,
        ) && (answers[i].entry matches Some(entry) ==> call_ensures(
            P::is_granted,
            (policy, entry.capability),
            answers[i].granted,
        ))
}

fn ask_host<B: BifRegistry, P: CapabilityPolicy>(
    imports: &Vec<ImportEntry>,
    bif_registry: &B,
    capability_policy: &P,
) -> (r: Vec<HostAnswer>)
    ensures
        host_said(bif_registry, capability_policy, imports@, r@),
{
    let mut answers: Vec<HostAnswer> = Vec::new();
    let mut i: usize = 0;
    while i < imports.len()
        invariant
            i <= imports@.len(),
            host_said(bif_registry, capability_policy, imports@.take(i as int), answers@),
        decreases imports@.len() - i,
    {
        let import = imports[i];
        let entry = bif_registry.lookup(import.module, import.function, import.arity);
        let granted = match entry {
            Some(native) => capability_policy.is_granted(native.capability),
            None => false,
        };
        answers.push(HostAnswer { entry, granted });
        i += 1;
    }
    assert(imports@.take(imports@.len() as int) =~= imports@);
    answers
}

/// Whether imports were bound by what some answers of the host say.
pub open spec fn resolution<B: BifRegistry, P: CapabilityPolicy>(
    bifs: &B,
    policy: &P,
    modules: Map<u32, ModuleVersions>,
    imports: Seq<ImportEntry>,
    resolved: Seq<Option<ResolvedImport>>,
    report: UnresolvedImportReport,
) -> bool {
    exists|answers: Seq<HostAnswer>| #[trigger]
        host_said(bifs, policy, imports, answers) && resolved == bound_imports(
            imports,
            answers,
            modules,
        ) && reports(report, imports, answers, modules)
}

/// Binds the imports of a module. Each import has an entry in the result, at its
/// own position.
pub fn resolve_imports<B: BifRegistry, P: CapabilityPolicy>(
    parsed: &ParsedModule,
    module_registry: &ModuleRegistry,
    bif_registry: &B,
    capability_policy: &P,
) -> (r: (Vec<Option<ResolvedImport>>, UnresolvedImportReport))
    ensures
        resolution(
            bif_registry,
            capability_policy,
            module_registry@,
            parsed.imports@,
            r.0@,
            r.1,
        ),
        r.1.wf(),
{
    let answers = ask_host(&parsed.imports, bif_registry, capability_policy);
    resolve_with_answers(&parsed.imports, &answers, module_registry)
}

/// The entries that are there, in order.
pub open spec fn present(resolved: Seq<Option<ResolvedImport>>) -> Seq<ResolvedImport>
    decreases resolved.len(),
{
    if resolved.len() == 0 {
        Seq::empty()
    } else {
        match resolved.last() {
            Some(import) => present(resolved.drop_last()).push(import),
            None => present(resolved.drop_last()),
        }
    }
}

fn keep_present(resolved: &Vec<Option<ResolvedImport>>) -> (r: Vec<ResolvedImport>)
    ensures
        r@ == present(resolved@),
{
    let mut kept: Vec<ResolvedImport> = Vec::new();
    let mut i: usize = 0;
    while i < resolved.len()
        invariant
            i <= resolved@.len(),
            kept@ == present(resolved@.take(i as int)),
        decreases resolved@.len() - i,
    {
        proof {
            let longer = resolved@.take(i + 1);
            assert(longer.drop_last() =~= resolved@.take(i as int));
        }
        match resolved[i] {
            Some(import) => {
                kept.push(import);
            },
            None => {},
        }
        i += 1;
    }
    assert(resolved@.take(resolved@.len() as int) =~= resolved@);
    kept
}

// ---------------------------------------------------------------------------
// Modules
// ---------------------------------------------------------------------------

/// The labels of exported functions, among the first `n` entries; a later entry
/// replaces an earlier one of the same function.
pub open spec fn export_labels(exports: Seq<ExportEntry>, n: nat) -> Map<(Atom, u8), u32>
    decreases n,
{
    if n == 0 {
        Map::empty()
    } else {
        export_labels(exports, (n - 1) as nat).insert(
            (exports[n - 1].function, exports[n - 1].arity),
            exports[n - 1].label,
        )
    }
}

/// Where the labels among the first `n` instructions are; a later label replaces
/// an earlier one of the same number.
pub open spec fn label_positions(code: Seq<Instruction>, n: nat) -> Map<u32, usize>
    decreases n,
{
    if n == 0 {
        Map::empty()
    } else {
        let before = label_positions(code, (n - 1) as nat);
        match code[n - 1] {
            Instruction::Label { label } => before.insert(label, (n - 1) as usize),
            _ => before,
        }
    }
}

/// The number that an operand holds, if it fits.
pub open spec fn operand_number(operand: Operand) -> Option<usize> {
    match operand {
        Operand::Unsigned(value) => if value <= usize::MAX {
            Some(value as usize)
        } else {
            None
        },
        Operand::Integer(value) => if 0 <= value <= usize::MAX {
            Some(value as usize)
        } else {
            None
        },
        _ => None,
    }
}

/// The function that an instruction starts, if it starts one whose name and
/// arity are given.
pub open spec fn function_start(instruction: Instruction) -> Option<(Atom, u8)> {
    match instruction {
        Instruction::FuncInfo { function: Operand::Atom(Some(name)), arity, .. } => {
            match operand_number(arity) {
                Some(value) => if value <= u8::MAX {
                    Some((name, value as u8))
                } else {
                    None
                },
                None => None,
            }
        },
        _ => None,
    }
}

/// Where the functions among the first `n` instructions start.
pub open spec fn function_starts(code: Seq<Instruction>, n: nat) -> Seq<(usize, Atom, u8)>
    decreases n,
{
    if n == 0 {
        Seq::empty()
    } else {
        let before = function_starts(code, (n - 1) as nat);
        match function_start(code[n - 1]) {
            Some((function, arity)) => before.push(((n - 1) as usize, function, arity)),
            None => before,
        }
    }
}

/// The line index that an instruction sets, if it sets one.
pub open spec fn line_start(instruction: Instruction) -> Option<usize> {
    match instruction {
        Instruction::Line { index } => operand_number(index),
        _ => None,
    }
}

/// Where the lines among the first `n` instructions start.
pub open spec fn line_starts(code: Seq<Instruction>, n: nat) -> Seq<(usize, usize)>
    decreases n,
{
    if n == 0 {
        Seq::empty()
    } else {
        let before = line_starts(code, (n - 1) as nat);
        match line_start(code[n - 1]) {
            Some(index) => before.push(((n - 1) as usize, index)),
            None => before,
        }
    }
}

fn operand_usize(operand: &Operand) -> (r: Option<usize>)
    ensures
        r == operand_number(*operand),
{
    match operand {
        Operand::Unsigned(value) => if *value <= usize::MAX as u64 {
            Some(*value as usize)
        } else {
            None
        },
        Operand::Integer(value) => if 0 <= *value && *value as u64 <= usize::MAX as u64 {
            Some(*value as usize)
        } else {
            None
        },
        _ => None,
    }
}

fn operand_u8(operand: &Operand) -> (r: Option<u8>)
    ensures
        r == match operand_number(*operand) {
            Some(value) => if value <= u8::MAX {
                Some(value as u8)
            } else {
                None
            },
            None => None::<u8>,
        },
{
    match operand_usize(operand) {
        Some(value) => if value <= 255 {
            Some(value as u8)
        } else {
            None
        },
        None => None,
    }
}

fn operand_atom(operand: &Operand) -> (r: Option<Atom>)
    ensures
        r == match *operand {
            Operand::Atom(Some(atom)) => Some(atom),
            _ => None::<Atom>,
        },
{
    match operand {
        Operand::Atom(Some(atom)) => Some(*atom),
        _ => None,
    }
}

fn started_function(instruction: &Instruction) -> (r: Option<(Atom, u8)>)
    ensures
        r == function_start(*instruction),
{
    match instruction {
        Instruction::FuncInfo { function, arity, .. } => {
            match (operand_atom(function), operand_u8(arity)) {
                (Some(name), Some(value)) => Some((name, value)),
                _ => None,
            }
        },
        _ => None,
    }
}

fn export_table(exports: &Vec<ExportEntry>) -> (r: ExportTable)
    ensures
        r@ == export_labels(exports@, exports@.len()),
{
    let mut table = ExportTable::new();
    let mut i: usize = 0;
    while i < exports.len()
        invariant
            i <= exports@.len(),
            table@ == export_labels(exports@, i as nat),
        decreases exports@.len() - i,
    {
        let entry = exports[i];
        table.insert((entry.function, entry.arity), entry.label);
        i += 1;
    }
    table
}

fn code_tables(code: &Vec<Instruction>) -> (r: (
    HashMap<u32, usize>,
    Vec<(usize, Atom, u8)>,
    Vec<(usize, usize)>,
))
    ensures
        r.0@ == label_positions(code@, code@.len()),
        r.1@ == function_starts(code@, code@.len()),
        r.2@ == line_starts(code@, code@.len()),
{
    broadcast use vstd::std_specs::hash::group_hash_axioms;

    let mut labels: HashMap<u32, usize> = HashMap::new();
    let mut functions: Vec<(usize, Atom, u8)> = Vec::new();
    let mut lines: Vec<(usize, usize)> = Vec::new();
    let mut i: usize = 0;
    assert(labels@ =~= Map::empty());
    while i < code.len()
        invariant
            i <= code@.len(),
            labels@ == label_positions(code@, i as nat),
            functions@ == function_starts(code@, i as nat),
            lines@ == line_starts(code@, i as nat),
        decreases code@.len() - i,
    {
        let instruction = &code[i];
        match instruction {
            Instruction::Label { label } => {
                labels.insert(*label, i);
            },
            Instruction::Line { index } => {
                match operand_usize(index) {
                    Some(line) => {
                        lines.push((i, line));
                    },
                    None => {},
                }
            },
            _ => {},
        }
        match started_function(instruction) {
            Some((function, arity)) => {
                functions.push((i, function, arity));
            },
            None => {},
        }
        i += 1;
    }
    (labels, functions, lines)
}

/// Makes a module, of no generation yet, of decoded tables and bound imports.
pub fn module_from_parsed(
    parsed: ParsedModule,
    resolved_imports: Vec<ResolvedImport>,
    origin: ModuleOrigin,
) -> (r: Module)
    ensures
        r.name == parsed.name,
        r.generation == 0,
        r.origin == origin,
        r.exports@ == export_labels(parsed.exports@, parsed.exports@.len()),
        r.code == parsed.instructions,
        r.label_index@ == label_positions(r.code@, r.code@.len()),
        r.function_table@ == function_starts(r.code@, r.code@.len()),
        r.line_table@ == line_starts(r.code@, r.code@.len()),
        r.literals == parsed.literals,
        r.resolved_imports == resolved_imports,
        r.lambdas == parsed.lambdas,
        r.string_table == parsed.string_table,
        r.line_info == parsed.line_info,
{
    let exports = export_table(&parsed.exports);
    let (label_index, function_table, line_table) = code_tables(&parsed.instructions);
    Module {
        name: parsed.name,
        generation: 0,
        origin,
        exports,
        label_index,
        code: parsed.instructions,
        function_table,
        line_table,
        literals: parsed.literals,
        resolved_imports,
        lambdas: parsed.lambdas,
        string_table: parsed.string_table,
        line_info: parsed.line_info,
    }
}

/// Whether a module is what decoding and binding make of a file, but for its
/// generation.
pub open spec fn built_from(
    module: Module,
    v: ParsedView,
    resolved: Seq<Option<ResolvedImport>>,
    origin: ModuleOrigin,
) -> bool {
    &&& module.name == v.name
    &&& module.origin == origin
    &&& module.exports@ == export_labels(v.exports, v.exports.len())
    &&& all_encode(module.code@, v.items)
    &&& module.label_index@ == label_positions(module.code@, module.code@.len())
    &&& module.function_table@ == function_starts(module.code@, module.code@.len())
    &&& module.line_table@ == line_starts(module.code@, module.code@.len())
    &&& literal_views(module.literals@) == v.literals
    &&& module.resolved_imports@ == present(resolved)
    &&& module.lambdas@ == v.lambdas
    &&& module.string_table@ == v.string_table
    &&& module.line_info@ == v.line_info
}

/// Whether a module and a report are what a host makes of a decoded file.
pub open spec fn prepared<B: BifRegistry, P: CapabilityPolicy>(
    bifs: &B,
    policy: &P,
    modules: Map<u32, ModuleVersions>,
    v: ParsedView,
    module: Module,
    report: UnresolvedImportReport,
    origin: ModuleOrigin,
) -> bool {
    exists|resolved: Seq<Option<ResolvedImport>>| #[trigger]
        resolution(bifs, policy, modules, v.imports, resolved, report) && built_from(
            module,
            v,
            resolved,
            origin,
        )
}

/// The instructions, atoms and imports of a decoded file.
pub open spec fn code_view(v: ParsedView) -> CodeView {
    CodeView { instructions: code_of(v.items), atoms: v.atoms, imports: v.imports }
}

/// What validating a decoded file answers.
pub open spec fn validated(v: ParsedView) -> Result<(), LoadFault> {
    validation(code_view(v), none_bound(v.imports))
}

/// A module that was decoded holds the instructions that it was decoded from.
pub proof fn law_decoded_code_is_validated(parsed: ParsedModule, v: ParsedView)
    requires
        parsed_from(parsed, v),
    ensures
        parsed@ == code_view(v),
        validated(v) == validation(parsed@, none_bound(parsed.imports@)),
{
    law_code_is_unambiguous(parsed.instructions@, v.items);
}

/// What preparing a module answers: the fault of decoding or of validating it, or a
/// module of no generation.
pub open spec fn prepare_outcome<B: BifRegistry, P: CapabilityPolicy>(
    bytes: Seq<u8>,
    names: Seq<Seq<char>>,
    modules: Map<u32, ModuleVersions>,
    bifs: &B,
    policy: &P,
    origin: ModuleOrigin,
    r: Result<(Module, UnresolvedImportReport), LoadError>,
) -> bool {
    match decoded_module(bytes, names).0 {
        Err(fault) => r matches Err(e) && e@ == fault,
        Ok(v) => match validated(v) {
            Err(fault) => r matches Err(e) && e@ == fault,
            Ok(_) => r matches Ok((module, report)) && module.generation == 0 && prepared(
                bifs,
                policy,
                modules,
                v,
                module,
                report,
                origin,
            ),
        },
    }
}

/// What loading a module answers, and what the registry holds after it: the
/// fault of decoding or of validating, with the registry as it was, or the module
/// as the current version under its name.
pub open spec fn load_outcome<B: BifRegistry, P: CapabilityPolicy>(
    bytes: Seq<u8>,
    names: Seq<Seq<char>>,
    modules: Map<u32, ModuleVersions>,
    bifs: &B,
    policy: &P,
    origin: ModuleOrigin,
    r: Result<(Arc<Module>, UnresolvedImportReport), LoadError>,
    modules_after: Map<u32, ModuleVersions>,
) -> bool {
    match decoded_module(bytes, names).0 {
        Err(fault) => r matches Err(e) && e@ == fault && modules_after == modules,
        Ok(v) => match validated(v) {
            Err(fault) => r matches Err(e) && e@ == fault && modules_after == modules,
            Ok(_) => r matches Ok((module, report)) && module.generation == next_generation(
                modules,
                v.name,
            ) && prepared(bifs, policy, modules, v, *module, report, origin) && modules_after
                == promoted(modules, module),
        },
    }
}

proof fn lemma_resolution_keeps_arities<B: BifRegistry, P: CapabilityPolicy>(
    bifs: &B,
    policy: &P,
    modules: Map<u32, ModuleVersions>,
    imports: Seq<ImportEntry>,
    resolved: Seq<Option<ResolvedImport>>,
    report: UnresolvedImportReport,
)
    requires
        resolution(bifs, policy, modules, imports, resolved, report),
    ensures
        keeps_arities(imports, resolved),
{
}

/// Decodes a module, binds its imports and validates its operands, without
/// registering it.
pub fn prepare_module_with_origin_and_policy<B: BifRegistry, P: CapabilityPolicy>(
    bytes: &[u8],
    atom_table: &mut AtomTable,
    module_registry: &ModuleRegistry,
    bif_registry: &B,
    capability_policy: &P,
    origin: ModuleOrigin,
) -> (r: Result<(Module, UnresolvedImportReport), LoadError>)
    requires
        old(atom_table).wf(),
        old(atom_table)@.len() + DEFAULT_DECODE_NODE_BUDGET <= ATOM_LIMIT,
        bytes@.len() + MAX_TABLE_ENTRIES <= usize::MAX,
    ensures
        final(atom_table).wf(),
        final(atom_table)@ == decoded_module(bytes@, old(atom_table)@).1,
        prepare_outcome(
            bytes@,
            old(atom_table)@,
            module_registry@,
            bif_registry,
            capability_policy,
            origin,
            r,
        ),
{
    let parsed = load_beam_chunks(bytes, atom_table)?;
    let ghost v = decoded_module(bytes@, old(atom_table)@).0->Ok_0;
    let (resolved, report) = resolve_imports(
        &parsed,
        module_registry,
        bif_registry,
        capability_policy,
    );
    proof {
        law_decoded_code_is_validated(parsed, v);
        lemma_resolution_keeps_arities(
            bif_registry,
            capability_policy,
            module_registry@,
            v.imports,
            resolved@,
            report,
        );
        law_validation_does_not_depend_on_bindings(parsed@, resolved@);
    }
    validate_module(&parsed, &resolved)?;
    let kept = keep_present(&resolved);
    let module = module_from_parsed(parsed, kept, origin);
    assert(built_from(module, v, resolved@, origin));
    Ok((module, report))
}

/// Decodes and validates a preloaded module and binds its imports, without
/// registering it.
pub fn prepare_module_with_policy<B: BifRegistry, P: CapabilityPolicy>(
    bytes: &[u8],
    atom_table: &mut AtomTable,
    module_registry: &ModuleRegistry,
    bif_registry: &B,
    capability_policy: &P,
) -> (r: Result<(Module, UnresolvedImportReport), LoadError>)
    requires
        old(atom_table).wf(),
        old(atom_table)@.len() + DEFAULT_DECODE_NODE_BUDGET <= ATOM_LIMIT,
        bytes@.len() + MAX_TABLE_ENTRIES <= usize::MAX,
    ensures
        final(atom_table).wf(),
        final(atom_table)@ == decoded_module(bytes@, old(atom_table)@).1,
        prepare_outcome(
            bytes@,
            old(atom_table)@,
            module_registry@,
            bif_registry,
            capability_policy,
            ModuleOrigin::Preloaded,
            r,
        ),
{
    prepare_module_with_origin_and_policy(
        bytes,
        atom_table,
        module_registry,
        bif_registry,
        capability_policy,
        ModuleOrigin::Preloaded,
    )
}

/// Decodes and validates a module and binds its imports with every capability
/// granted, without registering it.
pub fn prepare_module_with_origin<B: BifRegistry>(
    bytes: &[u8],
    atom_table: &mut AtomTable,
    module_registry: &ModuleRegistry,
    bif_registry: &B,
    origin: ModuleOrigin,
) -> (r: Result<(Module, UnresolvedImportReport), LoadError>)
    requires
        old(atom_table).wf(),
        old(atom_table)@.len() + DEFAULT_DECODE_NODE_BUDGET <= ATOM_LIMIT,
        bytes@.len() + MAX_TABLE_ENTRIES <= usize::MAX,
    ensures
        final(atom_table).wf(),
        final(atom_table)@ == decoded_module(bytes@, old(atom_table)@).1,
        prepare_outcome(
            bytes@,
            old(atom_table)@,
            module_registry@,
            bif_registry,
            &AllCapabilitiesPolicy,
            origin,
            r,
        ),
{
    prepare_module_with_origin_and_policy(
        bytes,
        atom_table,
        module_registry,
        bif_registry,
        &AllCapabilitiesPolicy,
        origin,
    )
}

/// Decodes and validates a preloaded module and binds its imports with every
/// capability granted, without registering it.
pub fn prepare_module<B: BifRegistry>(
    bytes: &[u8],
    atom_table: &mut AtomTable,
    module_registry: &ModuleRegistry,
    bif_registry: &B,
) -> (r: Result<(Module, UnresolvedImportReport), LoadError>)
    requires
        old(atom_table).wf(),
        old(atom_table)@.len() + DEFAULT_DECODE_NODE_BUDGET <= ATOM_LIMIT,
        bytes@.len() + MAX_TABLE_ENTRIES <= usize::MAX,
    ensures
        final(atom_table).wf(),
        final(atom_table)@ == decoded_module(bytes@, old(atom_table)@).1,
        prepare_outcome(
            bytes@,
            old(atom_table)@,
            module_registry@,
            bif_registry,
            &AllCapabilitiesPolicy,
            ModuleOrigin::Preloaded,
            r,
        ),
{
    prepare_module_with_policy(
        bytes,
        atom_table,
        module_registry,
        bif_registry,
        &AllCapabilitiesPolicy,
    )
}

/// Decodes and validates a module, binds its imports and registers it.
pub fn load_module_with_origin_and_policy<B: BifRegistry, P: CapabilityPolicy>(
    bytes: &[u8],
    atom_table: &mut AtomTable,
    module_registry: &mut ModuleRegistry,
    bif_registry: &B,
    capability_policy: &P,
    origin: ModuleOrigin,
) -> (r: Result<(Arc<Module>, UnresolvedImportReport), LoadError>)
    requires
        old(atom_table).wf(),
        old(atom_table)@.len() + DEFAULT_DECODE_NODE_BUDGET <= ATOM_LIMIT,
        bytes@.len() + MAX_TABLE_ENTRIES <= usize::MAX,
    ensures
        final(atom_table).wf(),
        final(atom_table)@ == decoded_module(bytes@, old(atom_table)@).1,
        load_outcome(
            bytes@,
            old(atom_table)@,
            old(module_registry)@,
            bif_registry,
            capability_policy,
            origin,
            r,
            final(module_registry)@,
        ),
{
    let (module, report) = prepare_module_with_origin_and_policy(
        bytes,
        atom_table,
        module_registry,
        bif_registry,
        capability_policy,
        origin,
    )?;
    let ghost v = decoded_module(bytes@, old(atom_table)@).0->Ok_0;
    proof {
        assert(prepared(bif_registry, capability_policy, old(module_registry)@, v, module, report, origin));
    }
    let registered = module_registry.insert(module);
    proof {
        let resolved = choose|resolved: Seq<Option<ResolvedImport>>| #[trigger]
            resolution(bif_registry, capability_policy, old(module_registry)@, v.imports, resolved, report)
                && built_from(module, v, resolved, origin);
        assert(built_from(*registered, v, resolved, origin));
    }
    Ok((registered, report))
}

/// Decodes and validates a preloaded module, binds its imports and registers it.
pub fn load_module_with_policy<B: BifRegistry, P: CapabilityPolicy>(
    bytes: &[u8],
    atom_table: &mut AtomTable,
    module_registry: &mut ModuleRegistry,
    bif_registry: &B,
    capability_policy: &P,
) -> (r: Result<(Arc<Module>, UnresolvedImportReport), LoadError>)
    requires
        old(atom_table).wf(),
        old(atom_table)@.len() + DEFAULT_DECODE_NODE_BUDGET <= ATOM_LIMIT,
        bytes@.len() + MAX_TABLE_ENTRIES <= usize::MAX,
    ensures
        final(atom_table).wf(),
        final(atom_table)@ == decoded_module(bytes@, old(atom_table)@).1,
        load_outcome(
            bytes@,
            old(atom_table)@,
            old(module_registry)@,
            bif_registry,
            capability_policy,
            ModuleOrigin::Preloaded,
            r,
            final(module_registry)@,
        ),
{
    let (module, report) = prepare_module_with_policy(
        bytes,
        atom_table,
        module_registry,
        bif_registry,
        capability_policy,
    )?;
    let ghost v = decoded_module(bytes@, old(atom_table)@).0->Ok_0;
    proof {
        assert(prepared(bif_registry, capability_policy, old(module_registry)@, v, module, report, ModuleOrigin::Preloaded));
    }
    let registered = module_registry.insert(module);
    proof {
        let resolved = choose|resolved: Seq<Option<ResolvedImport>>| #[trigger]
            resolution(bif_registry, capability_policy, old(module_registry)@, v.imports, resolved, report)
                && built_from(module, v, resolved, ModuleOrigin::Preloaded);
        assert(built_from(*registered, v, resolved, ModuleOrigin::Preloaded));
    }
    Ok((registered, report))
}

/// Decodes and validates a module, binds its imports with every capability
/// granted, and registers it.
pub fn load_module_with_origin<B: BifRegistry>(
    bytes: &[u8],
    atom_table: &mut AtomTable,
    module_registry: &mut ModuleRegistry,
    bif_registry: &B,
    origin: ModuleOrigin,
) -> (r: Result<(Arc<Module>, UnresolvedImportReport), LoadError>)
    requires
        old(atom_table).wf(),
        old(atom_table)@.len() + DEFAULT_DECODE_NODE_BUDGET <= ATOM_LIMIT,
        bytes@.len() + MAX_TABLE_ENTRIES <= usize::MAX,
    ensures
        final(atom_table).wf(),
        final(atom_table)@ == decoded_module(bytes@, old(atom_table)@).1,
        load_outcome(
            bytes@,
            old(atom_table)@,
            old(module_registry)@,
            bif_registry,
            &AllCapabilitiesPolicy,
            origin,
            r,
            final(module_registry)@,
        ),
{
    let (module, report) = prepare_module_with_origin(
        bytes,
        atom_table,
        module_registry,
        bif_registry,
        origin,
    )?;
    let ghost v = decoded_module(bytes@, old(atom_table)@).0->Ok_0;
    proof {
        assert(prepared(bif_registry, &AllCapabilitiesPolicy, old(module_registry)@, v, module, report, origin));
    }
    let registered = module_registry.insert(module);
    proof {
        let resolved = choose|resolved: Seq<Option<ResolvedImport>>| #[trigger]
            resolution(bif_registry, &AllCapabilitiesPolicy, old(module_registry)@, v.imports, resolved, report)
                && built_from(module, v, resolved, origin);
        assert(built_from(*registered, v, resolved, origin));
    }
    Ok((registered, report))
}

/// Decodes and validates a preloaded module, binds its imports with every
/// capability granted, and registers it.
pub fn load_module<B: BifRegistry>(
    bytes: &[u8],
    atom_table: &mut AtomTable,
    module_registry: &mut ModuleRegistry,
    bif_registry: &B,
) -> (r: Result<(Arc<Module>, UnresolvedImportReport), LoadError>)
    requires
        old(atom_table).wf(),
        old(atom_table)@.len() + DEFAULT_DECODE_NODE_BUDGET <= ATOM_LIMIT,
        bytes@.len() + MAX_TABLE_ENTRIES <= usize::MAX,
    ensures
        final(atom_table).wf(),
        final(atom_table)@ == decoded_module(bytes@, old(atom_table)@).1,
        load_outcome(
            bytes@,
            old(atom_table)@,
            old(module_registry)@,
            bif_registry,
            &AllCapabilitiesPolicy,
            ModuleOrigin::Preloaded,
            r,
            final(module_registry)@,
        ),
{
    let (module, report) = prepare_module(
        bytes,
        atom_table,
        module_registry,
        bif_registry,
    )?;
    let ghost v = decoded_module(bytes@, old(atom_table)@).0->Ok_0;
    proof {
        assert(prepared(bif_registry, &AllCapabilitiesPolicy, old(module_registry)@, v, module, report, ModuleOrigin::Preloaded));
    }
    let registered = module_registry.insert(module);
    proof {
        let resolved = choose|resolved: Seq<Option<ResolvedImport>>| #[trigger]
            resolution(bif_registry, &AllCapabilitiesPolicy, old(module_registry)@, v.imports, resolved, report)
                && built_from(module, v, resolved, ModuleOrigin::Preloaded);
        assert(built_from(*registered, v, resolved, ModuleOrigin::Preloaded));
    }
    Ok((registered, report))
}

/// A host that grants every capability denies no import.
pub proof fn law_all_capabilities_deny_nothing<B: BifRegistry>(
    bifs: &B,
    imports: Seq<ImportEntry>,
    answers: Seq<HostAnswer>,
    n: nat,
)
    requires
        host_said(bifs, &AllCapabilitiesPolicy, imports, answers),
        n <= imports.len(),
    ensures
        refused(imports, answers, n) == Seq::<DeniedImportEntry>::empty(),
    decreases n,
{
    if n > 0 {
        law_all_capabilities_deny_nothing(bifs, imports, answers, (n - 1) as nat);
        let answer = answers[n - 1];
        assert(answer.entry matches Some(entry) ==> call_ensures(
            AllCapabilitiesPolicy::is_granted,
            (&AllCapabilitiesPolicy, entry.capability),
            answer.granted,
        ));
    }
}

/// An import that the host denies is bound to the function that answers for
/// denied ones, and reported with the capability that it needs.
pub proof fn law_denied_import_is_stubbed_and_reported(
    imports: Seq<ImportEntry>,
    answers: Seq<HostAnswer>,
    modules: Map<u32, ModuleVersions>,
    i: int,
    entry: NativeEntry,
    n: nat,
)
    requires
        0 <= i < n <= imports.len(),
        answers.len() == imports.len(),
        answers[i] == (HostAnswer { entry: Some(entry), granted: false }),
    ensures
        import_target(imports[i], answers[i], modules) == ResolvedImportTarget::Native(
            NativeEntry {
                function: NativeFunction(DENIAL_STUB),
                dirty_kind: None,
                capability: entry.capability,
            },
        ),
        refused(imports, answers, n).contains(
            DeniedImportEntry {
                module: imports[i].module,
                function: imports[i].function,
                arity: imports[i].arity,
                capability: entry.capability,
            },
        ),
    decreases n,
{
    let denied = DeniedImportEntry {
        module: imports[i].module,
        function: imports[i].function,
        arity: imports[i].arity,
        capability: entry.capability,
    };
    let before = refused(imports, answers, (n - 1) as nat);
    let all = refused(imports, answers, n);
    if i == n - 1 {
        assert(all == before.push(denied));
        assert(all[before.len() as int] == denied);
    } else {
        law_denied_import_is_stubbed_and_reported(
            imports,
            answers,
            modules,
            i,
            entry,
            (n - 1) as nat,
        );
        let k = choose|k: int| 0 <= k < before.len() && before[k] == denied;
        assert(all[k] == denied);
    }
}

/// Every label of a module's code is found at an instruction that carries it.
pub proof fn law_labels_are_where_they_say(code: Seq<Instruction>, n: nat, label: u32)
    requires
        n <= code.len() <= usize::MAX,
        label_positions(code, n).contains_key(label),
    ensures
        label_positions(code, n)[label] < n,
        code[label_positions(code, n)[label] as int] == (Instruction::Label { label }),
    decreases n,
{
    if n > 0 {
        match code[n - 1] {
            Instruction::Label { label: l } => {
                if l != label {
                    law_labels_are_where_they_say(code, (n - 1) as nat, label);
                }
            },
            _ => {
                law_labels_are_where_they_say(code, (n - 1) as nat, label);
            },
        }
    }
}

/// Every literal that an instruction of a decoded module names is one that the module
/// has.
pub proof fn law_decoded_literals_are_there(
    b: Seq<u8>,
    names: Seq<Seq<char>>,
    parsed: ParsedModule,
    i: int,
)
    requires
        b.len() + MAX_TABLE_ENTRIES <= usize::MAX,
        decoded_module(b, names).0 matches Ok(v) && parsed_from(parsed, v),
        0 <= i < parsed.instructions@.len(),
    ensures
        all_name_literals(operands_of(parsed.instructions@[i].view()), parsed.literals@.len()),
{
    let chunks = container(b)->Some_0;
    let v = decoded_module(b, names).0->Ok_0;
    let (atoms, s) = atom_chunk(atom_data(chunks)->Some_0, names, default_budget());
    let (literals, later, budget) = module_literals(chunks, s.names, s.budget);
    if let Some(data) = chunk_data(chunks, tag_literals()) {
        lemma_few_literals(data, s.names, s.budget);
    }
    lemma_chunks_fit(b.subrange(12, be_u32(b, 4) + 8), Seq::empty(), b.len());
    lemma_data_fits(chunks, tag_code(), b.len());
    let code = chunk_data(chunks, tag_code())->Some_0;
    let known = literals->Ok_0.len();
    law_decoded_operands_name_literals(
        code.subrange(20, code.len() as int),
        atoms->Ok_0,
        known,
        i,
    );
    assert(literal_views(parsed.literals@).len() == parsed.literals@.len());
    lemma_instruction_names_literals(
        parsed.instructions@[i],
        v.items[i],
        parsed.literals@.len(),
    );
}

} // verus!
