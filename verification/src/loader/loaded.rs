//! Laws of loading: which chunk of a file each table comes from, what identifies a lambda, what
//! imports are bound to, and where functions, lines and exports are found.

use vstd::prelude::*;
use vstd::utf8::encode_utf8;
use crate::atom::Atom;
use crate::module::{ModuleVersions, ResolvedImportTarget};
use super::decode::budget::DecodeBudget;
use super::decode::chunks::{
    atom_chunk, export_chunk, import_chunk, lambda_chunk, line_chunk, ExportEntry, ImportEntry,
    LambdaEntry,
};
use super::decode::code::code_chunk;
use super::decode::compact::Operand;
use super::decode::instruction::Instruction;
use super::load::{
    all_identified, atom_data, be64, bound_import, chunk_data, decoded_module, export_labels,
    function_starts, hash_bytes, import_target, lambda_bytes, lambda_id, line_starts, refused,
    tag_atom, tag_atu8, tag_code, tag_exports, tag_imports, tag_lambdas, tag_lines, tag_literals,
    tag_strings, unexported, unloaded, HostAnswer,
};
use super::parser::{be32, container, ChunkView};
use super::report::{DeniedImportEntry, UnresolvedImportEntry};

verus! {

/// The identifiers of chunks, letter by letter.
pub proof fn law_chunks_are_called_by_their_names()
    ensures
        tag_atu8() == seq!['A' as u8, 't' as u8, 'U' as u8, '8' as u8],
        tag_atom() == seq!['A' as u8, 't' as u8, 'o' as u8, 'm' as u8],
        tag_literals() == seq!['L' as u8, 'i' as u8, 't' as u8, 'T' as u8],
        tag_code() == seq!['C' as u8, 'o' as u8, 'd' as u8, 'e' as u8],
        tag_imports() == seq!['I' as u8, 'm' as u8, 'p' as u8, 'T' as u8],
        tag_exports() == seq!['E' as u8, 'x' as u8, 'p' as u8, 'T' as u8],
        tag_lambdas() == seq!['F' as u8, 'u' as u8, 'n' as u8, 'T' as u8],
        tag_strings() == seq!['S' as u8, 't' as u8, 'r' as u8, 'T' as u8],
        tag_lines() == seq!['L' as u8, 'i' as u8, 'n' as u8, 'e' as u8],
{
}

/// The data of a chunk is that of the first with its identifier.
pub proof fn law_first_chunk_counts(chunks: Seq<ChunkView>, tag: Seq<u8>)
    ensures
        match chunk_data(chunks, tag) {
            Some(data) => exists|i: int|
                0 <= i < chunks.len() && (#[trigger] chunks[i]).tag == tag && chunks[i].data == data
                    && forall|j: int| 0 <= j < i ==> (#[trigger] chunks[j]).tag != tag,
            None => forall|i: int| 0 <= i < chunks.len() ==> (#[trigger] chunks[i]).tag != tag,
        },
    decreases chunks.len(),
{
    if chunks.len() > 0 && chunks[0].tag != tag {
        let rest = chunks.skip(1);
        law_first_chunk_counts(rest, tag);
        match chunk_data(rest, tag) {
            Some(data) => {
                let i = choose|i: int|
                    0 <= i < rest.len() && (#[trigger] rest[i]).tag == tag && rest[i].data == data
                        && forall|j: int| 0 <= j < i ==> (#[trigger] rest[j]).tag != tag;
                assert(chunks[i + 1] == rest[i]);
                assert forall|j: int| 0 <= j < i + 1 implies (#[trigger] chunks[j]).tag != tag by {
                    if j > 0 {
                        assert(chunks[j] == rest[j - 1]);
                    }
                }
            },
            None => {
                assert forall|j: int| 0 <= j < chunks.len() implies (#[trigger] chunks[j]).tag
                    != tag by {
                    if j > 0 {
                        assert(chunks[j] == rest[j - 1]);
                    }
                }
            },
        }
    } else if chunks.len() > 0 {
        assert(chunks[0].tag == tag);
    }
}

/// Whether a lambda is another but for its identifier, which is that of its names, its arity
/// and how many free variables it has.
pub open spec fn is_identified(
    names: Seq<Seq<char>>,
    module: Atom,
    lambda: LambdaEntry,
    found: LambdaEntry,
) -> bool {
    &&& found == (LambdaEntry { unique_id: found.unique_id, ..lambda })
    &&& lambda_id(names, module, lambda.function, lambda.arity, lambda.num_free) matches Ok(id)
        && id == found.unique_id
}

proof fn lemma_all_identified(
    names: Seq<Seq<char>>,
    module: Atom,
    lambdas: Seq<LambdaEntry>,
    found: Seq<LambdaEntry>,
)
    ensures
        all_identified(names, module, lambdas, found) matches Ok(all) ==> all.len() == found.len()
            + lambdas.len() && all.take(found.len() as int) == found && forall|i: int|
            0 <= i < lambdas.len() ==> is_identified(
                names,
                module,
                lambdas[i],
                #[trigger] all[found.len() + i],
            ),
    decreases lambdas.len(),
{
    if lambdas.len() == 0 {
        assert(found.take(found.len() as int) =~= found);
    } else if let Ok(first) = super::load::identified(names, module, lambdas[0]) {
        let more = found.push(first);
        lemma_all_identified(names, module, lambdas.skip(1), more);
        if let Ok(all) = all_identified(names, module, lambdas, found) {
            assert(all.take(more.len() as int) == more);
            assert(all.take(found.len() as int) =~= found) by {
                assert forall|j: int| 0 <= j < found.len() implies all[j] == found[j] by {
                    assert(all.take(more.len() as int)[j] == more[j]);
                }
            }
            assert forall|i: int| 0 <= i < lambdas.len() implies is_identified(
                names,
                module,
                lambdas[i],
                #[trigger] all[found.len() + i],
            ) by {
                if i == 0 {
                    assert(all.take(more.len() as int)[found.len() as int] == first);
                } else {
                    assert(lambdas.skip(1)[i - 1] == lambdas[i]);
                    assert(all[more.len() + (i - 1)] == all[found.len() + i]);
                }
            }
        }
    }
}

/// Each table of a decoded module comes from the chunk of its name, and is empty without it; its
/// code and its atoms have to be there, and the first atom is its name.
#[verifier::rlimit(40)]
pub proof fn law_tables_come_from_their_chunks(b: Seq<u8>, names: Seq<Seq<char>>)
    requires
        decoded_module(b, names).0 is Ok,
    ensures
        ({
            let v = decoded_module(b, names).0->Ok_0;
            let later = decoded_module(b, names).1;
            let chunks = container(b)->Some_0;
            &&& container(b) is Some
            &&& v.atoms.len() > 0
            &&& v.name == v.atoms[0]
            &&& chunk_data(chunks, seq!['A' as u8, 't' as u8, 'U' as u8, '8' as u8]) is Some
                || chunk_data(chunks, seq!['A' as u8, 't' as u8, 'o' as u8, 'm' as u8]) is Some
            &&& match chunk_data(chunks, seq!['S' as u8, 't' as u8, 'r' as u8, 'T' as u8]) {
                Some(data) => v.string_table == data,
                None => v.string_table.len() == 0,
            }
            &&& chunk_data(chunks, seq!['C' as u8, 'o' as u8, 'd' as u8, 'e' as u8]) matches Some(
                data,
            ) && exists|known: nat| (#[trigger] code_chunk(data, v.atoms, known)) matches Ok(
                (items, _),
            ) && items == v.items
            &&& match chunk_data(chunks, seq!['I' as u8, 'm' as u8, 'p' as u8, 'T' as u8]) {
                Some(data) => exists|budget: DecodeBudget| (#[trigger] import_chunk(
                    data,
                    v.atoms,
                    budget,
                )).0 matches Ok(found) && found == v.imports,
                None => v.imports.len() == 0,
            }
            &&& match chunk_data(chunks, seq!['E' as u8, 'x' as u8, 'p' as u8, 'T' as u8]) {
                Some(data) => exists|budget: DecodeBudget| (#[trigger] export_chunk(
                    data,
                    v.atoms,
                    budget,
                )).0 matches Ok(found) && found == v.exports,
                None => v.exports.len() == 0,
            }
            &&& match chunk_data(chunks, seq!['F' as u8, 'u' as u8, 'n' as u8, 'T' as u8]) {
                Some(data) => exists|budget: DecodeBudget| (#[trigger] lambda_chunk(
                    data,
                    v.atoms,
                    budget,
                )).0 matches Ok(found) && found.len() == v.lambdas.len() && forall|i: int|
                    0 <= i < found.len() ==> is_identified(
                        later,
                        v.name,
                        found[i],
                        #[trigger] v.lambdas[i],
                    ),
                None => v.lambdas.len() == 0,
            }
            &&& match chunk_data(chunks, seq!['L' as u8, 'i' as u8, 'n' as u8, 'e' as u8]) {
                Some(data) => exists|budget: DecodeBudget| (#[trigger] line_chunk(data, budget)).0
                    matches Ok(found) && found == v.line_info,
                None => v.line_info.len() == 0,
            }
        }),
{
    law_chunks_are_called_by_their_names();
    let v = decoded_module(b, names).0->Ok_0;
    let later = decoded_module(b, names).1;
    let chunks = container(b)->Some_0;
    let (_, s) = atom_chunk(
        atom_data(chunks)->Some_0,
        names,
        super::decode::budget::default_budget(),
    );
    let (literals, _, budget) = super::load::module_literals(chunks, s.names, s.budget);
    let known = literals->Ok_0.len();
    assert(code_chunk(chunk_data(chunks, tag_code())->Some_0, v.atoms, known) is Ok);
    let (imports, budget1) = super::load::module_imports(chunks, v.atoms, budget);
    let (exports, budget2) = super::load::module_exports(chunks, v.atoms, budget1);
    let (lambdas, budget3) = super::load::module_lambdas(chunks, v.atoms, later, budget2);
    let (lines, _) = super::load::module_lines(chunks, budget3);
    if let Some(data) = chunk_data(chunks, tag_imports()) {
        assert(import_chunk(data, v.atoms, budget).0 is Ok);
    }
    if let Some(data) = chunk_data(chunks, tag_exports()) {
        assert(export_chunk(data, v.atoms, budget1).0 is Ok);
    }
    if let Some(data) = chunk_data(chunks, tag_lambdas()) {
        let found = lambda_chunk(data, v.atoms, budget2).0->Ok_0;
        lemma_all_identified(later, v.name, found, Seq::empty());
        assert(lambda_chunk(data, v.atoms, budget2).0 is Ok);
        assert forall|i: int| 0 <= i < found.len() implies is_identified(
            later,
            v.name,
            found[i],
            #[trigger] v.lambdas[i],
        ) by {
            assert(v.lambdas[Seq::<LambdaEntry>::empty().len() + i] == v.lambdas[i]);
        }
    }
    if let Some(data) = chunk_data(chunks, tag_lines()) {
        assert(line_chunk(data, budget3).0 is Ok);
    }
}

/// The hash of bytes that starts at 14695981039346656037 and for each byte takes in its bits and
/// is multiplied by 1099511628211.
pub open spec fn fnv(bytes: Seq<u8>) -> u64
    decreases bytes.len(),
{
    if bytes.len() == 0 {
        0xcbf2_9ce4_8422_2325
    } else {
        (fnv(bytes.drop_last()) ^ (bytes.last() as u64)).wrapping_mul(0x100_0000_01b3)
    }
}

proof fn lemma_hash_is_fnv(bytes: Seq<u8>)
    ensures
        hash_bytes(0xcbf2_9ce4_8422_2325, bytes) == fnv(bytes),
    decreases bytes.len(),
{
    if bytes.len() > 0 {
        lemma_hash_is_fnv(bytes.drop_last());
    }
}

/// A number as four bytes, the highest first.
pub open spec fn four_bytes(n: nat) -> Seq<u8> {
    seq![
        (n / 0x100_0000 % 256) as u8,
        (n / 0x1_0000 % 256) as u8,
        (n / 0x100 % 256) as u8,
        (n % 256) as u8,
    ]
}

/// The identifier of a lambda is the hash of the length of its module's name in eight bytes and
/// the name, the same of its own name, its arity in one byte, and how many free variables it
/// has in four.
pub proof fn law_lambdas_are_identified_by_a_hash(
    names: Seq<Seq<char>>,
    module: Atom,
    function: Atom,
    arity: u8,
    num_free: u32,
)
    requires
        module.0 < names.len(),
        function.0 < names.len(),
        encode_utf8(names[module.0 as int]).len() < 0x1_0000_0000,
        encode_utf8(names[function.0 as int]).len() < 0x1_0000_0000,
    ensures
        ({
            let m = encode_utf8(names[module.0 as int]);
            let f = encode_utf8(names[function.0 as int]);
            let zeros = seq![0u8, 0u8, 0u8, 0u8];
            lambda_id(names, module, function, arity, num_free) matches Ok(id) && id == fnv(
                zeros + four_bytes(m.len()) + m + zeros + four_bytes(f.len()) + f + seq![arity]
                    + four_bytes(num_free as nat),
            )
        }),
{
    let m = encode_utf8(names[module.0 as int]);
    let f = encode_utf8(names[function.0 as int]);
    let zeros = seq![0u8, 0u8, 0u8, 0u8];
    let bytes = lambda_bytes(names[module.0 as int], names[function.0 as int], arity, num_free);
    lemma_hash_is_fnv(bytes);
    assert(be64(m.len()) =~= zeros + four_bytes(m.len()));
    assert(be64(f.len()) =~= zeros + four_bytes(f.len()));
    assert(be32(num_free as nat) =~= four_bytes(num_free as nat));
    assert(bytes =~= zeros + four_bytes(m.len()) + m + zeros + four_bytes(f.len()) + f
        + seq![arity] + four_bytes(num_free as nat));
}

/// An import that the host has a native function for is bound to it, when it is granted. Any
/// other is bound to the label that its loaded module exports it at; it waits for its module
/// when that is not loaded, and stays unresolved when the module does not export it. Whatever
/// it is bound to, it keeps its names and its arity.
pub proof fn law_imports_are_bound(
    import: ImportEntry,
    answer: HostAnswer,
    modules: Map<u32, ModuleVersions>,
)
    ensures
        ({
            let bound = bound_import(import, answer, modules);
            let key = (import.function, import.arity);
            let loaded = modules.contains_key(import.module.0);
            let exports = modules[import.module.0].current.exports@;
            &&& bound.module == import.module
            &&& bound.function == import.function
            &&& bound.arity == import.arity
            &&& match bound.target {
                ResolvedImportTarget::Native(entry) => answer.entry is Some && (answer.granted
                    ==> answer.entry == Some(entry)),
                ResolvedImportTarget::Code { module, label } => answer.entry is None && loaded
                    && exports.contains_key(key) && module == import.module && label
                    == exports[key],
                ResolvedImportTarget::Deferred { module, function, arity } => answer.entry is None
                    && !loaded && module == import.module && function == import.function && arity
                    == import.arity,
                ResolvedImportTarget::Unresolved { module, function, arity } => answer.entry is None
                    && loaded && !exports.contains_key(key) && module == import.module && function
                    == import.function && arity == import.arity,
            }
        }),
{
}

/// What is reported of the first imports is just those that were not bound: those that a loaded
/// module does not export, those whose modules are not loaded, and those that the host denied,
/// each in the order of the imports.
pub proof fn law_reported_imports_are_those_not_bound(
    imports: Seq<ImportEntry>,
    answers: Seq<HostAnswer>,
    modules: Map<u32, ModuleVersions>,
    n: nat,
)
    requires
        n < imports.len(),
        imports.len() == answers.len(),
    ensures
        ({
            let import = imports[n as int];
            let target = import_target(import, answers[n as int], modules);
            let entry = UnresolvedImportEntry {
                module: import.module,
                function: import.function,
                arity: import.arity,
            };
            &&& unexported(imports, answers, modules, n + 1) == if target is Unresolved {
                unexported(imports, answers, modules, n).push(entry)
            } else {
                unexported(imports, answers, modules, n)
            }
            &&& unloaded(imports, answers, modules, n + 1) == if target is Deferred {
                unloaded(imports, answers, modules, n).push(entry)
            } else {
                unloaded(imports, answers, modules, n)
            }
            &&& refused(imports, answers, n + 1).len() == refused(imports, answers, n).len() + (
            if answers[n as int].entry is Some && !answers[n as int].granted {
                1int
            } else {
                0int
            })
            &&& answers[n as int].entry is Some && !answers[n as int].granted ==> refused(
                imports,
                answers,
                n + 1,
            ).last() == (DeniedImportEntry {
                module: import.module,
                function: import.function,
                arity: import.arity,
                capability: answers[n as int].entry->Some_0.capability,
            })
            &&& unexported(imports, answers, modules, 0).len() == 0
            &&& unloaded(imports, answers, modules, 0).len() == 0
            &&& refused(imports, answers, 0).len() == 0
        }),
{
}

/// A function starts at the instruction that gives its name and arity: every start that is
/// listed is at such an instruction, the starts are in the order of the code, and every such
/// instruction is listed.
pub proof fn law_functions_start_where_they_say(code: Seq<Instruction>, n: nat)
    requires
        n <= code.len() <= usize::MAX,
    ensures
        ({
            let starts = function_starts(code, n);
            &&& forall|k: int|
                0 <= k < starts.len() ==> {
                    let (at, name, arity) = #[trigger] starts[k];
                    &&& at < n
                    &&& code[at as int] matches Instruction::FuncInfo {
                        function: Operand::Atom(Some(found)),
                        arity: Operand::Unsigned(value),
                        ..
                    } ==> found == name && value == arity
                }
            &&& forall|k: int| 0 <= k < starts.len() ==> (#[trigger] starts[k]).0 < n
            &&& forall|k: int, l: int|
                0 <= k < l < starts.len() ==> (#[trigger] starts[k]).0 < (#[trigger] starts[l]).0
            &&& forall|at: int|
                0 <= at < n ==> (#[trigger] code[at] matches Instruction::FuncInfo {
                    function: Operand::Atom(Some(name)),
                    arity: Operand::Unsigned(value),
                    ..
                } ==> (value <= 255 ==> starts.contains((at as usize, name, value as u8))))
            &&& forall|k: int|
                0 <= k < starts.len() ==> code[(#[trigger] starts[k]).0 as int] is FuncInfo
        }),
    decreases n,
{
    if n > 0 {
        let less = (n - 1) as nat;
        law_functions_start_where_they_say(code, less);
        let before = function_starts(code, less);
        let starts = function_starts(code, n);
        assert forall|at: int| 0 <= at < n implies (#[trigger] code[at] matches
            Instruction::FuncInfo {
            function: Operand::Atom(Some(name)),
            arity: Operand::Unsigned(value),
            ..
        } ==> (value <= 255 ==> starts.contains((at as usize, name, value as u8)))) by {
            if let Instruction::FuncInfo {
                function: Operand::Atom(Some(name)),
                arity: Operand::Unsigned(value),
                ..
            } = code[at] {
                if value <= 255 {
                    let entry = (at as usize, name, value as u8);
                    if at < less {
                        assert(before.contains(entry));
                        let k = choose|k: int| 0 <= k < before.len() && before[k] == entry;
                        assert(starts[k] == entry);
                    } else {
                        assert(starts[before.len() as int] == entry);
                    }
                }
            }
        }
    }
}

/// A line starts at the instruction that gives its index: the starts are in the order of the
/// code, and just those instructions are listed.
pub proof fn law_lines_start_where_they_say(code: Seq<Instruction>, n: nat)
    requires
        n <= code.len() <= usize::MAX,
    ensures
        ({
            let starts = line_starts(code, n);
            &&& forall|k: int| 0 <= k < starts.len() ==> (#[trigger] starts[k]).0 < n
            &&& forall|k: int|
                0 <= k < starts.len() ==> code[(#[trigger] starts[k]).0 as int] is Line
            &&& forall|k: int, l: int|
                0 <= k < l < starts.len() ==> (#[trigger] starts[k]).0 < (#[trigger] starts[l]).0
            &&& forall|at: int|
                0 <= at < n ==> (#[trigger] code[at] matches Instruction::Line {
                    index: Operand::Unsigned(value),
                } ==> (value <= usize::MAX ==> starts.contains((at as usize, value as usize))))
        }),
    decreases n,
{
    if n > 0 {
        let less = (n - 1) as nat;
        law_lines_start_where_they_say(code, less);
        let before = line_starts(code, less);
        let starts = line_starts(code, n);
        assert forall|at: int| 0 <= at < n implies (#[trigger] code[at] matches Instruction::Line {
            index: Operand::Unsigned(value),
        } ==> (value <= usize::MAX ==> starts.contains((at as usize, value as usize)))) by {
            if let Instruction::Line { index: Operand::Unsigned(value) } = code[at] {
                if value <= usize::MAX {
                    let entry = (at as usize, value as usize);
                    if at < less {
                        assert(before.contains(entry));
                        let k = choose|k: int| 0 <= k < before.len() && before[k] == entry;
                        assert(starts[k] == entry);
                    } else {
                        assert(starts[before.len() as int] == entry);
                    }
                }
            }
        }
    }
}

/// An exported function is at the label of the last entry that names it, and a function that
/// no entry names is not exported.
pub proof fn law_last_export_counts(exports: Seq<ExportEntry>, n: nat, key: (Atom, u8))
    requires
        n <= exports.len(),
    ensures
        export_labels(exports, n).contains_key(key) <==> exists|i: int|
            0 <= i < n && (#[trigger] exports[i]).function == key.0 && exports[i].arity == key.1,
        forall|i: int|
            0 <= i < n && (#[trigger] exports[i]).function == key.0 && exports[i].arity == key.1 && (
            forall|j: int|
                i < j < n ==> !((#[trigger] exports[j]).function == key.0 && exports[j].arity
                    == key.1)) ==> export_labels(exports, n)[key] == exports[i].label,
    decreases n,
{
    if n > 0 {
        law_last_export_counts(exports, (n - 1) as nat, key);
        let last = exports[n - 1];
        if last.function == key.0 && last.arity == key.1 {
            assert((last.function, last.arity) == key);
        } else {
            assert((last.function, last.arity) != key);
        }
    }
}

} // verus!
