//! Compiling modules ahead of time.

use vstd::prelude::*;
use vstd::slice::slice_subrange;
use vstd::string::*;
use vstd::utf8::encode_utf8;
use crate::atom::{common_names, Atom, AtomTable};
use crate::error::{LoadError, LoadFault};
use crate::loader::decode::budget::MAX_TABLE_ENTRIES;
use crate::loader::decode::chunks::{ExportEntry, LambdaEntry};
use crate::loader::decode::instruction::{instruction_views, Instruction, InstructionView};
use crate::loader::load::{
    decoded_module, hash_bytes, hash_run, load_beam_chunks, parse_outcome, parsed_from,
    ParsedModule, ParsedView,
    HASH_START,
};
use crate::text::{decimal_u64, nat_text};
use super::aot_format::{
    bundle_bytes, bundle_of, entry_views, exports_of, write_bundle, AotError, AotFault,
    BundleEntry, BundleView, DecodedBundle, EntryView,
};
use super::compiler::{
    compile_outcome, compiled, next_id, no_metadata, FunctionIr, FunctionView, JitCompiler,
    JitSettings,
};
use super::dispatch_call::{MetadataView, ModuleCompileMetadata};
use super::error::{fault_text, JitError, JitFault};
use super::exceptions::CompiledFrameInfo;
use super::type_info::{signature_of, FunctionSignature, GleamTypeReader, SignatureView};
use super::types::{stack_map_views, RootLocation, StackMapEntry};

verus! {

/// The hash by which a bundle is tied to the bytes of its module.
pub fn module_checksum(bytes: &[u8]) -> (r: u64)
    ensures
        r == hash_bytes(HASH_START, bytes@),
{
    hash_run(HASH_START, bytes)
}

/// The hash by which a bundle is tied to its target.
pub open spec fn target_hash_of(target: Seq<char>) -> u64 {
    hash_bytes(HASH_START, encode_utf8(target))
}

/// The hash by which a bundle is tied to its target.
pub fn target_hash(target: &str) -> (r: u64)
    ensures
        r == target_hash_of(target@),
{
    hash_run(HASH_START, target.as_bytes())
}

/// A compiled function.
#[derive(Debug)]
pub struct CompiledFunction {
    pub function: Atom,
    pub arity: u8,
    pub code: FunctionIr,
}

/// A [`CompiledFunction`] with a view of its code.
#[verifier::ext_equal]
pub struct CompiledView {
    pub function: Atom,
    pub arity: u8,
    pub code: FunctionView,
}

impl View for CompiledFunction {
    type V = CompiledView;

    open spec fn view(&self) -> CompiledView {
        CompiledView { function: self.function, arity: self.arity, code: self.code@ }
    }
}

/// The views of compiled functions.
pub open spec fn compiled_views(functions: Seq<CompiledFunction>) -> Seq<CompiledView> {
    Seq::new(functions.len(), |i: int| functions[i]@)
}

/// A function that was not compiled, and why.
#[derive(Debug)]
pub struct SkippedFunction {
    pub function: Atom,
    pub arity: u8,
    pub reason: String,
}

/// A [`SkippedFunction`] with its text as a sequence of characters.
#[verifier::ext_equal]
pub struct SkippedView {
    pub function: Atom,
    pub arity: u8,
    pub reason: Seq<char>,
}

impl View for SkippedFunction {
    type V = SkippedView;

    open spec fn view(&self) -> SkippedView {
        SkippedView { function: self.function, arity: self.arity, reason: self.reason@ }
    }
}

/// The views of skipped functions.
pub open spec fn skipped_views(functions: Seq<SkippedFunction>) -> Seq<SkippedView> {
    Seq::new(functions.len(), |i: int| functions[i]@)
}

/// Where the last label of the number is among the first `n` instructions.
pub open spec fn last_label(instructions: Seq<InstructionView>, label: u32, n: nat) -> Option<nat>
    decreases n,
{
    if n == 0 {
        None
    } else if instructions[n - 1] == (InstructionView::Label { label }) {
        Some((n - 1) as nat)
    } else {
        last_label(instructions, label, (n - 1) as nat)
    }
}

/// Where the next function starts from an instruction on, or the end.
pub open spec fn next_function(instructions: Seq<InstructionView>, from: nat) -> nat
    decreases instructions.len() - from,
{
    if from >= instructions.len() {
        instructions.len()
    } else if instructions[from as int] is FuncInfo {
        from
    } else {
        next_function(instructions, from + 1)
    }
}

/// The instructions of an exported function: those after its label, up to where
/// the next function starts.
pub open spec fn exported_range(instructions: Seq<InstructionView>, label: u32) -> Result<
    (nat, nat),
    Seq<char>,
> {
    match last_label(instructions, label, instructions.len()) {
        None => Err("export label "@ + nat_text(label as nat) + " is absent from module code"@),
        Some(entry) => Ok((entry + 1, next_function(instructions, entry + 2))),
    }
}

/// The instructions of an exported function, or why there are none.
pub open spec fn exported_code(instructions: Seq<InstructionView>, label: u32) -> Result<
    Seq<InstructionView>,
    Seq<char>,
> {
    match exported_range(instructions, label) {
        Err(e) => Err(e),
        Ok((start, end)) => Ok(instructions.subrange(start as int, end as int)),
    }
}

proof fn lemma_last_label(instructions: Seq<InstructionView>, label: u32, n: nat)
    ensures
        last_label(instructions, label, n) matches Some(entry) ==> entry < n,
    decreases n,
{
    if n > 0 {
        lemma_last_label(instructions, label, (n - 1) as nat);
    }
}

proof fn lemma_next_function(instructions: Seq<InstructionView>, from: nat)
    ensures
        next_function(instructions, from) <= instructions.len(),
        from <= instructions.len() ==> from <= next_function(instructions, from),
    decreases instructions.len() - from,
{
    if from < instructions.len() && !(instructions[from as int] is FuncInfo) {
        lemma_next_function(instructions, from + 1);
    }
}

fn find_label(instructions: &Vec<Instruction>, label: u32) -> (r: Option<usize>)
    ensures
        last_label(instruction_views(instructions@), label, instructions@.len()) == match r {
            Some(entry) => Some(entry as nat),
            None => None::<nat>,
        },
        r matches Some(entry) ==> entry < instructions@.len(),
{
    let ghost views = instruction_views(instructions@);
    let mut n: usize = instructions.len();
    while n > 0
        invariant
            n <= instructions@.len(),
            views == instruction_views(instructions@),
            last_label(views, label, n as nat) == last_label(views, label, views.len()),
        decreases n,
    {
        if let Instruction::Label { label: found } = &instructions[n - 1] {
            if *found == label {
                return Some(n - 1);
            }
        }
        n -= 1;
    }
    None
}

fn find_next_function(instructions: &Vec<Instruction>, from: usize) -> (r: usize)
    ensures
        r == next_function(instruction_views(instructions@), from as nat),
{
    let ghost views = instruction_views(instructions@);
    let mut i: usize = from;
    while i < instructions.len()
        invariant
            views == instruction_views(instructions@),
            next_function(views, i as nat) == next_function(views, from as nat),
        decreases instructions@.len() - i,
    {
        if let Instruction::FuncInfo { .. } = &instructions[i] {
            return i;
        }
        i += 1;
    }
    instructions.len()
}

/// The instructions of an exported function.
fn exported_instructions<'a>(instructions: &'a Vec<Instruction>, label: u32) -> (r: Result<
    &'a [Instruction],
    String,
>)
    ensures
        match r {
            Ok(code) => exported_code(instruction_views(instructions@), label) == Ok::<
                Seq<InstructionView>,
                Seq<char>,
            >(instruction_views(code@)) && code@.len() < usize::MAX,
            Err(e) => exported_code(instruction_views(instructions@), label) == Err::<
                Seq<InstructionView>,
                Seq<char>,
            >(e@),
        },
{
    let ghost views = instruction_views(instructions@);
    let entry: usize = match find_label(instructions, label) {
        Some(entry) => entry,
        None => {
            let mut text = "export label ".to_owned();
            text.append(decimal_u64(label as u64).as_str());
            text.append(" is absent from module code");
            return Err(text);
        },
    };
    let count: usize = instructions.len();
    let end: usize = if entry + 1 < count {
        find_next_function(instructions, entry + 2)
    } else {
        count
    };
    proof {
        lemma_next_function(views, (entry + 2) as nat);
    }
    let code = slice_subrange(instructions.as_slice(), entry + 1, end);
    assert(instruction_views(code@) =~= views.subrange(entry + 1, end as int));
    Ok(code)
}

/// What a module has compiled of it: its code, its exports and its lambdas, and
/// the names and types of its functions.
#[verifier::ext_equal]
pub struct SourceView {
    pub name: Atom,
    pub instructions: Seq<InstructionView>,
    pub exports: Seq<ExportEntry>,
    pub lambdas: Seq<LambdaEntry>,
    pub names: Seq<Seq<char>>,
    pub signatures: Option<Seq<SignatureView>>,
}

/// What is known of the types of a function.
pub open spec fn known_signature(source: SourceView, export: ExportEntry) -> Option<SignatureView> {
    if export.function.0 < source.names.len() {
        match source.signatures {
            Some(signatures) => signature_of(
                signatures,
                source.names[export.function.0 as int],
                export.arity,
            ),
            None => None,
        }
    } else {
        None
    }
}

/// What compiling exported functions made so far.
#[verifier::ext_equal]
pub struct AotState {
    /// The number that the next function has in its name.
    pub id: u64,
    pub compiled: Seq<CompiledView>,
    pub skipped: Seq<SkippedView>,
}

/// The number that the next function has after the compilation of one exported
/// function, whatever came of it.
pub open spec fn id_after(source: SourceView, id: u64, export: ExportEntry) -> u64 {
    match exported_code(source.instructions, export.label) {
        Err(_) => id,
        Ok(code) => next_id(code, id),
    }
}

/// The number that the next function has after the first `n` exported functions: those
/// after one whose fault ended the compilation are not compiled.
pub open spec fn id_after_exports(source: SourceView, id: u64, n: nat) -> u64
    decreases n,
{
    if n == 0 {
        id
    } else {
        let before = id_after_exports(source, id, (n - 1) as nat);
        if compile_exports(source, id, (n - 1) as nat) is Ok {
            id_after(source, before, source.exports[n - 1])
        } else {
            before
        }
    }
}

/// Compiles one exported function. One that cannot be lowered is skipped; any
/// other fault ends the compilation.
pub open spec fn compile_export(state: AotState, source: SourceView, export: ExportEntry) -> Result<
    AotState,
    AotFault,
> {
    match exported_code(source.instructions, export.label) {
        Err(reason) => Ok(
            AotState {
                skipped: state.skipped.push(
                    SkippedView { function: export.function, arity: export.arity, reason },
                ),
                ..state
            },
        ),
        Ok(code) => {
            let frame = CompiledFrameInfo {
                module: source.name,
                function: export.function,
                arity: export.arity,
            };
            let metadata = MetadataView { lambdas: source.lambdas, generation: 0 };
            let id = next_id(code, state.id);
            match compiled(code, frame, known_signature(source, export), metadata, state.id) {
                Ok(function) => Ok(
                    AotState {
                        id,
                        compiled: state.compiled.push(
                            CompiledView {
                                function: export.function,
                                arity: export.arity,
                                code: function,
                            },
                        ),
                        skipped: state.skipped,
                    },
                ),
                Err(e) => if is_skippable(e) {
                    Ok(
                        AotState {
                            id,
                            compiled: state.compiled,
                            skipped: state.skipped.push(
                                SkippedView {
                                    function: export.function,
                                    arity: export.arity,
                                    reason: fault_text(e),
                                },
                            ),
                        },
                    )
                } else {
                    Err(AotFault::Jit(e))
                },
            }
        },
    }
}

/// Whether a fault says that a function cannot be lowered.
pub open spec fn is_skippable(fault: JitFault) -> bool {
    fault is UnsupportedOpcode || fault is UnsupportedOperand || fault is UnknownLabel
}

fn is_skippable_jit_error(error: &JitError) -> (r: bool)
    ensures
        r == is_skippable(error@),
{
    match error {
        JitError::UnsupportedOpcode { .. } => true,
        JitError::UnsupportedOperand { .. } => true,
        JitError::UnknownLabel { .. } => true,
        _ => false,
    }
}

/// Compiles the first `n` exported functions.
pub open spec fn compile_exports(source: SourceView, id: u64, n: nat) -> Result<AotState, AotFault>
    decreases n,
{
    if n == 0 {
        Ok(AotState { id, compiled: Seq::empty(), skipped: Seq::empty() })
    } else {
        match compile_exports(source, id, (n - 1) as nat) {
            Err(e) => Err(e),
            Ok(state) => compile_export(state, source, source.exports[n - 1]),
        }
    }
}

proof fn lemma_id_stays(source: SourceView, id: u64, n: nat)
    requires
        n <= source.exports.len(),
        compile_exports(source, id, n) is Err,
    ensures
        id_after_exports(source, id, source.exports.len()) == id_after_exports(source, id, n),
    decreases source.exports.len() - n,
{
    if n < source.exports.len() {
        lemma_id_stays(source, id, n + 1);
    }
}

proof fn lemma_exports_fail(source: SourceView, id: u64, n: nat)
    requires
        n <= source.exports.len(),
    ensures
        compile_exports(source, id, n) matches Err(e) ==> compile_exports(
            source,
            id,
            source.exports.len(),
        ) == Err::<AotState, AotFault>(e),
    decreases source.exports.len() - n,
{
    if n < source.exports.len() {
        lemma_exports_fail(source, id, n + 1);
    }
}

/// What was compiled of a module.
#[derive(Debug)]
pub struct AotResult {
    module: Atom,
    module_checksum: u64,
    module_bytes: Vec<u8>,
    compiled: Vec<CompiledFunction>,
    skipped: Vec<SkippedFunction>,
}

/// An [`AotResult`] with sequences in place of its containers.
#[verifier::ext_equal]
pub struct AotView {
    pub module: Atom,
    pub module_checksum: u64,
    pub module_bytes: Seq<u8>,
    pub compiled: Seq<CompiledView>,
    pub skipped: Seq<SkippedView>,
}

impl View for AotResult {
    type V = AotView;

    closed spec fn view(&self) -> AotView {
        AotView {
            module: self.module,
            module_checksum: self.module_checksum,
            module_bytes: self.module_bytes@,
            compiled: compiled_views(self.compiled@),
            skipped: skipped_views(self.skipped@),
        }
    }
}

/// The signatures of a reader, if there is one.
pub open spec fn reader_view(reader: Option<&GleamTypeReader>) -> Option<Seq<SignatureView>> {
    match reader {
        Some(reader) => Some(reader.signatures()),
        None => None,
    }
}

/// What there is to compile of a decoded module.
pub open spec fn source_of(
    parsed: ParsedModule,
    names: Seq<Seq<char>>,
    signatures: Option<Seq<SignatureView>>,
) -> SourceView {
    SourceView {
        name: parsed.name,
        instructions: instruction_views(parsed.instructions@),
        exports: parsed.exports@,
        lambdas: parsed.lambdas@,
        names,
        signatures,
    }
}

/// What compiling a decoded module answers.
pub open spec fn aot_of(
    parsed: ParsedModule,
    names: Seq<Seq<char>>,
    signatures: Option<Seq<SignatureView>>,
    bytes: Seq<u8>,
    id: u64,
) -> Result<AotView, AotFault> {
    match compile_exports(source_of(parsed, names, signatures), id, parsed.exports@.len()) {
        Err(e) => Err(e),
        Ok(state) => Ok(
            AotView {
                module: parsed.name,
                module_checksum: hash_bytes(HASH_START, bytes),
                module_bytes: bytes,
                compiled: state.compiled,
                skipped: state.skipped,
            },
        ),
    }
}

/// What compiling answers, with views in place of containers.
pub open spec fn aot_outcome(r: Result<AotResult, AotError>) -> Result<AotView, AotFault> {
    match r {
        Ok(result) => Ok(result@),
        Err(e) => Err(e@),
    }
}

/// Lowers functions whose types are known.
#[derive(Debug)]
pub struct TypedIrTranslator {
    signature: FunctionSignature,
}

impl TypedIrTranslator {
    /// The signature that functions are lowered with.
    pub closed spec fn types(&self) -> SignatureView {
        self.signature@
    }

    /// A translator for functions of a signature.
    pub fn new(signature: FunctionSignature) -> (r: TypedIrTranslator)
        ensures
            r.types() == signature@,
    {
        TypedIrTranslator { signature }
    }

    /// Lowers a function.
    pub fn compile(
        self,
        compiler: &mut JitCompiler,
        instructions: &[Instruction],
        module: Atom,
        function: Atom,
        arity: u8,
    ) -> (r: Result<FunctionIr, JitError>)
        requires
            instructions@.len() < usize::MAX,
        ensures
            compile_outcome(r) == compiled(
                instruction_views(instructions@),
                CompiledFrameInfo { module, function, arity },
                Some(self.types()),
                no_metadata(),
                old(compiler).id(),
            ),
            final(compiler).id() == next_id(instruction_views(instructions@), old(compiler).id()),
    {
        compiler.compile_typed(instructions, module, function, arity, self.signature)
    }
}

/// Compiles the exported functions of modules.
#[derive(Debug)]
pub struct AotCompiler {
    compiler: JitCompiler,
}

fn lookup_signature(
    table: &AtomTable,
    reader: Option<&GleamTypeReader>,
    export: &ExportEntry,
    Ghost(source): Ghost<SourceView>,
) -> (r: Option<FunctionSignature>)
    requires
        source.names == table@,
        source.signatures == reader_view(reader),
    ensures
        match known_signature(source, *export) {
            Some(signature) => r matches Some(found) && found@ == signature,
            None => r is None,
        },
{
    match table.resolve(export.function) {
        None => None,
        Some(name) => match reader {
            None => None,
            Some(reader) => reader.function_signature(name, export.arity),
        },
    }
}

impl AotCompiler {
    /// The number that the next function has in its name.
    pub closed spec fn id(&self) -> u64 {
        self.compiler.id()
    }

    /// A compiler that has compiled nothing yet.
    pub fn new() -> (r: AotCompiler)
        ensures
            r.id() == 0,
    {
        AotCompiler { compiler: JitCompiler::new(JitSettings) }
    }

    fn compile_one(
        &mut self,
        parsed: &ParsedModule,
        code: &[Instruction],
        export: &ExportEntry,
        signature: Option<FunctionSignature>,
    ) -> (r: Result<FunctionIr, JitError>)
        requires
            code@.len() < usize::MAX,
        ensures
            compile_outcome(r) == compiled(
                instruction_views(code@),
                CompiledFrameInfo {
                    module: parsed.name,
                    function: export.function,
                    arity: export.arity,
                },
                super::compiler::signature_view(signature),
                MetadataView { lambdas: parsed.lambdas@, generation: 0 },
                old(self).id(),
            ),
            final(self).id() == next_id(instruction_views(code@), old(self).id()),
    {
        let metadata = ModuleCompileMetadata { lambdas: &parsed.lambdas, generation: 0 };
        match signature {
            Some(signature) => self.compiler.compile_typed_module_function(
                code,
                parsed.name,
                export.function,
                export.arity,
                signature,
                metadata,
            ),
            None => self.compiler.compile_module_function(
                code,
                parsed.name,
                export.function,
                export.arity,
                metadata,
            ),
        }
    }

    /// Compiles the exported functions of a decoded module.
    pub fn compile_parsed(
        &mut self,
        parsed: &ParsedModule,
        table: &AtomTable,
        type_reader: Option<&GleamTypeReader>,
        bytes: Vec<u8>,
    ) -> (r: Result<AotResult, AotError>)
        ensures
            aot_outcome(r) == aot_of(
                *parsed,
                table@,
                reader_view(type_reader),
                bytes@,
                old(self).id(),
            ),
            final(self).id() == id_after_exports(
                source_of(*parsed, table@, reader_view(type_reader)),
                old(self).id(),
                parsed.exports@.len(),
            ),
    {
        let ghost source = source_of(*parsed, table@, reader_view(type_reader));
        let ghost start = self.id();
        let mut done: Vec<CompiledFunction> = Vec::new();
        let mut skipped: Vec<SkippedFunction> = Vec::new();
        let mut i: usize = 0;
        assert(compiled_views(done@) =~= Seq::empty());
        assert(skipped_views(skipped@) =~= Seq::empty());
        while i < parsed.exports.len()
            invariant
                i <= parsed.exports@.len(),
                source == source_of(*parsed, table@, reader_view(type_reader)),
                start == old(self).id(),
                self.id() == id_after_exports(source, start, i as nat),
                compile_exports(source, start, i as nat) == Ok::<AotState, AotFault>(
                    AotState {
                        id: self.id(),
                        compiled: compiled_views(done@),
                        skipped: skipped_views(skipped@),
                    },
                ),
            decreases parsed.exports@.len() - i,
        {
            proof {
                lemma_exports_fail(source, start, (i + 1) as nat);
            }
            let export = parsed.exports[i];
            let ghost before = skipped@;
            let ghost compiled_before = done@;
            match exported_instructions(&parsed.instructions, export.label) {
                Err(reason) => {
                    let entry = SkippedFunction {
                        function: export.function,
                        arity: export.arity,
                        reason,
                    };
                    skipped.push(entry);
                    assert(skipped_views(skipped@) =~= skipped_views(before).push(entry@));
                },
                Ok(code) => {
                    let signature = lookup_signature(table, type_reader, &export, Ghost(source));
                    assert(super::compiler::signature_view(signature) == known_signature(
                        source,
                        export,
                    ));
                    match self.compile_one(parsed, code, &export, signature) {
                        Ok(function) => {
                            let entry = CompiledFunction {
                                function: export.function,
                                arity: export.arity,
                                code: function,
                            };
                            done.push(entry);
                            assert(compiled_views(done@) =~= compiled_views(compiled_before).push(
                                entry@,
                            ));
                        },
                        Err(error) => {
                            if !is_skippable_jit_error(&error) {
                                proof {
                                    lemma_id_stays(source, start, (i + 1) as nat);
                                }
                                return Err(AotError::Jit(error));
                            }
                            let entry = SkippedFunction {
                                function: export.function,
                                arity: export.arity,
                                reason: error.describe(),
                            };
                            skipped.push(entry);
                            assert(skipped_views(skipped@) =~= skipped_views(before).push(entry@));
                        },
                    }
                },
            }
            i += 1;
        }
        let module_checksum: u64 = module_checksum(bytes.as_slice());
        Ok(
            AotResult {
                module: parsed.name,
                module_checksum,
                module_bytes: bytes,
                compiled: done,
                skipped,
            },
        )
    }

    /// Compiles the exported functions of a module.
    pub fn compile_module_bytes(&mut self, bytes: Vec<u8>, type_reader: Option<&GleamTypeReader>) -> (r:
        Result<AotResult, AotError>)
        requires
            bytes@.len() + MAX_TABLE_ENTRIES <= usize::MAX,
        ensures
            match decoded_module(bytes@, common_names()).0 {
                Err(e) => aot_outcome(r) == Err::<AotView, AotFault>(AotFault::Load(e))
                    && final(self).id() == old(self).id(),
                Ok(v) => exists|parsed: ParsedModule| #[trigger]
                    parsed_from(parsed, v) && aot_outcome(r) == aot_of(
                        parsed,
                        decoded_module(bytes@, common_names()).1,
                        reader_view(type_reader),
                        bytes@,
                        old(self).id(),
                    ) && final(self).id() == id_after_exports(
                        source_of(
                            parsed,
                            decoded_module(bytes@, common_names()).1,
                            reader_view(type_reader),
                        ),
                        old(self).id(),
                        parsed.exports@.len(),
                    ),
            },
    {
        let mut table = AtomTable::with_common_atoms();
        match load_beam_chunks(bytes.as_slice(), &mut table) {
            Err(e) => Err(AotError::Load(e)),
            Ok(parsed) => self.compile_parsed(&parsed, &table, type_reader, bytes),
        }
    }
}

impl AotResult {
    /// The module that was compiled.
    pub fn module(&self) -> (r: Atom)
        ensures
            r == self@.module,
    {
        self.module
    }

    /// The checksum of the module's bytes.
    pub fn module_checksum(&self) -> (r: u64)
        ensures
            r == self@.module_checksum,
    {
        self.module_checksum
    }

    /// The functions that were compiled.
    pub fn compiled_functions(&self) -> (r: &Vec<CompiledFunction>)
        ensures
            compiled_views(r@) == self@.compiled,
    {
        &self.compiled
    }

    /// The functions that were not compiled.
    pub fn skipped_functions(&self) -> (r: &Vec<SkippedFunction>)
        ensures
            skipped_views(r@) == self@.skipped,
    {
        &self.skipped
    }
}

/// Bundles of compiled modules.
#[derive(Debug, Clone, Copy)]
pub struct NativeCodeBundle;

/// What a bundle says of compiled functions.
pub open spec fn bundle_entries(functions: Seq<CompiledView>) -> Seq<EntryView> {
    Seq::new(
        functions.len(),
        |i: int|
            EntryView {
                function: functions[i].function,
                arity: functions[i].arity,
                stack_maps: functions[i].code.stack_maps,
            },
    )
}

/// What a bundle says of a result.
pub open spec fn aot_bundle(result: AotView) -> BundleView {
    BundleView {
        module_checksum: result.module_checksum,
        module_bytes: result.module_bytes,
        entries: bundle_entries(result.compiled),
    }
}

fn copy_roots(roots: &Vec<RootLocation>) -> (r: Vec<RootLocation>)
    ensures
        r@ == roots@,
{
    let mut copy: Vec<RootLocation> = Vec::new();
    let mut i: usize = 0;
    while i < roots.len()
        invariant
            i <= roots@.len(),
            copy@ == roots@.take(i as int),
        decreases roots@.len() - i,
    {
        copy.push(roots[i]);
        i += 1;
        assert(copy@ =~= roots@.take(i as int));
    }
    assert(roots@.take(roots@.len() as int) =~= roots@);
    copy
}

fn copy_stack_maps(maps: &Vec<StackMapEntry>) -> (r: Vec<StackMapEntry>)
    ensures
        stack_map_views(r@) == stack_map_views(maps@),
{
    let mut copy: Vec<StackMapEntry> = Vec::new();
    let mut i: usize = 0;
    while i < maps.len()
        invariant
            i <= maps@.len(),
            copy@.len() == i,
            forall|j: int| 0 <= j < i ==> (#[trigger] copy@[j])@ == maps@[j]@,
        decreases maps@.len() - i,
    {
        copy.push(
            StackMapEntry {
                offset_from_entry: maps[i].offset_from_entry,
                live_roots: copy_roots(&maps[i].live_roots),
            },
        );
        i += 1;
    }
    assert(stack_map_views(copy@) =~= stack_map_views(maps@));
    copy
}

fn copy_bytes(bytes: &Vec<u8>) -> (r: Vec<u8>)
    ensures
        r@ == bytes@,
{
    let mut copy: Vec<u8> = Vec::new();
    let mut i: usize = 0;
    while i < bytes.len()
        invariant
            i <= bytes@.len(),
            copy@ == bytes@.take(i as int),
        decreases bytes@.len() - i,
    {
        copy.push(bytes[i]);
        i += 1;
        assert(copy@ =~= bytes@.take(i as int));
    }
    assert(bytes@.take(bytes@.len() as int) =~= bytes@);
    copy
}

/// Where the last export of a function is among the first `n`.
pub open spec fn last_export(exports: Seq<ExportEntry>, function: Atom, arity: u8, n: nat) -> Option<
    ExportEntry,
>
    decreases n,
{
    if n == 0 {
        None
    } else if exports[n - 1].function == function && exports[n - 1].arity == arity {
        Some(exports[n - 1])
    } else {
        last_export(exports, function, arity, (n - 1) as nat)
    }
}

fn find_export(exports: &Vec<ExportEntry>, function: Atom, arity: u8) -> (r: Option<ExportEntry>)
    ensures
        r == last_export(exports@, function, arity, exports@.len()),
{
    let mut n: usize = exports.len();
    while n > 0
        invariant
            n <= exports@.len(),
            last_export(exports@, function, arity, n as nat) == last_export(
                exports@,
                function,
                arity,
                exports@.len(),
            ),
        decreases n,
    {
        if exports[n - 1].function == function && exports[n - 1].arity == arity {
            return Some(exports[n - 1]);
        }
        n -= 1;
    }
    None
}

/// Compiles the first `n` functions that a bundle names, and the number that the
/// next function has in its name.
pub open spec fn recompiled(source: SourceView, entries: Seq<EntryView>, n: nat) -> Result<
    (Seq<CompiledView>, u64),
    AotFault,
>
    decreases n,
{
    if n == 0 {
        Ok((Seq::empty(), 0))
    } else {
        match recompiled(source, entries, (n - 1) as nat) {
            Err(e) => Err(e),
            Ok((before, id)) => {
                let function = entries[n - 1].function;
                let arity = entries[n - 1].arity;
                match last_export(source.exports, function, arity, source.exports.len()) {
                    None => Err(AotFault::MissingFunction { function, arity }),
                    Some(export) => match exported_code(source.instructions, export.label) {
                        Err(text) => Err(AotFault::Malformed(text)),
                        Ok(code) => match compiled(
                            code,
                            CompiledFrameInfo { module: source.name, function, arity },
                            None,
                            no_metadata(),
                            id,
                        ) {
                            Err(e) => Err(AotFault::Jit(e)),
                            Ok(done) => Ok(
                                (
                                    before.push(CompiledView { function, arity, code: done }),
                                    next_id(code, id),
                                ),
                            ),
                        },
                    },
                }
            },
        }
    }
}

proof fn lemma_recompile_fails(source: SourceView, entries: Seq<EntryView>, n: nat)
    requires
        n <= entries.len(),
    ensures
        recompiled(source, entries, n) matches Err(e) ==> recompiled(
            source,
            entries,
            entries.len(),
        ) == Err::<(Seq<CompiledView>, u64), AotFault>(e),
    decreases entries.len() - n,
{
    if n < entries.len() {
        lemma_recompile_fails(source, entries, n + 1);
    }
}

/// The functions that a bundle names, compiled, or why they are not.
pub open spec fn recompiled_functions(source: SourceView, entries: Seq<EntryView>) -> Result<
    Seq<CompiledView>,
    AotFault,
> {
    match recompiled(source, entries, entries.len()) {
        Err(e) => Err(e),
        Ok((functions, _)) => Ok(functions),
    }
}

/// What recompiling answers, with views in place of containers.
pub open spec fn functions_outcome(r: Result<Vec<CompiledFunction>, AotError>) -> Result<
    Seq<CompiledView>,
    AotFault,
> {
    match r {
        Ok(functions) => Ok(compiled_views(functions@)),
        Err(e) => Err(e@),
    }
}

/// Compiles the functions that a bundle names.
pub fn recompile_entries(parsed: &ParsedModule, entries: &Vec<BundleEntry>) -> (r: Result<
    Vec<CompiledFunction>,
    AotError,
>)
    ensures
        functions_outcome(r) == recompiled_functions(
            source_of(*parsed, Seq::empty(), None),
            entry_views(entries@),
        ),
{
    let ghost source = source_of(*parsed, Seq::empty(), None);
    let ghost views = entry_views(entries@);
    let mut compiler = JitCompiler::new(JitSettings);
    let mut done: Vec<CompiledFunction> = Vec::new();
    let mut i: usize = 0;
    assert(compiled_views(done@) =~= Seq::empty());
    while i < entries.len()
        invariant
            i <= entries@.len(),
            views == entry_views(entries@),
            source == source_of(*parsed, Seq::empty(), None),
            recompiled(source, views, i as nat) == Ok::<(Seq<CompiledView>, u64), AotFault>(
                (compiled_views(done@), compiler.id()),
            ),
        decreases entries@.len() - i,
    {
        proof {
            lemma_recompile_fails(source, views, (i + 1) as nat);
        }
        let function = entries[i].function;
        let arity: u8 = entries[i].arity;
        let export = match find_export(&parsed.exports, function, arity) {
            Some(export) => export,
            None => {
                return Err(AotError::MissingFunction { function, arity });
            },
        };
        let code = match exported_instructions(&parsed.instructions, export.label) {
            Ok(code) => code,
            Err(text) => {
                return Err(AotError::Malformed(text));
            },
        };
        match compiler.compile(code, parsed.name, function, arity) {
            Err(e) => {
                return Err(AotError::Jit(e));
            },
            Ok(native) => {
                let ghost before = done@;
                let entry = CompiledFunction { function, arity, code: native };
                done.push(entry);
                assert(compiled_views(done@) =~= compiled_views(before).push(entry@));
            },
        }
        i += 1;
    }
    Ok(done)
}

/// What the bytes of a module are decoded to.
#[verifier::opaque]
pub open spec fn module_of(bytes: Seq<u8>) -> Result<ParsedView, LoadFault> {
    decoded_module(bytes, common_names()).0
}

fn load_parsed(bytes: &[u8]) -> (r: Result<ParsedModule, LoadError>)
    requires
        bytes@.len() + MAX_TABLE_ENTRIES <= usize::MAX,
    ensures
        parse_outcome(r, module_of(bytes@)),
{
    proof {
        reveal(module_of);
    }
    let mut table = AtomTable::with_common_atoms();
    load_beam_chunks(bytes, &mut table)
}

impl NativeCodeBundle {
    /// The bytes of the bundle of a result, for a target.
    pub fn serialize(aot_result: &AotResult, target: &str) -> (r: Vec<u8>)
        ensures
            r@ == bundle_bytes(
                target_hash_of(target@),
                aot_result@.module,
                aot_bundle(aot_result@),
            ),
    {
        let mut entries: Vec<BundleEntry> = Vec::new();
        let mut i: usize = 0;
        while i < aot_result.compiled.len()
            invariant
                i <= aot_result.compiled@.len(),
                entries@.len() == i,
                forall|j: int|
                    0 <= j < i ==> (#[trigger] entries@[j])@ == bundle_entries(
                        compiled_views(aot_result.compiled@),
                    )[j],
            decreases aot_result.compiled@.len() - i,
        {
            let function = &aot_result.compiled[i];
            entries.push(
                BundleEntry {
                    function: function.function,
                    arity: function.arity,
                    stack_maps: copy_stack_maps(&function.code.stack_maps),
                },
            );
            i += 1;
        }
        let bundle = DecodedBundle {
            module_checksum: aot_result.module_checksum,
            module_bytes: copy_bytes(&aot_result.module_bytes),
            entries,
        };
        assert(bundle@.entries =~= aot_bundle(aot_result@).entries);
        write_bundle(target_hash(target), aot_result.module, &bundle)
    }

    /// Reads a bundle for a target and compiles the functions that it names.
    pub fn deserialize(bytes: &[u8], target: &str) -> (r: Result<Vec<CompiledFunction>, AotError>)
        requires
            bytes@.len() + MAX_TABLE_ENTRIES <= usize::MAX,
        ensures
            match bundle_of(bytes@, target_hash_of(target@)) {
                Err(e) => functions_outcome(r) == Err::<Seq<CompiledView>, AotFault>(e),
                Ok(bundle) => match module_of(bundle.module_bytes) {
                    Err(e) => functions_outcome(r) == Err::<Seq<CompiledView>, AotFault>(
                        AotFault::Load(e),
                    ),
                    Ok(v) => exists|parsed: ParsedModule| #[trigger]
                        parsed_from(parsed, v) && functions_outcome(r) == recompiled_functions(
                            source_of(parsed, Seq::empty(), None),
                            bundle.entries,
                        ),
                },
            },
    {
        let bundle = DecodedBundle::read(bytes, target_hash(target))?;
        proof {
            lemma_bundle_is_smaller(bytes@, target_hash_of(target@));
        }
        match load_parsed(bundle.module_bytes.as_slice()) {
            Err(e) => Err(AotError::Load(e)),
            Ok(parsed) => recompile_entries(&parsed, &bundle.entries),
        }
    }

    /// Reads a bundle for a target and compiles the functions that it names,
    /// unless it is of other bytes than those given. Answers the module, too.
    pub fn deserialize_for_module(bytes: &[u8], target: &str, beam_bytes: &[u8]) -> (r: Result<
        (Atom, Vec<CompiledFunction>),
        AotError,
    >)
        requires
            bytes@.len() + MAX_TABLE_ENTRIES <= usize::MAX,
        ensures
            match bundle_of(bytes@, target_hash_of(target@)) {
                Err(e) => r matches Err(error) && error@ == e,
                Ok(bundle) => if bundle.module_checksum != hash_bytes(HASH_START, beam_bytes@) {
                    r matches Err(error) && error@ == (AotFault::ChecksumMismatch {
                        expected: hash_bytes(HASH_START, beam_bytes@),
                        actual: bundle.module_checksum,
                    })
                } else {
                    match module_of(bundle.module_bytes) {
                        Err(e) => r matches Err(error) && error@ == AotFault::Load(e),
                        Ok(v) => exists|parsed: ParsedModule| #[trigger]
                            parsed_from(parsed, v) && match recompiled_functions(
                                source_of(parsed, Seq::empty(), None),
                                bundle.entries,
                            ) {
                                Err(e) => r matches Err(error) && error@ == e,
                                Ok(functions) => r matches Ok(loaded) && loaded.0 == v.name
                                    && compiled_views(loaded.1@) == functions,
                            },
                    }
                },
            },
    {
        let bundle = DecodedBundle::read(bytes, target_hash(target))?;
        let expected: u64 = module_checksum(beam_bytes);
        if bundle.module_checksum != expected {
            return Err(AotError::ChecksumMismatch { expected, actual: bundle.module_checksum });
        }
        proof {
            lemma_bundle_is_smaller(bytes@, target_hash_of(target@));
        }
        match load_parsed(bundle.module_bytes.as_slice()) {
            Err(e) => Err(AotError::Load(e)),
            Ok(parsed) => {
                let functions = recompile_entries(&parsed, &bundle.entries)?;
                Ok((parsed.name, functions))
            },
        }
    }
}

proof fn lemma_bundle_is_smaller(b: Seq<u8>, target: u64)
    ensures
        bundle_of(b, target) matches Ok(bundle) ==> bundle.module_bytes.len() <= b.len(),
{
}

/// The serialized bundle of a result, read for the same target, names the
/// functions that were compiled and holds the bytes of the module and their
/// checksum.
pub proof fn law_serialized_result_is_read_back(target: Seq<char>, result: AotView)
    requires
        bundle_bytes(target_hash_of(target), result.module, aot_bundle(result)).len() <= usize::MAX,
        exports_of(result.module_bytes) matches Ok(exports) && super::aot_format::entries_fit(
            aot_bundle(result).entries,
            exports,
        ),
    ensures
        bundle_of(
            bundle_bytes(target_hash_of(target), result.module, aot_bundle(result)),
            target_hash_of(target),
        ) == Ok::<BundleView, AotFault>(aot_bundle(result)),
{
    super::aot_format::law_written_bundle_is_read_back(
        target_hash_of(target),
        result.module,
        aot_bundle(result),
    );
}

/// A function that a module exports.
pub struct Named {
    pub function: Atom,
    pub arity: u8,
}

/// The functions that were compiled, and then those that were skipped.
pub open spec fn settled_names(state: AotState) -> Seq<Named> {
    state.compiled.map_values(
        |entry: CompiledView| Named { function: entry.function, arity: entry.arity },
    ) + state.skipped.map_values(
        |entry: SkippedView| Named { function: entry.function, arity: entry.arity },
    )
}

/// The first `n` functions that are exported.
pub open spec fn exported_names(exports: Seq<ExportEntry>, n: nat) -> Seq<Named> {
    exports.take(n as int).map_values(
        |entry: ExportEntry| Named { function: entry.function, arity: entry.arity },
    )
}

/// Every exported function is compiled or skipped, as often as it is exported, and no
/// other one is.
pub proof fn law_exports_are_compiled_or_skipped(source: SourceView, id: u64, n: nat)
    requires
        n <= source.exports.len(),
        compile_exports(source, id, n) is Ok,
    ensures
        settled_names(compile_exports(source, id, n)->Ok_0).to_multiset() == exported_names(
            source.exports,
            n,
        ).to_multiset(),
    decreases n,
{
    broadcast use vstd::seq_lib::group_to_multiset_ensures;

    let after = compile_exports(source, id, n)->Ok_0;
    if n == 0 {
        assert(settled_names(after) =~= exported_names(source.exports, 0));
    } else {
        law_exports_are_compiled_or_skipped(source, id, (n - 1) as nat);
        let before = compile_exports(source, id, (n - 1) as nat)->Ok_0;
        let export = source.exports[n - 1];
        let name = Named { function: export.function, arity: export.arity };
        let named = settled_names(before);
        assert(exported_names(source.exports, n) =~= exported_names(
            source.exports,
            (n - 1) as nat,
        ).push(name));
        if after.compiled.len() > before.compiled.len() {
            let place = before.compiled.len() as int;
            assert(settled_names(after) =~= named.insert(place, name));
            vstd::seq_lib::to_multiset_insert(named, place, name);
        } else {
            assert(settled_names(after) =~= named.push(name));
        }
    }
}

/// The number that compiling ends with is that of the functions that were tried.
pub proof fn law_numbers_go_on(source: SourceView, id: u64, n: nat)
    requires
        n <= source.exports.len(),
        compile_exports(source, id, n) is Ok,
    ensures
        compile_exports(source, id, n)->Ok_0.id == id_after_exports(source, id, n),
    decreases n,
{
    if n > 0 {
        law_numbers_go_on(source, id, (n - 1) as nat);
    }
}

} // verus!
