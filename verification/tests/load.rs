use beamr::atom::{Atom, AtomTable};
use beamr::error::{ExecError, LoadError};
use beamr::loader::decode::chunks::{ExportEntry, ImportEntry, LineInfo};
use beamr::loader::decode::compact::Operand;
use beamr::loader::decode::instruction::Instruction;
use beamr::loader::embed::{
    load_embedded_module_with_policy, pack_in_order, try_load_embedded_module, ModuleFile,
};
use beamr::loader::load::{
    hash_run, lambda_unique_id, load_beam_chunks, load_module, load_module_with_origin,
    load_module_with_policy, module_from_parsed, prepare_module, resolve_imports, ParsedModule,
    HASH_START,
};
use beamr::loader::report::{UnresolvedImportEntry, UnresolvedImportReport};
use beamr::loader::validate::validate_module;
use beamr::module::{
    ExportTable, Module, ModuleOrigin, ModuleRegistry, PurgeError, ResolvedImport,
    ResolvedImportTarget,
};
use beamr::native::{
    denial_stub, AllCapabilitiesPolicy, BifRegistry, Capability, LeastAuthorityPolicy, NativeEntry,
    NativeFunction,
};
use std::collections::HashMap;
use std::sync::Arc;

struct EmptyBifs;

impl BifRegistry for EmptyBifs {
    fn lookup(&self, _module: Atom, _function: Atom, _arity: u8) -> Option<NativeEntry> {
        None
    }
}

struct OneBif {
    module: Atom,
    function: Atom,
    arity: u8,
    capability: Capability,
}

impl BifRegistry for OneBif {
    fn lookup(&self, module: Atom, function: Atom, arity: u8) -> Option<NativeEntry> {
        (module == self.module && function == self.function && arity == self.arity).then_some(
            NativeEntry {
                function: NativeFunction(1),
                dirty_kind: None,
                capability: self.capability,
            },
        )
    }
}

fn empty_parsed(name: Atom) -> ParsedModule {
    ParsedModule {
        name,
        atoms: Vec::new(),
        instructions: Vec::new(),
        imports: Vec::new(),
        exports: Vec::new(),
        lambdas: Vec::new(),
        literals: Vec::new(),
        string_table: Vec::new(),
        line_info: Vec::new(),
    }
}

fn empty_module(name: Atom) -> Module {
    Module {
        name,
        generation: 0,
        origin: ModuleOrigin::Preloaded,
        exports: ExportTable::new(),
        label_index: HashMap::new(),
        code: Vec::new(),
        function_table: Vec::new(),
        line_table: Vec::new(),
        literals: Vec::new(),
        resolved_imports: Vec::new(),
        lambdas: Vec::new(),
        string_table: Vec::new(),
        line_info: Vec::new(),
    }
}

fn importing(atoms: &mut AtomTable, module: Atom, function: Atom) -> ParsedModule {
    let mut parsed = empty_parsed(atoms.intern("hello"));
    parsed.imports = vec![ImportEntry {
        module,
        function,
        arity: 0,
    }];
    parsed
}

fn push_chunk(bytes: &mut Vec<u8>, tag: &[u8], data: &[u8]) {
    bytes.extend_from_slice(tag);
    bytes.extend_from_slice(&(data.len() as u32).to_be_bytes());
    bytes.extend_from_slice(data);
    while bytes.len() % 4 != 0 {
        bytes.push(0);
    }
}

/// A module `tiny` that exports `main/0`, which returns, and imports `erlang:now/0`.
fn tiny_beam() -> Vec<u8> {
    beam_doing(&[19])
}

/// The same module, with other instructions in `main/0`.
fn beam_doing(instructions: &[u8]) -> Vec<u8> {
    let mut atoms = Vec::new();
    atoms.extend_from_slice(&4i32.to_be_bytes());
    for name in ["tiny", "main", "erlang", "now"] {
        atoms.push(name.len() as u8);
        atoms.extend_from_slice(name.as_bytes());
    }
    let mut code = Vec::new();
    for word in [16u32, 0, 169, 3, 1] {
        code.extend_from_slice(&word.to_be_bytes());
    }
    code.extend_from_slice(&[1, 0x10]);
    code.extend_from_slice(&[2, 0x12, 0x22, 0x00]);
    code.extend_from_slice(&[1, 0x20]);
    code.extend_from_slice(instructions);
    code.extend_from_slice(&[3]);
    let mut imports = Vec::new();
    for word in [1u32, 3, 4, 0] {
        imports.extend_from_slice(&word.to_be_bytes());
    }
    let mut exports = Vec::new();
    for word in [1u32, 2, 0, 2] {
        exports.extend_from_slice(&word.to_be_bytes());
    }
    let mut body = Vec::new();
    body.extend_from_slice(b"BEAM");
    push_chunk(&mut body, b"AtU8", &atoms);
    push_chunk(&mut body, b"Code", &code);
    push_chunk(&mut body, b"ImpT", &imports);
    push_chunk(&mut body, b"ExpT", &exports);
    let mut bytes = Vec::new();
    bytes.extend_from_slice(b"FOR1");
    bytes.extend_from_slice(&(body.len() as u32).to_be_bytes());
    bytes.extend_from_slice(&body);
    bytes
}

#[test]
fn module_from_parsed_builds_function_and_line_tables() {
    let mut atoms = AtomTable::new();
    let module_atom = atoms.intern("sample");
    let exported = atoms.intern("exported");
    let private = atoms.intern("private");
    let parsed = ParsedModule {
        exports: vec![
            ExportEntry {
                function: exported,
                arity: 0,
                label: 1,
            },
            ExportEntry {
                function: atoms.intern("also_exported"),
                arity: 2,
                label: 2,
            },
        ],
        instructions: vec![
            Instruction::FuncInfo {
                module: Operand::Atom(Some(module_atom)),
                function: Operand::Atom(Some(exported)),
                arity: Operand::Unsigned(0),
            },
            Instruction::Line {
                index: Operand::Unsigned(0),
            },
            Instruction::Return,
            Instruction::FuncInfo {
                module: Operand::Atom(Some(module_atom)),
                function: Operand::Atom(Some(private)),
                arity: Operand::Unsigned(1),
            },
            Instruction::Line {
                index: Operand::Unsigned(1),
            },
            Instruction::Return,
        ],
        line_info: vec![
            LineInfo { file: 0, line: 11 },
            LineInfo { file: 0, line: 22 },
        ],
        ..empty_parsed(module_atom)
    };

    let module = module_from_parsed(parsed, Vec::new(), ModuleOrigin::Preloaded);

    assert_eq!(
        module.function_table,
        vec![(0, exported, 0), (3, private, 1)]
    );
    assert_eq!(module.function_at_ip(2), Some((exported, 0)));
    assert_eq!(module.function_at_ip(3), Some((private, 1)));
    assert_eq!(module.function_at_ip(4), Some((private, 1)));
    assert_eq!(module.line_table, vec![(1, 0), (4, 1)]);
    assert_eq!(module.line_at_ip(0), None);
    assert_eq!(module.line_at_ip(1), Some(11));
    assert_eq!(module.line_at_ip(5), Some(22));
}

#[test]
fn unresolved_report_groups_by_module_and_displays() {
    let mut atoms = AtomTable::new();
    let erlang = atoms.intern("erlang");
    let unknown = atoms.intern("unknown");
    let report = UnresolvedImportReport::new(vec![UnresolvedImportEntry::new(erlang, unknown, 0)]);

    assert_eq!(report.entries_for(erlang).len(), 1);
    assert!(report.entries_by_module().contains_key(&erlang));
    assert!(report.deferred_for(erlang).is_empty());
    assert!(report.describe().contains("/0"));
}

#[test]
fn listing_sorts_by_module_and_keeps_the_order_within_one() {
    let entry = |module: u32, function: u32| {
        UnresolvedImportEntry::new(Atom::new(module), Atom::new(function), 0)
    };
    let report =
        UnresolvedImportReport::new(vec![entry(9, 5), entry(2, 7), entry(9, 1), entry(2, 7)]);
    assert_eq!(
        report.imports(),
        vec![entry(2, 7), entry(2, 7), entry(9, 5), entry(9, 1)]
    );
}

#[test]
fn load_module_rejects_garbage_bytes_as_invalid_format() {
    let mut atoms = AtomTable::new();
    let mut registry = ModuleRegistry::new();

    assert_eq!(
        load_module(b"garbage", &mut atoms, &mut registry, &EmptyBifs).map(|_| ()),
        Err(LoadError::InvalidFormat)
    );
}

#[test]
fn handmade_module_loads_and_is_registered() {
    let mut atoms = AtomTable::with_common_atoms();
    let mut registry = ModuleRegistry::new();
    let (module, report) =
        load_module(&tiny_beam(), &mut atoms, &mut registry, &EmptyBifs).expect("module loads");

    assert_eq!(atoms.resolve(module.name), Some("tiny"));
    assert_eq!(module.generation(), 1);
    assert_eq!(module.origin, ModuleOrigin::Preloaded);
    assert!(Arc::ptr_eq(
        &registry.lookup(module.name).expect("registered module"),
        &module
    ));
    for (ip, instruction) in module.code.iter().enumerate() {
        if let Instruction::Label { label } = instruction {
            assert_eq!(module.label_index.get(label).copied(), Some(ip));
        }
    }
    let main = atoms.lookup("main").expect("atom of the module");
    assert_eq!(module.export_ip(main, 0), Ok(2));
    assert_eq!(
        module.export_ip(main, 1),
        Err(ExecError::Undef {
            module: module.name,
            function: main,
            arity: 1
        })
    );
    assert!(report.is_empty());
    assert!(!report.has_denied());
    assert_eq!(report.deferred_imports().len(), 1);
}

#[test]
fn a_missing_chunk_is_named() {
    let mut bytes = Vec::new();
    bytes.extend_from_slice(b"FOR1\0\0\0\x04BEAM");
    let mut atoms = AtomTable::new();
    assert!(matches!(
        load_beam_chunks(&bytes, &mut atoms),
        Err(LoadError::MissingChunk(_))
    ));
}

#[test]
fn preparing_leaves_the_registry_alone() {
    let mut atoms = AtomTable::with_common_atoms();
    let registry = ModuleRegistry::new();
    let (module, _) =
        prepare_module(&tiny_beam(), &mut atoms, &registry, &EmptyBifs).expect("module prepares");
    assert_eq!(module.generation(), 0);
    assert!(registry.lookup(module.name).is_none());
}

#[test]
fn loading_grants_every_capability_unless_a_policy_says_otherwise() {
    let mut atoms = AtomTable::with_common_atoms();
    let bifs = OneBif {
        module: atoms.intern("erlang"),
        function: atoms.intern("now"),
        arity: 0,
        capability: Capability::ExternalIo,
    };
    let mut registry = ModuleRegistry::new();
    let (_, report) =
        load_module(&tiny_beam(), &mut atoms, &mut registry, &bifs).expect("module loads");
    assert!(!report.has_denied());
    let (module, report) = load_module_with_policy(
        &tiny_beam(),
        &mut atoms,
        &mut registry,
        &bifs,
        &LeastAuthorityPolicy,
    )
    .expect("module loads");
    assert!(report.has_denied());
    assert_eq!(module.generation(), 2);
    assert!(matches!(
        module.resolved_imports[0].target,
        ResolvedImportTarget::Native(entry) if entry.function == denial_stub()
    ));
}

#[test]
fn linked_modules_load_by_name() {
    let archive = pack_in_order(&vec![ModuleFile {
        name: "tiny".to_string(),
        beam: tiny_beam(),
    }])
    .expect("pack");
    let mut atoms = AtomTable::with_common_atoms();
    let mut registry = ModuleRegistry::new();
    let (module, _) =
        try_load_embedded_module(&archive, "tiny", &mut atoms, &mut registry, &EmptyBifs)
            .expect("fits")
            .expect("loads")
            .expect("is there");
    assert_eq!(module.origin, ModuleOrigin::Embedded);
    assert!(registry.lookup(module.name).is_some());
    assert!(
        try_load_embedded_module(&archive, "other", &mut atoms, &mut registry, &EmptyBifs)
            .expect("fits")
            .expect("loads")
            .is_none()
    );
    assert!(load_embedded_module_with_policy(
        &archive,
        "tiny",
        &mut atoms,
        &mut registry,
        &EmptyBifs,
        &LeastAuthorityPolicy
    )
    .expect("loads")
    .is_some());
    let (module, _) = load_module_with_origin(
        &tiny_beam(),
        &mut atoms,
        &mut registry,
        &EmptyBifs,
        ModuleOrigin::Embedded,
    )
    .expect("loads");
    assert_eq!(module.generation(), 3);
}

#[test]
fn lambda_ids_follow_the_hash_of_their_description() {
    assert_eq!(hash_run(HASH_START, b""), 0xcbf2_9ce4_8422_2325);
    assert_eq!(hash_run(HASH_START, b"a"), 0xaf63_dc4c_8601_ec8c);
    let mut atoms = AtomTable::new();
    let module = atoms.intern("m");
    let function = atoms.intern("f");
    let id = lambda_unique_id(&atoms, module, function, 1, 0).expect("known atoms");
    let other = lambda_unique_id(&atoms, module, function, 2, 0).expect("known atoms");
    assert_ne!(id, other);
    assert!(lambda_unique_id(&atoms, Atom(99), function, 1, 0).is_err());
}

#[test]
fn resolved_cross_module_import_points_to_code_label() {
    let mut atoms = AtomTable::new();
    let callee = atoms.intern("callee");
    let function = atoms.intern("run");
    let mut registry = ModuleRegistry::new();
    let mut target = empty_module(callee);
    target.exports.insert((function, 0), 42);
    registry.insert(target);
    let parsed = importing(&mut atoms, callee, function);

    let (resolved, report) =
        resolve_imports(&parsed, &registry, &EmptyBifs, &AllCapabilitiesPolicy);

    assert!(report.is_empty());
    assert!(report.deferred_imports().is_empty());
    assert!(matches!(
        resolved
            .first()
            .and_then(|entry| entry.as_ref())
            .map(|entry| entry.target),
        Some(ResolvedImportTarget::Code { label: 42, .. })
    ));
}

#[test]
fn resolved_bif_import_points_to_native_entry() {
    let mut atoms = AtomTable::new();
    let erlang = atoms.intern("erlang");
    let now = atoms.intern("now");
    let registry = ModuleRegistry::new();
    let parsed = importing(&mut atoms, erlang, now);

    let (resolved, report) = resolve_imports(
        &parsed,
        &registry,
        &OneBif {
            module: erlang,
            function: now,
            arity: 0,
            capability: Capability::Pure,
        },
        &AllCapabilitiesPolicy,
    );

    assert!(report.is_empty());
    assert!(matches!(
        resolved
            .first()
            .and_then(|entry| entry.as_ref())
            .map(|entry| entry.target),
        Some(ResolvedImportTarget::Native(_))
    ));
}

#[test]
fn denied_bif_import_is_bound_to_denial_stub_and_reported() {
    let mut atoms = AtomTable::new();
    let erlang = atoms.intern("erlang");
    let now = atoms.intern("now");
    let registry = ModuleRegistry::new();
    let parsed = importing(&mut atoms, erlang, now);

    let (resolved, report) = resolve_imports(
        &parsed,
        &registry,
        &OneBif {
            module: erlang,
            function: now,
            arity: 0,
            capability: Capability::Clock,
        },
        &LeastAuthorityPolicy,
    );

    assert!(report.has_denied());
    assert_eq!(report.denied_imports().len(), 1);
    assert!(report.describe().contains("capability denied"));
    let Some(ResolvedImportTarget::Native(entry)) = resolved
        .first()
        .and_then(|entry| entry.as_ref())
        .map(|entry| entry.target)
    else {
        panic!("denied native should still occupy import slot");
    };
    assert_eq!(entry.function, denial_stub());
}

#[test]
fn missing_loaded_export_is_unresolved_not_deferred() {
    let mut atoms = AtomTable::new();
    let callee = atoms.intern("callee");
    let function = atoms.intern("run");
    let mut registry = ModuleRegistry::new();
    registry.insert(empty_module(callee));
    let parsed = importing(&mut atoms, callee, function);

    let (resolved, report) =
        resolve_imports(&parsed, &registry, &EmptyBifs, &AllCapabilitiesPolicy);

    assert!(matches!(
        resolved
            .first()
            .and_then(|entry| entry.as_ref())
            .map(|entry| entry.target),
        Some(ResolvedImportTarget::Unresolved { module, function: unresolved_function, arity: 0 })
            if module == callee && unresolved_function == function
    ));
    assert_eq!(
        report.imports(),
        vec![UnresolvedImportEntry::new(callee, function, 0)]
    );
    assert!(report.deferred_imports().is_empty());
}

#[test]
fn missing_import_module_is_deferred_and_kept_resolved_by_index() {
    let mut atoms = AtomTable::new();
    let callee = atoms.intern("callee");
    let function = atoms.intern("run");
    let registry = ModuleRegistry::new();
    let parsed = importing(&mut atoms, callee, function);

    let (resolved, report) =
        resolve_imports(&parsed, &registry, &EmptyBifs, &AllCapabilitiesPolicy);

    assert!(report.imports().is_empty());
    assert!(report.is_empty());
    assert_eq!(
        report.deferred_imports(),
        vec![UnresolvedImportEntry::new(callee, function, 0)]
    );
    assert!(matches!(
        resolved
            .first()
            .and_then(|entry| entry.as_ref())
            .map(|entry| entry.target),
        Some(ResolvedImportTarget::Deferred { module, function: deferred_function, arity: 0 })
            if module == callee && deferred_function == function
    ));
}

fn label_index(code: &[Instruction]) -> HashMap<u32, usize> {
    code.iter()
        .enumerate()
        .filter_map(|(ip, instruction)| match instruction {
            Instruction::Label { label } => Some((*label, ip)),
            _ => None,
        })
        .collect()
}

#[test]
fn registry_stores_and_replaces_modules_by_name() {
    let mut atoms = AtomTable::new();
    let module_name = atoms.intern("sample");
    let mut registry = ModuleRegistry::new();

    let first = registry.insert(empty_module(module_name));
    let mut replacement = empty_module(module_name);
    replacement.code.push(Instruction::Return);
    let second = registry.insert(replacement);

    assert!(Arc::ptr_eq(
        &registry.lookup(module_name).expect("module loaded"),
        &second
    ));
    assert!(!Arc::ptr_eq(&first, &second));
}

#[test]
fn registry_retains_only_current_and_previous_old_versions() {
    let mut atoms = AtomTable::new();
    let module_name = atoms.intern("sample");
    let mut registry = ModuleRegistry::new();

    let v1 = registry.insert(empty_module(module_name));
    assert_eq!(registry.module_version_count(module_name), 1);
    assert!(registry.lookup_old(module_name).is_none());
    assert!(Arc::ptr_eq(
        &registry.lookup(module_name).expect("v1 current"),
        &v1
    ));

    let mut second = empty_module(module_name);
    second.code.push(Instruction::Return);
    let v2 = registry.insert(second);
    assert_eq!(registry.module_version_count(module_name), 2);
    assert!(Arc::ptr_eq(
        &registry.lookup(module_name).expect("v2 current"),
        &v2
    ));
    assert!(Arc::ptr_eq(
        &registry.lookup_old(module_name).expect("v1 old"),
        &v1
    ));

    let mut third = empty_module(module_name);
    third.code.push(Instruction::Return);
    third.code.push(Instruction::Return);
    let v3 = registry.insert(third);
    assert_eq!(registry.module_version_count(module_name), 2);
    assert!(Arc::ptr_eq(
        &registry.lookup(module_name).expect("v3 current"),
        &v3
    ));
    assert!(Arc::ptr_eq(
        &registry.lookup_old(module_name).expect("v2 old"),
        &v2
    ));
    assert_eq!(v1.generation(), 1);
    assert_eq!(v2.generation(), 2);
    assert_eq!(v3.generation(), 3);
}

#[test]
fn generations_are_tracked_per_module_name() {
    let mut atoms = AtomTable::new();
    let first_name = atoms.intern("first");
    let second_name = atoms.intern("second");
    let mut registry = ModuleRegistry::new();

    let first_v1 = registry.insert(empty_module(first_name));
    let second_v1 = registry.insert(empty_module(second_name));
    let first_v2 = registry.insert(empty_module(first_name));

    assert_eq!(first_v1.generation(), 1);
    assert_eq!(second_v1.generation(), 1);
    assert_eq!(first_v2.generation(), 2);
}

#[test]
fn purge_old_requires_no_external_references() {
    let mut atoms = AtomTable::new();
    let module_name = atoms.intern("sample");
    let mut registry = ModuleRegistry::new();
    registry.insert(empty_module(module_name));
    registry.insert(empty_module(module_name));

    let old_ref = registry.lookup_old(module_name).expect("old version");
    assert!(matches!(
        registry.purge_old(module_name),
        Err(PurgeError::StillReferenced { module, ref_count })
            if module == module_name && ref_count >= 2
    ));
    drop(old_ref);

    assert_eq!(registry.purge_old(module_name), Ok(()));
    assert!(registry.lookup_old(module_name).is_none());
    assert_eq!(registry.module_version_count(module_name), 1);
    assert_eq!(
        registry.purge_old(module_name),
        Err(PurgeError::NoOldVersion {
            module: module_name
        })
    );
}

#[test]
fn registry_lookup_unloaded_module_returns_none() {
    let mut atoms = AtomTable::new();
    let registry = ModuleRegistry::new();

    assert!(registry.lookup(atoms.intern("missing")).is_none());
}

#[test]
fn lookup_mfa_returns_code_pointer_for_export() {
    let mut atoms = AtomTable::new();
    let module_name = atoms.intern("sample");
    let function = atoms.intern("main");
    let mut registry = ModuleRegistry::new();
    let mut module = empty_module(module_name);
    module.exports.insert((function, 0), 7);
    registry.insert(module);

    let pointer = registry
        .lookup_mfa(module_name, function, 0)
        .expect("exported function");

    assert_eq!(pointer.label, 7);
    assert_eq!(pointer.module.name, module_name);
    assert_eq!(pointer.generation, 1);
}

#[test]
fn module_resolves_labels_from_index() {
    let mut atoms = AtomTable::new();
    let mut module = empty_module(atoms.intern("sample"));
    module.code = vec![
        Instruction::Return,
        Instruction::Label { label: 10 },
        Instruction::Return,
        Instruction::Label { label: 20 },
    ];
    module.label_index = label_index(&module.code);

    assert_eq!(module.label_ip(10), Ok(1));
    assert_eq!(module.label_ip(20), Ok(3));
    assert_eq!(
        module.label_ip(30),
        Err(ExecError::InvalidLabel { label: 30 })
    );
}

#[test]
fn lookup_mfa_reports_undef_for_missing_targets() {
    let mut atoms = AtomTable::new();
    let module_name = atoms.intern("sample");
    let function = atoms.intern("main");
    let other = atoms.intern("other");
    let mut registry = ModuleRegistry::new();
    registry.insert(empty_module(module_name));

    assert!(matches!(
        registry.lookup_mfa(other, function, 0),
        Err(ExecError::Undef {
            module,
            function: undef_function,
            arity: 0,
        }) if module == other && undef_function == function
    ));
    assert!(matches!(
        registry.lookup_mfa(module_name, function, 0),
        Err(ExecError::Undef {
            module,
            function: undef_function,
            arity: 0,
        }) if module == module_name && undef_function == function
    ));
    assert!(matches!(
        registry.lookup_mfa(module_name, function, 1),
        Err(ExecError::Undef {
            module,
            function: undef_function,
            arity: 1,
        }) if module == module_name && undef_function == function
    ));
}

#[test]
fn purge_errors_say_what_is_wrong() {
    assert!(PurgeError::NoOldVersion { module: Atom(3) }.describe().len() > 0);
    let text = PurgeError::StillReferenced {
        module: Atom(3),
        ref_count: 17,
    }
    .describe();
    assert!(text.contains("17"));
}

fn coded(instructions: Vec<Instruction>) -> ParsedModule {
    let mut parsed = empty_parsed(Atom::ok());
    parsed.atoms = vec![Atom::ok(), Atom::error()];
    parsed.imports = vec![ImportEntry {
        module: Atom::ok(),
        function: Atom::error(),
        arity: 2,
    }];
    parsed.instructions = instructions;
    parsed
}

fn flaw_of(instructions: Vec<Instruction>) -> String {
    match validate_module(&coded(instructions), &vec![None]) {
        Err(LoadError::DecodeError(message)) => message,
        other => panic!("expected DecodeError, got {other:?}"),
    }
}

fn function_head() -> Vec<Instruction> {
    vec![
        Instruction::Label { label: 1 },
        Instruction::FuncInfo {
            module: Operand::Atom(Some(Atom::ok())),
            function: Operand::Atom(Some(Atom::error())),
            arity: Operand::Unsigned(1),
        },
        Instruction::Label { label: 2 },
    ]
}

fn function_with(instruction: Instruction) -> Vec<Instruction> {
    let mut code = function_head();
    code.push(instruction);
    code.push(Instruction::Return);
    code
}

#[test]
fn valid_operands_pass_validation() {
    for instruction in [
        Instruction::Move {
            source: Operand::X(1023),
            destination: Operand::Y(1024),
        },
        Instruction::Jump {
            target: Operand::Label(2),
        },
        Instruction::Call {
            arity: Operand::Unsigned(1),
            label: Operand::Label(2),
        },
        Instruction::CallExt {
            arity: Operand::Unsigned(2),
            import: Operand::Unsigned(0),
        },
        Instruction::Move {
            source: Operand::Atom(Some(Atom::error())),
            destination: Operand::X(0),
        },
    ] {
        assert_eq!(
            validate_module(&coded(function_with(instruction)), &vec![None]),
            Ok(())
        );
    }
}

#[test]
fn bindings_do_not_change_what_is_valid() {
    let bound = vec![Some(ResolvedImport {
        module: Atom::ok(),
        function: Atom::error(),
        arity: 2,
        target: ResolvedImportTarget::Deferred {
            module: Atom::ok(),
            function: Atom::error(),
            arity: 2,
        },
    })];
    let call = |arity: u64| {
        coded(function_with(Instruction::CallExt {
            arity: Operand::Unsigned(arity),
            import: Operand::Unsigned(0),
        }))
    };
    assert_eq!(validate_module(&call(2), &bound), Ok(()));
    assert_eq!(
        validate_module(&call(1), &bound),
        validate_module(&call(1), &vec![None])
    );
    assert!(validate_module(&call(1), &bound).is_err());
}

#[test]
fn undefined_labels_fail_validation() {
    let message = flaw_of(function_with(Instruction::Jump {
        target: Operand::Label(9),
    }));
    assert!(message.starts_with("instruction 3: "), "{message}");
    assert!(message.ends_with(": label is not in the code"), "{message}");
    let call = flaw_of(function_with(Instruction::Call {
        arity: Operand::Unsigned(1),
        label: Operand::Label(0),
    }));
    assert!(call.ends_with(": label is not in the code"), "{call}");
}

#[test]
fn registers_out_of_range_fail_validation() {
    for source in [Operand::X(1024), Operand::FloatRegister(16)] {
        let message = flaw_of(function_with(Instruction::Move {
            source,
            destination: Operand::X(0),
        }));
        assert!(message.ends_with(": register is out of range"), "{message}");
    }
}

#[test]
fn arities_that_differ_fail_validation() {
    let call = flaw_of(function_with(Instruction::Call {
        arity: Operand::Unsigned(3),
        label: Operand::Label(2),
    }));
    assert!(call.ends_with(": arity is not that of the function"), "{call}");
    let external = flaw_of(function_with(Instruction::CallExt {
        arity: Operand::Unsigned(1),
        import: Operand::Unsigned(0),
    }));
    assert!(
        external.ends_with(": arity is not that of the function"),
        "{external}"
    );
    let wide = flaw_of(function_with(Instruction::Call {
        arity: Operand::Unsigned(256),
        label: Operand::Label(2),
    }));
    assert!(wide.ends_with(": arity is out of range"), "{wide}");
}

#[test]
fn unknown_imports_and_atoms_fail_validation() {
    let import = flaw_of(function_with(Instruction::CallExt {
        arity: Operand::Unsigned(2),
        import: Operand::Unsigned(1),
    }));
    assert!(import.ends_with(": import is out of range"), "{import}");
    let atom = flaw_of(function_with(Instruction::Move {
        source: Operand::Atom(Some(Atom::badarg())),
        destination: Operand::X(0),
    }));
    assert!(atom.ends_with(": atom is not in the atom table"), "{atom}");
}

#[test]
fn validation_names_the_first_flaw() {
    let mut code = function_with(Instruction::Jump {
        target: Operand::Label(7),
    });
    code.push(Instruction::Jump {
        target: Operand::Label(8),
    });
    assert!(flaw_of(code).starts_with("instruction 3: "));
}

#[test]
fn modules_with_invalid_operands_do_not_load() {
    let broken = beam_doing(&[61, 0x55]);
    let mut atoms = AtomTable::with_common_atoms();
    let mut registry = ModuleRegistry::new();
    match load_module(&broken, &mut atoms, &mut registry, &EmptyBifs) {
        Err(LoadError::DecodeError(message)) => {
            assert!(message.ends_with(": label is not in the code"), "{message}");
        }
        other => panic!("expected DecodeError, got {:?}", other.map(|_| ())),
    }
}

#[test]
fn a_purge_goes_by_who_holds_the_old_version() {
    let mut atoms = AtomTable::new();
    let name = atoms.intern("sample");
    let mut registry = ModuleRegistry::new();
    registry.insert(empty_module(name));
    let current = registry.insert(empty_module(name));
    let again = registry.lookup(name).expect("current version");

    // The current version is held three times, the old one by the registry alone.
    assert_eq!(registry.purge_old(name), Ok(()));
    assert_eq!(current.generation(), again.generation());

    registry.insert(empty_module(name));
    assert_eq!(
        registry.purge_old(name),
        Err(PurgeError::StillReferenced {
            module: name,
            ref_count: 3
        })
    );
    assert_eq!(registry.module_version_count(name), 2);
    drop(current);
    drop(again);
    assert_eq!(registry.purge_old(name), Ok(()));
}

#[test]
fn literals_that_code_brings_are_there_after_loading() {
    // An integer that no term can hold, moved to a register.
    let mut code = vec![64, 0b1101_1001];
    code.extend_from_slice(&i64::MAX.to_be_bytes());
    code.extend_from_slice(&[0x03, 19]);
    let mut atoms = AtomTable::with_common_atoms();
    let parsed = load_beam_chunks(&beam_doing(&code), &mut atoms).expect("module decodes");
    let named = parsed
        .instructions
        .iter()
        .find_map(|instruction| match instruction {
            Instruction::Move {
                source: Operand::Literal(index),
                ..
            } => Some(*index),
            _ => None,
        })
        .expect("a literal is moved");
    assert!(named < parsed.literals.len());
}
