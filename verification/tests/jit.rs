use beamr::atom::{Atom, AtomTable};
use beamr::error::LoadError;
use beamr::jit::aot::{module_checksum, target_hash, AotCompiler, NativeCodeBundle};
use beamr::jit::aot_format::{write_stack_maps, AotError, Reader};
use beamr::jit::compile_job::{CompilationJob, CompilationRequest, JitCacheKey};
use beamr::jit::compiler::{JitCompiler, JitSettings};
use beamr::jit::error::JitError;
use beamr::jit::exceptions::{JitReturn, JIT_STATUS_EXCEPTION, JIT_STATUS_YIELD};
use beamr::jit::float_registers::FloatRegisterMap;
use beamr::jit::little_endian::{push_le, read_le};
use beamr::jit::profiler::{JitProfiler, RecordResult, Speedup, DEFAULT_JIT_THRESHOLD};
use beamr::jit::runtime::{
    charge_reduction, closure_check, closure_words, exception_return,
    native_return, tuple_words, ClosureCheck, ClosureShape, ExecutionOutcome, DEOPT_WORD, YIELD_WORD,
};
use beamr::jit::runtime_call::{CallStep, Caller, ClosureStep, ClosureValue};
use beamr::jit::runtime_binary_build::{builder_words, encode_integer, BinaryBuilder};
use beamr::jit::runtime_binary_match::{
    decode_integer, start_match, started_match, Encoding, Endian, MatchContext, MatchStart,
    MatchWords, SegmentFlags,
};
use beamr::jit::runtime_map::{map_get, map_has_key, map_update, map_word_count};
use beamr::jit::runtime_message::{
    CodePosition, ProcessStatus, Receiver, RECEIVE_STATUS_EMPTY, RECEIVE_STATUS_MESSAGE,
    WAIT_STATUS_NEW_MESSAGE, WAIT_STATUS_TIMEOUT, WAIT_STATUS_WAITING,
};
use beamr::jit::safepoint::SafepointBuilder;
use beamr::jit::type_info::{FunctionSignature, GleamTypeReader, TypeDescriptor};
use beamr::jit::types::{RootLocation, StackMapEntry};
use beamr::loader::decode::compact::Operand;
use beamr::loader::decode::instruction::Instruction;
use beamr::mailbox::Mailbox;
use beamr::module::{
    ExportTable, Module, ModuleOrigin, ModuleRegistry, ResolvedImport, ResolvedImportTarget,
};
use beamr::term::{atom_term, small_term};
use std::collections::HashMap;
use std::sync::Arc;

fn atom(id: u32) -> Atom {
    Atom::new(id)
}

fn small(value: i64) -> i64 {
    small_term(value).expect("test value is a small integer")
}

#[test]
fn records_unique_register_roots_in_operand_order() {
    let mut builder = SafepointBuilder::new();
    builder
        .record_allocation_site(
            7,
            &vec![
                Operand::X(0),
                Operand::Integer(1),
                Operand::Y(2),
                Operand::X(0),
            ],
        )
        .expect("safepoint recorded");

    let maps = builder.finish();
    assert_eq!(maps.len(), 1);
    assert_eq!(maps[0].offset_from_entry, 7);
    assert_eq!(
        maps[0].live_roots,
        vec![RootLocation::Register(0), RootLocation::StackSlot(2)]
    );
}

#[test]
fn float_register_map_stores_separate_slots() {
    let default = u32::MAX as usize;
    let replacement = 7;
    let mut map = FloatRegisterMap::new(default);

    map.set(0, replacement).expect("fr0 is valid");

    assert_eq!(map.get(0), Ok(replacement));
    assert_eq!(map.get(1), Ok(default));
    assert_eq!(
        map.get(16),
        Err(JitError::UnsupportedOperand {
            operand: "float register fr16".to_string()
        })
    );
}

#[test]
fn signatures_are_found_by_name_and_arity() {
    let reader = GleamTypeReader::new(
        "math".to_string(),
        vec![FunctionSignature {
            name: "add".to_string(),
            arity: 2,
            param_types: vec![TypeDescriptor::Int, TypeDescriptor::Int],
            return_type: TypeDescriptor::Int,
        }],
    );
    let signature = reader
        .function_signature("add", 2)
        .expect("signature should exist");

    assert_eq!(
        signature.param_types,
        vec![TypeDescriptor::Int, TypeDescriptor::Int]
    );
    assert_eq!(signature.return_type, TypeDescriptor::Int);
    assert!(reader.function_signature("add", 1).is_none());
    assert_eq!(reader.module_name(), "math");
}

#[test]
fn call_at_threshold_triggers_compile_once() {
    let mut profiler = JitProfiler::new(1000);
    for _ in 0..999 {
        assert_eq!(
            profiler.record_call(atom(1), atom(2), 0),
            RecordResult::Continue
        );
    }

    assert_eq!(
        profiler.record_call(atom(1), atom(2), 0),
        RecordResult::CompileNow
    );
    assert_eq!(
        profiler.record_call(atom(1), atom(2), 0),
        RecordResult::Continue
    );
}

#[test]
fn mark_compiled_prevents_retriggering() {
    let mut profiler = JitProfiler::new(2);
    profiler.mark_compiled(atom(1), atom(2), 0);

    assert_eq!(
        profiler.record_call(atom(1), atom(2), 0),
        RecordResult::Continue
    );
    assert_eq!(
        profiler.record_call(atom(1), atom(2), 0),
        RecordResult::Continue
    );
}

#[test]
fn first_call_to_new_mfa_continues_and_sets_counter() {
    let mut profiler = JitProfiler::new(2);
    assert_eq!(
        profiler.record_call(atom(1), atom(2), 1),
        RecordResult::Continue
    );
    assert_eq!(
        profiler.record_call(atom(1), atom(2), 1),
        RecordResult::CompileNow
    );
}

#[test]
fn default_jit_threshold_is_b130_value() {
    assert_eq!(DEFAULT_JIT_THRESHOLD, 1000);
    assert_eq!(
        JitProfiler::new(DEFAULT_JIT_THRESHOLD).current_threshold(),
        1000
    );
}

fn speedup(factor: f64) -> Speedup {
    if factor > 2.0 {
        Speedup::Strong
    } else if factor < 1.5 {
        Speedup::Weak
    } else {
        Speedup::Moderate
    }
}

#[test]
fn tune_threshold_fast_compile_high_speedup_decreases_threshold() {
    let mut profiler = JitProfiler::new(1000);

    profiler.tune_threshold(5_000, speedup(2.5));

    assert!(profiler.current_threshold() < 1000);
    assert_eq!(profiler.current_threshold(), 750);
}

#[test]
fn tune_threshold_slow_compile_low_speedup_increases_threshold() {
    let mut profiler = JitProfiler::new(1000);

    profiler.tune_threshold(150_000, speedup(1.2));

    assert!(profiler.current_threshold() > 1000);
    assert_eq!(profiler.current_threshold(), 1250);
}

#[test]
fn tune_threshold_never_goes_below_minimum() {
    let mut profiler = JitProfiler::new(101);

    profiler.tune_threshold(1_000, speedup(3.0));

    assert_eq!(profiler.current_threshold(), 100);
}

#[test]
fn tune_threshold_never_goes_above_maximum() {
    let mut profiler = JitProfiler::new(9_999);

    profiler.tune_threshold(200_000, speedup(1.0));

    assert_eq!(profiler.current_threshold(), 10_000);
}

#[test]
fn functions_are_counted_apart_and_counters_can_be_reset() {
    let mut profiler = JitProfiler::new(2);
    assert_eq!(profiler.record_call(atom(1), atom(2), 0), RecordResult::Continue);
    assert_eq!(profiler.record_call(atom(1), atom(2), 1), RecordResult::Continue);
    assert_eq!(profiler.record_call(atom(1), atom(2), 0), RecordResult::CompileNow);
    profiler.reset_counter(atom(1), atom(2), 0);
    assert_eq!(profiler.record_call(atom(1), atom(2), 0), RecordResult::Continue);
    profiler.mark_unsupported(atom(1), atom(2), 0);
    assert!(profiler.is_unsupported(atom(1), atom(2), 0));
    assert!(!profiler.is_compiled(atom(1), atom(2), 0));
    assert!(!profiler.is_unsupported(atom(1), atom(2), 1));
}

#[test]
fn empty_return_function_marks_compiled() {
    let mut compiler = JitCompiler::new(JitSettings);
    let mut profiler = JitProfiler::new(1);
    assert_eq!(
        profiler.record_call(Atom::module(), Atom::ok(), 0),
        RecordResult::CompileNow
    );

    let job = CompilationJob::new(CompilationRequest::new(
        Atom::module(),
        Atom::ok(),
        0,
        1,
        vec![Instruction::Return],
    ));
    let (key, code) = job
        .run(&mut compiler, &mut profiler)
        .expect("function compiles");

    assert!(profiler.is_compiled(Atom::module(), Atom::ok(), 0));
    assert_eq!(
        key,
        JitCacheKey {
            module: Atom::module(),
            function: Atom::ok(),
            arity: 0,
            generation: 1
        }
    );
    assert!(!code.ops.is_empty());
}

#[test]
fn unsupported_function_marks_unsupported() {
    let mut compiler = JitCompiler::new(JitSettings);
    let mut profiler = JitProfiler::new(1);
    assert_eq!(
        profiler.record_call(Atom::module(), Atom::error(), 0),
        RecordResult::CompileNow
    );

    let job = CompilationJob::new(CompilationRequest::new(
        Atom::module(),
        Atom::error(),
        0,
        1,
        vec![Instruction::Generic {
            opcode: 255,
            name: "unknown",
            operands: Vec::new(),
        }],
    ));
    assert!(job.run(&mut compiler, &mut profiler).is_none());

    assert!(profiler.is_unsupported(Atom::module(), Atom::error(), 0));
    for _ in 0..10 {
        assert_eq!(
            profiler.record_call(Atom::module(), Atom::error(), 0),
            RecordResult::Continue
        );
    }
}

#[test]
fn an_empty_function_may_be_tried_again() {
    let mut compiler = JitCompiler::new(JitSettings);
    let mut profiler = JitProfiler::new(1);
    profiler.record_call(Atom::module(), Atom::ok(), 0);
    let job = CompilationJob::new(CompilationRequest::new(
        Atom::module(),
        Atom::ok(),
        0,
        1,
        Vec::new(),
    ));
    assert!(job.run(&mut compiler, &mut profiler).is_none());
    assert_eq!(
        profiler.record_call(Atom::module(), Atom::ok(), 0),
        RecordResult::CompileNow
    );
}

#[test]
fn compile_errors_say_what_is_wrong() {
    let mut compiler = JitCompiler::new(JitSettings);
    let error = compiler
        .compile(&[], Atom::module(), Atom::ok(), 0)
        .expect_err("nothing to compile");
    assert_eq!(error, JitError::EmptyFunction);
    assert_eq!(
        error.describe(),
        "cannot JIT compile an empty instruction slice"
    );
    let error = compiler
        .compile(
            &[Instruction::Jump {
                target: Operand::Label(5),
            }],
            Atom::module(),
            Atom::ok(),
            0,
        )
        .expect_err("no such label");
    assert_eq!(error, JitError::UnknownLabel { label: 5 });
    assert_eq!(error.describe(), "unknown JIT label: 5");
    let error = compiler
        .compile(
            &[Instruction::Move {
                source: Operand::X(0),
                destination: Operand::Integer(1),
            }],
            Atom::module(),
            Atom::ok(),
            0,
        )
        .expect_err("no register");
    assert!(matches!(error, JitError::UnsupportedOperand { .. }));
    assert_eq!(
        JitError::CraneliftError("x".to_string()).describe(),
        "Cranelift JIT error: x"
    );
}

#[test]
fn heap_words_are_counted_without_overflow() {
    assert_eq!(tuple_words(3), Some(4));
    assert_eq!(tuple_words(u64::MAX), None);
    assert_eq!(closure_words(2), Some(9));
    assert_eq!(closure_words(u64::MAX), None);
    assert_eq!(builder_words(0).is_some(), true);
    assert_eq!(map_word_count(2), Some(6));
}

#[test]
fn reductions_are_charged_down_to_zero() {
    let mut left = 2;
    assert!(!charge_reduction(&mut left));
    assert!(charge_reduction(&mut left));
    assert!(charge_reduction(&mut left));
    assert_eq!(left, 0);
}

#[test]
fn only_closures_of_the_right_arity_are_called() {
    let shape = ClosureShape {
        arity: 2,
        num_free: 1,
    };
    assert_eq!(closure_check(Some(shape), 2), ClosureCheck::Call);
    assert_eq!(closure_check(Some(shape), 1), ClosureCheck::BadArity);
    assert_eq!(closure_check(None, 1), ClosureCheck::BadFun);
    assert_eq!(closure_check(None, 256), ClosureCheck::Deopt);
    let (exception, returned) = exception_return(Atom::badfun());
    assert_eq!(returned.status, JIT_STATUS_EXCEPTION);
    assert_eq!(returned.value, exception.reason as u64);
    assert_eq!(
        native_return(JitReturn::normal(4), true),
        JitReturn {
            status: JIT_STATUS_YIELD,
            value: YIELD_WORD
        }
    );
    assert_eq!(native_return(JitReturn::normal(4), false).value, 4);
}

fn caller(reductions: u32) -> Caller {
    Caller {
        registers: vec![0; 1024],
        module: None,
        position: Some(CodePosition {
            module: Atom::module(),
            instruction_pointer: 3,
        }),
        reductions,
        yields: false,
        exception: None,
    }
}

fn module_with_export(name: Atom, function: Atom) -> Module {
    let mut module = Module {
        name,
        generation: 0,
        origin: ModuleOrigin::Preloaded,
        exports: ExportTable::new(),
        label_index: HashMap::new(),
        code: vec![Instruction::Label { label: 1 }, Instruction::Return],
        function_table: vec![(0, function, 1)],
        line_table: Vec::new(),
        literals: Vec::new(),
        resolved_imports: vec![ResolvedImport {
            module: name,
            function,
            arity: 1,
            target: ResolvedImportTarget::Deferred {
                module: name,
                function,
                arity: 1,
            },
        }],
        lambdas: Vec::new(),
        string_table: Vec::new(),
        line_info: Vec::new(),
    };
    module.exports.insert((function, 1), 1);
    module.label_index.insert(1, 0);
    module
}

#[test]
fn calls_of_interpreted_code_come_back_to_their_caller() {
    let mut registry = ModuleRegistry::new();
    let module = registry.insert(module_with_export(Atom::module(), Atom::ok()));
    let name = Atom::module().0 as u64;
    let mut process = caller(2);
    let step = process.begin_interpreted_call(&registry, Some(&module), name, 0, 1, Some(&vec![17]));
    let CallStep::Interpret(saved) = step else {
        panic!("expected the interpreter to run, got {step:?}");
    };
    assert_eq!(process.registers[0], 17);
    assert_eq!(process.position.map(|at| at.instruction_pointer), Some(0));
    let returned = process.leave_interpreted(saved, ExecutionOutcome::Returned);
    assert_eq!(returned, JitReturn::normal(17));
    assert_eq!(process.position.map(|at| at.instruction_pointer), Some(3));

    let step = process.begin_interpreted_call(&registry, Some(&module), name, 0, 1, Some(&vec![18]));
    assert!(matches!(step, CallStep::Return(returned) if returned == JitReturn::yield_(YIELD_WORD)));
    assert!(process.yields);
    assert_eq!(process.position.map(|at| at.instruction_pointer), Some(0));

    for (current, import, arity, args) in [
        (None, 0, 1, Some(vec![1])),
        (Some(&*module), 1, 1, Some(vec![1])),
        (Some(&*module), 0, 0, None),
        (Some(&*module), 0, 1, None),
    ] {
        let mut process = caller(9);
        let step =
            process.begin_interpreted_call(&registry, current, name, import, arity, args.as_ref());
        assert!(
            matches!(step, CallStep::Return(returned) if returned == JitReturn::deopt(DEOPT_WORD))
        );
        assert_eq!(process.reductions, 9);
    }
}

#[test]
fn closures_are_called_with_their_arguments_and_free_variables() {
    let mut registry = ModuleRegistry::new();
    let module = registry.insert(module_with_export(Atom::module(), Atom::ok()));
    let closure = |arity: u8| ClosureValue {
        arity,
        num_free: 2,
        free: vec![8, 9],
    };
    let mut process = caller(5);
    let step = process.begin_closure_call(
        true,
        1,
        Some(&vec![7]),
        Some(closure(1)),
        Some((Arc::clone(&module), 1)),
    );
    let ClosureStep::Enter {
        position, native, ..
    } = step
    else {
        panic!("expected the closure to be entered, got {step:?}");
    };
    assert_eq!(process.registers[..3], [7, 8, 9]);
    assert_eq!(
        native,
        Some(JitCacheKey {
            module: Atom::module(),
            function: Atom::ok(),
            arity: 1,
            generation: 1
        })
    );
    process.enter_native(position);
    process.yields = true;
    assert_eq!(
        process.leave_native(JitReturn::normal(1)),
        JitReturn::yield_(YIELD_WORD)
    );
    assert!(!process.yields);

    let mut process = caller(5);
    let step = process.begin_closure_call(true, 1, Some(&vec![7]), None, None);
    assert!(matches!(step, ClosureStep::Return(returned) if returned.status == JIT_STATUS_EXCEPTION));
    assert_eq!(
        process.exception.map(|exception| exception.reason),
        Some(atom_term(Atom::badfun()))
    );
    let step = process.begin_closure_call(true, 1, Some(&vec![7]), Some(closure(2)), None);
    assert!(matches!(step, ClosureStep::Return(returned) if returned.status == JIT_STATUS_EXCEPTION));
    assert_eq!(
        process.exception.map(|exception| exception.reason),
        Some(atom_term(Atom::badarity()))
    );
    let step = process.begin_closure_call(
        true,
        1,
        Some(&vec![7]),
        Some(closure(1)),
        Some((module, 44)),
    );
    assert!(
        matches!(step, ClosureStep::Return(returned) if returned == JitReturn::deopt(DEOPT_WORD))
    );
}

#[test]
fn maps_are_updated_and_read() {
    let map = map_update(&Vec::new(), &vec![(3, 30), (1, 10), (3, 31)], false)
        .expect("keys may be new");
    assert_eq!(map, vec![(1, 10), (3, 31)]);
    assert_eq!(map_get(&map, 3), Some(31));
    assert_eq!(map_get(&map, 2), None);
    assert!(map_has_key(&map, 1));
    assert_eq!(map_update(&map, &vec![(2, 20)], true), None);
    assert_eq!(
        map_update(&map, &vec![(1, 11)], true),
        Some(vec![(1, 11), (3, 31)])
    );
}

#[test]
fn integers_are_matched_as_they_were_written() {
    assert_eq!(
        decode_integer(
            &[0xff, 0xfe],
            SegmentFlags {
                endian: Endian::Big,
                signed: true
            }
        ),
        Some(-2)
    );
    assert_eq!(
        decode_integer(&[0x01, 0x02], SegmentFlags::from_raw(2)),
        Some(0x0201)
    );
    assert_eq!(
        encode_integer(0x0102, 2, Endian::Little),
        Some(vec![0x02, 0x01])
    );
    let mut builder = BinaryBuilder::new(4);
    assert!(!builder.put_integer(small(-2), 16, 0));
    assert!(builder.put_integer(small(0xfffe), 16, 0));
    assert!(builder.put_integer(small(7), 8, 0));
    assert!(!builder.put_integer(small(7), 16, 0));
    assert!(builder.put_binary(&vec![5]));
    let bytes = builder.finish().expect("whole bytes");
    assert_eq!(bytes, vec![0xff, 0xfe, 7, 5]);
    let mut context = MatchContext::start(bytes).expect("fits");
    assert_eq!(context.remaining_bits(), 32);
    assert_eq!(context.get_integer(16, 4), Some(small(-2)));
    assert!(!context.test_tail(0));
    assert!(context.test_unit(8));
    let found = context.find_binary(8).expect("one byte");
    assert_eq!(context.extracted(found), vec![7]);
    context.accept_binary(found);
    assert_eq!(context.get_integer(8, 0), Some(small(5)));
    assert!(context.test_tail(0));
    assert_eq!(context.get_integer(8, 0), None);
}

#[test]
fn characters_are_matched_as_they_were_written() {
    for encoding in [Encoding::Utf8, Encoding::Utf16, Encoding::Utf32] {
        for codepoint in [0x41i64, 0xe9, 0x20ac, 0x1f600] {
            let mut builder = BinaryBuilder::new(4);
            assert!(builder.put_character(small(codepoint), encoding, 0));
            let bytes = builder.finish().expect("whole bytes");
            if encoding == Encoding::Utf8 {
                let text = char::from_u32(codepoint as u32).expect("character");
                assert_eq!(bytes, text.to_string().into_bytes());
            }
            let mut context = MatchContext::start(bytes).expect("fits");
            assert_eq!(context.get_character(encoding, 0), Some(small(codepoint)));
            assert!(context.test_tail(0));
        }
        let mut builder = BinaryBuilder::new(4);
        assert!(!builder.put_character(small(0xd800), encoding, 0));
    }
}

fn receiver() -> Receiver {
    Receiver {
        pid: 9,
        status: ProcessStatus::Running,
        mailbox: Mailbox::new(),
        code_position: Some(CodePosition {
            module: Atom::module(),
            instruction_pointer: 4,
        }),
        timeout: None,
        timer: None,
        yields: false,
    }
}

#[test]
fn a_message_to_oneself_ends_waiting() {
    let mut process = receiver();
    assert_eq!(process.receive_peek(), (RECEIVE_STATUS_EMPTY, 0));
    assert_eq!(process.receive_wait(), WAIT_STATUS_WAITING);
    assert_eq!(process.status, ProcessStatus::Waiting);
    assert!(process.yields);
    assert_eq!(process.send_message(Some(8), small(1)), small(1));
    assert_eq!(process.status, ProcessStatus::Waiting);
    assert_eq!(process.send_message(Some(9), small(1)), small(1));
    assert_eq!(process.status, ProcessStatus::Running);
    assert_eq!(process.receive_wait(), WAIT_STATUS_NEW_MESSAGE);
    assert_eq!(process.receive_peek(), (RECEIVE_STATUS_MESSAGE, small(1)));
    process.receive_next();
    assert_eq!(process.receive_peek(), (RECEIVE_STATUS_EMPTY, 0));
    assert_eq!(process.receive_wait_timeout(small(0)), WAIT_STATUS_TIMEOUT);
    assert_eq!(process.receive_wait_timeout(small(50)), WAIT_STATUS_WAITING);
    assert_eq!(process.timeout.map(|timeout| timeout.milliseconds), Some(50));
    process.receive_timeout();
    assert_eq!(process.timeout, None);
    assert_eq!(process.receive_peek(), (RECEIVE_STATUS_MESSAGE, small(1)));
    process.receive_accept();
    assert_eq!(process.receive_peek(), (RECEIVE_STATUS_EMPTY, 0));
}

#[test]
fn numbers_are_written_lowest_byte_first() {
    let mut bytes = Vec::new();
    push_le(&mut bytes, 0x0102_0304, 4);
    assert_eq!(bytes, vec![4, 3, 2, 1]);
    assert_eq!(read_le(&bytes, 0, 4), 0x0102_0304);
}

fn push_chunk(bytes: &mut Vec<u8>, tag: &[u8], data: &[u8]) {
    bytes.extend_from_slice(tag);
    bytes.extend_from_slice(&(data.len() as u32).to_be_bytes());
    bytes.extend_from_slice(data);
    while bytes.len() % 4 != 0 {
        bytes.push(0);
    }
}

/// A module `tiny` that exports `main/0`, which returns.
fn tiny_beam() -> Vec<u8> {
    let mut atoms = Vec::new();
    atoms.extend_from_slice(&2i32.to_be_bytes());
    for name in ["tiny", "main"] {
        atoms.push(name.len() as u8);
        atoms.extend_from_slice(name.as_bytes());
    }
    let mut code = Vec::new();
    for word in [16u32, 0, 169, 3, 1] {
        code.extend_from_slice(&word.to_be_bytes());
    }
    code.extend_from_slice(&[1, 0x10, 2, 0x12, 0x22, 0x00, 1, 0x20, 19, 3]);
    let mut exports = Vec::new();
    for word in [1u32, 2, 0, 2] {
        exports.extend_from_slice(&word.to_be_bytes());
    }
    let mut body = Vec::new();
    body.extend_from_slice(b"BEAM");
    push_chunk(&mut body, b"AtU8", &atoms);
    push_chunk(&mut body, b"Code", &code);
    push_chunk(&mut body, b"ExpT", &exports);
    let mut bytes = Vec::new();
    bytes.extend_from_slice(b"FOR1");
    bytes.extend_from_slice(&(body.len() as u32).to_be_bytes());
    bytes.extend_from_slice(&body);
    bytes
}

#[test]
fn compiled_modules_survive_being_bundled() {
    let beam = tiny_beam();
    let result = AotCompiler::new()
        .compile_module_bytes(beam.clone(), None)
        .expect("module compiles");
    assert_eq!(result.module_checksum(), module_checksum(&beam));
    assert_eq!(result.compiled_functions().len(), 1);
    assert_eq!(result.skipped_functions().len(), 0);
    let main = AtomTable::with_common_atoms().len() as u32 + 1;
    assert_eq!(result.compiled_functions()[0].function, Atom(main));

    let bundle = NativeCodeBundle::serialize(&result, "x86_64");
    let functions = NativeCodeBundle::deserialize(&bundle, "x86_64").expect("same target");
    assert_eq!(functions.len(), 1);
    assert_eq!(functions[0].function, Atom(main));
    assert_eq!(
        functions[0].code.ops,
        result.compiled_functions()[0].code.ops
    );
    let (module, functions) =
        NativeCodeBundle::deserialize_for_module(&bundle, "x86_64", &beam).expect("same module");
    assert_eq!(module, result.module());
    assert_eq!(functions.len(), 1);
}

#[test]
fn bundles_are_refused_for_other_targets_and_modules() {
    let beam = tiny_beam();
    let result = AotCompiler::new()
        .compile_module_bytes(beam.clone(), None)
        .expect("module compiles");
    let bundle = NativeCodeBundle::serialize(&result, "x86_64");
    assert!(matches!(
        NativeCodeBundle::deserialize(&bundle, "aarch64"),
        Err(AotError::TargetMismatch { expected, actual })
            if expected == target_hash("aarch64") && actual == target_hash("x86_64")
    ));
    let mut other = beam.clone();
    other.push(0);
    assert!(matches!(
        NativeCodeBundle::deserialize_for_module(&bundle, "x86_64", &other),
        Err(AotError::ChecksumMismatch { .. })
    ));
    let mut damaged = bundle.clone();
    damaged[0] = b'X';
    assert!(matches!(
        NativeCodeBundle::deserialize(&damaged, "x86_64"),
        Err(AotError::InvalidMagic)
    ));
    let mut damaged = bundle.clone();
    damaged[10] = 9;
    assert!(matches!(
        NativeCodeBundle::deserialize(&damaged, "x86_64"),
        Err(AotError::UnsupportedVersion(9))
    ));
    assert!(matches!(
        NativeCodeBundle::deserialize(&bundle[..20], "x86_64"),
        Err(AotError::Malformed(_))
    ));
    assert!(matches!(
        AotCompiler::new().compile_module_bytes(b"garbage".to_vec(), None),
        Err(AotError::Load(LoadError::InvalidFormat))
    ));
    assert_eq!(
        AotError::TargetMismatch {
            expected: 0x1f,
            actual: 0xa0
        }
        .describe(),
        "AOT target mismatch: expected hash 0x1f, got 0xa0"
    );
    assert_eq!(
        AotError::UnsupportedVersion(9).describe(),
        "unsupported AOT version 9"
    );
}

#[test]
fn code_is_kept_before_a_function_counts_as_compiled() {
    let mut compiler = JitCompiler::new(JitSettings);
    let mut profiler = JitProfiler::new(1);
    profiler.record_call(Atom::module(), Atom::ok(), 0);
    let job = CompilationJob::new(CompilationRequest::new(
        Atom::module(),
        Atom::ok(),
        0,
        1,
        vec![Instruction::Return],
    ));
    let (key, code) = job.lower(&mut compiler);
    assert!(code.is_ok());
    assert!(!profiler.is_compiled(Atom::module(), Atom::ok(), 0));
    key.settle(&mut profiler, None);
    assert!(profiler.is_compiled(Atom::module(), Atom::ok(), 0));
    key.settle(&mut profiler, Some(&JitError::CraneliftError("no memory".to_string())));
    assert!(!profiler.is_compiled(Atom::module(), Atom::ok(), 0));
    key.settle(&mut profiler, Some(&JitError::UnknownLabel { label: 3 }));
    assert!(profiler.is_unsupported(Atom::module(), Atom::ok(), 0));
}

#[test]
fn a_match_starts_at_the_first_bit() {
    assert_eq!(start_match(false, Some(3)), MatchStart::Answer(0));
    assert_eq!(start_match(true, None), MatchStart::Answer(0));
    assert_eq!(start_match(true, Some(usize::MAX)), MatchStart::Answer(0));
    assert_eq!(
        start_match(true, Some(3)),
        MatchStart::Allocate {
            words: 4,
            total_bits: 24
        }
    );
    assert_eq!(started_match(0, 24, 44), None);
    assert_eq!(
        started_match(64, 24, 44),
        Some(MatchWords {
            position_bits: 0,
            total_bits: 24,
            source: 44,
            term: 68
        })
    );
}

#[test]
fn stack_maps_are_read_back_up_to_what_follows() {
    let maps = vec![
        StackMapEntry {
            offset_from_entry: 4,
            live_roots: vec![RootLocation::Register(7), RootLocation::StackSlot(-3)],
        },
        StackMapEntry {
            offset_from_entry: 9,
            live_roots: Vec::new(),
        },
    ];
    let mut bytes = Vec::new();
    write_stack_maps(&mut bytes, &maps);
    assert_eq!(bytes[..4], 2u32.to_le_bytes());
    let mut reader = Reader::new(&bytes);
    assert!(!reader.is_empty());
    assert_eq!(reader.read_stack_maps().expect("maps"), maps);
    assert!(reader.is_empty());
    bytes.extend_from_slice(&[1, 2]);
    let mut reader = Reader::new(&bytes);
    assert_eq!(reader.read_stack_maps().expect("maps"), maps);
    assert!(!reader.is_empty());
    assert!(reader.read_stack_maps().is_err());
}

#[test]
fn a_site_that_cannot_be_recorded_leaves_the_maps() {
    let mut builder = SafepointBuilder::new();
    builder
        .record_allocation_site(1, &vec![Operand::X(3)])
        .expect("safepoint recorded");
    assert!(builder
        .record_allocation_site(2, &vec![Operand::X(4), Operand::X(1024)])
        .is_err());
    assert_eq!(
        builder.finish(),
        vec![StackMapEntry {
            offset_from_entry: 1,
            live_roots: vec![RootLocation::Register(3)],
        }]
    );
}

#[test]
fn compiled_functions_have_names_of_their_own() {
    let mut compiler = AotCompiler::new();
    let first = compiler
        .compile_module_bytes(tiny_beam(), None)
        .expect("module compiles");
    let second = compiler
        .compile_module_bytes(tiny_beam(), None)
        .expect("module compiles");
    let name = |result: &beamr::jit::aot::AotResult| result.compiled_functions()[0].code.name.clone();
    assert!(name(&first).ends_with("_0"));
    assert!(name(&second).ends_with("_1"));
}
