use beamr::atom::Atom;
use beamr::jit::common::JIT_DEOPT_SENTINEL;
use beamr::jit::compiler::{FunctionIr, JitCompiler, JitSettings};
use beamr::jit::error::JitError;
use beamr::jit::exceptions::{
    JitReturn, JIT_STATUS_DEOPT, JIT_STATUS_EXCEPTION, JIT_STATUS_NORMAL, JIT_STATUS_YIELD,
};
use beamr::jit::helper::{declare_plain_helpers, Helper};
use beamr::jit::ir::{Args, BinaryCode, ImmCode, IntCc, IrOp};
use beamr::jit::register::X_REGISTER_COUNT;
use beamr::jit::runtime::{
    charge_reduction, interpreted_return, interpreted_target, tuple_words, Exception,
    ExecutionOutcome, CONS_WORDS, DEOPT_WORD, YIELD_WORD,
};
use beamr::jit::type_info::{FunctionSignature, TypeDescriptor};
use beamr::jit::types::RootLocation;
use beamr::loader::decode::compact::Operand;
use beamr::loader::decode::instruction::{BifOp, ComparisonOp, Instruction, TypeTestOp};
use beamr::module::{
    ExportTable, Module, ModuleOrigin, ModuleRegistry, ResolvedImport, ResolvedImportTarget,
};
use beamr::term::{
    atom_term, small_term, BOXED_TAG, FLOAT_HEADER_TAG, LIST_TAG, NIL_TERM,
    SMALL_INT_MAX, TUPLE_HEADER_TAG,
};
use std::collections::HashMap;
use std::sync::Arc;

const NIL: u64 = NIL_TERM as u64;
const REGISTERS: u64 = 0x1000_0000;
const STACK: u64 = 0x2000_0000;
const HEAP: u64 = 0x4000_0000;

fn small(value: i64) -> u64 {
    small_term(value).expect("test value is a small integer") as u64
}

fn atom(atom: Atom) -> u64 {
    atom_term(atom) as u64
}

/// A process whose heap moves when it is full.
struct Process {
    base: u64,
    heap: Vec<u64>,
    capacity: usize,
    reductions: u32,
    exception: Option<Exception>,
    frames: Vec<(u64, u64, u64)>,
    context: Option<(Arc<Module>, ModuleRegistry)>,
}

impl Process {
    fn new(_pid: u64, capacity: usize) -> Process {
        Process {
            base: HEAP,
            heap: Vec::new(),
            capacity,
            reductions: 4000,
            exception: None,
            frames: Vec::new(),
            context: None,
        }
    }

    fn word(&self, address: u64) -> u64 {
        self.heap[((address - self.base) / 8) as usize]
    }

    fn reserve(&mut self, words: usize, registers: &mut [u64]) -> u64 {
        if self.heap.len() + words > self.capacity {
            self.collect(registers);
            self.capacity = (self.heap.len() + words).max(self.capacity);
        }
        let address = self.base + 8 * self.heap.len() as u64;
        self.heap.resize(self.heap.len() + words, 0);
        address
    }

    fn collect(&mut self, registers: &mut [u64]) {
        let mut moved = Process::new(0, 0);
        moved.base = self.base + 0x10_0000;
        for register in registers.iter_mut() {
            *register = self.move_to(*register, &mut moved);
        }
        self.base = moved.base;
        self.heap = moved.heap;
    }

    fn move_to(&self, term: u64, to: &mut Process) -> u64 {
        let tag = term & 7;
        if tag != BOXED_TAG as u64 && tag != LIST_TAG as u64 {
            return term;
        }
        let address = term & !7;
        let (fixed, count) = if tag == LIST_TAG as u64 {
            (0, 2)
        } else {
            (1, 1 + (self.word(address) >> 8))
        };
        let at = to.heap.len();
        for i in 0..count {
            to.heap.push(self.word(address + 8 * i));
        }
        for i in fixed..count {
            let element = self.move_to(self.word(address + 8 * i), to);
            to.heap[at + i as usize] = element;
        }
        (to.base + 8 * at as u64) | tag
    }

    fn put_cons(&mut self, head: u64, tail: u64) -> u64 {
        let address = self.reserve(2, &mut []);
        let at = ((address - self.base) / 8) as usize;
        self.heap[at] = head;
        self.heap[at + 1] = tail;
        address | LIST_TAG as u64
    }

    fn put_tuple(&mut self, elements: &[u64]) -> u64 {
        let address = self.reserve(1 + elements.len(), &mut []);
        let at = ((address - self.base) / 8) as usize;
        self.heap[at] = ((elements.len() as u64) << 8) | TUPLE_HEADER_TAG as u64;
        self.heap[at + 1..at + 1 + elements.len()].copy_from_slice(elements);
        address | BOXED_TAG as u64
    }

    fn cons(&self, term: u64) -> (u64, u64) {
        assert_eq!(term & 7, LIST_TAG as u64);
        (self.word(term & !7), self.word((term & !7) + 8))
    }

    fn tuple(&self, term: u64) -> Vec<u64> {
        assert_eq!(term & 7, BOXED_TAG as u64);
        let header = self.word(term & !7);
        assert_eq!(header & 0xff, TUPLE_HEADER_TAG as u64);
        (1..=header >> 8)
            .map(|i| self.word((term & !7) + 8 * i))
            .collect()
    }

    /// Runs interpreted code that moves registers, raises and returns.
    fn interpret(&mut self, code: &[Instruction], start: usize, registers: &mut [u64]) -> ExecutionOutcome {
        let mut ip = start;
        loop {
            match &code[ip] {
                Instruction::Label { .. } => {}
                Instruction::Move {
                    source: Operand::X(from),
                    destination: Operand::X(to),
                } => registers[*to as usize] = registers[*from as usize],
                Instruction::RawRaise => {
                    self.exception = Some(Exception {
                        class: registers[0] as i64,
                        reason: registers[1] as i64,
                        stacktrace: registers[2] as i64,
                    });
                    return ExecutionOutcome::Exited;
                }
                Instruction::Return => return ExecutionOutcome::Returned,
                other => panic!("unexpected instruction {other:?}"),
            }
            ip += 1;
        }
    }

    fn call_interpreted(&mut self, args: &[u64], registers: &mut [u64]) -> JitReturn {
        let deopt = JitReturn {
            status: JIT_STATUS_DEOPT,
            value: DEOPT_WORD,
        };
        let Some((module, registry)) = self.context.take() else {
            return deopt;
        };
        let target = interpreted_target(&registry, &module, args[1], args[2], args[3]);
        self.context = Some((module, registry));
        let Some(target) = target else {
            return deopt;
        };
        let outcome = self.interpret(&target.module.code, target.instruction_pointer, registers);
        let reason = self.exception.map(|exception| exception.reason as u64);
        interpreted_return(outcome, reason, registers[0])
    }

    fn call(&mut self, helper: Helper, args: &[u64], registers: &mut [u64]) -> Vec<u64> {
        match helper {
            Helper::AllocTuple => {
                let words = tuple_words(args[1]).expect("tuple fits");
                vec![self.reserve(words, registers)]
            }
            Helper::AllocCons => vec![self.reserve(CONS_WORDS, registers)],
            Helper::BoxFloat => {
                let address = self.reserve(2, registers);
                let at = ((address - self.base) / 8) as usize;
                self.heap[at] = (1 << 8) | FLOAT_HEADER_TAG as u64;
                self.heap[at + 1] = args[1];
                vec![address | BOXED_TAG as u64]
            }
            Helper::ChargeReduction => vec![charge_reduction(&mut self.reductions) as u64],
            Helper::CallInterpreted => {
                let returned = self.call_interpreted(args, registers);
                vec![returned.status as u64, returned.value]
            }
            Helper::ExceptionClass => vec![self.exception.expect("exception").class as u64],
            Helper::ExceptionReason => vec![self.exception.expect("exception").reason as u64],
            Helper::ExceptionTrace => vec![self.exception.expect("exception").stacktrace as u64],
            Helper::ClearException => {
                self.exception = None;
                vec![]
            }
            Helper::AddCompiledFrame => {
                self.frames.push((args[1], args[2], args[3]));
                vec![]
            }
            other => panic!("unexpected helper {other:?}"),
        }
    }
}

fn compare(cc: IntCc, left: u64, right: u64) -> u64 {
    let (a, b) = (left as i64, right as i64);
    (match cc {
        IntCc::Equal => a == b,
        IntCc::NotEqual => a != b,
        IntCc::SignedLessThan => a < b,
        IntCc::SignedGreaterThan => a > b,
        IntCc::SignedGreaterThanOrEqual => a >= b,
        IntCc::UnsignedLessThan => left < right,
    }) as u64
}

fn binary(code: BinaryCode, left: u64, right: u64) -> u64 {
    let (a, b) = (left as i64, right as i64);
    let (x, y) = (f64::from_bits(left), f64::from_bits(right));
    match code {
        BinaryCode::Iadd => a.wrapping_add(b) as u64,
        BinaryCode::Isub => a.wrapping_sub(b) as u64,
        BinaryCode::Sdiv => a.checked_div(b).expect("division does not trap") as u64,
        BinaryCode::Srem => a.checked_rem(b).expect("division does not trap") as u64,
        BinaryCode::Band => left & right,
        BinaryCode::Bor => left | right,
        BinaryCode::Bxor => left ^ right,
        BinaryCode::Fadd => (x + y).to_bits(),
        BinaryCode::Fsub => (x - y).to_bits(),
        BinaryCode::Fmul => (x * y).to_bits(),
        BinaryCode::Fdiv => (x / y).to_bits(),
    }
}

/// Runs lowered code on the registers.
fn run(native: &FunctionIr, registers: &mut [u64], process: &mut Process) -> JitReturn {
    let mut bodies: HashMap<usize, Vec<usize>> = HashMap::new();
    let mut params: HashMap<usize, Vec<usize>> = HashMap::new();
    let mut entry = None;
    let mut current = None;
    for (at, op) in native.ops.iter().enumerate() {
        match *op {
            IrOp::Block => {}
            IrOp::Param { block, .. } => params.entry(block).or_default().push(at),
            IrOp::Switch { block } => {
                entry.get_or_insert(block);
                assert!(bodies.insert(block, Vec::new()).is_none(), "block is filled once");
                current = Some(block);
            }
            _ => bodies
                .get_mut(&current.expect("operation is in a block"))
                .expect("block is known")
                .push(at),
        }
    }
    let mut values: Vec<Vec<u64>> = vec![Vec::new(); native.ops.len()];
    let mut stack: HashMap<u64, u64> = HashMap::new();
    let mut stack_top = STACK;
    let mut block = entry.expect("code has an entry");
    values[params[&block][0]] = vec![REGISTERS];
    values[params[&block][1]] = vec![0xbeef];
    for _ in 0..100_000 {
        let mut next = None;
        for &at in &bodies[&block] {
            let value = |v: usize, values: &Vec<Vec<u64>>| values[v][0];
            match native.ops[at] {
                IrOp::Block | IrOp::Param { .. } | IrOp::Switch { .. } => {}
                IrOp::Iconst { value, .. } => values[at] = vec![value as u64],
                IrOp::Fconst { bits } => values[at] = vec![bits],
                IrOp::Binary { code, left, right } => {
                    values[at] = vec![binary(code, value(left, &values), value(right, &values))]
                }
                IrOp::BinaryImm { code, left, imm } => {
                    let left = value(left, &values);
                    values[at] = vec![match code {
                        ImmCode::Band => left & imm as u64,
                        ImmCode::Bor => left | imm as u64,
                        ImmCode::Ishl => left << imm,
                        ImmCode::Sshr => ((left as i64) >> imm) as u64,
                        ImmCode::Ushr => left >> imm,
                    }]
                }
                IrOp::Compare { cc, left, right } => {
                    values[at] = vec![compare(cc, value(left, &values), value(right, &values))]
                }
                IrOp::CompareImm { cc, left, imm } => {
                    values[at] = vec![compare(cc, value(left, &values), imm as u64)]
                }
                IrOp::Unordered { left, right } => {
                    values[at] = vec![(f64::from_bits(value(left, &values)).is_nan()
                        || f64::from_bits(value(right, &values)).is_nan())
                        as u64]
                }
                IrOp::SmulOverflow { left, right } => {
                    let (product, overflow) = (value(left, &values) as i64)
                        .overflowing_mul(value(right, &values) as i64);
                    values[at] = vec![product as u64, overflow as u64]
                }
                IrOp::Fneg { value: v } => {
                    values[at] = vec![(-f64::from_bits(value(v, &values))).to_bits()]
                }
                IrOp::FcvtFromSint { value: v } => {
                    values[at] = vec![(value(v, &values) as i64 as f64).to_bits()]
                }
                IrOp::Bitcast { value: v } => values[at] = vec![value(v, &values)],
                IrOp::Load { base, offset, .. } => {
                    let address = value(base, &values).wrapping_add(offset as u64);
                    values[at] = vec![if address >= HEAP {
                        process.word(address)
                    } else if address >= STACK {
                        stack[&address]
                    } else {
                        registers[((address - REGISTERS) / 8) as usize]
                    }]
                }
                IrOp::Store {
                    value: v,
                    base,
                    offset,
                } => {
                    let address = value(base, &values).wrapping_add(offset as u64);
                    let word = value(v, &values);
                    if address >= HEAP {
                        let index = ((address - process.base) / 8) as usize;
                        process.heap[index] = word;
                    } else if address >= STACK {
                        stack.insert(address, word);
                    } else {
                        registers[((address - REGISTERS) / 8) as usize] = word;
                    }
                }
                IrOp::StackSlot { words } => {
                    values[at] = vec![stack_top];
                    stack_top += 8 * words as u64;
                }
                IrOp::Call { helper, args } => {
                    let args = match args {
                        Args::One(a) => vec![a],
                        Args::Two(a, b) => vec![a, b],
                        Args::Three(a, b, c) => vec![a, b, c],
                        Args::Four(a, b, c, d) => vec![a, b, c, d],
                        Args::Five(a, b, c, d, e) => vec![a, b, c, d, e],
                    };
                    let args: Vec<u64> = args.iter().map(|v| value(*v, &values)).collect();
                    values[at] = process.call(helper, &args, registers);
                }
                IrOp::Result { of, index } => values[at] = vec![values[of][index]],
                IrOp::Jump { block } => next = Some(block),
                IrOp::JumpWith { block, value: v } => {
                    let passed = value(v, &values);
                    values[params[&block][0]] = vec![passed];
                    next = Some(block);
                }
                IrOp::Brif {
                    condition,
                    then_block,
                    else_block,
                } => {
                    next = Some(if value(condition, &values) != 0 {
                        then_block
                    } else {
                        else_block
                    })
                }
                IrOp::Return { value: v } => {
                    return JitReturn {
                        status: JIT_STATUS_NORMAL,
                        value: value(v, &values),
                    }
                }
                IrOp::ReturnStatus { status, value: v } => {
                    return JitReturn {
                        status: value(status, &values) as u8,
                        value: value(v, &values),
                    }
                }
            }
            if next.is_some() {
                break;
            }
        }
        block = next.expect("block ends with a jump or a return");
    }
    panic!("code does not end");
}

fn call_native(native: &FunctionIr, registers: &mut [u64]) -> u64 {
    let mut process = Process::new(0, 233);
    call_native_with_process(native, registers, &mut process)
}

fn call_native_with_process(native: &FunctionIr, registers: &mut [u64], process: &mut Process) -> u64 {
    let returned = run(native, registers, process);
    assert_eq!(returned.status, JIT_STATUS_NORMAL);
    returned.value
}

fn call_native_status(native: &FunctionIr, registers: &mut [u64], process: &mut Process) -> JitReturn {
    run(native, registers, process)
}

fn test_module(name: Atom, code: Vec<Instruction>) -> Module {
    let label_index = code
        .iter()
        .enumerate()
        .filter_map(|(ip, instruction)| match instruction {
            Instruction::Label { label } => Some((*label, ip)),
            _ => None,
        })
        .collect();
    Module {
        name,
        generation: 0,
        origin: ModuleOrigin::Preloaded,
        exports: ExportTable::new(),
        label_index,
        code,
        function_table: Vec::new(),
        line_table: Vec::new(),
        literals: Vec::new(),
        resolved_imports: Vec::new(),
        lambdas: Vec::new(),
        string_table: Vec::new(),
        line_info: Vec::new(),
    }
}

#[test]
fn compiles_return_only_function() {
    let mut compiler = JitCompiler::new(JitSettings);
    let native = compiler
        .compile(&[Instruction::Return], Atom::module(), Atom::ok(), 0)
        .unwrap();

    assert!(!native.ops.is_empty());
    assert!(native.stack_maps.is_empty());
}

#[test]
fn compiled_move_writes_register_file() {
    let mut compiler = JitCompiler::new(JitSettings);
    let native = compiler
        .compile(
            &[
                Instruction::Move {
                    source: Operand::Integer(42),
                    destination: Operand::X(1),
                },
                Instruction::Move {
                    source: Operand::X(1),
                    destination: Operand::Y(0),
                },
                Instruction::Return,
            ],
            Atom::module(),
            Atom::ok(),
            0,
        )
        .unwrap();
    let mut registers = vec![0; X_REGISTER_COUNT as usize + 1];
    let returned = call_native(&native, &mut registers);

    assert_eq!(returned, 0);
    assert_eq!(registers[1], small(42));
    assert_eq!(
        registers[X_REGISTER_COUNT as usize],
        small(42)
    );
}

#[test]
fn compiled_swap_reads_before_writing() {
    let mut compiler = JitCompiler::new(JitSettings);
    let native = compiler
        .compile(
            &[
                Instruction::Swap {
                    left: Operand::X(0),
                    right: Operand::X(1),
                },
                Instruction::Return,
            ],
            Atom::module(),
            Atom::ok(),
            0,
        )
        .unwrap();
    let mut registers = vec![small(2), small(3)];
    let returned = call_native(&native, &mut registers);

    assert_eq!(returned, small(3));
    assert_eq!(registers[0], small(3));
    assert_eq!(registers[1], small(2));
}

#[test]
fn compiled_add_returns_small_int_result() {
    let mut compiler = JitCompiler::new(JitSettings);
    let native = compiler
        .compile(
            &[
                Instruction::Bif {
                    op: BifOp::Bif2,
                    operands: vec![
                        Operand::Label(9),
                        Operand::Unsigned(0),
                        Operand::Integer(2),
                        Operand::Integer(3),
                        Operand::X(0),
                    ],
                },
                Instruction::Return,
                Instruction::Label { label: 9 },
                Instruction::Return,
            ],
            Atom::module(),
            Atom::ok(),
            0,
        )
        .unwrap();
    let mut registers = vec![0; 1];
    let returned = call_native(&native, &mut registers);

    assert_eq!(returned, small(5));
    assert_eq!(registers[0], small(5));
}

fn int_int_signature(name: &str) -> FunctionSignature {
    FunctionSignature {
        name: name.to_owned(),
        arity: 2,
        param_types: vec![TypeDescriptor::Int, TypeDescriptor::Int],
        return_type: TypeDescriptor::Int,
    }
}

#[test]
fn typed_add_returns_small_int_result() {
    let mut compiler = JitCompiler::new(JitSettings);
    let signature = int_int_signature("add");
    let native = compiler
        .compile_typed(
            &[
                Instruction::Bif {
                    op: BifOp::Bif2,
                    operands: vec![
                        Operand::Label(9),
                        Operand::Unsigned(0),
                        Operand::X(0),
                        Operand::X(1),
                        Operand::X(0),
                    ],
                },
                Instruction::Return,
                Instruction::Label { label: 9 },
                Instruction::Return,
            ],
            Atom::module(),
            Atom::ok(),
            2,
            signature,
        )
        .unwrap();
    let mut registers = vec![small(5), small(3)];
    let returned = call_native(&native, &mut registers);

    assert_eq!(returned, small(8));
}

#[test]
fn typed_add_overflow_deopts_for_bignum_promotion() {
    let mut compiler = JitCompiler::new(JitSettings);
    let signature = int_int_signature("add");
    let native = compiler
        .compile_typed(
            &[
                Instruction::Bif {
                    op: BifOp::Bif2,
                    operands: vec![
                        Operand::Label(9),
                        Operand::Unsigned(0),
                        Operand::X(0),
                        Operand::X(1),
                        Operand::X(0),
                    ],
                },
                Instruction::Return,
                Instruction::Label { label: 9 },
                Instruction::Return,
            ],
            Atom::module(),
            Atom::ok(),
            2,
            signature,
        )
        .unwrap();
    let mut registers = vec![
        small(SMALL_INT_MAX),
        small(1),
    ];
    let mut process = Process::new(0, 233);
    let returned = call_native_status(&native, &mut registers, &mut process);

    assert_eq!(returned.status, JIT_STATUS_DEOPT);
    assert_eq!(returned.value, JIT_DEOPT_SENTINEL as u64);
}

#[test]
fn typed_div_by_zero_takes_badarith_fail_label() {
    let mut compiler = JitCompiler::new(JitSettings);
    let signature = int_int_signature("div");
    let native = compiler
        .compile_typed(
            &[
                Instruction::Bif {
                    op: BifOp::Bif2,
                    operands: vec![
                        Operand::Label(9),
                        Operand::Unsigned(3),
                        Operand::X(0),
                        Operand::X(1),
                        Operand::X(0),
                    ],
                },
                Instruction::Return,
                Instruction::Label { label: 9 },
                Instruction::Move {
                    source: Operand::Atom(Some(Atom::badarith())),
                    destination: Operand::X(0),
                },
                Instruction::Return,
            ],
            Atom::module(),
            Atom::ok(),
            2,
            signature,
        )
        .unwrap();
    let mut registers = vec![small(10), small(0)];
    let returned = call_native(&native, &mut registers);

    assert_eq!(returned, atom(Atom::badarith()));
}

#[test]
fn typed_mixed_known_unknown_arithmetic_materializes_known_operand_for_untyped_fallback() {
    let mut compiler = JitCompiler::new(JitSettings);
    let signature = FunctionSignature {
        name: "mixed_add".to_owned(),
        arity: 2,
        param_types: vec![TypeDescriptor::Int, TypeDescriptor::String],
        return_type: TypeDescriptor::String,
    };
    let native = compiler
        .compile_typed(
            &[
                Instruction::Bif {
                    op: BifOp::Bif2,
                    operands: vec![
                        Operand::Label(9),
                        Operand::Unsigned(0),
                        Operand::X(0),
                        Operand::X(1),
                        Operand::X(0),
                    ],
                },
                Instruction::Return,
                Instruction::Label { label: 9 },
                Instruction::Move {
                    source: Operand::Integer(99),
                    destination: Operand::X(0),
                },
                Instruction::Return,
            ],
            Atom::module(),
            Atom::ok(),
            2,
            signature,
        )
        .unwrap();
    let mut registers = vec![small(5), small(3)];
    let returned = call_native(&native, &mut registers);

    assert_eq!(returned, small(8));
}

#[test]
fn typed_div_min_by_minus_one_completes_without_overflow() {
    let mut compiler = JitCompiler::new(JitSettings);
    let native = compiler
        .compile_typed(
            &[
                Instruction::Bif {
                    op: BifOp::Bif2,
                    operands: vec![
                        Operand::Label(9),
                        Operand::Unsigned(3),
                        Operand::X(0),
                        Operand::X(1),
                        Operand::X(0),
                    ],
                },
                Instruction::Return,
                Instruction::Label { label: 9 },
                Instruction::Return,
            ],
            Atom::module(),
            Atom::ok(),
            2,
            int_int_signature("div"),
        )
        .unwrap();
    // i64::MIN as a tagged value has payload i64::MIN >> 3, which is NOT
    // i64::MIN itself — so the sdiv overflow guard (i64::MIN / -1) cannot
    // fire for valid small-int inputs. Verify it completes normally.
    let mut registers = vec![i64::MIN as u64, (-1i64) as u64];
    let returned = call_native(&native, &mut registers);

    assert_ne!(returned, JIT_DEOPT_SENTINEL as u64);
}

#[test]
fn typed_rem_by_zero_takes_badarith_fail_label() {
    let mut compiler = JitCompiler::new(JitSettings);
    let native = compiler
        .compile_typed(
            &[
                Instruction::Bif {
                    op: BifOp::Bif2,
                    operands: vec![
                        Operand::Label(9),
                        Operand::Unsigned(4),
                        Operand::X(0),
                        Operand::X(1),
                        Operand::X(0),
                    ],
                },
                Instruction::Return,
                Instruction::Label { label: 9 },
                Instruction::Move {
                    source: Operand::Atom(Some(Atom::badarith())),
                    destination: Operand::X(0),
                },
                Instruction::Return,
            ],
            Atom::module(),
            Atom::ok(),
            2,
            int_int_signature("rem"),
        )
        .unwrap();
    let mut registers = vec![small(10), small(0)];
    let returned = call_native(&native, &mut registers);

    assert_eq!(returned, atom(Atom::badarith()));
}

#[test]
fn compiled_add_at_end_falls_through_to_return_x0() {
    let mut compiler = JitCompiler::new(JitSettings);
    let native = compiler
        .compile(
            &[
                Instruction::Label { label: 1 },
                Instruction::Bif {
                    op: BifOp::Bif2,
                    operands: vec![
                        Operand::Label(9),
                        Operand::Unsigned(0),
                        Operand::Integer(2),
                        Operand::Integer(3),
                        Operand::X(0),
                    ],
                },
                Instruction::Label { label: 9 },
                Instruction::Return,
            ],
            Atom::module(),
            Atom::ok(),
            0,
        )
        .unwrap();
    let mut registers = vec![0; 1];
    let returned = call_native(&native, &mut registers);

    assert_eq!(returned, small(5));
}

#[test]
fn compiled_multiply_overflow_takes_fail_label() {
    let mut compiler = JitCompiler::new(JitSettings);
    let native = compiler
        .compile(
            &[
                Instruction::Bif {
                    op: BifOp::Bif2,
                    operands: vec![
                        Operand::Label(9),
                        Operand::Unsigned(2),
                        Operand::Integer(SMALL_INT_MAX),
                        Operand::Integer(SMALL_INT_MAX),
                        Operand::X(0),
                    ],
                },
                Instruction::Return,
                Instruction::Label { label: 9 },
                Instruction::Move {
                    source: Operand::Integer(99),
                    destination: Operand::X(0),
                },
                Instruction::Return,
            ],
            Atom::module(),
            Atom::ok(),
            0,
        )
        .unwrap();
    let mut registers = vec![0; 1];
    let returned = call_native(&native, &mut registers);

    assert_eq!(returned, small(99));
}

#[test]
fn compiled_branch_takes_fail_label_on_false_comparison() {
    let mut compiler = JitCompiler::new(JitSettings);
    let native = compiler
        .compile(
            &[
                Instruction::Comparison {
                    op: ComparisonOp::EqExact,
                    fail: Operand::Label(7),
                    left: Operand::Integer(1),
                    right: Operand::Integer(2),
                },
                Instruction::Move {
                    source: Operand::Integer(10),
                    destination: Operand::X(0),
                },
                Instruction::Return,
                Instruction::Label { label: 7 },
                Instruction::Move {
                    source: Operand::Integer(20),
                    destination: Operand::X(0),
                },
                Instruction::Return,
            ],
            Atom::module(),
            Atom::ok(),
            0,
        )
        .unwrap();
    let mut registers = vec![0; 1];
    let returned = call_native(&native, &mut registers);

    assert_eq!(returned, small(20));
}

#[test]
fn compiled_put_list_emits_safepoint_and_allocates_cons() {
    let mut compiler = JitCompiler::new(JitSettings);
    let native = compiler
        .compile(
            &[
                Instruction::PutList {
                    head: Operand::X(0),
                    tail: Operand::Atom(None),
                    destination: Operand::X(1),
                },
                Instruction::Return,
            ],
            Atom::module(),
            Atom::ok(),
            0,
        )
        .unwrap();

    assert_eq!(native.stack_maps.len(), 1);
    assert_eq!(native.stack_maps[0].offset_from_entry, 0);
    assert_eq!(
        native.stack_maps[0].live_roots,
        vec![RootLocation::Register(0), RootLocation::Register(1)]
    );

    let mut process = Process::new(0, 233);
    let mut registers = vec![small(7), NIL];
    let returned = call_native_with_process(&native, &mut registers, &mut process);

    assert_eq!(returned, small(7));
    let (head, tail) = process.cons(registers[1]);
    assert_eq!(head, small(7));
    assert_eq!(tail, NIL);
}

#[test]
fn compiled_get_list_destructures_constructed_cons() {
    let mut compiler = JitCompiler::new(JitSettings);
    let native = compiler
        .compile(
            &[
                Instruction::PutList {
                    head: Operand::Integer(11),
                    tail: Operand::Atom(None),
                    destination: Operand::X(1),
                },
                Instruction::GetList {
                    source: Operand::X(1),
                    head: Operand::X(2),
                    tail: Operand::X(3),
                },
                Instruction::Move {
                    source: Operand::X(2),
                    destination: Operand::X(0),
                },
                Instruction::Return,
            ],
            Atom::module(),
            Atom::ok(),
            0,
        )
        .unwrap();

    assert_eq!(native.stack_maps.len(), 1);
    let mut process = Process::new(0, 233);
    let mut registers = vec![0; 4];
    let returned = call_native_with_process(&native, &mut registers, &mut process);

    assert_eq!(returned, small(11));
    assert_eq!(registers[2], small(11));
    assert_eq!(registers[3], NIL);
}

#[test]
fn typed_put_list_stores_tagged_int_and_typed_head_load_returns_tagged_result() {
    let mut compiler = JitCompiler::new(JitSettings);
    let signature = FunctionSignature {
        name: "typed_list".to_owned(),
        arity: 1,
        param_types: vec![TypeDescriptor::Int],
        return_type: TypeDescriptor::Int,
    };
    let native = compiler
        .compile_typed(
            &[
                Instruction::PutList {
                    head: Operand::X(0),
                    tail: Operand::Atom(None),
                    destination: Operand::X(1),
                },
                Instruction::GetHd {
                    source: Operand::X(1),
                    destination: Operand::X(0),
                },
                Instruction::Return,
            ],
            Atom::module(),
            Atom::ok(),
            1,
            signature,
        )
        .unwrap();

    assert_eq!(native.stack_maps.len(), 1);
    let mut process = Process::new(0, 233);
    let mut registers = vec![small(31), 0];
    let returned = call_native_with_process(&native, &mut registers, &mut process);

    assert_eq!(returned, small(31));
    let (head, _) = process.cons(registers[1]);
    assert_eq!(head, small(31));
}

#[test]
fn compiled_get_list_read_is_pure_and_emits_no_safepoint() {
    let mut compiler = JitCompiler::new(JitSettings);
    let native = compiler
        .compile(
            &[
                Instruction::GetList {
                    source: Operand::X(1),
                    head: Operand::X(2),
                    tail: Operand::X(3),
                },
                Instruction::Move {
                    source: Operand::X(3),
                    destination: Operand::X(0),
                },
                Instruction::Return,
            ],
            Atom::module(),
            Atom::ok(),
            0,
        )
        .unwrap();

    assert!(native.stack_maps.is_empty());
    let mut process = Process::new(0, 233);
    let cons = process.put_cons(small(23), NIL);
    let mut registers = vec![0, cons, 0, 0];
    let returned = call_native_with_process(&native, &mut registers, &mut process);

    assert_eq!(returned, NIL);
    assert_eq!(registers[2], small(23));
    assert_eq!(registers[3], NIL);
}

#[test]
fn compiled_get_hd_and_get_tl_read_cons_fields() {
    let mut compiler = JitCompiler::new(JitSettings);
    let native = compiler
        .compile(
            &[
                Instruction::PutList {
                    head: Operand::Integer(17),
                    tail: Operand::X(4),
                    destination: Operand::X(1),
                },
                Instruction::GetHd {
                    source: Operand::X(1),
                    destination: Operand::X(2),
                },
                Instruction::GetTl {
                    source: Operand::X(1),
                    destination: Operand::X(3),
                },
                Instruction::Move {
                    source: Operand::X(3),
                    destination: Operand::X(0),
                },
                Instruction::Return,
            ],
            Atom::module(),
            Atom::ok(),
            0,
        )
        .unwrap();

    assert_eq!(native.stack_maps.len(), 1);
    let mut process = Process::new(0, 233);
    let mut registers = vec![0, 0, 0, 0, NIL];
    let returned = call_native_with_process(&native, &mut registers, &mut process);

    assert_eq!(returned, NIL);
    assert_eq!(registers[2], small(17));
    assert_eq!(registers[3], NIL);
}

#[test]
fn compiled_get_hd_and_get_tl_reads_are_pure_and_emit_no_safepoint() {
    let mut compiler = JitCompiler::new(JitSettings);
    let native = compiler
        .compile(
            &[
                Instruction::GetHd {
                    source: Operand::X(1),
                    destination: Operand::X(2),
                },
                Instruction::GetTl {
                    source: Operand::X(1),
                    destination: Operand::X(3),
                },
                Instruction::Move {
                    source: Operand::X(2),
                    destination: Operand::X(0),
                },
                Instruction::Return,
            ],
            Atom::module(),
            Atom::ok(),
            0,
        )
        .unwrap();

    assert!(native.stack_maps.is_empty());
    let mut process = Process::new(0, 233);
    let cons = process.put_cons(small(29), NIL);
    let mut registers = vec![0, cons, 0, 0];
    let returned = call_native_with_process(&native, &mut registers, &mut process);

    assert_eq!(returned, small(29));
    assert_eq!(registers[2], small(29));
    assert_eq!(registers[3], NIL);
}

#[test]
fn compiled_put_tuple2_emits_safepoint_and_allocates_tuple() {
    let mut compiler = JitCompiler::new(JitSettings);
    let native = compiler
        .compile(
            &[
                Instruction::PutTuple2 {
                    destination: Operand::X(2),
                    elements: Operand::List(vec![Operand::X(0), Operand::Integer(9)]),
                },
                Instruction::Return,
            ],
            Atom::module(),
            Atom::ok(),
            0,
        )
        .unwrap();

    assert_eq!(native.stack_maps.len(), 1);
    assert_eq!(native.stack_maps[0].offset_from_entry, 0);
    assert_eq!(
        native.stack_maps[0].live_roots,
        vec![RootLocation::Register(0), RootLocation::Register(2)]
    );

    let mut process = Process::new(0, 233);
    let mut registers = vec![small(4), 0, 0];
    let returned = call_native_with_process(&native, &mut registers, &mut process);

    assert_eq!(returned, small(4));
    let tuple = process.tuple(registers[2]);
    assert_eq!(tuple.len(), 2);
    assert_eq!(tuple.get(0).copied(), Some(small(4)));
    assert_eq!(tuple.get(1).copied(), Some(small(9)));
}

#[test]
fn typed_put_tuple_stores_tagged_int_and_typed_element_load_returns_tagged_result() {
    let mut compiler = JitCompiler::new(JitSettings);
    let signature = FunctionSignature {
        name: "typed_tuple".to_owned(),
        arity: 1,
        param_types: vec![TypeDescriptor::Int],
        return_type: TypeDescriptor::Int,
    };
    let native = compiler
        .compile_typed(
            &[
                Instruction::PutTuple2 {
                    destination: Operand::X(1),
                    elements: Operand::List(vec![Operand::X(0)]),
                },
                Instruction::GetTupleElement {
                    source: Operand::X(1),
                    index: Operand::Integer(0),
                    destination: Operand::X(0),
                },
                Instruction::Return,
            ],
            Atom::module(),
            Atom::ok(),
            1,
            signature,
        )
        .unwrap();

    assert_eq!(native.stack_maps.len(), 1);
    let mut process = Process::new(0, 233);
    let mut registers = vec![small(41), 0];
    let returned = call_native_with_process(&native, &mut registers, &mut process);

    assert_eq!(returned, small(41));
    let tuple = process.tuple(registers[1]);
    assert_eq!(tuple.get(0).copied(), Some(small(41)));
}

#[test]
fn compiled_get_tuple_element_reads_constructed_tuple() {
    let mut compiler = JitCompiler::new(JitSettings);
    let native = compiler
        .compile(
            &[
                Instruction::PutTuple2 {
                    destination: Operand::X(1),
                    elements: Operand::List(vec![Operand::Integer(4), Operand::Integer(9)]),
                },
                Instruction::GetTupleElement {
                    source: Operand::X(1),
                    index: Operand::Integer(1),
                    destination: Operand::X(0),
                },
                Instruction::Return,
            ],
            Atom::module(),
            Atom::ok(),
            0,
        )
        .unwrap();

    assert_eq!(native.stack_maps.len(), 1);
    let mut process = Process::new(0, 233);
    let mut registers = vec![0; 2];
    let returned = call_native_with_process(&native, &mut registers, &mut process);

    assert_eq!(returned, small(9));
    let tuple = process.tuple(registers[1]);
    assert_eq!(tuple.get(0).copied(), Some(small(4)));
    assert_eq!(tuple.get(1).copied(), Some(small(9)));
}

#[test]
fn compiled_allocation_with_tiny_heap_survives_gc() {
    let mut compiler = JitCompiler::new(JitSettings);
    let native = compiler
        .compile(
            &[
                Instruction::PutTuple2 {
                    destination: Operand::X(1),
                    elements: Operand::List(vec![Operand::X(0)]),
                },
                Instruction::PutTuple2 {
                    destination: Operand::X(2),
                    elements: Operand::List(vec![Operand::X(1), Operand::Integer(8)]),
                },
                Instruction::Return,
            ],
            Atom::module(),
            Atom::ok(),
            0,
        )
        .unwrap();

    assert_eq!(native.stack_maps.len(), 2);

    let mut process = Process::new(0, 2);
    let mut registers = vec![small(3), 0, 0];
    let returned = call_native_with_process(&native, &mut registers, &mut process);

    assert_eq!(returned, small(3));
    let outer = process.tuple(registers[2]);
    assert_eq!(outer.len(), 2);
    let inner = process.tuple(outer[0]);
    assert_eq!(inner.first().copied(), Some(small(3)));
    assert_eq!(outer.get(1).copied(), Some(small(8)));
}

#[test]
fn compiled_is_integer_distinguishes_integer_from_atom() {
    let mut compiler = JitCompiler::new(JitSettings);
    let native = compiler
        .compile(
            &[
                Instruction::TypeTest {
                    op: TypeTestOp::IsInteger,
                    fail: Operand::Label(7),
                    value: Operand::X(0),
                },
                Instruction::Move {
                    source: Operand::Integer(1),
                    destination: Operand::X(0),
                },
                Instruction::Return,
                Instruction::Label { label: 7 },
                Instruction::Move {
                    source: Operand::Integer(0),
                    destination: Operand::X(0),
                },
                Instruction::Return,
            ],
            Atom::module(),
            Atom::ok(),
            0,
        )
        .unwrap();

    let mut integer_registers = vec![small(42)];
    assert_eq!(
        call_native(&native, &mut integer_registers),
        small(1)
    );
    let mut atom_registers = vec![atom(Atom::ok())];
    assert_eq!(
        call_native(&native, &mut atom_registers),
        small(0)
    );
}

#[test]
fn typed_is_integer_guard_elides_known_int_and_returns_tagged_value() {
    let mut compiler = JitCompiler::new(JitSettings);
    let signature = FunctionSignature {
        name: "guard".to_owned(),
        arity: 1,
        param_types: vec![TypeDescriptor::Int],
        return_type: TypeDescriptor::Int,
    };
    let native = compiler
        .compile_typed(
            &[
                Instruction::TypeTest {
                    op: TypeTestOp::IsInteger,
                    fail: Operand::Label(7),
                    value: Operand::X(0),
                },
                Instruction::Return,
                Instruction::Label { label: 7 },
                Instruction::Move {
                    source: Operand::Integer(0),
                    destination: Operand::X(0),
                },
                Instruction::Return,
            ],
            Atom::module(),
            Atom::ok(),
            1,
            signature,
        )
        .unwrap();
    let mut registers = vec![small(55)];
    let returned = call_native(&native, &mut registers);

    assert_eq!(returned, small(55));
}

#[test]
fn typed_is_atom_guard_on_known_int_jumps_to_fail_label() {
    let mut compiler = JitCompiler::new(JitSettings);
    let signature = FunctionSignature {
        name: "guard".to_owned(),
        arity: 1,
        param_types: vec![TypeDescriptor::Int],
        return_type: TypeDescriptor::Int,
    };
    let native = compiler
        .compile_typed(
            &[
                Instruction::TypeTest {
                    op: TypeTestOp::IsAtom,
                    fail: Operand::Label(7),
                    value: Operand::X(0),
                },
                Instruction::Move {
                    source: Operand::Integer(1),
                    destination: Operand::X(0),
                },
                Instruction::Return,
                Instruction::Label { label: 7 },
                Instruction::Move {
                    source: Operand::Integer(0),
                    destination: Operand::X(0),
                },
                Instruction::Return,
            ],
            Atom::module(),
            Atom::ok(),
            1,
            signature,
        )
        .unwrap();
    let mut registers = vec![small(55)];
    let returned = call_native(&native, &mut registers);

    assert_eq!(returned, small(0));
}

#[test]
fn typed_test_arity_uses_known_tuple_length() {
    let mut compiler = JitCompiler::new(JitSettings);
    let signature = FunctionSignature {
        name: "arity".to_owned(),
        arity: 1,
        param_types: vec![TypeDescriptor::Tuple(vec![
            TypeDescriptor::Int,
            TypeDescriptor::Int,
        ])],
        return_type: TypeDescriptor::Int,
    };
    let native = compiler
        .compile_typed(
            &[
                Instruction::TestArity {
                    fail: Operand::Label(7),
                    tuple: Operand::X(0),
                    arity: Operand::Integer(3),
                },
                Instruction::Move {
                    source: Operand::Integer(1),
                    destination: Operand::X(0),
                },
                Instruction::Return,
                Instruction::Label { label: 7 },
                Instruction::Move {
                    source: Operand::Integer(0),
                    destination: Operand::X(0),
                },
                Instruction::Return,
            ],
            Atom::module(),
            Atom::ok(),
            1,
            signature,
        )
        .unwrap();
    let mut process = Process::new(0, 233);
    let tuple = process.put_tuple(&[small(1), small(2)]);
    let mut registers = vec![tuple];
    let returned = call_native_with_process(&native, &mut registers, &mut process);

    assert_eq!(returned, small(0));
}

#[test]
fn compiled_pattern_match_on_ok_tuple() {
    let mut compiler = JitCompiler::new(JitSettings);
    let native = compiler
        .compile(
            &[
                Instruction::IsTaggedTuple {
                    fail: Operand::Label(9),
                    value: Operand::X(0),
                    arity: Operand::Unsigned(2),
                    tag: Operand::Atom(Some(Atom::ok())),
                },
                Instruction::Move {
                    source: Operand::Integer(1),
                    destination: Operand::X(0),
                },
                Instruction::Return,
                Instruction::Label { label: 9 },
                Instruction::Move {
                    source: Operand::Integer(0),
                    destination: Operand::X(0),
                },
                Instruction::Return,
            ],
            Atom::module(),
            Atom::ok(),
            0,
        )
        .unwrap();
    let mut process = Process::new(0, 233);
    let tuple = process.put_tuple(&[atom(Atom::ok()), small(42)]);
    let mut registers = vec![tuple];

    assert_eq!(
        call_native_with_process(&native, &mut registers, &mut process),
        small(1)
    );
}

#[test]
fn compiled_select_val_dispatches_matching_atom() {
    let mut compiler = JitCompiler::new(JitSettings);
    let native = compiler
        .compile(
            &[
                Instruction::SelectVal {
                    value: Operand::X(0),
                    fail: Operand::Label(9),
                    list: Operand::List(vec![
                        Operand::Atom(Some(Atom::ok())),
                        Operand::Label(2),
                        Operand::Integer(7),
                        Operand::Label(3),
                    ]),
                },
                Instruction::Label { label: 2 },
                Instruction::Move {
                    source: Operand::Integer(20),
                    destination: Operand::X(0),
                },
                Instruction::Return,
                Instruction::Label { label: 3 },
                Instruction::Move {
                    source: Operand::Integer(30),
                    destination: Operand::X(0),
                },
                Instruction::Return,
                Instruction::Label { label: 9 },
                Instruction::Move {
                    source: Operand::Integer(90),
                    destination: Operand::X(0),
                },
                Instruction::Return,
            ],
            Atom::module(),
            Atom::ok(),
            0,
        )
        .unwrap();
    let mut registers = vec![atom(Atom::ok())];

    assert_eq!(
        call_native(&native, &mut registers),
        small(20)
    );
}

#[test]
fn compiled_select_val_does_not_fall_through_after_match() {
    let mut compiler = JitCompiler::new(JitSettings);
    let native = compiler
        .compile(
            &[
                Instruction::SelectVal {
                    value: Operand::X(0),
                    fail: Operand::Label(9),
                    list: Operand::List(vec![Operand::Integer(7), Operand::Label(2)]),
                },
                Instruction::Move {
                    source: Operand::Integer(99),
                    destination: Operand::X(0),
                },
                Instruction::Return,
                Instruction::Label { label: 2 },
                Instruction::Move {
                    source: Operand::Integer(20),
                    destination: Operand::X(0),
                },
                Instruction::Return,
                Instruction::Label { label: 9 },
                Instruction::Move {
                    source: Operand::Integer(90),
                    destination: Operand::X(0),
                },
                Instruction::Return,
            ],
            Atom::module(),
            Atom::ok(),
            0,
        )
        .unwrap();
    let mut registers = vec![small(7)];

    assert_eq!(
        call_native(&native, &mut registers),
        small(20)
    );
}

#[test]
fn compiled_zero_arity_is_tagged_tuple_takes_fail_label() {
    let mut compiler = JitCompiler::new(JitSettings);
    let native = compiler
        .compile(
            &[
                Instruction::IsTaggedTuple {
                    fail: Operand::Label(9),
                    value: Operand::X(0),
                    arity: Operand::Unsigned(0),
                    tag: Operand::Atom(Some(Atom::ok())),
                },
                Instruction::Move {
                    source: Operand::Integer(1),
                    destination: Operand::X(0),
                },
                Instruction::Return,
                Instruction::Label { label: 9 },
                Instruction::Move {
                    source: Operand::Integer(0),
                    destination: Operand::X(0),
                },
                Instruction::Return,
            ],
            Atom::module(),
            Atom::ok(),
            0,
        )
        .unwrap();
    let mut process = Process::new(0, 233);
    let tuple = process.put_tuple(&[]);
    let mut registers = vec![tuple];

    assert_eq!(
        call_native_with_process(&native, &mut registers, &mut process),
        small(0)
    );
}

#[test]
fn compiled_external_call_falls_back_to_interpreter_and_returns_value() {
    let caller_atom = Atom::module();
    let target_atom = Atom::error();
    let function_atom = Atom::ok();
    let mut caller = test_module(
        caller_atom,
        vec![Instruction::CallExtOnly {
            arity: Operand::Unsigned(1),
            import: Operand::Unsigned(0),
        }],
    );
    caller.resolved_imports.push(ResolvedImport {
        module: target_atom,
        function: function_atom,
        arity: 1,
        target: ResolvedImportTarget::Code {
            module: target_atom,
            label: 1,
        },
    });
    let mut target = test_module(
        target_atom,
        vec![
            Instruction::Label { label: 1 },
            Instruction::Move {
                source: Operand::X(0),
                destination: Operand::X(0),
            },
            Instruction::Return,
        ],
    );
    target.exports.insert((function_atom, 1), 1);
    let mut registry = ModuleRegistry::new();
    let caller = registry.insert(caller);
    let _target = registry.insert(target);
    let mut compiler = JitCompiler::new(JitSettings);
    let native = compiler
        .compile(&caller.code, caller_atom, function_atom, 1)
        .unwrap();
    let mut process = Process::new(0, 233);
    process.context = Some((Arc::clone(&caller), registry));
    let mut registers = vec![small(17)];

    let returned = call_native_with_process(&native, &mut registers, &mut process);

    assert_eq!(returned, small(17));
    assert_eq!(registers[0], small(17));
}

#[test]
fn compiled_try_catches_interpreted_exception_and_exposes_payload() {
    let caller_atom = Atom::module();
    let target_atom = Atom::error();
    let function_atom = Atom::ok();
    let mut caller = test_module(
        caller_atom,
        vec![
            Instruction::Try {
                destination: Operand::Y(0),
                label: Operand::Label(20),
            },
            Instruction::Move {
                source: Operand::Atom(Some(Atom::error())),
                destination: Operand::X(0),
            },
            Instruction::Move {
                source: Operand::Atom(Some(Atom::badarg())),
                destination: Operand::X(1),
            },
            Instruction::Move {
                source: Operand::Atom(None),
                destination: Operand::X(2),
            },
            Instruction::CallExtOnly {
                arity: Operand::Unsigned(3),
                import: Operand::Unsigned(0),
            },
            Instruction::Label { label: 20 },
            Instruction::TryCase {
                source: Operand::Y(0),
            },
            Instruction::Return,
        ],
    );
    caller.resolved_imports.push(ResolvedImport {
        module: target_atom,
        function: function_atom,
        arity: 3,
        target: ResolvedImportTarget::Code {
            module: target_atom,
            label: 1,
        },
    });
    let mut target = test_module(
        target_atom,
        vec![
            Instruction::Label { label: 1 },
            Instruction::RawRaise,
            Instruction::Return,
        ],
    );
    target.exports.insert((function_atom, 3), 1);
    let mut registry = ModuleRegistry::new();
    let caller = registry.insert(caller);
    let _target = registry.insert(target);
    let mut compiler = JitCompiler::new(JitSettings);
    let native = compiler
        .compile(&caller.code, caller_atom, function_atom, 0)
        .unwrap();
    let mut process = Process::new(0, 233);
    process.context = Some((Arc::clone(&caller), registry));
    let mut registers = vec![0; X_REGISTER_COUNT as usize + 3];

    let returned = call_native_status(&native, &mut registers, &mut process);

    assert_eq!(returned.status, JIT_STATUS_NORMAL);
    assert_eq!(returned.value, atom(Atom::error()));
    assert_eq!(registers[0], atom(Atom::error()));
    assert_eq!(registers[1], atom(Atom::badarg()));
    assert_eq!(registers[2], NIL);
    assert!(process.exception.is_none());
}

#[test]
fn compiled_external_exception_without_try_propagates_status_and_frame() {
    let caller_atom = Atom::module();
    let target_atom = Atom::error();
    let function_atom = Atom::ok();
    let mut caller = test_module(
        caller_atom,
        vec![Instruction::CallExtOnly {
            arity: Operand::Unsigned(3),
            import: Operand::Unsigned(0),
        }],
    );
    caller.resolved_imports.push(ResolvedImport {
        module: target_atom,
        function: function_atom,
        arity: 3,
        target: ResolvedImportTarget::Code {
            module: target_atom,
            label: 1,
        },
    });
    let mut target = test_module(
        target_atom,
        vec![
            Instruction::Label { label: 1 },
            Instruction::RawRaise,
            Instruction::Return,
        ],
    );
    target.exports.insert((function_atom, 3), 1);
    let mut registry = ModuleRegistry::new();
    let caller = registry.insert(caller);
    let _target = registry.insert(target);
    let mut compiler = JitCompiler::new(JitSettings);
    let native = compiler
        .compile(&caller.code, caller_atom, function_atom, 0)
        .unwrap();
    let mut process = Process::new(0, 233);
    process.context = Some((Arc::clone(&caller), registry));
    let mut registers = vec![
        atom(Atom::error()),
        atom(Atom::badarg()),
        NIL,
    ];

    let returned = call_native_status(&native, &mut registers, &mut process);

    assert_eq!(returned.status, JIT_STATUS_EXCEPTION);
    assert_eq!(returned.value, atom(Atom::badarg()));
    let exception = process
        .exception
        .expect("exception state preserved");
    assert_eq!(exception.class as u64, atom(Atom::error()));
    assert_eq!(exception.reason as u64, atom(Atom::badarg()));
    assert!(process
        .frames
        .contains(&(caller_atom.0 as u64, function_atom.0 as u64, 0)));
}

#[test]
fn compiled_local_call_charges_reduction_and_yields_when_exhausted() {
    let mut compiler = JitCompiler::new(JitSettings);
    let native = compiler
        .compile(
            &[
                Instruction::Label { label: 1 },
                Instruction::CallOnly {
                    arity: Operand::Unsigned(0),
                    label: Operand::Label(1),
                },
            ],
            Atom::module(),
            Atom::ok(),
            0,
        )
        .unwrap();
    let mut process = Process::new(0, 233);
    process.reductions = 3;
    let mut registers = vec![0];

    let returned = call_native_status(&native, &mut registers, &mut process);

    assert_eq!(returned.status, JIT_STATUS_YIELD);
    assert_eq!(returned.value, YIELD_WORD);
    assert_eq!(process.reductions, 0);
}

#[test]
fn compiled_external_call_returns_deopt_sentinel_without_runtime_context() {
    let mut compiler = JitCompiler::new(JitSettings);
    let native = compiler
        .compile(
            &[Instruction::CallExtOnly {
                arity: Operand::Unsigned(0),
                import: Operand::Unsigned(0),
            }],
            Atom::module(),
            Atom::ok(),
            0,
        )
        .unwrap();
    let mut process = Process::new(0, 233);
    let mut registers = vec![0];

    let returned = call_native_status(&native, &mut registers, &mut process);

    assert_eq!(returned.status, JIT_STATUS_DEOPT);
    assert_eq!(returned.value, JIT_DEOPT_SENTINEL as u64);
    assert_eq!(registers[0], 0);
}

#[test]
fn reports_unsupported_opcode() {
    let mut compiler = JitCompiler::new(JitSettings);
    let error = compiler
        .compile(
            &[Instruction::Generic {
                opcode: 255,
                name: "unknown",
                operands: Vec::new(),
            }],
            Atom::module(),
            Atom::ok(),
            0,
        )
        .unwrap_err();

    assert_eq!(
        error,
        JitError::UnsupportedOpcode {
            opcode: "unknown (255)".to_owned()
        }
    );
}

#[test]
fn code_to_a_word_returns_the_first_register() {
    let mut compiler = JitCompiler::new(JitSettings);
    let native = compiler
        .compile_to_word(
            &[
                Instruction::Move {
                    source: Operand::Integer(40),
                    destination: Operand::X(1),
                },
                Instruction::Bif {
                    op: BifOp::GcBif2,
                    operands: vec![
                        Operand::Label(9),
                        Operand::Unsigned(0),
                        Operand::X(1),
                        Operand::Integer(2),
                        Operand::X(0),
                    ],
                },
                Instruction::Return,
                Instruction::Label { label: 9 },
                Instruction::Return,
            ],
            Atom::module(),
            Atom::ok(),
            0,
        )
        .unwrap();
    let mut registers = vec![0; 2];
    let mut process = Process::new(0, 233);
    let returned = run(&native, &mut registers, &mut process);

    assert_eq!(returned.value, small(42));
    assert_eq!(registers, vec![small(42), small(40)]);
    assert_eq!(native.results.len(), 1);
}

#[test]
fn code_to_a_word_yields_by_its_word() {
    let mut compiler = JitCompiler::new(JitSettings);
    let native = compiler
        .compile_to_word(
            &[
                Instruction::Label { label: 1 },
                Instruction::CallOnly {
                    arity: Operand::Unsigned(0),
                    label: Operand::Label(1),
                },
            ],
            Atom::module(),
            Atom::ok(),
            0,
        )
        .unwrap();
    let mut process = Process::new(0, 233);
    process.reductions = 3;
    let returned = run(&native, &mut [0], &mut process);

    assert_eq!(returned.value, YIELD_WORD);
    assert_eq!(process.reductions, 0);
}

#[test]
fn code_to_a_word_handles_no_exceptions() {
    let mut compiler = JitCompiler::new(JitSettings);
    let error = compiler
        .compile_to_word(
            &[
                Instruction::Label { label: 1 },
                Instruction::Try {
                    destination: Operand::Y(0),
                    label: Operand::Label(1),
                },
            ],
            Atom::module(),
            Atom::ok(),
            0,
        )
        .unwrap_err();

    assert!(matches!(error, JitError::UnsupportedOpcode { .. }));
}

#[test]
fn code_to_a_word_links_four_runtime_functions() {
    let symbols: Vec<&str> = declare_plain_helpers().iter().map(|d| d.symbol).collect();

    assert_eq!(
        symbols,
        [
            "beamr_jit_alloc_tuple",
            "beamr_jit_alloc_cons",
            "beamr_jit_charge_reduction",
            "beamr_jit_call_interpreted",
        ]
    );
}

/// The larger of the first two registers, and one more.
fn larger_and_one_more() -> FunctionIr {
    JitCompiler::new(JitSettings)
        .compile(
            &[
                Instruction::Label { label: 1 },
                Instruction::Comparison {
                    op: ComparisonOp::Lt,
                    fail: Operand::Label(2),
                    left: Operand::X(0),
                    right: Operand::X(1),
                },
                Instruction::Swap {
                    left: Operand::X(0),
                    right: Operand::X(1),
                },
                Instruction::Jump {
                    target: Operand::Label(3),
                },
                Instruction::Label { label: 2 },
                Instruction::Move {
                    source: Operand::X(1),
                    destination: Operand::Y(0),
                },
                Instruction::Label { label: 3 },
                Instruction::Bif {
                    op: BifOp::Bif2,
                    operands: vec![
                        Operand::Label(4),
                        Operand::Unsigned(0),
                        Operand::X(0),
                        Operand::Integer(1),
                        Operand::X(0),
                    ],
                },
                Instruction::Label { label: 4 },
                Instruction::Return,
            ],
            Atom::module(),
            Atom::ok(),
            2,
        )
        .unwrap()
}

#[test]
fn whole_functions_return_what_their_instructions_do() {
    let native = larger_and_one_more();
    for (left, right, expected) in [(3, 8, 9), (8, 3, 9), (5, 5, 6), (-2, -7, -1)] {
        let mut registers = vec![0; X_REGISTER_COUNT as usize + 1];
        registers[0] = small(left);
        registers[1] = small(right);
        assert_eq!(call_native(&native, &mut registers), small(expected));
    }
    // The sum does not fit in a term: the addition goes to its label.
    let mut registers = vec![0; X_REGISTER_COUNT as usize + 1];
    registers[0] = small(SMALL_INT_MAX);
    assert_eq!(call_native(&native, &mut registers), small(SMALL_INT_MAX));
}

#[test]
fn whole_functions_yield_without_reductions() {
    let native = larger_and_one_more();
    let mut process = Process::new(0, 233);
    process.reductions = 0;
    let mut registers = vec![0; X_REGISTER_COUNT as usize + 1];
    registers[0] = small(1);
    let before = registers.clone();
    let returned = call_native_status(&native, &mut registers, &mut process);
    assert_eq!(returned.status, JIT_STATUS_YIELD);
    assert_eq!(returned.value, YIELD_WORD);
    assert_eq!(registers, before);
}

#[test]
fn typed_moves_return_the_term_that_they_leave() {
    let native = JitCompiler::new(JitSettings)
        .compile_typed(
            &[
                Instruction::Swap {
                    left: Operand::X(0),
                    right: Operand::X(1),
                },
                Instruction::Move {
                    source: Operand::X(0),
                    destination: Operand::X(3),
                },
                Instruction::Move {
                    source: Operand::X(3),
                    destination: Operand::X(0),
                },
            ],
            Atom::module(),
            Atom::ok(),
            2,
            int_int_signature("second"),
        )
        .unwrap();
    let mut registers = vec![small(4), small(-9), 0, 0];
    assert_eq!(call_native(&native, &mut registers), small(-9));
}

/// The sum of the numbers from the first register down to one, by a loop.
fn sum_down(again: Instruction) -> FunctionIr {
    let bif = |import: u64, left: Operand, right: Operand, destination: Operand| Instruction::Bif {
        op: BifOp::Bif2,
        operands: vec![
            Operand::Label(9),
            Operand::Unsigned(import),
            left,
            right,
            destination,
        ],
    };
    JitCompiler::new(JitSettings)
        .compile(
            &[
                Instruction::Move {
                    source: Operand::Integer(0),
                    destination: Operand::X(1),
                },
                Instruction::Label { label: 1 },
                Instruction::Comparison {
                    op: ComparisonOp::Lt,
                    fail: Operand::Label(2),
                    left: Operand::Integer(0),
                    right: Operand::X(0),
                },
                bif(0, Operand::X(1), Operand::X(0), Operand::X(1)),
                bif(1, Operand::X(0), Operand::Integer(1), Operand::X(0)),
                again,
                Instruction::Label { label: 2 },
                Instruction::Move {
                    source: Operand::X(1),
                    destination: Operand::X(0),
                },
                Instruction::Return,
                Instruction::Label { label: 9 },
                Instruction::Return,
            ],
            Atom::module(),
            Atom::ok(),
            1,
        )
        .unwrap()
}

#[test]
fn loops_answer_what_their_instructions_do() {
    let native = sum_down(Instruction::Jump {
        target: Operand::Label(1),
    });
    for (from, sum) in [(0, 0), (1, 1), (10, 55), (100, 5050)] {
        let mut registers = vec![small(from), 0];
        assert_eq!(call_native(&native, &mut registers), small(sum));
        assert_eq!(registers, vec![small(sum), small(sum)]);
    }
}

#[test]
fn local_calls_are_charged_for_on_every_round() {
    let native = sum_down(Instruction::Call {
        arity: Operand::Unsigned(1),
        label: Operand::Label(1),
    });
    let mut process = Process::new(0, 233);
    process.reductions = 100;
    let mut registers = vec![small(10), 0];
    let returned = call_native_status(&native, &mut registers, &mut process);
    assert_eq!(returned.status, JIT_STATUS_NORMAL);
    assert_eq!(returned.value, small(55));
    assert_eq!(process.reductions, 89);

    let mut registers = vec![small(1000), 0];
    let returned = call_native_status(&native, &mut registers, &mut process);
    assert_eq!(returned.status, JIT_STATUS_YIELD);
    assert_eq!(returned.value, YIELD_WORD);
}
