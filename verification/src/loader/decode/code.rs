//! The code chunk.

use vstd::prelude::*;
use vstd::string::*;
use crate::atom::Atom;
use crate::error::{decode_error, decode_fault, LoadError, LoadFault};
use crate::text::{decimal_u64, nat_text};
use super::bounded::be_u32;
use super::compact::{
    expect_label, label_number, moved, operand_at, operand_views, operands_at, CompactDecoder,
    CompactState, Decoded, Operand, OperandView,
};
use super::budget::default_budget;
use super::instruction::{
    binary_code, comparison_code, encodes, instruction_opcode, is_checked, lemma_checked_opcode,
    map_code, type_test_code, BifOp, BinaryOp, ComparisonOp, Instruction, MapOp, TypeTestOp,
};
use super::literal::{literal_views, Literal, LiteralView};
use super::opcode::{opcode_arity, operand_count, unsupported_opcode};

verus! {

/// An opcode and its operands.
pub struct Item {
    pub opcode: u8,
    pub operands: Seq<OperandView>,
}

/// Reads the operands of an instruction, after its opcode.
pub open spec fn item_at(
    b: Seq<u8>,
    atoms: Seq<Atom>,
    known: nat,
    opcode: u8,
    s: CompactState,
) -> Decoded<Item> {
    match operand_count(opcode) {
        None => (Err(unsupported_opcode(opcode)), s),
        Some(n) => match operands_at(b, atoms, known, n, Seq::empty(), s) {
            (Err(e), t) => (Err(e), t),
            (Ok(operands), t) => if opcode == 1 {
                match label_number(operands[0]) {
                    Ok(_) => (Ok(Item { opcode, operands }), t),
                    Err(e) => (Err(e), t),
                }
            } else {
                (Ok(Item { opcode, operands }), t)
            },
        },
    }
}

/// Reads instructions up to the end of the bytes or the opcode that ends the
/// code, after those in `found`.
pub open spec fn items_at(
    b: Seq<u8>,
    atoms: Seq<Atom>,
    known: nat,
    found: Seq<Item>,
    s: CompactState,
) -> Decoded<Seq<Item>>
    decreases b.len() - s.pos,
{
    if s.pos >= b.len() {
        (Ok(found), s)
    } else {
        let opcode = b[s.pos as int];
        let t = moved(s, s.pos + 1);
        if opcode == 3 {
            (Ok(found), t)
        } else {
            match item_at(b, atoms, known, opcode, t) {
                (Err(e), u) => (Err(e), u),
                (Ok(item), u) => if t.pos <= u.pos <= b.len() {
                    items_at(b, atoms, known, found.push(item), u)
                } else {
                    (Err(decode_fault("truncated compact term"@)), u)
                },
            }
        }
    }
}

/// Whether `instructions` are what `items` stand for.
pub open spec fn all_encode(instructions: Seq<Instruction>, items: Seq<Item>) -> bool {
    &&& instructions.len() == items.len()
    &&& forall|i: int|
        0 <= i < items.len() ==> encodes(
            #[trigger] instructions[i],
            items[i].opcode,
            items[i].operands,
        )
}

fn take(operands: &Vec<Operand>, index: usize) -> (r: Operand)
    requires
        index < operands@.len(),
    ensures
        r.view() == operand_views(operands@)[index as int],
{
    operands[index].clone()
}

/// The instruction that an opcode with its operands stands for.
pub fn build_instruction(opcode: u8, operands: Vec<Operand>) -> (r: Result<Instruction, LoadError>)
    requires
        operand_count(opcode) == Some(operands@.len()),
    ensures
        match r {
            Ok(instruction) => encodes(instruction, opcode, operand_views(operands@)),
            Err(e) => opcode == 1 && Err::<u32, LoadFault>(e@) == label_number(
                operand_views(operands@)[0],
            ),
        },
{
    let instruction = match opcode {
        1 => Instruction::Label {
            label: expect_label(&operands[0])?,
        },
        2 => Instruction::FuncInfo {
            module: take(&operands, 0),
            function: take(&operands, 1),
            arity: take(&operands, 2),
        },
        4 => Instruction::Call {
            arity: take(&operands, 0),
            label: take(&operands, 1),
        },
        5 => Instruction::CallLast {
            arity: take(&operands, 0),
            label: take(&operands, 1),
            deallocate: take(&operands, 2),
        },
        6 => Instruction::CallOnly {
            arity: take(&operands, 0),
            label: take(&operands, 1),
        },
        7 => Instruction::CallExt {
            arity: take(&operands, 0),
            import: take(&operands, 1),
        },
        8 => Instruction::CallExtLast {
            arity: take(&operands, 0),
            import: take(&operands, 1),
            deallocate: take(&operands, 2),
        },
        9 => Instruction::Bif {
            op: BifOp::Bif0,
            operands,
        },
        10 => Instruction::Bif {
            op: BifOp::Bif1,
            operands,
        },
        11 => Instruction::Bif {
            op: BifOp::Bif2,
            operands,
        },
        12 => Instruction::Allocate {
            stack_need: take(&operands, 0),
            live: take(&operands, 1),
        },
        13 => Instruction::AllocateHeap {
            stack_need: take(&operands, 0),
            heap_need: take(&operands, 1),
            live: take(&operands, 2),
        },
        14 => Instruction::AllocateZero {
            stack_need: take(&operands, 0),
            live: take(&operands, 1),
        },
        16 => Instruction::TestHeap {
            heap_need: take(&operands, 0),
            live: take(&operands, 1),
        },
        18 => Instruction::Deallocate {
            words: take(&operands, 0),
        },
        19 => Instruction::Return,
        20 => Instruction::Send,
        21 => Instruction::RemoveMessage,
        22 => Instruction::Timeout,
        23 => Instruction::LoopRec {
            fail: take(&operands, 0),
            destination: take(&operands, 1),
        },
        24 => Instruction::LoopRecEnd {
            fail: take(&operands, 0),
        },
        25 => Instruction::Wait {
            fail: take(&operands, 0),
        },
        26 => Instruction::WaitTimeout {
            fail: take(&operands, 0),
            timeout: take(&operands, 1),
        },
        39 => comparison(ComparisonOp::Lt, operands),
        40 => comparison(ComparisonOp::Ge, operands),
        41 => comparison(ComparisonOp::Eq, operands),
        42 => comparison(ComparisonOp::Ne, operands),
        43 => comparison(ComparisonOp::EqExact, operands),
        44 => comparison(ComparisonOp::NeExact, operands),
        45 => type_test(TypeTestOp::IsInteger, operands),
        46 => type_test(TypeTestOp::IsFloat, operands),
        47 => type_test(TypeTestOp::IsNumber, operands),
        48 => type_test(TypeTestOp::IsAtom, operands),
        49 => type_test(TypeTestOp::IsPid, operands),
        50 => type_test(TypeTestOp::IsReference, operands),
        51 => type_test(TypeTestOp::IsPort, operands),
        52 => type_test(TypeTestOp::IsNil, operands),
        53 => type_test(TypeTestOp::IsBinary, operands),
        55 => type_test(TypeTestOp::IsList, operands),
        56 => type_test(TypeTestOp::IsNonemptyList, operands),
        57 => type_test(TypeTestOp::IsTuple, operands),
        58 => Instruction::TestArity {
            fail: take(&operands, 0),
            tuple: take(&operands, 1),
            arity: take(&operands, 2),
        },
        59 => Instruction::SelectVal {
            value: take(&operands, 0),
            fail: take(&operands, 1),
            list: take(&operands, 2),
        },
        60 => Instruction::SelectTupleArity {
            value: take(&operands, 0),
            fail: take(&operands, 1),
            list: take(&operands, 2),
        },
        61 => Instruction::Jump {
            target: take(&operands, 0),
        },
        62 => Instruction::Catch {
            destination: take(&operands, 0),
            label: take(&operands, 1),
        },
        63 => Instruction::CatchEnd {
            source: take(&operands, 0),
        },
        64 => Instruction::Move {
            source: take(&operands, 0),
            destination: take(&operands, 1),
        },
        65 => Instruction::GetList {
            source: take(&operands, 0),
            head: take(&operands, 1),
            tail: take(&operands, 2),
        },
        66 => Instruction::GetTupleElement {
            source: take(&operands, 0),
            index: take(&operands, 1),
            destination: take(&operands, 2),
        },
        67 => Instruction::Generic {
            opcode,
            name: "set_tuple_element",
            operands,
        },
        69 => Instruction::PutList {
            head: take(&operands, 0),
            tail: take(&operands, 1),
            destination: take(&operands, 2),
        },
        72 => Instruction::Badmatch {
            value: take(&operands, 0),
        },
        73 => Instruction::IfEnd,
        74 => Instruction::CaseEnd {
            value: take(&operands, 0),
        },
        75 => Instruction::CallFun {
            arity: take(&operands, 0),
        },
        77 => type_test(TypeTestOp::IsFunction, operands),
        78 => Instruction::CallExtOnly {
            arity: take(&operands, 0),
            import: take(&operands, 1),
        },
        96 => Instruction::Generic {
            opcode,
            name: "fmove",
            operands,
        },
        97 => Instruction::Generic {
            opcode,
            name: "fconv",
            operands,
        },
        98 => Instruction::Generic {
            opcode,
            name: "fadd",
            operands,
        },
        99 => Instruction::Generic {
            opcode,
            name: "fsub",
            operands,
        },
        100 => Instruction::Generic {
            opcode,
            name: "fmul",
            operands,
        },
        101 => Instruction::Generic {
            opcode,
            name: "fdiv",
            operands,
        },
        102 => Instruction::Generic {
            opcode,
            name: "fnegate",
            operands,
        },
        103 => Instruction::MakeFun { operands },
        104 => Instruction::Try {
            destination: take(&operands, 0),
            label: take(&operands, 1),
        },
        105 => Instruction::TryEnd {
            source: take(&operands, 0),
        },
        106 => Instruction::TryCase {
            source: take(&operands, 0),
        },
        107 => Instruction::TryCaseEnd {
            source: take(&operands, 0),
        },
        108 => Instruction::Raise {
            stacktrace: take(&operands, 0),
            reason: take(&operands, 1),
        },
        112 => Instruction::Apply {
            arity: take(&operands, 0),
        },
        113 => Instruction::ApplyLast {
            arity: take(&operands, 0),
            deallocate: take(&operands, 1),
        },
        114 => type_test(TypeTestOp::IsBoolean, operands),
        115 => type_test(TypeTestOp::IsFunction2, operands),
        117 => binary_op(BinaryOp::BsGetInteger2, operands),
        118 => binary_op(BinaryOp::BsGetFloat2, operands),
        119 => binary_op(BinaryOp::BsGetBinary2, operands),
        120 => binary_op(BinaryOp::BsSkipBits2, operands),
        121 => binary_op(BinaryOp::BsTestTail2, operands),
        124 => Instruction::Bif {
            op: BifOp::GcBif1,
            operands,
        },
        125 => Instruction::Bif {
            op: BifOp::GcBif2,
            operands,
        },
        129 => type_test(TypeTestOp::IsBitstr, operands),
        131 => binary_op(BinaryOp::BsTestUnit, operands),
        132 => binary_op(BinaryOp::BsMatchString, operands),
        133 => binary_op(BinaryOp::BsInitWritable, operands),
        136 => Instruction::Trim {
            words: take(&operands, 0),
            remaining: take(&operands, 1),
        },
        138 => binary_op(BinaryOp::BsGetUtf8, operands),
        139 => binary_op(BinaryOp::BsSkipUtf8, operands),
        140 => binary_op(BinaryOp::BsGetUtf16, operands),
        141 => binary_op(BinaryOp::BsSkipUtf16, operands),
        142 => binary_op(BinaryOp::BsGetUtf32, operands),
        143 => binary_op(BinaryOp::BsSkipUtf32, operands),
        149 => Instruction::OnLoad,
        152 => Instruction::Bif {
            op: BifOp::GcBif3,
            operands,
        },
        153 => Instruction::Line {
            index: take(&operands, 0),
        },
        154 => map_op(MapOp::PutMapAssoc, operands),
        155 => map_op(MapOp::PutMapExact, operands),
        156 => type_test(TypeTestOp::IsMap, operands),
        157 => map_op(MapOp::HasMapFields, operands),
        158 => map_op(MapOp::GetMapElements, operands),
        159 => Instruction::IsTaggedTuple {
            fail: take(&operands, 0),
            value: take(&operands, 1),
            arity: take(&operands, 2),
            tag: take(&operands, 3),
        },
        160 => Instruction::BuildStacktrace,
        161 => Instruction::RawRaise,
        162 => Instruction::GetHd {
            source: take(&operands, 0),
            destination: take(&operands, 1),
        },
        163 => Instruction::GetTl {
            source: take(&operands, 0),
            destination: take(&operands, 1),
        },
        164 => Instruction::PutTuple2 {
            destination: take(&operands, 0),
            elements: take(&operands, 1),
        },
        165 => binary_op(BinaryOp::BsGetTail, operands),
        166 => binary_op(BinaryOp::BsStartMatch3, operands),
        167 => binary_op(BinaryOp::BsGetPosition, operands),
        168 => binary_op(BinaryOp::BsSetPosition, operands),
        169 => Instruction::Swap {
            left: take(&operands, 0),
            right: take(&operands, 1),
        },
        170 => binary_op(BinaryOp::BsStartMatch4, operands),
        171 => Instruction::MakeFun { operands },
        172 => Instruction::InitYregs {
            registers: take(&operands, 0),
        },
        173 => Instruction::RecvMarkerReserve {
            dest: take(&operands, 0),
        },
        174 => Instruction::RecvMarkerBind {
            marker: take(&operands, 0),
            label: take(&operands, 1),
        },
        175 => Instruction::RecvMarkerClear {
            marker: take(&operands, 0),
        },
        176 => Instruction::RecvMarkerUse {
            marker: take(&operands, 0),
        },
        177 => binary_op(BinaryOp::BsCreateBin, operands),
        178 => Instruction::CallFun2 {
            function: take(&operands, 0),
            arity: take(&operands, 1),
            destination: take(&operands, 2),
        },
        179 => Instruction::NifStart,
        180 => Instruction::Badrecord {
            value: take(&operands, 0),
        },
        181 => Instruction::UpdateRecord { operands },
        182 => binary_op(BinaryOp::BsMatch, operands),
        183 => Instruction::Generic {
            opcode,
            name: "executable_line",
            operands,
        },
        184 => Instruction::Generic {
            opcode,
            name: "debug_line",
            operands,
        },
        _ => {
            let mut text = "unsupported opcode ".to_owned();
            text.append(decimal_u64(opcode as u64).as_str());
            return Err(LoadError::DecodeError(text));
        },
    };
    Ok(instruction)
}

fn comparison(op: ComparisonOp, operands: Vec<Operand>) -> (r: Instruction)
    requires
        operands@.len() == 3,
    ensures
        encodes(r, comparison_code(op), operand_views(operands@)),
{
    Instruction::Comparison {
        op,
        fail: take(&operands, 0),
        left: take(&operands, 1),
        right: take(&operands, 2),
    }
}

fn type_test(op: TypeTestOp, operands: Vec<Operand>) -> (r: Instruction)
    requires
        operands@.len() >= 2,
    ensures
        encodes(r, type_test_code(op), operand_views(operands@)),
{
    Instruction::TypeTest { op, fail: take(&operands, 0), value: take(&operands, 1) }
}

fn binary_op(op: BinaryOp, operands: Vec<Operand>) -> (r: Instruction)
    ensures
        encodes(r, binary_code(op), operand_views(operands@)),
{
    Instruction::BinaryOp { op, operands }
}

fn map_op(op: MapOp, operands: Vec<Operand>) -> (r: Instruction)
    ensures
        encodes(r, map_code(op), operand_views(operands@)),
{
    Instruction::MapOp { op, operands }
}

/// Decodes the instruction whose opcode has been read.
fn decode_instruction(opcode: u8, decoder: &mut CompactDecoder<'_>) -> (r: Result<
    Instruction,
    LoadError,
>)
    requires
        old(decoder).wf(),
    ensures
        final(decoder).wf(),
        final(decoder).same_input(old(decoder)),
        ({
            let (expected, state) = item_at(
                old(decoder).all(),
                old(decoder).atoms(),
                old(decoder).known(),
                opcode,
                old(decoder).state(),
            );
            &&& final(decoder).state() == state
            &&& match r {
                Ok(instruction) => expected matches Ok(item) && encodes(
                    instruction,
                    item.opcode,
                    item.operands,
                ),
                Err(e) => expected matches Err(fault) && fault == e@,
            }
        }),
        r is Ok ==> final(decoder).state().pos >= old(decoder).state().pos,
{
    let count: u32 = opcode_arity(opcode)?;
    let operands = decoder.read_operands(count)?;
    proof {
        lemma_operands_counted(
            old(decoder).all(),
            old(decoder).atoms(),
            old(decoder).known(),
            count as nat,
            Seq::empty(),
            old(decoder).state(),
        );
    }
    build_instruction(opcode, operands)
}

/// As many operands are read as were asked for.
pub proof fn lemma_operands_counted(
    b: Seq<u8>,
    atoms: Seq<Atom>,
    known: nat,
    n: nat,
    found: Seq<OperandView>,
    s: CompactState,
)
    ensures
        operands_at(b, atoms, known, n, found, s).0 matches Ok(operands) ==> operands.len()
            == found.len() + n,
    decreases n,
{
    if n > 0 {
        match operand_at(b, atoms, known, s) {
            (Ok(operand), t) => {
                lemma_operands_counted(b, atoms, known, (n - 1) as nat, found.push(operand), t);
            },
            (Err(_), _) => {},
        }
    }
}

/// The state in which the operands of a run of code are read.
pub open spec fn code_start() -> CompactState {
    CompactState { pos: 0, extras: Seq::empty(), budget: default_budget() }
}

/// Whether `r` is what decoding the instructions of `b` answers.
pub open spec fn instructions_answer(
    r: Result<(Vec<Instruction>, Vec<Literal>), LoadError>,
    b: Seq<u8>,
    atoms: Seq<Atom>,
    known: nat,
) -> bool {
    let (expected, state) = items_at(b, atoms, known, Seq::empty(), code_start());
    match r {
        Ok((instructions, extras)) => expected matches Ok(items) && all_encode(
            instructions@,
            items,
        ) && literal_views(extras@) == state.extras,
        Err(e) => expected matches Err(fault) && fault == e@,
    }
}

/// Decodes instructions, and the literals that their operands bring with them.
pub fn decode_instructions_and_literals(
    code_bytes: &[u8],
    atoms: &[Atom],
    literals: &[Literal],
) -> (r: Result<(Vec<Instruction>, Vec<Literal>), LoadError>)
    requires
        literals@.len() + code_bytes@.len() <= usize::MAX,
    ensures
        instructions_answer(r, code_bytes@, atoms@, literals@.len()),
{
    let mut decoder = CompactDecoder::new(code_bytes, atoms, literals);
    let mut instructions: Vec<Instruction> = Vec::new();
    let ghost mut items: Seq<Item> = Seq::empty();
    while !decoder.is_empty()
        invariant_except_break
            items_at(code_bytes@, atoms@, literals@.len(), Seq::empty(), code_start())
                == items_at(code_bytes@, atoms@, literals@.len(), items, decoder.state()),
        invariant
            decoder.wf(),
            decoder.all() == code_bytes@,
            decoder.atoms() == atoms@,
            decoder.known() == literals@.len(),
            all_encode(instructions@, items),
        ensures
            items_at(code_bytes@, atoms@, literals@.len(), Seq::empty(), code_start()) == (
                Ok::<Seq<Item>, LoadFault>(items),
                decoder.state(),
            ),
        decreases code_bytes@.len() - decoder.state().pos,
    {
        let opcode: u8 = decoder.read_opcode()?;
        if opcode == 3 {
            break;
        }
        let ghost after_opcode = decoder.state();
        let instruction = decode_instruction(opcode, &mut decoder)?;
        proof {
            let item = item_at(
                code_bytes@,
                atoms@,
                literals@.len(),
                opcode,
                after_opcode,
            ).0->Ok_0;
            items = items.push(item);
        }
        instructions.push(instruction);
    }
    let extras = decoder.take_extra_literals();
    Ok((instructions, extras))
}

/// Decodes instructions.
pub fn decode_instructions(code_bytes: &[u8], atoms: &[Atom], literals: &[Literal]) -> (r: Result<
    Vec<Instruction>,
    LoadError,
>)
    requires
        literals@.len() + code_bytes@.len() <= usize::MAX,
    ensures
        ({
            let expected = items_at(
                code_bytes@,
                atoms@,
                literals@.len(),
                Seq::empty(),
                code_start(),
            ).0;
            match r {
                Ok(instructions) => expected matches Ok(items) && all_encode(instructions@, items),
                Err(e) => expected matches Err(fault) && fault == e@,
            }
        }),
{
    let (instructions, _) = decode_instructions_and_literals(code_bytes, atoms, literals)?;
    Ok(instructions)
}

/// The first label from position `from` on that is above `limit`.
pub open spec fn label_above(items: Seq<Item>, limit: u32, from: nat) -> Option<u32>
    decreases items.len() - from,
{
    if from >= items.len() {
        None
    } else {
        match label_number(items[from as int].operands[0]) {
            Ok(label) => if items[from as int].opcode == 1 && label > limit {
                Some(label)
            } else {
                label_above(items, limit, from + 1)
            },
            Err(_) => label_above(items, limit, from + 1),
        }
    }
}

/// The largest checked opcode among the first `n` items.
pub open spec fn largest_opcode(items: Seq<Item>, n: nat) -> Option<u8>
    decreases n,
{
    if n == 0 {
        None
    } else {
        let before = largest_opcode(items, (n - 1) as nat);
        let opcode = items[n - 1].opcode;
        if !is_checked(opcode) {
            before
        } else {
            match before {
                Some(largest) if largest >= opcode => Some(largest),
                _ => Some(opcode),
            }
        }
    }
}

/// What is wrong with decoded items, given the limits of the chunk's header.
pub open spec fn limits_fault(items: Seq<Item>, label_count: u32, opcode_max: u32) -> Option<
    LoadFault,
> {
    match label_above(items, label_count, 0) {
        Some(label) => Some(
            decode_fault(
                "label "@ + nat_text(label as nat) + " exceeds Code label_count "@ + nat_text(
                    label_count as nat,
                ),
            ),
        ),
        None => match largest_opcode(items, items.len()) {
            Some(opcode) if opcode > opcode_max => Some(
                decode_fault(
                    "decoded opcode "@ + nat_text(opcode as nat) + " exceeds Code opcode_max "@
                        + nat_text(opcode_max as nat),
                ),
            ),
            _ => None,
        },
    }
}

/// The items of a code chunk and the literals that their operands bring.
///
/// The header holds its own size, the instruction set, the largest opcode, the
/// number of labels and the number of functions; the last is not checked.
pub open spec fn code_chunk(b: Seq<u8>, atoms: Seq<Atom>, known: nat) -> Result<
    (Seq<Item>, Seq<LiteralView>),
    LoadFault,
> {
    if b.len() < 20 {
        Err(decode_fault("Code chunk header is truncated"@))
    } else if be_u32(b, 0) != 16 {
        Err(decode_fault("unsupported Code sub_size "@ + nat_text(be_u32(b, 0) as nat)))
    } else if be_u32(b, 4) != 0 {
        Err(
            decode_fault("unsupported BEAM instruction set "@ + nat_text(be_u32(b, 4) as nat)),
        )
    } else {
        match items_at(
            b.subrange(20, b.len() as int),
            atoms,
            known,
            Seq::empty(),
            code_start(),
        ) {
            (Err(e), _) => Err(e),
            (Ok(items), s) => match limits_fault(
                items,
                be_u32(b, 12) as u32,
                be_u32(b, 8) as u32,
            ) {
                Some(e) => Err(e),
                None => Ok((items, s.extras)),
            },
        }
    }
}

fn header_u32(bytes: &[u8], at: usize) -> (r: u32)
    requires
        at + 4 <= bytes@.len(),
    ensures
        r == be_u32(bytes@, at as int),
{
    let high: u32 = (bytes[at] as u32) * 256 + bytes[at + 1] as u32;
    let low: u32 = (bytes[at + 2] as u32) * 256 + bytes[at + 3] as u32;
    high * 65536 + low
}

fn find_label_above(instructions: &Vec<Instruction>, limit: u32, Ghost(items): Ghost<
    Seq<Item>,
>) -> (r: Option<u32>)
    requires
        all_encode(instructions@, items),
    ensures
        r == label_above(items, limit, 0),
{
    let mut i: usize = 0;
    while i < instructions.len()
        invariant
            i <= instructions@.len(),
            all_encode(instructions@, items),
            label_above(items, limit, 0) == label_above(items, limit, i as nat),
        decreases instructions@.len() - i,
    {
        let instruction = &instructions[i];
        assert(encodes(*instruction, items[i as int].opcode, items[i as int].operands));
        match instruction {
            Instruction::Label { label } => {
                if *label > limit {
                    return Some(*label);
                }
            },
            _ => {
                assert(items[i as int].opcode != 1) by {
                    lemma_only_labels(*instruction, items[i as int].operands);
                }
            },
        }
        i += 1;
    }
    None
}

proof fn lemma_only_labels(instruction: Instruction, operands: Seq<OperandView>)
    requires
        !(instruction is Label),
    ensures
        !encodes(instruction, 1, operands),
{
}

fn find_largest_opcode(instructions: &Vec<Instruction>, Ghost(items): Ghost<Seq<Item>>) -> (r:
    Option<u8>)
    requires
        all_encode(instructions@, items),
    ensures
        r == largest_opcode(items, items.len()),
{
    let mut largest: Option<u8> = None;
    let mut i: usize = 0;
    while i < instructions.len()
        invariant
            i <= instructions@.len(),
            all_encode(instructions@, items),
            largest == largest_opcode(items, i as nat),
        decreases instructions@.len() - i,
    {
        proof {
            lemma_checked_opcode(
                instructions@[i as int],
                items[i as int].opcode,
                items[i as int].operands,
            );
        }
        match instruction_opcode(&instructions[i]) {
            Some(opcode) => {
                match largest {
                    Some(before) => {
                        if before < opcode {
                            largest = Some(opcode);
                        }
                    },
                    None => {
                        largest = Some(opcode);
                    },
                }
            },
            None => {},
        }
        i += 1;
    }
    largest
}

/// Decodes a code chunk, and the literals that its operands bring with them.
pub fn decode_code_and_literals(bytes: &[u8], atoms: &[Atom], literals: &[Literal]) -> (r: Result<
    (Vec<Instruction>, Vec<Literal>),
    LoadError,
>)
    requires
        literals@.len() + bytes@.len() <= usize::MAX,
    ensures
        match r {
            Ok((instructions, extras)) => code_chunk(bytes@, atoms@, literals@.len()) matches Ok(
                (items, extra_views),
            ) && all_encode(instructions@, items) && literal_views(extras@) == extra_views,
            Err(e) => code_chunk(bytes@, atoms@, literals@.len()) matches Err(fault) && fault
                == e@,
        },
{
    if bytes.len() < 20 {
        return Err(decode_error("Code chunk header is truncated"));
    }
    let sub_size: u32 = header_u32(bytes, 0);
    let instruction_set: u32 = header_u32(bytes, 4);
    let opcode_max: u32 = header_u32(bytes, 8);
    let label_count: u32 = header_u32(bytes, 12);
    if sub_size != 16 {
        let mut text = "unsupported Code sub_size ".to_owned();
        text.append(decimal_u64(sub_size as u64).as_str());
        return Err(LoadError::DecodeError(text));
    }
    if instruction_set != 0 {
        let mut text = "unsupported BEAM instruction set ".to_owned();
        text.append(decimal_u64(instruction_set as u64).as_str());
        return Err(LoadError::DecodeError(text));
    }
    let code = vstd::slice::slice_subrange(bytes, 20, bytes.len());
    let (instructions, extras) = decode_instructions_and_literals(code, atoms, literals)?;
    let ghost items = items_at(code@, atoms@, literals@.len(), Seq::empty(), code_start()).0->Ok_0;
    match find_label_above(&instructions, label_count, Ghost(items)) {
        Some(label) => {
            let mut text = "label ".to_owned();
            text.append(decimal_u64(label as u64).as_str());
            text.append(" exceeds Code label_count ");
            text.append(decimal_u64(label_count as u64).as_str());
            return Err(LoadError::DecodeError(text));
        },
        None => {},
    }
    match find_largest_opcode(&instructions, Ghost(items)) {
        Some(opcode) => {
            if opcode as u32 > opcode_max {
                let mut text = "decoded opcode ".to_owned();
                text.append(decimal_u64(opcode as u64).as_str());
                text.append(" exceeds Code opcode_max ");
                text.append(decimal_u64(opcode_max as u64).as_str());
                return Err(LoadError::DecodeError(text));
            }
        },
        None => {},
    }
    Ok((instructions, extras))
}

/// Decodes a code chunk.
pub fn decode_code_chunk(bytes: &[u8], atoms: &[Atom], literals: &[Literal]) -> (r: Result<
    Vec<Instruction>,
    LoadError,
>)
    requires
        literals@.len() + bytes@.len() <= usize::MAX,
    ensures
        match r {
            Ok(instructions) => code_chunk(bytes@, atoms@, literals@.len()) matches Ok(parts)
                && all_encode(instructions@, parts.0),
            Err(e) => code_chunk(bytes@, atoms@, literals@.len()) matches Err(fault) && fault
                == e@,
        },
{
    let (instructions, _) = decode_code_and_literals(bytes, atoms, literals)?;
    Ok(instructions)
}

} // verus!
