//! What lowered code does when it runs.
//!
//! Code is followed from its first operation to its last. Where it jumps,
//! everything is passed over up to the block that it jumps to; when that block
//! does not follow, the code is left for it. The operations of one instruction jump
//! forward only, so this is how they run; a function that jumps back is followed in
//! several rounds. What a call returns, and what it makes of the
//! memory, is given beforehand. What floats are is not followed: a constant that is
//! one is passed over, and code that computes with one is stuck.

use vstd::prelude::*;
use crate::loader::decode::compact::OperandView;
use super::common::{constant_term_of, is_register_of};
use super::helper::Helper;
use super::ir::{Args, BinaryCode, Block, ImmCode, IntCc, IrOp, LoweringView, Value};
use super::register::{register_offset_of, register_operand_of, Register};

verus! {

/// A call that was made.
#[verifier::ext_equal]
pub struct Made {
    pub helper: Helper,
    pub args: Seq<i64>,
    /// The memory when the call was made.
    pub memory: Map<int, i64>,
}

/// What a call does.
#[verifier::ext_equal]
pub struct Answer {
    /// What it returns.
    pub first: i64,
    /// What it returns besides, if it returns two words.
    pub second: i64,
    /// The memory when it returns.
    pub memory: Map<int, i64>,
}

/// What code works on.
#[verifier::ext_equal]
pub struct Machine {
    /// The values that operations made.
    pub values: Map<Value, i64>,
    /// The second results of operations that have two.
    pub seconds: Map<Value, i64>,
    /// The words of the memory, by their addresses.
    pub memory: Map<int, i64>,
    /// The calls that were made.
    pub calls: Seq<Made>,
    /// What the calls do, in the order in which they are made.
    pub answers: Seq<Answer>,
    /// Where the words on the stack are, by the operations that reserve them.
    pub slots: Map<Value, i64>,
}

impl Machine {
    /// With the value of an operation.
    pub open spec fn with(self, at: Value, value: i64) -> Machine {
        Machine { values: self.values.insert(at, value), ..self }
    }

    /// With a word stored.
    pub open spec fn stored(self, address: int, word: i64) -> Machine {
        Machine { memory: self.memory.insert(address, word), ..self }
    }
}

/// The words that a call is handed.
pub open spec fn arguments(m: Machine, args: Args) -> Seq<i64> {
    match args {
        Args::One(a) => seq![m.values[a]],
        Args::Two(a, b) => seq![m.values[a], m.values[b]],
        Args::Three(a, b, c) => seq![m.values[a], m.values[b], m.values[c]],
        Args::Four(a, b, c, d) => seq![m.values[a], m.values[b], m.values[c], m.values[d]],
        Args::Five(a, b, c, d, e) => seq![
            m.values[a],
            m.values[b],
            m.values[c],
            m.values[d],
            m.values[e],
        ],
    }
}

/// What the next call does.
pub open spec fn next_answer(m: Machine) -> Answer {
    m.answers[m.calls.len() as int]
}

/// A machine when its next call returns.
pub open spec fn answered(m: Machine, helper: Helper, args: Seq<i64>) -> Machine {
    Machine {
        memory: next_answer(m).memory,
        calls: m.calls.push(Made { helper, args, memory: m.memory }),
        ..m
    }
}

/// How far code has come.
pub enum Flow {
    /// It runs on.
    Running(Machine),
    /// It has left for a block.
    Left(Block, Machine),
    /// It has returned a status, if it returns one, and a word.
    Returned(Option<i64>, i64, Machine),
    /// It has trapped, or is not followed.
    Stuck,
}

/// A condition as a word.
pub open spec fn flag(condition: bool) -> i64 {
    if condition {
        1
    } else {
        0
    }
}

/// Whether two words compare so.
pub open spec fn compares(cc: IntCc, left: i64, right: i64) -> bool {
    match cc {
        IntCc::Equal => left == right,
        IntCc::NotEqual => left != right,
        IntCc::SignedLessThan => left < right,
        IntCc::SignedGreaterThan => left > right,
        IntCc::SignedGreaterThanOrEqual => left >= right,
        IntCc::UnsignedLessThan => if (left < 0) == (right < 0) {
            left < right
        } else {
            right < 0
        },
    }
}

/// The quotient, rounded towards zero.
pub open spec fn quotient(left: int, right: int) -> int {
    if left >= 0 {
        left / right
    } else {
        -((-left) / right)
    }
}

/// The remainder of the quotient; it has the sign of the dividend.
pub open spec fn remainder(left: int, right: int) -> int {
    left - quotient(left, right) * right
}

/// The result of a division, unless it traps.
pub open spec fn divided(left: i64, right: i64, value: int) -> Option<i64> {
    if right == 0 || (left == i64::MIN && right == -1) {
        None
    } else {
        Some(value as i64)
    }
}

/// What is computed of two words, unless it traps or is not followed.
pub open spec fn computed(code: BinaryCode, left: i64, right: i64) -> Option<i64> {
    match code {
        BinaryCode::Iadd => Some((left + right) as i64),
        BinaryCode::Isub => Some((left - right) as i64),
        BinaryCode::Sdiv => divided(left, right, quotient(left as int, right as int)),
        BinaryCode::Srem => divided(left, right, remainder(left as int, right as int)),
        BinaryCode::Band => Some(left & right),
        BinaryCode::Bor => Some(left | right),
        BinaryCode::Bxor => Some(left ^ right),
        _ => None,
    }
}

/// What is computed of a word and a constant.
pub open spec fn computed_imm(code: ImmCode, left: i64, imm: i64) -> i64 {
    match code {
        ImmCode::Band => left & imm,
        ImmCode::Bor => left | imm,
        ImmCode::Ishl => left << imm,
        ImmCode::Sshr => left >> imm,
        ImmCode::Ushr => ((left as u64) >> imm) as i64,
    }
}

/// What an operation does.
pub open spec fn operate(at: Value, op: IrOp, m: Machine) -> Flow {
    match op {
        IrOp::Block => Flow::Running(m),
        IrOp::Param { .. } => Flow::Running(m),
        IrOp::Iconst { value, .. } => Flow::Running(m.with(at, value)),
        IrOp::Fconst { .. } => Flow::Running(m),
        IrOp::Binary { code, left, right } => match computed(code, m.values[left], m.values[right]) {
            Some(value) => Flow::Running(m.with(at, value)),
            None => Flow::Stuck,
        },
        IrOp::BinaryImm { code, left, imm } => Flow::Running(
            m.with(at, computed_imm(code, m.values[left], imm)),
        ),
        IrOp::Compare { cc, left, right } => Flow::Running(
            m.with(at, flag(compares(cc, m.values[left], m.values[right]))),
        ),
        IrOp::CompareImm { cc, left, imm } => Flow::Running(
            m.with(at, flag(compares(cc, m.values[left], imm))),
        ),
        IrOp::SmulOverflow { left, right } => {
            let product = m.values[left] * m.values[right];
            Flow::Running(
                Machine {
                    values: m.values.insert(at, product as i64),
                    seconds: m.seconds.insert(at, flag(product < i64::MIN || product > i64::MAX)),
                    ..m
                },
            )
        },
        IrOp::Load { base, offset, .. } => Flow::Running(
            m.with(at, m.memory[m.values[base] + offset]),
        ),
        IrOp::Store { value, base, offset } => Flow::Running(
            m.stored(m.values[base] + offset, m.values[value]),
        ),
        IrOp::Result { of, index } => if index == 0 {
            Flow::Running(m.with(at, m.values[of]))
        } else {
            Flow::Running(m.with(at, m.seconds[of]))
        },
        IrOp::Call { helper, args } => {
            let answer = m.answers[m.calls.len() as int];
            Flow::Running(
                Machine {
                    values: m.values.insert(at, answer.first),
                    seconds: m.seconds.insert(at, answer.second),
                    memory: answer.memory,
                    calls: m.calls.push(
                        Made { helper, args: arguments(m, args), memory: m.memory },
                    ),
                    ..m
                },
            )
        },
        IrOp::StackSlot { .. } => Flow::Running(m.with(at, m.slots[at])),
        IrOp::Jump { block } => Flow::Left(block, m),
        IrOp::Brif { condition, then_block, else_block } => if m.values[condition] != 0 {
            Flow::Left(then_block, m)
        } else {
            Flow::Left(else_block, m)
        },
        IrOp::Return { value } => Flow::Returned(None, m.values[value], m),
        IrOp::ReturnStatus { status, value } => Flow::Returned(
            Some(m.values[status]),
            m.values[value],
            m,
        ),
        _ => Flow::Stuck,
    }
}

/// How far code has come after one more operation.
pub open spec fn follow(at: Value, op: IrOp, before: Flow) -> Flow {
    match before {
        Flow::Running(m) => operate(at, op, m),
        Flow::Left(block, m) => if op == (IrOp::Switch { block }) {
            Flow::Running(m)
        } else {
            before
        },
        _ => before,
    }
}

/// How far code has come after its operations from `from` up to `to`.
pub open spec fn flow(ops: Seq<IrOp>, from: int, to: int, start: Flow) -> Flow
    decreases to - from,
{
    if to <= from {
        start
    } else {
        follow((to - 1) as Value, ops[to - 1], flow(ops, from, to - 1, start))
    }
}

/// How far code has come at the end of what is lowered so far.
pub open spec fn does(b: LoweringView, from: int, start: Flow) -> Flow {
    flow(b.ops, from, b.ops.len() as int, start)
}

pub proof fn lemma_flow_prefix(ops: Seq<IrOp>, longer: Seq<IrOp>, from: int, to: int, start: Flow)
    requires
        0 <= from,
        to <= ops.len(),
        ops.len() <= longer.len(),
        forall|i: int| 0 <= i < ops.len() ==> ops[i] == longer[i],
    ensures
        flow(ops, from, to, start) == flow(longer, from, to, start),
    decreases to - from,
{
    if from < to {
        lemma_flow_prefix(ops, longer, from, to - 1, start);
    }
}

/// One more operation is followed last.
pub broadcast proof fn lemma_emit(b: LoweringView, op: IrOp, from: int, start: Flow)
    requires
        0 <= from <= b.ops.len(),
        b.ops.len() < usize::MAX,
    ensures
        #[trigger] does(b.emit(op).1, from, start) == follow(
            b.ops.len() as Value,
            op,
            does(b, from, start),
        ),
{
    lemma_flow_prefix(b.ops, b.emit(op).1.ops, from, b.ops.len() as int, start);
}

/// A block that is switched to is where code that left for it goes on.
pub proof fn lemma_switch(b: LoweringView, block: Block, from: int, start: Flow)
    requires
        b.ops.len() < usize::MAX,
        0 <= from <= b.ops.len(),
    ensures
        b.switch(block).ops.len() == b.ops.len() + 1,
        does(b.switch(block), from, start) == follow(
            b.ops.len() as Value,
            IrOp::Switch { block },
            does(b, from, start),
        ),
{
    lemma_emit(b, IrOp::Switch { block }, from, start);
    assert(b.switch(block).ops == b.emit(IrOp::Switch { block }).1.ops);
}

/// Following code piece by piece is following it as a whole.
pub proof fn law_code_runs_piece_by_piece(
    ops: Seq<IrOp>,
    from: int,
    between: int,
    to: int,
    start: Flow,
)
    requires
        from <= between <= to,
    ensures
        flow(ops, from, to, start) == flow(ops, between, to, flow(ops, from, between, start)),
    decreases to - between,
{
    if between < to {
        law_code_runs_piece_by_piece(ops, from, between, to - 1, start);
    }
}

/// Whether code was added to.
pub open spec fn goes_on(before: LoweringView, after: LoweringView) -> bool {
    &&& before.ops.len() <= after.ops.len()
    &&& forall|i: int| 0 <= i < before.ops.len() ==> #[trigger] after.ops[i] == before.ops[i]
}

/// Whether code was added to, with nothing of the block among what was added.
pub open spec fn adds(before: LoweringView, after: LoweringView, block: Block) -> bool {
    &&& goes_on(before, after)
    &&& forall|i: int|
        before.ops.len() <= i < after.ops.len() ==> #[trigger] after.ops[i] != (IrOp::Switch {
            block,
        })
}

/// Code that was added to runs first as it was, and then what was added.
pub proof fn lemma_then(before: LoweringView, after: LoweringView, from: int, start: Flow)
    requires
        0 <= from <= before.ops.len(),
        goes_on(before, after),
    ensures
        does(after, from, start) == does(
            after,
            before.ops.len() as int,
            does(before, from, start),
        ),
{
    let between = before.ops.len() as int;
    law_code_runs_piece_by_piece(after.ops, from, between, after.ops.len() as int, start);
    lemma_flow_prefix(before.ops, after.ops, from, between, start);
}

/// Code that left for a block passes over what is not of that block.
pub proof fn lemma_passed_over(ops: Seq<IrOp>, from: int, to: int, block: Block, m: Machine)
    requires
        0 <= from <= to <= ops.len(),
        forall|i: int| from <= i < to ==> #[trigger] ops[i] != (IrOp::Switch { block }),
    ensures
        flow(ops, from, to, Flow::Left(block, m)) == Flow::Left(block, m),
    decreases to - from,
{
    if from < to {
        lemma_passed_over(ops, from, to - 1, block, m);
    }
}

/// Code that has returned does nothing more.
pub proof fn lemma_returned_stays(
    ops: Seq<IrOp>,
    from: int,
    to: int,
    status: Option<i64>,
    value: i64,
    m: Machine,
)
    ensures
        flow(ops, from, to, Flow::Returned(status, value, m)) == Flow::Returned(status, value, m),
    decreases to - from,
{
    if from < to {
        lemma_returned_stays(ops, from, to - 1, status, value, m);
    }
}

/// Where a register is in the memory.
pub open spec fn register_address(base: i64, register: Register) -> int {
    base + register_offset_of(register)
}

/// The term that an operand stands for: what its register holds, or its
/// constant.
pub open spec fn operand_value(m: Machine, register_file: Value, operand: OperandView) -> i64 {
    if is_register_of(operand) {
        m.memory[register_address(m.values[register_file], register_operand_of(operand)->Ok_0)]
    } else {
        constant_term_of(operand)->Ok_0
    }
}

/// Whether two machines have the same values but for those made at `from` or later, and
/// the same answers to come; their memory may differ, and one may have made more calls.
pub open spec fn keeps(before: Machine, after: Machine, from: int) -> bool {
    &&& after.answers == before.answers
    &&& after.slots == before.slots
    &&& forall|v: Value| v < from ==> #[trigger] after.values[v] == before.values[v]
}

/// Whether two machines have the same memory, made the same calls, and have the
/// same values but for those made at `from` or later.
pub open spec fn only_made_values(before: Machine, after: Machine, from: int) -> bool {
    &&& after.memory == before.memory
    &&& after.calls == before.calls
    &&& after.answers == before.answers
    &&& after.slots == before.slots
    &&& forall|v: Value| v < from ==> #[trigger] after.values[v] == before.values[v]
}

} // verus!
