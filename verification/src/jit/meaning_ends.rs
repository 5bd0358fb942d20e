//! Laws of the numbers by which code says how it ended.

use vstd::prelude::*;
use super::binary::lower_exception_block_ir;
use super::common::{JIT_DEOPT_SENTINEL, JIT_YIELD_SENTINEL};
use super::exceptions::{
    JIT_STATUS_DEOPT, JIT_STATUS_EXCEPTION, JIT_STATUS_NORMAL, JIT_STATUS_YIELD,
};
use super::helper::IrType;
use super::ir::{IrOp, LoweringView};
use super::meaning::{does, lemma_emit, Flow, Machine};
use super::meaning_call::{lemma_return_status, same_effects};
use super::meaning_core::has_room;

verus! {

/// Code that ends says how by 0 for a value, 1 for an exception, 2 for the interpreter to take
/// over and 3 for a process that yields; code that returns one word says the last two by -1
/// and -2.
pub proof fn law_ends_are_numbered()
    ensures
        JIT_STATUS_NORMAL == 0,
        JIT_STATUS_EXCEPTION == 1,
        JIT_STATUS_DEOPT == 2,
        JIT_STATUS_YIELD == 3,
        JIT_DEOPT_SENTINEL == -1,
        JIT_YIELD_SENTINEL == -2,
{
}

/// Where a segment cannot be added to a binary, the code ends with an exception, whose reason
/// is the atom for a bad argument, the sixth.
pub proof fn law_bad_segments_are_bad_arguments(b: LoweringView, m: Machine)
    requires
        has_room(b),
    ensures
        does(lower_exception_block_ir(b), b.ops.len() as int, Flow::Running(m))
            matches Flow::Returned(status, value, n) && status == Some(1i64) && value == 8 * 5 + 1
            && same_effects(n, m),
{
    let from = b.ops.len() as int;
    let start = Flow::Running(m);
    let op = IrOp::Iconst { ty: IrType::I64, value: 41 };
    lemma_emit(b, op, from, start);
    let (reason, b1) = b.emit(op);
    lemma_return_status(b1, JIT_STATUS_EXCEPTION, reason, from, start);
}

} // verus!
