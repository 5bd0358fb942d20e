//! The registers that compiled code keeps in its register file.

use vstd::prelude::*;
use crate::loader::decode::compact::{Operand, OperandView};
use super::error::{jit_outcome, operand_error, operand_fault, JitError, JitFault};

verus! {

/// How many X registers there are; the Y registers follow them in the register
/// file.
pub const X_REGISTER_COUNT: u32 = 1024;

/// A register of the machine that compiled code stands for.
#[derive(Debug, Clone, Copy, PartialEq, Eq, Structural)]
pub enum Register {
    X(u32),
    Y(u32),
}

/// The register that an operand names.
pub open spec fn register_operand_of(operand: OperandView) -> Result<Register, JitFault>
    decreases operand,
{
    match operand {
        OperandView::X(index) => if index < X_REGISTER_COUNT {
            Ok(Register::X(index))
        } else {
            Err(operand_fault("register "@, operand))
        },
        OperandView::Y(index) => Ok(Register::Y(index)),
        OperandView::TypedRegister { register, .. } => register_operand_of(*register),
        _ => Err(operand_fault("register "@, operand)),
    }
}

/// The register that an operand names.
pub fn register_operand(operand: &Operand) -> (r: Result<Register, JitError>)
    ensures
        jit_outcome(r) == register_operand_of(operand.view()),
    decreases operand,
{
    match operand {
        Operand::X(index) => if *index < X_REGISTER_COUNT {
            Ok(Register::X(*index))
        } else {
            Err(operand_error("register ", operand))
        },
        Operand::Y(index) => Ok(Register::Y(*index)),
        Operand::TypedRegister { register, .. } => register_operand(register),
        _ => Err(operand_error("register ", operand)),
    }
}

/// Where a register is in the register file, in bytes.
pub open spec fn register_offset_of(register: Register) -> i64 {
    match register {
        Register::X(index) => (index * 8) as i64,
        Register::Y(index) => ((X_REGISTER_COUNT + index) * 8) as i64,
    }
}

/// Where a register is in the register file, in bytes.
pub fn register_offset(register: Register) -> (r: i64)
    ensures
        r == register_offset_of(register),
{
    match register {
        Register::X(index) => (index as i64) * 8,
        Register::Y(index) => (X_REGISTER_COUNT as i64 + index as i64) * 8,
    }
}

/// Registers that operands name are apart in the register file.
pub proof fn law_registers_are_apart(a: Register, b: Register)
    requires
        a matches Register::X(index) ==> index < X_REGISTER_COUNT,
        b matches Register::X(index) ==> index < X_REGISTER_COUNT,
        a != b,
    ensures
        register_offset_of(a) + 8 <= register_offset_of(b) || register_offset_of(b) + 8
            <= register_offset_of(a),
{
}

} // verus!
