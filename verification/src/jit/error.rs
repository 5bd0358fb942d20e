//! Why code could not be compiled.

use vstd::prelude::*;
use vstd::string::*;
use crate::loader::decode::compact::{
    operand_text, operand_views, operands_string, operands_text, Operand, OperandView,
};
use crate::text::{decimal_i64, decimal_u64, int_text, nat_text};

verus! {

/// Why an instruction slice could not be compiled.
#[derive(Debug, Clone, PartialEq, Eq)]
pub enum JitError {
    /// There is no translation for the instruction.
    UnsupportedOpcode { opcode: String },
    /// The instruction is translated, but not with such an operand.
    UnsupportedOperand { operand: String },
    /// A branch goes to a label that is not in the slice.
    UnknownLabel { label: u32 },
    /// The code generator failed.
    CraneliftError(String),
    /// There are no instructions.
    EmptyFunction,
}

/// A [`JitError`] with its text as a sequence of characters.
#[verifier::ext_equal]
pub enum JitFault {
    UnsupportedOpcode { opcode: Seq<char> },
    UnsupportedOperand { operand: Seq<char> },
    UnknownLabel { label: u32 },
    CraneliftError(Seq<char>),
    EmptyFunction,
}

impl View for JitError {
    type V = JitFault;

    open spec fn view(&self) -> JitFault {
        match self {
            JitError::UnsupportedOpcode { opcode } => JitFault::UnsupportedOpcode {
                opcode: opcode@,
            },
            JitError::UnsupportedOperand { operand } => JitFault::UnsupportedOperand {
                operand: operand@,
            },
            JitError::UnknownLabel { label } => JitFault::UnknownLabel { label: *label },
            JitError::CraneliftError(text) => JitFault::CraneliftError(text@),
            JitError::EmptyFunction => JitFault::EmptyFunction,
        }
    }
}

/// What a fallible function answered, with its error as a [`JitFault`].
pub open spec fn jit_outcome<T>(r: Result<T, JitError>) -> Result<T, JitFault> {
    match r {
        Ok(value) => Ok(value),
        Err(error) => Err(error@),
    }
}

/// The sentence for an error.
pub open spec fn fault_text(fault: JitFault) -> Seq<char> {
    match fault {
        JitFault::UnsupportedOpcode { opcode } => "unsupported JIT opcode: "@ + opcode,
        JitFault::UnsupportedOperand { operand } => "unsupported JIT operand: "@ + operand,
        JitFault::UnknownLabel { label } => "unknown JIT label: "@ + nat_text(label as nat),
        JitFault::CraneliftError(text) => "Cranelift JIT error: "@ + text,
        JitFault::EmptyFunction => "cannot JIT compile an empty instruction slice"@,
    }
}

impl JitError {
    /// The error as a sentence.
    pub fn describe(&self) -> (r: String)
        ensures
            r@ == fault_text(self@),
    {
        match self {
            JitError::UnsupportedOpcode { opcode } => {
                let mut text = "unsupported JIT opcode: ".to_owned();
                text.append(opcode.as_str());
                text
            },
            JitError::UnsupportedOperand { operand } => {
                let mut text = "unsupported JIT operand: ".to_owned();
                text.append(operand.as_str());
                text
            },
            JitError::UnknownLabel { label } => {
                let mut text = "unknown JIT label: ".to_owned();
                text.append(decimal_u64(*label as u64).as_str());
                text
            },
            JitError::CraneliftError(error) => {
                let mut text = "Cranelift JIT error: ".to_owned();
                text.append(error.as_str());
                text
            },
            JitError::EmptyFunction => "cannot JIT compile an empty instruction slice".to_owned(),
        }
    }
}

/// The fault of an unsupported operand, described by a text.
pub open spec fn text_fault(text: Seq<char>) -> JitFault {
    JitFault::UnsupportedOperand { operand: text }
}

/// The error of an unsupported operand, described by a text.
pub fn text_error(text: &str) -> (r: JitError)
    ensures
        r@ == text_fault(text@),
{
    JitError::UnsupportedOperand { operand: text.to_owned() }
}

/// The fault of an unsupported operand, which the text is followed by.
pub open spec fn operand_fault(text: Seq<char>, operand: OperandView) -> JitFault {
    JitFault::UnsupportedOperand { operand: text + operand_text(operand) }
}

/// The error of an unsupported operand, which the text is followed by.
pub fn operand_error(text: &str, operand: &Operand) -> (r: JitError)
    ensures
        r@ == operand_fault(text@, operand.view()),
{
    let mut full = text.to_owned();
    full.append(operand.debug_string().as_str());
    JitError::UnsupportedOperand { operand: full }
}

/// The fault of unsupported operands, which the text is followed by.
pub open spec fn operands_fault(text: Seq<char>, operands: Seq<OperandView>) -> JitFault {
    JitFault::UnsupportedOperand {
        operand: text + "["@ + operands_text(operands, operands.len()) + "]"@,
    }
}

/// The error of unsupported operands, which the text is followed by.
pub fn operands_error(text: &str, operands: &Vec<Operand>) -> (r: JitError)
    ensures
        r@ == operands_fault(text@, operand_views(operands@)),
{
    let mut full = text.to_owned();
    full.append("[");
    full.append(operands_string(operands).as_str());
    full.append("]");
    JitError::UnsupportedOperand { operand: full }
}

/// The fault of an unsupported number, which the text is followed by.
pub open spec fn number_fault(text: Seq<char>, number: u64) -> JitFault {
    JitFault::UnsupportedOperand { operand: text + nat_text(number as nat) }
}

/// The error of an unsupported number, which the text is followed by.
pub fn number_error(text: &str, number: u64) -> (r: JitError)
    ensures
        r@ == number_fault(text@, number),
{
    let mut full = text.to_owned();
    full.append(decimal_u64(number).as_str());
    JitError::UnsupportedOperand { operand: full }
}

/// The fault of an unsupported number, which the text is followed by.
pub open spec fn signed_fault(text: Seq<char>, number: i64) -> JitFault {
    JitFault::UnsupportedOperand { operand: text + int_text(number as int) }
}

/// The error of an unsupported number, which the text is followed by.
pub fn signed_error(text: &str, number: i64) -> (r: JitError)
    ensures
        r@ == signed_fault(text@, number),
{
    let mut full = text.to_owned();
    full.append(decimal_i64(number).as_str());
    JitError::UnsupportedOperand { operand: full }
}

/// The fault of an unsupported operand in a context: the context, then why.
pub open spec fn context_fault(context: Seq<char>, why: Seq<char>) -> JitFault {
    JitFault::UnsupportedOperand { operand: context + why }
}

/// The error of an unsupported operand in a context: the context, then why.
pub fn context_error(context: &str, why: &str) -> (r: JitError)
    ensures
        r@ == context_fault(context@, why@),
{
    let mut full = context.to_owned();
    full.append(why);
    JitError::UnsupportedOperand { operand: full }
}

/// The fault of a number out of range in a context.
pub open spec fn range_fault(context: Seq<char>, number: u64) -> JitFault {
    JitFault::UnsupportedOperand {
        operand: context + " out of range: "@ + nat_text(number as nat),
    }
}

/// The error of a number out of range in a context.
pub fn range_error(context: &str, number: u64) -> (r: JitError)
    ensures
        r@ == range_fault(context@, number),
{
    let mut full = context.to_owned();
    full.append(" out of range: ");
    full.append(decimal_u64(number).as_str());
    JitError::UnsupportedOperand { operand: full }
}

/// The fault of a signed number out of range in a context.
pub open spec fn signed_range_fault(context: Seq<char>, number: i64) -> JitFault {
    JitFault::UnsupportedOperand {
        operand: context + " out of range: "@ + int_text(number as int),
    }
}

/// The error of a signed number out of range in a context.
pub fn signed_range_error(context: &str, number: i64) -> (r: JitError)
    ensures
        r@ == signed_range_fault(context@, number),
{
    let mut full = context.to_owned();
    full.append(" out of range: ");
    full.append(decimal_i64(number).as_str());
    JitError::UnsupportedOperand { operand: full }
}

/// The fault of an operand of the wrong form in a context: the context, a text
/// between, and the operand.
pub open spec fn form_fault(context: Seq<char>, between: Seq<char>, operand: OperandView) -> JitFault {
    JitFault::UnsupportedOperand { operand: context + between + operand_text(operand) }
}

/// The error of an operand of the wrong form in a context: the context, a text
/// between, and the operand.
pub fn form_error(context: &str, between: &str, operand: &Operand) -> (r: JitError)
    ensures
        r@ == form_fault(context@, between@, operand.view()),
{
    let mut full = context.to_owned();
    full.append(between);
    full.append(operand.debug_string().as_str());
    JitError::UnsupportedOperand { operand: full }
}

/// The fault of a float register that there is not, in a context.
pub open spec fn fr_fault(context: Seq<char>, index: u32) -> JitFault {
    JitFault::UnsupportedOperand { operand: context + " fr"@ + nat_text(index as nat) }
}

/// The error of a float register that there is not, in a context.
pub fn fr_error(context: &str, index: u32) -> (r: JitError)
    ensures
        r@ == fr_fault(context@, index),
{
    let mut full = context.to_owned();
    full.append(" fr");
    full.append(decimal_u64(index as u64).as_str());
    JitError::UnsupportedOperand { operand: full }
}

/// The fault of two unsupported operands, each after a text.
pub open spec fn pair_fault(
    first_text: Seq<char>,
    first: OperandView,
    second_text: Seq<char>,
    second: OperandView,
) -> JitFault {
    JitFault::UnsupportedOperand {
        operand: first_text + operand_text(first) + second_text + operand_text(second),
    }
}

/// The error of two unsupported operands, each after a text.
pub fn pair_error(first_text: &str, first: &Operand, second_text: &str, second: &Operand) -> (r:
    JitError)
    ensures
        r@ == pair_fault(first_text@, first.view(), second_text@, second.view()),
{
    let mut full = first_text.to_owned();
    full.append(first.debug_string().as_str());
    full.append(second_text);
    full.append(second.debug_string().as_str());
    JitError::UnsupportedOperand { operand: full }
}

/// The fault of an instruction without a translation.
pub open spec fn opcode_fault(text: Seq<char>) -> JitFault {
    JitFault::UnsupportedOpcode { opcode: text }
}

/// The error of an instruction without a translation.
pub fn opcode_error(text: &str) -> (r: JitError)
    ensures
        r@ == opcode_fault(text@),
{
    JitError::UnsupportedOpcode { opcode: text.to_owned() }
}

/// The fault of an unsupported operation: a text, its name, and a text.
pub open spec fn operation_fault(before: Seq<char>, name: Seq<char>, after: Seq<char>) -> JitFault {
    JitFault::UnsupportedOpcode { opcode: before + name + after }
}

/// The error of an unsupported operation: a text, its name, and a text.
pub fn operation_error(before: &str, name: &str, after: &str) -> (r: JitError)
    ensures
        r@ == operation_fault(before@, name@, after@),
{
    let mut full = before.to_owned();
    full.append(name);
    full.append(after);
    JitError::UnsupportedOpcode { opcode: full }
}

} // verus!
