//! Lowering matching and building of binaries.

use vstd::prelude::*;
use crate::atom::Atom;
use crate::loader::decode::compact::{
    lemma_operand_list_view, lemma_operand_views_push, operand_views, Operand, OperandView,
};
use crate::loader::decode::instruction::BinaryOp;
use crate::loader::decode::names::{binary_op_name, binary_op_name_of};
use crate::term::{atom_term, atom_term_of};
use super::common::{
    branch_if_null, branch_if_null_ir, branch_to_fail_if, branch_to_fail_if_ir, read_operand_term,
    read_operand_term_ir, write_operand_term, write_operand_term_ir,
};
use super::error::{
    context_error, context_fault, form_error, form_fault, jit_outcome, operand_error,
    operand_fault, operands_error, operands_fault, operation_error, operation_fault, text_error,
    text_fault, JitError, JitFault,
};
use super::exceptions::{return_status, return_status_ir, JIT_STATUS_EXCEPTION};
use super::helper::{Helper, IrType};
use super::ir::{lowered, Args, Block, IntCc, IrOp, Lowering, LoweringView, Value};

verus! {

/// The number of bits that stands for all that are left.
pub const ALL_BITS: u64 = 0xffff_ffff_ffff_ffff;

/// The result of a function that failed to match.
pub const BINARY_FAILURE: i64 = -1;

/// The values that the lowering of binary instructions needs.
#[derive(Debug, Clone, Copy, PartialEq, Eq, Structural)]
pub struct BinaryLoweringContext {
    pub register_file: Value,
    pub process: Value,
    pub deopt: Block,
    pub exception: Block,
}

/// The fault of operands of the wrong number or form.
pub open spec fn invalid_operands_fault(context: Seq<char>) -> JitFault {
    text_fault("invalid "@ + context + " operands"@)
}

/// The error of operands of the wrong number or form.
pub fn invalid_operands_error(context: &str) -> (r: JitError)
    ensures
        r@ == invalid_operands_fault(context@),
{
    let mut text = "invalid ".to_owned();
    vstd::string::StringExecFns::append(&mut text, context);
    vstd::string::StringExecFns::append(&mut text, " operands");
    JitError::UnsupportedOperand { operand: text }
}

/// What [`immediate_u64`] answers.
pub open spec fn immediate_u64_of(
    operand: OperandView,
    context: Seq<char>,
) -> Result<u64, JitFault> {
    match operand {
        OperandView::Unsigned(value) => Ok(value),
        OperandView::Integer(value) => {
            if value >= 0 {
                Ok(value as u64)
            } else {
                Err(form_fault(context, ": "@, operand))
            }
        },
        _ => Err(form_fault(context, ": "@, operand)),
    }
}

/// The number in an operand.
pub fn immediate_u64(operand: &Operand, context: &str) -> (r: Result<u64, JitError>)
    ensures
        jit_outcome(r) == immediate_u64_of(operand.view(), context@),
{
    match operand {
        Operand::Unsigned(value) => Ok(*value),
        Operand::Integer(value) => {
            if *value >= 0 {
                Ok(*value as u64)
            } else {
                Err(form_error(context, ": ", operand))
            }
        },
        _ => Err(form_error(context, ": ", operand)),
    }
}

/// What [`segment_bits`] answers.
pub open spec fn segment_bits_of(
    size: OperandView,
    unit: OperandView,
    context: Seq<char>,
) -> Result<u64, JitFault> {
    match immediate_u64_of(size, context) {
        Err(e) => Err(e),
        Ok(size) => {
            match immediate_u64_of(unit, context) {
                Err(e) => Err(e),
                Ok(unit) => {
                    match size.checked_mul(unit) {
                        Some(bits) => Ok(bits),
                        None => Err(context_fault(context, " overflows"@)),
                    }
                },
            }
        },
    }
}

/// How many bits a segment has.
pub fn segment_bits(size: &Operand, unit: &Operand, context: &str) -> (r: Result<u64, JitError>)
    ensures
        jit_outcome(r) == segment_bits_of(size.view(), unit.view(), context@),
{
    let size: u64 = immediate_u64(size, context)?;
    let unit: u64 = immediate_u64(unit, context)?;
    match size.checked_mul(unit) {
        Some(bits) => Ok(bits),
        None => Err(context_error(context, " overflows")),
    }
}

/// The flags that an operand holds, or the operands of a list together.
pub open spec fn flags_to_raw_of(flags: OperandView) -> u64
    decreases flags, 0nat,
{
    match flags {
        OperandView::Unsigned(value) => value,
        OperandView::Integer(value) => if value >= 0 {
            value as u64
        } else {
            0
        },
        OperandView::List(items) => all_flags_of(items, items.len()),
        _ => 0,
    }
}

/// The flags of the first `n` operands together.
pub open spec fn all_flags_of(items: Seq<OperandView>, n: nat) -> u64
    decreases items, n,
{
    if n == 0 || n > items.len() {
        0
    } else {
        all_flags_of(items, (n - 1) as nat) | flags_to_raw_of(items[n - 1])
    }
}

fn all_flags(items: &Vec<Operand>) -> (r: u64)
    ensures
        r == all_flags_of(operand_views(items@), items@.len()),
    decreases items,
{
    let mut bits: u64 = 0;
    let mut i: usize = 0;
    while i < items.len()
        invariant
            i <= items@.len(),
            bits == all_flags_of(operand_views(items@), i as nat),
        decreases items@.len() - i,
    {
        proof {
            assert(decreases_to!(items => items@[i as int]));
        }
        bits = bits | flags_to_raw(&items[i]);
        i += 1;
    }
    bits
}

/// The flags that an operand holds, or the operands of a list together.
pub fn flags_to_raw(flags: &Operand) -> (r: u64)
    ensures
        r == flags_to_raw_of(flags.view()),
    decreases flags,
{
    match flags {
        Operand::Unsigned(value) => *value,
        Operand::Integer(value) => if *value >= 0 {
            *value as u64
        } else {
            0
        },
        Operand::List(items) => {
            proof {
                lemma_operand_list_view(*items);
            }
            all_flags(items)
        },
        _ => 0,
    }
}

/// What [`required_fail`] answers.
pub open spec fn required_fail_of(
    resolved: Option<Block>,
    operand: OperandView,
) -> Result<Block, JitFault> {
    match resolved {
        Some(block) => Ok(block),
        None => Err(operand_fault("missing fail block for "@, operand)),
    }
}

/// The block to go to when a match fails.
pub fn required_fail(resolved: Option<Block>, operand: &Operand) -> (r: Result<Block, JitError>)
    ensures
        jit_outcome(r) == required_fail_of(resolved, operand.view()),
{
    match resolved {
        Some(block) => Ok(block),
        None => Err(operand_error("missing fail block for ", operand)),
    }
}

/// What [`iconst_u64`] makes of a lowering.
pub open spec fn iconst_u64_ir(b: LoweringView, value: u64) -> (Value, LoweringView) {
    b.emit(IrOp::Iconst { ty: IrType::I64, value: value as i64 })
}

/// A constant.
fn iconst_u64(b: &mut Lowering, value: u64) -> (r: Value)
    ensures
        (r, final(b)@) == iconst_u64_ir(old(b)@, value),
{
    b.emit(IrOp::Iconst { ty: IrType::I64, value: value as i64 })
}

/// What [`branch_to_fail_if_invalid_binary_result`] makes of a lowering.
pub open spec fn branch_to_fail_if_invalid_binary_result_ir(
    b: LoweringView,
    value: Value,
    fail: Block,
) -> LoweringView {
    let b = branch_if_null_ir(b, value, fail);
    let (is_failure, b) = b.emit(IrOp::CompareImm { cc: IntCc::Equal, left: value, imm: BINARY_FAILURE });
    let b = branch_to_fail_if_ir(b, is_failure, fail);
    b
}

/// Goes to `fail` when the result of a match says that it failed.
fn branch_to_fail_if_invalid_binary_result(b: &mut Lowering, value: Value, fail: Block)
    ensures
        final(b)@ == branch_to_fail_if_invalid_binary_result_ir(old(b)@, value, fail),
{
    branch_if_null(b, value, fail);
    let is_failure = b.emit(IrOp::CompareImm { cc: IntCc::Equal, left: value, imm: BINARY_FAILURE });
    branch_to_fail_if(b, is_failure, fail);
}

/// What [`lower_start_match`] makes of a lowering.
pub open spec fn lower_start_match_ir(
    b: LoweringView,
    context: BinaryLoweringContext,
    source: OperandView,
    destination: OperandView,
    fail: Block,
) -> Result<LoweringView, JitFault> {
    match read_operand_term_ir(b, context.register_file, source) {
        Err(e) => Err(e),
        Ok((binary, b)) => {
            let (call, b) = b.emit(IrOp::Call { helper: Helper::BsStartMatch, args: Args::Two(context.process, binary) });
            let (match_context, b) = b.emit(IrOp::Result { of: call, index: 0 });
            let b = branch_to_fail_if_invalid_binary_result_ir(b, match_context, fail);
            write_operand_term_ir(b, context.register_file, destination, match_context)
        },
    }
}

/// Starts to match a binary.
fn lower_start_match(
    b: &mut Lowering,
    context: BinaryLoweringContext,
    source: &Operand,
    destination: &Operand,
    fail: Block,
) -> (r: Result<(), JitError>)
    ensures
        lowered(r, final(b)@) == lower_start_match_ir(old(b)@, context, source.view(), destination.view(), fail),
{
    let binary = read_operand_term(b, context.register_file, source)?;
    let call = b.emit(IrOp::Call { helper: Helper::BsStartMatch, args: Args::Two(context.process, binary) });
    let match_context = b.emit(IrOp::Result { of: call, index: 0 });
    branch_to_fail_if_invalid_binary_result(b, match_context, fail);
    write_operand_term(b, context.register_file, destination, match_context)
}

/// What [`lower_get_integer`] makes of a lowering.
pub open spec fn lower_get_integer_ir(
    b: LoweringView,
    context: BinaryLoweringContext,
    match_context: OperandView,
    bits: u64,
    flags: u64,
    destination: OperandView,
    fail: Block,
) -> Result<LoweringView, JitFault> {
    match read_operand_term_ir(b, context.register_file, match_context) {
        Err(e) => Err(e),
        Ok((matched, b)) => {
            let (bits_value, b) = iconst_u64_ir(b, bits);
            let (flags_value, b) = iconst_u64_ir(b, flags);
            let (call, b) = b.emit(IrOp::Call { helper: Helper::BsGetInteger, args: Args::Three(matched, bits_value, flags_value) });
            let (value, b) = b.emit(IrOp::Result { of: call, index: 0 });
            let b = branch_to_fail_if_invalid_binary_result_ir(b, value, fail);
            write_operand_term_ir(b, context.register_file, destination, value)
        },
    }
}

/// Matches an integer.
fn lower_get_integer(
    b: &mut Lowering,
    context: BinaryLoweringContext,
    match_context: &Operand,
    bits: u64,
    flags: u64,
    destination: &Operand,
    fail: Block,
) -> (r: Result<(), JitError>)
    ensures
        lowered(r, final(b)@) == lower_get_integer_ir(old(b)@, context, match_context.view(), bits, flags, destination.view(), fail),
{
    let matched = read_operand_term(b, context.register_file, match_context)?;
    let bits_value = iconst_u64(b, bits);
    let flags_value = iconst_u64(b, flags);
    let call = b.emit(IrOp::Call { helper: Helper::BsGetInteger, args: Args::Three(matched, bits_value, flags_value) });
    let value = b.emit(IrOp::Result { of: call, index: 0 });
    branch_to_fail_if_invalid_binary_result(b, value, fail);
    write_operand_term(b, context.register_file, destination, value)
}

/// What [`lower_get_binary`] makes of a lowering.
pub open spec fn lower_get_binary_ir(
    b: LoweringView,
    context: BinaryLoweringContext,
    match_context: OperandView,
    bits: u64,
    destination: OperandView,
    fail: Block,
) -> Result<LoweringView, JitFault> {
    match read_operand_term_ir(b, context.register_file, match_context) {
        Err(e) => Err(e),
        Ok((matched, b)) => {
            let (bits_value, b) = iconst_u64_ir(b, bits);
            let (call, b) = b.emit(IrOp::Call { helper: Helper::BsGetBinary, args: Args::Three(context.process, matched, bits_value) });
            let (value, b) = b.emit(IrOp::Result { of: call, index: 0 });
            let b = branch_to_fail_if_invalid_binary_result_ir(b, value, fail);
            write_operand_term_ir(b, context.register_file, destination, value)
        },
    }
}

/// Matches a binary.
fn lower_get_binary(
    b: &mut Lowering,
    context: BinaryLoweringContext,
    match_context: &Operand,
    bits: u64,
    destination: &Operand,
    fail: Block,
) -> (r: Result<(), JitError>)
    ensures
        lowered(r, final(b)@) == lower_get_binary_ir(old(b)@, context, match_context.view(), bits, destination.view(), fail),
{
    let matched = read_operand_term(b, context.register_file, match_context)?;
    let bits_value = iconst_u64(b, bits);
    let call = b.emit(IrOp::Call { helper: Helper::BsGetBinary, args: Args::Three(context.process, matched, bits_value) });
    let value = b.emit(IrOp::Result { of: call, index: 0 });
    branch_to_fail_if_invalid_binary_result(b, value, fail);
    write_operand_term(b, context.register_file, destination, value)
}

/// What [`lower_get_utf`] makes of a lowering.
pub open spec fn lower_get_utf_ir(
    b: LoweringView,
    context: BinaryLoweringContext,
    helper: Helper,
    match_context: OperandView,
    flags: u64,
    destination: OperandView,
    fail: Block,
) -> Result<LoweringView, JitFault> {
    match read_operand_term_ir(b, context.register_file, match_context) {
        Err(e) => Err(e),
        Ok((matched, b)) => {
            let (flags_value, b) = iconst_u64_ir(b, flags);
            let (call, b) = b.emit(IrOp::Call { helper, args: Args::Two(matched, flags_value) });
            let (value, b) = b.emit(IrOp::Result { of: call, index: 0 });
            let b = branch_to_fail_if_invalid_binary_result_ir(b, value, fail);
            write_operand_term_ir(b, context.register_file, destination, value)
        },
    }
}

/// Matches a character.
fn lower_get_utf(
    b: &mut Lowering,
    context: BinaryLoweringContext,
    helper: Helper,
    match_context: &Operand,
    flags: u64,
    destination: &Operand,
    fail: Block,
) -> (r: Result<(), JitError>)
    ensures
        lowered(r, final(b)@) == lower_get_utf_ir(old(b)@, context, helper, match_context.view(), flags, destination.view(), fail),
{
    let matched = read_operand_term(b, context.register_file, match_context)?;
    let flags_value = iconst_u64(b, flags);
    let call = b.emit(IrOp::Call { helper, args: Args::Two(matched, flags_value) });
    let value = b.emit(IrOp::Result { of: call, index: 0 });
    branch_to_fail_if_invalid_binary_result(b, value, fail);
    write_operand_term(b, context.register_file, destination, value)
}

/// What [`lower_test`] makes of a lowering.
pub open spec fn lower_test_ir(
    b: LoweringView,
    context: BinaryLoweringContext,
    helper: Helper,
    match_context: OperandView,
    expected: u64,
    fail: Block,
) -> Result<LoweringView, JitFault> {
    match read_operand_term_ir(b, context.register_file, match_context) {
        Err(e) => Err(e),
        Ok((matched, b)) => {
            let (expected_value, b) = iconst_u64_ir(b, expected);
            let (call, b) = b.emit(IrOp::Call { helper, args: Args::Two(matched, expected_value) });
            let (ok, b) = b.emit(IrOp::Result { of: call, index: 0 });
            let b = branch_if_null_ir(b, ok, fail);
            Ok(b)
        },
    }
}

/// Goes to `fail` unless what is left to match passes a test.
fn lower_test(
    b: &mut Lowering,
    context: BinaryLoweringContext,
    helper: Helper,
    match_context: &Operand,
    expected: u64,
    fail: Block,
) -> (r: Result<(), JitError>)
    ensures
        lowered(r, final(b)@) == lower_test_ir(old(b)@, context, helper, match_context.view(), expected, fail),
{
    let matched = read_operand_term(b, context.register_file, match_context)?;
    let expected_value = iconst_u64(b, expected);
    let call = b.emit(IrOp::Call { helper, args: Args::Two(matched, expected_value) });
    let ok = b.emit(IrOp::Result { of: call, index: 0 });
    branch_if_null(b, ok, fail);
    Ok(())
}

/// What [`lower_bs_init_writable`] makes of a lowering.
pub open spec fn lower_bs_init_writable_ir(
    b: LoweringView,
    context: BinaryLoweringContext,
    operands: Seq<OperandView>,
) -> Result<LoweringView, JitFault> {
    if operands.len() != 2 {
        Err(invalid_operands_fault("bs_init_writable"@))
    } else {
        match immediate_u64_of(operands[0], "bs_init_writable size"@) {
            Err(e) => Err(e),
            Ok(size_hint) => {
                let (size_value, b) = iconst_u64_ir(b, size_hint);
                let (call, b) = b.emit(IrOp::Call { helper: Helper::BsInit, args: Args::Two(context.process, size_value) });
                let (builder_term, b) = b.emit(IrOp::Result { of: call, index: 0 });
                let b = branch_if_null_ir(b, builder_term, context.deopt);
                write_operand_term_ir(b, context.register_file, operands[1], builder_term)
            },
        }
    }
}

/// Starts to build a binary.
fn lower_bs_init_writable(
    b: &mut Lowering,
    context: BinaryLoweringContext,
    operands: &Vec<Operand>,
) -> (r: Result<(), JitError>)
    ensures
        lowered(r, final(b)@) == lower_bs_init_writable_ir(old(b)@, context, operand_views(operands@)),
{
    if operands.len() != 2 {
        return Err(invalid_operands_error("bs_init_writable"));
    }
    let size_hint: u64 = immediate_u64(&operands[0], "bs_init_writable size")?;
    let size_value = iconst_u64(b, size_hint);
    let call = b.emit(IrOp::Call { helper: Helper::BsInit, args: Args::Two(context.process, size_value) });
    let builder_term = b.emit(IrOp::Result { of: call, index: 0 });
    branch_if_null(b, builder_term, context.deopt);
    write_operand_term(b, context.register_file, &operands[1], builder_term)
}

/// What [`dispatch_helper_status`] makes of a lowering.
pub open spec fn dispatch_helper_status_ir(
    b: LoweringView,
    context: BinaryLoweringContext,
    call: Value,
) -> LoweringView {
    let (status, b) = b.emit(IrOp::Result { of: call, index: 0 });
    let (ok, b) = b.emit(IrOp::CompareImm { cc: IntCc::Equal, left: status, imm: 0 });
    let (continuation, b) = b.create_block();
    let b = b.emit(IrOp::Brif { condition: ok, then_block: continuation, else_block: context.exception }).1;
    let b = b.switch(continuation);
    b
}

/// Goes to the exception block unless the status of a call is zero.
fn dispatch_helper_status(b: &mut Lowering, context: BinaryLoweringContext, call: Value)
    ensures
        final(b)@ == dispatch_helper_status_ir(old(b)@, context, call),
{
    let status = b.emit(IrOp::Result { of: call, index: 0 });
    let ok = b.emit(IrOp::CompareImm { cc: IntCc::Equal, left: status, imm: 0 });
    let continuation = b.create_block();
    b.emit(IrOp::Brif { condition: ok, then_block: continuation, else_block: context.exception });
    b.switch(continuation);
}

/// The fields of a segment, or of a command: what a list operand holds.
pub open spec fn list_items_of(operand: OperandView, context: Seq<char>) -> Result<
    Seq<OperandView>,
    JitFault,
> {
    match operand {
        OperandView::List(items) => Ok(items),
        _ => Err(invalid_operands_fault(context)),
    }
}

fn list_items<'a>(operand: &'a Operand, context: &str) -> (r: Result<&'a Vec<Operand>, JitError>)
    ensures
        match r {
            Ok(items) => list_items_of(operand.view(), context@) == Ok::<
                Seq<OperandView>,
                JitFault,
            >(operand_views(items@)),
            Err(e) => list_items_of(operand.view(), context@) == Err::<Seq<OperandView>, JitFault>(
                e@,
            ),
        },
{
    match operand {
        Operand::List(items) => {
            proof {
                lemma_operand_list_view(*items);
            }
            Ok(items)
        },
        _ => Err(invalid_operands_error(context)),
    }
}

/// What the first field of a segment says that the segment is.
#[derive(Debug, Clone, Copy, PartialEq, Eq, Structural)]
pub enum SegmentKind {
    /// No atom: an integer or a binary.
    Plain,
    /// The atom `utf8`: a character.
    Utf8,
    Other,
}

/// What [`segment_kind`] answers.
pub open spec fn segment_kind_of(operand: OperandView) -> SegmentKind {
    match operand {
        OperandView::Atom(None) => SegmentKind::Plain,
        OperandView::Atom(Some(atom)) => {
            if atom.0 == 9 {
                SegmentKind::Utf8
            } else {
                SegmentKind::Other
            }
        },
        _ => SegmentKind::Other,
    }
}

/// What the first field of a segment says that the segment is.
pub fn segment_kind(operand: &Operand) -> (r: SegmentKind)
    ensures
        r == segment_kind_of(operand.view()),
{
    match operand {
        Operand::Atom(None) => SegmentKind::Plain,
        Operand::Atom(Some(atom)) => {
            if atom.0 == 9 {
                SegmentKind::Utf8
            } else {
                SegmentKind::Other
            }
        },
        _ => SegmentKind::Other,
    }
}

/// What [`lower_create_bin_segment`] makes of a lowering.
pub open spec fn lower_create_bin_segment_ir(
    b: LoweringView,
    context: BinaryLoweringContext,
    builder_term: Value,
    segment: OperandView,
) -> Result<LoweringView, JitFault> {
    match list_items_of(segment, "bs_create_bin segment"@) {
        Err(e) => Err(e),
        Ok(fields) => {
            if fields.len() == 5 && segment_kind_of(fields[0]) == SegmentKind::Plain {
                match read_operand_term_ir(b, context.register_file, fields[1]) {
                    Err(e) => Err(e),
                    Ok((value, b)) => {
                        match segment_bits_of(fields[2], fields[3], "bs_create_bin integer size"@) {
                            Err(e) => Err(e),
                            Ok(bits) => {
                                let (bits_value, b) = iconst_u64_ir(b, bits);
                                let flags = flags_to_raw_of(fields[4]);
                                let (flags_value, b) = iconst_u64_ir(b, flags);
                                let (call, b) = b.emit(IrOp::Call { helper: Helper::BsPutInteger, args: Args::Five(context.process, builder_term, value, bits_value, flags_value) });
                                let b = dispatch_helper_status_ir(b, context, call);
                                Ok(b)
                            },
                        }
                    },
                }
            } else if fields.len() == 2 && segment_kind_of(fields[0]) == SegmentKind::Plain {
                match read_operand_term_ir(b, context.register_file, fields[1]) {
                    Err(e) => Err(e),
                    Ok((source, b)) => {
                        let (call, b) = b.emit(IrOp::Call { helper: Helper::BsPutBinary, args: Args::Three(context.process, builder_term, source) });
                        let b = dispatch_helper_status_ir(b, context, call);
                        Ok(b)
                    },
                }
            } else if fields.len() == 2 && segment_kind_of(fields[0]) == SegmentKind::Utf8 {
                match read_operand_term_ir(b, context.register_file, fields[1]) {
                    Err(e) => Err(e),
                    Ok((value, b)) => {
                        let (call, b) = b.emit(IrOp::Call { helper: Helper::BsPutUtf8, args: Args::Three(context.process, builder_term, value) });
                        let b = dispatch_helper_status_ir(b, context, call);
                        Ok(b)
                    },
                }
            } else {
                Err(invalid_operands_fault("bs_create_bin segment"@))
            }
        },
    }
}

/// Adds a segment to a binary that is built: an integer, a binary, or a character
/// in UTF-8.
fn lower_create_bin_segment(
    b: &mut Lowering,
    context: BinaryLoweringContext,
    builder_term: Value,
    segment: &Operand,
) -> (r: Result<(), JitError>)
    ensures
        lowered(r, final(b)@) == lower_create_bin_segment_ir(old(b)@, context, builder_term, segment.view()),
{
    let fields = list_items(segment, "bs_create_bin segment")?;
    if fields.len() == 5 && segment_kind(&fields[0]) == SegmentKind::Plain {
        let value = read_operand_term(b, context.register_file, &fields[1])?;
        let bits: u64 = segment_bits(&fields[2], &fields[3], "bs_create_bin integer size")?;
        let bits_value = iconst_u64(b, bits);
        let flags: u64 = flags_to_raw(&fields[4]);
        let flags_value = iconst_u64(b, flags);
        let call = b.emit(IrOp::Call { helper: Helper::BsPutInteger, args: Args::Five(context.process, builder_term, value, bits_value, flags_value) });
        dispatch_helper_status(b, context, call);
        Ok(())
    } else if fields.len() == 2 && segment_kind(&fields[0]) == SegmentKind::Plain {
        let source = read_operand_term(b, context.register_file, &fields[1])?;
        let call = b.emit(IrOp::Call { helper: Helper::BsPutBinary, args: Args::Three(context.process, builder_term, source) });
        dispatch_helper_status(b, context, call);
        Ok(())
    } else if fields.len() == 2 && segment_kind(&fields[0]) == SegmentKind::Utf8 {
        let value = read_operand_term(b, context.register_file, &fields[1])?;
        let call = b.emit(IrOp::Call { helper: Helper::BsPutUtf8, args: Args::Three(context.process, builder_term, value) });
        dispatch_helper_status(b, context, call);
        Ok(())
    } else {
        Err(invalid_operands_error("bs_create_bin segment"))
    }
}

/// Adds the segments from the third operand to the `n`th.
pub open spec fn create_segments_ir(
    b: LoweringView,
    context: BinaryLoweringContext,
    builder_term: Value,
    operands: Seq<OperandView>,
    n: nat,
) -> Result<LoweringView, JitFault>
    decreases n,
{
    if n <= 2 {
        Ok(b)
    } else {
        match create_segments_ir(b, context, builder_term, operands, (n - 1) as nat) {
            Err(e) => Err(e),
            Ok(b) => lower_create_bin_segment_ir(b, context, builder_term, operands[n - 1]),
        }
    }
}

proof fn lemma_segments_fail(
    b: LoweringView,
    context: BinaryLoweringContext,
    builder_term: Value,
    operands: Seq<OperandView>,
    n: nat,
)
    requires
        n <= operands.len(),
    ensures
        create_segments_ir(b, context, builder_term, operands, n) matches Err(e)
            ==> create_segments_ir(b, context, builder_term, operands, operands.len()) == Err::<
            LoweringView,
            JitFault,
        >(e),
    decreases operands.len() - n,
{
    if n < operands.len() {
        lemma_segments_fail(b, context, builder_term, operands, n + 1);
    }
}

fn create_segments(
    b: &mut Lowering,
    context: BinaryLoweringContext,
    builder_term: Value,
    operands: &Vec<Operand>,
) -> (r: Result<(), JitError>)
    requires
        operands@.len() >= 2,
    ensures
        lowered(r, final(b)@) == create_segments_ir(
            old(b)@,
            context,
            builder_term,
            operand_views(operands@),
            operands@.len(),
        ),
{
    let ghost views = operand_views(operands@);
    let mut i: usize = 2;
    while i < operands.len()
        invariant
            2 <= i <= operands@.len(),
            views == operand_views(operands@),
            create_segments_ir(old(b)@, context, builder_term, views, i as nat) == Ok::<
                LoweringView,
                JitFault,
            >(b@),
        decreases operands@.len() - i,
    {
        proof {
            lemma_segments_fail(old(b)@, context, builder_term, views, (i + 1) as nat);
        }
        lower_create_bin_segment(b, context, builder_term, &operands[i])?;
        i += 1;
    }
    Ok(())
}

/// What [`lower_bs_create_bin`] makes of a lowering.
pub open spec fn lower_bs_create_bin_ir(
    b: LoweringView,
    context: BinaryLoweringContext,
    operands: Seq<OperandView>,
) -> Result<LoweringView, JitFault> {
    if operands.len() < 2 {
        Err(invalid_operands_fault("bs_create_bin"@))
    } else {
        match immediate_u64_of(operands[1], "bs_create_bin size"@) {
            Err(e) => Err(e),
            Ok(size_hint) => {
                let (size_value, b) = iconst_u64_ir(b, size_hint);
                let (call, b) = b.emit(IrOp::Call { helper: Helper::BsInit, args: Args::Two(context.process, size_value) });
                let (builder_term, b) = b.emit(IrOp::Result { of: call, index: 0 });
                let b = branch_if_null_ir(b, builder_term, context.deopt);
                match create_segments_ir(b, context, builder_term, operands, operands.len()) {
                    Err(e) => Err(e),
                    Ok(b) => {
                        let (finish, b) = b.emit(IrOp::Call { helper: Helper::BsFinish, args: Args::Two(context.process, builder_term) });
                        let (result, b) = b.emit(IrOp::Result { of: finish, index: 0 });
                        let b = branch_if_null_ir(b, result, context.deopt);
                        write_operand_term_ir(b, context.register_file, operands[0], result)
                    },
                }
            },
        }
    }
}

/// Builds a binary of segments.
fn lower_bs_create_bin(
    b: &mut Lowering,
    context: BinaryLoweringContext,
    operands: &Vec<Operand>,
) -> (r: Result<(), JitError>)
    ensures
        lowered(r, final(b)@) == lower_bs_create_bin_ir(old(b)@, context, operand_views(operands@)),
{
    if operands.len() < 2 {
        return Err(invalid_operands_error("bs_create_bin"));
    }
    let size_hint: u64 = immediate_u64(&operands[1], "bs_create_bin size")?;
    let size_value = iconst_u64(b, size_hint);
    let call = b.emit(IrOp::Call { helper: Helper::BsInit, args: Args::Two(context.process, size_value) });
    let builder_term = b.emit(IrOp::Result { of: call, index: 0 });
    branch_if_null(b, builder_term, context.deopt);
    create_segments(b, context, builder_term, operands)?;
    let finish = b.emit(IrOp::Call { helper: Helper::BsFinish, args: Args::Two(context.process, builder_term) });
    let result = b.emit(IrOp::Result { of: finish, index: 0 });
    branch_if_null(b, result, context.deopt);
    write_operand_term(b, context.register_file, &operands[0], result)
}

/// What [`lower_bs_get_tail`] makes of a lowering.
pub open spec fn lower_bs_get_tail_ir(
    b: LoweringView,
    context: BinaryLoweringContext,
    operands: Seq<OperandView>,
) -> Result<LoweringView, JitFault> {
    if operands.len() == 4 {
        lower_get_binary_ir(b, context, operands[1], ALL_BITS, operands[3], context.deopt)
    } else if operands.len() == 3 {
        lower_get_binary_ir(b, context, operands[1], ALL_BITS, operands[2], context.deopt)
    } else {
        Err(invalid_operands_fault("bs_get_tail"@))
    }
}

/// Matches what is left of a binary; without it, the interpreter takes over.
fn lower_bs_get_tail(
    b: &mut Lowering,
    context: BinaryLoweringContext,
    operands: &Vec<Operand>,
) -> (r: Result<(), JitError>)
    ensures
        lowered(r, final(b)@) == lower_bs_get_tail_ir(old(b)@, context, operand_views(operands@)),
{
    if operands.len() == 4 {
        lower_get_binary(b, context, &operands[1], ALL_BITS, &operands[3], context.deopt)
    } else if operands.len() == 3 {
        lower_get_binary(b, context, &operands[1], ALL_BITS, &operands[2], context.deopt)
    } else {
        Err(invalid_operands_error("bs_get_tail"))
    }
}

/// What [`is_command`] answers.
pub open spec fn is_command_of(operand: OperandView, code: u64) -> bool {
    match operand {
        OperandView::Unsigned(value) => value == code,
        OperandView::Integer(value) => value >= 0 && value as u64 == code,
        _ => false,
    }
}

/// Whether an operand is the number of a match command.
pub fn is_command(operand: &Operand, code: u64) -> (r: bool)
    ensures
        r == is_command_of(operand.view(), code),
{
    match operand {
        Operand::Unsigned(value) => *value == code,
        Operand::Integer(value) => *value >= 0 && *value as u64 == code,
        _ => false,
    }
}

/// What [`lower_nested_match_command`] makes of a lowering.
pub open spec fn lower_nested_match_command_ir(
    b: LoweringView,
    context: BinaryLoweringContext,
    match_context: OperandView,
    command: OperandView,
    fail: Block,
) -> Result<LoweringView, JitFault> {
    match list_items_of(command, "bs_match command"@) {
        Err(e) => Err(e),
        Ok(items) => {
            if items.len() == 3 && is_command_of(items[0], 0) {
                match immediate_u64_of(items[2], "bs_match ensure bits"@) {
                    Err(e) => Err(e),
                    Ok(bits) => lower_test_ir(b, context, Helper::BsTestUnit, match_context, bits, fail),
                }
            } else if items.len() == 3 && is_command_of(items[0], 1) {
                match immediate_u64_of(items[1], "bs_match ensure exactly"@) {
                    Err(e) => Err(e),
                    Ok(bits) => lower_test_ir(b, context, Helper::BsTestTail, match_context, bits, fail),
                }
            } else if items.len() == 6 && is_command_of(items[0], 2) {
                match segment_bits_of(items[3], items[4], "bs_match integer size"@) {
                    Err(e) => Err(e),
                    Ok(bits) => {
                        let flags = flags_to_raw_of(items[2]);
                        lower_get_integer_ir(b, context, match_context, bits, flags, items[5], fail)
                    },
                }
            } else if items.len() == 6 && is_command_of(items[0], 4) {
                match segment_bits_of(items[3], items[4], "bs_match binary size"@) {
                    Err(e) => Err(e),
                    Ok(bits) => lower_get_binary_ir(b, context, match_context, bits, items[5], fail),
                }
            } else if items.len() == 3 && is_command_of(items[0], 6) {
                lower_get_binary_ir(b, context, match_context, ALL_BITS, items[2], fail)
            } else if items.len() == 4 && is_command_of(items[0], 6) {
                lower_get_binary_ir(b, context, match_context, ALL_BITS, items[3], fail)
            } else {
                Err(operands_fault("bs_match command "@, items))
            }
        },
    }
}

/// Runs one command of a match: a test of what is left, or the match of an
/// integer, of a binary, or of the rest.
fn lower_nested_match_command(
    b: &mut Lowering,
    context: BinaryLoweringContext,
    match_context: &Operand,
    command: &Operand,
    fail: Block,
) -> (r: Result<(), JitError>)
    ensures
        lowered(r, final(b)@) == lower_nested_match_command_ir(old(b)@, context, match_context.view(), command.view(), fail),
{
    let items = list_items(command, "bs_match command")?;
    if items.len() == 3 && is_command(&items[0], 0) {
        let bits: u64 = immediate_u64(&items[2], "bs_match ensure bits")?;
        lower_test(b, context, Helper::BsTestUnit, match_context, bits, fail)
    } else if items.len() == 3 && is_command(&items[0], 1) {
        let bits: u64 = immediate_u64(&items[1], "bs_match ensure exactly")?;
        lower_test(b, context, Helper::BsTestTail, match_context, bits, fail)
    } else if items.len() == 6 && is_command(&items[0], 2) {
        let bits: u64 = segment_bits(&items[3], &items[4], "bs_match integer size")?;
        let flags: u64 = flags_to_raw(&items[2]);
        lower_get_integer(b, context, match_context, bits, flags, &items[5], fail)
    } else if items.len() == 6 && is_command(&items[0], 4) {
        let bits: u64 = segment_bits(&items[3], &items[4], "bs_match binary size")?;
        lower_get_binary(b, context, match_context, bits, &items[5], fail)
    } else if items.len() == 3 && is_command(&items[0], 6) {
        lower_get_binary(b, context, match_context, ALL_BITS, &items[2], fail)
    } else if items.len() == 4 && is_command(&items[0], 6) {
        lower_get_binary(b, context, match_context, ALL_BITS, &items[3], fail)
    } else {
        Err(operands_error("bs_match command ", items))
    }
}

/// Whether the operands from `from` to the `n`th are lists.
pub open spec fn all_lists(items: Seq<OperandView>, from: int, n: int) -> bool {
    forall|i: int| from <= i < n ==> (#[trigger] items[i]) is List
}

/// Runs the commands from `from` to the `n`th.
pub open spec fn match_commands_ir(
    b: LoweringView,
    context: BinaryLoweringContext,
    match_context: OperandView,
    commands: Seq<OperandView>,
    from: nat,
    n: nat,
    fail: Block,
) -> Result<LoweringView, JitFault>
    decreases n,
{
    if n <= from {
        Ok(b)
    } else {
        match match_commands_ir(b, context, match_context, commands, from, (n - 1) as nat, fail) {
            Err(e) => Err(e),
            Ok(b) => lower_nested_match_command_ir(b, context, match_context, commands[n - 1], fail),
        }
    }
}

proof fn lemma_commands_fail(
    b: LoweringView,
    context: BinaryLoweringContext,
    match_context: OperandView,
    commands: Seq<OperandView>,
    from: nat,
    n: nat,
    fail: Block,
)
    requires
        n <= commands.len(),
    ensures
        match_commands_ir(b, context, match_context, commands, from, n, fail) matches Err(e)
            ==> match_commands_ir(
            b,
            context,
            match_context,
            commands,
            from,
            commands.len(),
            fail,
        ) == Err::<LoweringView, JitFault>(e),
    decreases commands.len() - n,
{
    if n < commands.len() {
        lemma_commands_fail(b, context, match_context, commands, from, n + 1, fail);
    }
}

/// The commands of a match: all have to be lists.
pub open spec fn nested_match_ir(
    b: LoweringView,
    context: BinaryLoweringContext,
    match_context: OperandView,
    commands: Seq<OperandView>,
    from: nat,
    fail: Block,
) -> Result<LoweringView, JitFault> {
    if all_lists(commands, from as int, commands.len() as int) {
        match_commands_ir(b, context, match_context, commands, from, commands.len(), fail)
    } else {
        Err(text_fault("flat bs_match command stream"@))
    }
}

fn nested_match(
    b: &mut Lowering,
    context: BinaryLoweringContext,
    match_context: &Operand,
    commands: &Vec<Operand>,
    from: usize,
    fail: Block,
) -> (r: Result<(), JitError>)
    requires
        from <= commands@.len(),
    ensures
        lowered(r, final(b)@) == nested_match_ir(
            old(b)@,
            context,
            match_context.view(),
            operand_views(commands@),
            from as nat,
            fail,
        ),
{
    let ghost views = operand_views(commands@);
    let mut i: usize = from;
    while i < commands.len()
        invariant
            from <= i <= commands@.len(),
            views == operand_views(commands@),
            all_lists(views, from as int, i as int),
        decreases commands@.len() - i,
    {
        assert(views[i as int] == commands@[i as int].view());
        match &commands[i] {
            Operand::List(_) => {},
            _ => {
                assert(!(views[i as int] is List));
                return Err(text_error("flat bs_match command stream"));
            },
        }
        i += 1;
    }
    let mut i: usize = from;
    while i < commands.len()
        invariant
            from <= i <= commands@.len(),
            views == operand_views(commands@),
            match_commands_ir(
                old(b)@,
                context,
                match_context.view(),
                views,
                from as nat,
                i as nat,
                fail,
            ) == Ok::<LoweringView, JitFault>(b@),
            all_lists(views, from as int, commands@.len() as int),
        decreases commands@.len() - i,
    {
        proof {
            lemma_commands_fail(
                old(b)@,
                context,
                match_context.view(),
                views,
                from as nat,
                (i + 1) as nat,
                fail,
            );
        }
        lower_nested_match_command(b, context, match_context, &commands[i], fail)?;
        i += 1;
    }
    Ok(())
}

/// What [`lower_bs_match`] makes of a lowering.
pub open spec fn lower_bs_match_ir(
    b: LoweringView,
    context: BinaryLoweringContext,
    operands: Seq<OperandView>,
    fail: Option<Block>,
) -> Result<LoweringView, JitFault> {
    if operands.len() < 2 {
        Err(invalid_operands_fault("bs_match"@))
    } else {
        match required_fail_of(fail, operands[0]) {
            Err(e) => Err(e),
            Ok(fail) => {
                if operands.len() == 3 {
                    match operands[2] {
                        OperandView::List(commands) => nested_match_ir(b, context, operands[1], commands, 0, fail),
                        _ => nested_match_ir(b, context, operands[1], operands, 2, fail),
                    }
                } else {
                    nested_match_ir(b, context, operands[1], operands, 2, fail)
                }
            },
        }
    }
}

/// Matches a binary by commands, which follow the operands or are in a list.
fn lower_bs_match(
    b: &mut Lowering,
    context: BinaryLoweringContext,
    operands: &Vec<Operand>,
    fail: Option<Block>,
) -> (r: Result<(), JitError>)
    ensures
        lowered(r, final(b)@) == lower_bs_match_ir(old(b)@, context, operand_views(operands@), fail),
{
    if operands.len() < 2 {
        return Err(invalid_operands_error("bs_match"));
    }
    let fail = required_fail(fail, &operands[0])?;
    if operands.len() == 3 {
        match &operands[2] {
            Operand::List(commands) => {
                proof { lemma_operand_list_view(*commands); }
                nested_match(b, context, &operands[1], commands, 0, fail)
            },
            _ => nested_match(b, context, &operands[1], operands, 2, fail),
        }
    } else {
        nested_match(b, context, &operands[1], operands, 2, fail)
    }
}

/// The operands of the start of a match.
#[derive(Debug, Clone, Copy)]
pub struct StartOperands<'a> {
    pub fail: &'a Operand,
    pub source: &'a Operand,
    pub destination: &'a Operand,
}

/// A [`StartOperands`] with the views of its operands.
#[verifier::ext_equal]
pub struct StartView {
    pub fail: OperandView,
    pub source: OperandView,
    pub destination: OperandView,
}

/// The operands of the start of a match; a number of live registers before the
/// last is not looked at.
pub open spec fn parse_start_match_operands_of(operands: Seq<OperandView>) -> Result<
    StartView,
    JitFault,
> {
    if operands.len() == 3 {
        Ok(StartView { fail: operands[0], source: operands[1], destination: operands[2] })
    } else if operands.len() == 4 {
        Ok(StartView { fail: operands[0], source: operands[1], destination: operands[3] })
    } else {
        Err(invalid_operands_fault("bs_start_match"@))
    }
}

fn parse_start_match_operands(operands: &Vec<Operand>) -> (r: Result<StartOperands<'_>, JitError>)
    ensures
        match r {
            Ok(parsed) => parse_start_match_operands_of(operand_views(operands@)) == Ok::<
                StartView,
                JitFault,
            >(
                StartView {
                    fail: parsed.fail.view(),
                    source: parsed.source.view(),
                    destination: parsed.destination.view(),
                },
            ),
            Err(e) => parse_start_match_operands_of(operand_views(operands@)) == Err::<
                StartView,
                JitFault,
            >(e@),
        },
{
    if operands.len() == 3 {
        Ok(
            StartOperands {
                fail: &operands[0],
                source: &operands[1],
                destination: &operands[2],
            },
        )
    } else if operands.len() == 4 {
        Ok(
            StartOperands {
                fail: &operands[0],
                source: &operands[1],
                destination: &operands[3],
            },
        )
    } else {
        Err(invalid_operands_error("bs_start_match"))
    }
}

/// The operands of the match of a segment.
#[derive(Debug, Clone, Copy)]
pub struct GetOperands<'a> {
    pub fail: &'a Operand,
    pub match_context: &'a Operand,
    pub size: &'a Operand,
    pub unit: &'a Operand,
    pub flags: &'a Operand,
    pub destination: &'a Operand,
}

/// A [`GetOperands`] with the views of its operands.
#[verifier::ext_equal]
pub struct GetView {
    pub fail: OperandView,
    pub match_context: OperandView,
    pub size: OperandView,
    pub unit: OperandView,
    pub flags: OperandView,
    pub destination: OperandView,
}

/// The operands of the match of a segment; a number of live registers after the
/// second is not looked at.
pub open spec fn parse_get_operands_of(operands: Seq<OperandView>, context: Seq<char>) -> Result<
    GetView,
    JitFault,
> {
    if operands.len() == 7 {
        Ok(
            GetView {
                fail: operands[0],
                match_context: operands[1],
                size: operands[3],
                unit: operands[4],
                flags: operands[5],
                destination: operands[6],
            },
        )
    } else if operands.len() == 6 {
        Ok(
            GetView {
                fail: operands[0],
                match_context: operands[1],
                size: operands[2],
                unit: operands[3],
                flags: operands[4],
                destination: operands[5],
            },
        )
    } else {
        Err(invalid_operands_fault(context))
    }
}

fn parse_get_operands<'a>(operands: &'a Vec<Operand>, context: &str) -> (r: Result<
    GetOperands<'a>,
    JitError,
>)
    ensures
        match r {
            Ok(parsed) => parse_get_operands_of(operand_views(operands@), context@) == Ok::<
                GetView,
                JitFault,
            >(
                GetView {
                    fail: parsed.fail.view(),
                    match_context: parsed.match_context.view(),
                    size: parsed.size.view(),
                    unit: parsed.unit.view(),
                    flags: parsed.flags.view(),
                    destination: parsed.destination.view(),
                },
            ),
            Err(e) => parse_get_operands_of(operand_views(operands@), context@) == Err::<
                GetView,
                JitFault,
            >(e@),
        },
{
    if operands.len() == 7 {
        Ok(
            GetOperands {
                fail: &operands[0],
                match_context: &operands[1],
                size: &operands[3],
                unit: &operands[4],
                flags: &operands[5],
                destination: &operands[6],
            },
        )
    } else if operands.len() == 6 {
        Ok(
            GetOperands {
                fail: &operands[0],
                match_context: &operands[1],
                size: &operands[2],
                unit: &operands[3],
                flags: &operands[4],
                destination: &operands[5],
            },
        )
    } else {
        Err(invalid_operands_error(context))
    }
}

/// The operands of the match of a character.
#[derive(Debug, Clone, Copy)]
pub struct UtfOperands<'a> {
    pub fail: &'a Operand,
    pub match_context: &'a Operand,
    pub flags: &'a Operand,
    pub destination: &'a Operand,
}

/// A [`UtfOperands`] with the views of its operands.
#[verifier::ext_equal]
pub struct UtfView {
    pub fail: OperandView,
    pub match_context: OperandView,
    pub flags: OperandView,
    pub destination: OperandView,
}

/// The operands of the match of a character; a number of live registers after
/// the second is not looked at.
pub open spec fn parse_utf_get_operands_of(operands: Seq<OperandView>, context: Seq<char>) -> Result<
    UtfView,
    JitFault,
> {
    if operands.len() == 5 {
        Ok(
            UtfView {
                fail: operands[0],
                match_context: operands[1],
                flags: operands[3],
                destination: operands[4],
            },
        )
    } else if operands.len() == 4 {
        Ok(
            UtfView {
                fail: operands[0],
                match_context: operands[1],
                flags: operands[2],
                destination: operands[3],
            },
        )
    } else {
        Err(invalid_operands_fault(context))
    }
}

fn parse_utf_get_operands<'a>(operands: &'a Vec<Operand>, context: &str) -> (r: Result<
    UtfOperands<'a>,
    JitError,
>)
    ensures
        match r {
            Ok(parsed) => parse_utf_get_operands_of(operand_views(operands@), context@) == Ok::<
                UtfView,
                JitFault,
            >(
                UtfView {
                    fail: parsed.fail.view(),
                    match_context: parsed.match_context.view(),
                    flags: parsed.flags.view(),
                    destination: parsed.destination.view(),
                },
            ),
            Err(e) => parse_utf_get_operands_of(operand_views(operands@), context@) == Err::<
                UtfView,
                JitFault,
            >(e@),
        },
{
    if operands.len() == 5 {
        Ok(
            UtfOperands {
                fail: &operands[0],
                match_context: &operands[1],
                flags: &operands[3],
                destination: &operands[4],
            },
        )
    } else if operands.len() == 4 {
        Ok(
            UtfOperands {
                fail: &operands[0],
                match_context: &operands[1],
                flags: &operands[2],
                destination: &operands[3],
            },
        )
    } else {
        Err(invalid_operands_error(context))
    }
}

/// What [`utf_helper`] answers.
pub open spec fn utf_helper_of(op: BinaryOp) -> Helper {
    match op {
        BinaryOp::BsGetUtf16 => Helper::BsGetUtf16,
        BinaryOp::BsGetUtf32 => Helper::BsGetUtf32,
        _ => Helper::BsGetUtf8,
    }
}

/// The function that matches a character in an encoding.
pub fn utf_helper(op: BinaryOp) -> (r: Helper)
    ensures
        r == utf_helper_of(op),
{
    match op {
        BinaryOp::BsGetUtf16 => Helper::BsGetUtf16,
        BinaryOp::BsGetUtf32 => Helper::BsGetUtf32,
        _ => Helper::BsGetUtf8,
    }
}

/// What [`lower_binary_op`] makes of a lowering.
pub open spec fn lower_binary_op_ir(
    b: LoweringView,
    context: BinaryLoweringContext,
    op: BinaryOp,
    operands: Seq<OperandView>,
    fail: Option<Block>,
) -> Result<LoweringView, JitFault> {
    match op {
        BinaryOp::BsStartMatch3 | BinaryOp::BsStartMatch4 => {
            match parse_start_match_operands_of(operands) {
                Err(e) => Err(e),
                Ok(parsed) => {
                    match required_fail_of(fail, parsed.fail) {
                        Err(e) => Err(e),
                        Ok(fail) => lower_start_match_ir(b, context, parsed.source, parsed.destination, fail),
                    }
                },
            }
        },
        BinaryOp::BsGetInteger2 => {
            match parse_get_operands_of(operands, "bs_get_integer2"@) {
                Err(e) => Err(e),
                Ok(parsed) => {
                    match required_fail_of(fail, parsed.fail) {
                        Err(e) => Err(e),
                        Ok(fail) => {
                            match segment_bits_of(parsed.size, parsed.unit, "bs_get_integer2 size"@) {
                                Err(e) => Err(e),
                                Ok(bits) => {
                                    let flags = flags_to_raw_of(parsed.flags);
                                    lower_get_integer_ir(b, context, parsed.match_context, bits, flags, parsed.destination, fail)
                                },
                            }
                        },
                    }
                },
            }
        },
        BinaryOp::BsGetBinary2 => {
            match parse_get_operands_of(operands, "bs_get_binary2"@) {
                Err(e) => Err(e),
                Ok(parsed) => {
                    match required_fail_of(fail, parsed.fail) {
                        Err(e) => Err(e),
                        Ok(fail) => {
                            match segment_bits_of(parsed.size, parsed.unit, "bs_get_binary2 size"@) {
                                Err(e) => Err(e),
                                Ok(bits) => lower_get_binary_ir(b, context, parsed.match_context, bits, parsed.destination, fail),
                            }
                        },
                    }
                },
            }
        },
        BinaryOp::BsTestTail2 => {
            if operands.len() != 3 {
                Err(invalid_operands_fault("bs_test_tail2"@))
            } else {
                match required_fail_of(fail, operands[0]) {
                    Err(e) => Err(e),
                    Ok(fail) => {
                        match immediate_u64_of(operands[2], "bs_test_tail2 expected bits"@) {
                            Err(e) => Err(e),
                            Ok(expected) => lower_test_ir(b, context, Helper::BsTestTail, operands[1], expected, fail),
                        }
                    },
                }
            }
        },
        BinaryOp::BsTestUnit => {
            if operands.len() != 3 {
                Err(invalid_operands_fault("bs_test_unit"@))
            } else {
                match required_fail_of(fail, operands[0]) {
                    Err(e) => Err(e),
                    Ok(fail) => {
                        match immediate_u64_of(operands[2], "bs_test_unit unit"@) {
                            Err(e) => Err(e),
                            Ok(unit) => lower_test_ir(b, context, Helper::BsTestUnit, operands[1], unit, fail),
                        }
                    },
                }
            }
        },
        BinaryOp::BsGetUtf8 | BinaryOp::BsGetUtf16 | BinaryOp::BsGetUtf32 => {
            match parse_utf_get_operands_of(operands, "bs_get_utf operands"@) {
                Err(e) => Err(e),
                Ok(parsed) => {
                    match required_fail_of(fail, parsed.fail) {
                        Err(e) => Err(e),
                        Ok(fail) => {
                            let helper = utf_helper_of(op);
                            let flags = flags_to_raw_of(parsed.flags);
                            lower_get_utf_ir(b, context, helper, parsed.match_context, flags, parsed.destination, fail)
                        },
                    }
                },
            }
        },
        BinaryOp::BsInitWritable => lower_bs_init_writable_ir(b, context, operands),
        BinaryOp::BsCreateBin => lower_bs_create_bin_ir(b, context, operands),
        BinaryOp::BsMatch => lower_bs_match_ir(b, context, operands, fail),
        BinaryOp::BsGetTail => lower_bs_get_tail_ir(b, context, operands),
        _ => Err(operation_fault("binary op "@, binary_op_name_of(op), ""@)),
    }
}

/// Lowers a binary instruction.
#[verifier::rlimit(40)]
pub fn lower_binary_op(
    b: &mut Lowering,
    context: BinaryLoweringContext,
    op: BinaryOp,
    operands: &Vec<Operand>,
    fail: Option<Block>,
) -> (r: Result<(), JitError>)
    ensures
        lowered(r, final(b)@) == lower_binary_op_ir(old(b)@, context, op, operand_views(operands@), fail),
{
    match op {
        BinaryOp::BsStartMatch3 | BinaryOp::BsStartMatch4 => {
            let parsed = parse_start_match_operands(operands)?;
            let fail = required_fail(fail, parsed.fail)?;
            lower_start_match(b, context, parsed.source, parsed.destination, fail)
        },
        BinaryOp::BsGetInteger2 => {
            let parsed = parse_get_operands(operands, "bs_get_integer2")?;
            let fail = required_fail(fail, parsed.fail)?;
            let bits: u64 = segment_bits(parsed.size, parsed.unit, "bs_get_integer2 size")?;
            let flags: u64 = flags_to_raw(parsed.flags);
            lower_get_integer(b, context, parsed.match_context, bits, flags, parsed.destination, fail)
        },
        BinaryOp::BsGetBinary2 => {
            let parsed = parse_get_operands(operands, "bs_get_binary2")?;
            let fail = required_fail(fail, parsed.fail)?;
            let bits: u64 = segment_bits(parsed.size, parsed.unit, "bs_get_binary2 size")?;
            lower_get_binary(b, context, parsed.match_context, bits, parsed.destination, fail)
        },
        BinaryOp::BsTestTail2 => {
            if operands.len() != 3 {
                return Err(invalid_operands_error("bs_test_tail2"));
            }
            let fail = required_fail(fail, &operands[0])?;
            let expected: u64 = immediate_u64(&operands[2], "bs_test_tail2 expected bits")?;
            lower_test(b, context, Helper::BsTestTail, &operands[1], expected, fail)
        },
        BinaryOp::BsTestUnit => {
            if operands.len() != 3 {
                return Err(invalid_operands_error("bs_test_unit"));
            }
            let fail = required_fail(fail, &operands[0])?;
            let unit: u64 = immediate_u64(&operands[2], "bs_test_unit unit")?;
            lower_test(b, context, Helper::BsTestUnit, &operands[1], unit, fail)
        },
        BinaryOp::BsGetUtf8 | BinaryOp::BsGetUtf16 | BinaryOp::BsGetUtf32 => {
            let parsed = parse_utf_get_operands(operands, "bs_get_utf operands")?;
            let fail = required_fail(fail, parsed.fail)?;
            let helper = utf_helper(op);
            let flags: u64 = flags_to_raw(parsed.flags);
            lower_get_utf(b, context, helper, parsed.match_context, flags, parsed.destination, fail)
        },
        BinaryOp::BsInitWritable => lower_bs_init_writable(b, context, operands),
        BinaryOp::BsCreateBin => lower_bs_create_bin(b, context, operands),
        BinaryOp::BsMatch => lower_bs_match(b, context, operands, fail),
        BinaryOp::BsGetTail => lower_bs_get_tail(b, context, operands),
        _ => Err(operation_error("binary op ", binary_op_name(op), "")),
    }
}

/// What [`has_fail_operand`] answers.
pub open spec fn has_fail_operand_of(op: BinaryOp) -> bool {
    match op {
        BinaryOp::BsStartMatch3 => true,
        BinaryOp::BsStartMatch4 => true,
        BinaryOp::BsGetInteger2 => true,
        BinaryOp::BsGetBinary2 => true,
        BinaryOp::BsTestTail2 => true,
        BinaryOp::BsTestUnit => true,
        BinaryOp::BsGetUtf8 => true,
        BinaryOp::BsGetUtf16 => true,
        BinaryOp::BsGetUtf32 => true,
        BinaryOp::BsMatch => true,
        BinaryOp::BsGetTail => true,
        _ => false,
    }
}

/// Whether a binary instruction names the label to go to when it fails first.
pub fn has_fail_operand(op: BinaryOp) -> (r: bool)
    ensures
        r == has_fail_operand_of(op),
{
    match op {
        BinaryOp::BsStartMatch3 => true,
        BinaryOp::BsStartMatch4 => true,
        BinaryOp::BsGetInteger2 => true,
        BinaryOp::BsGetBinary2 => true,
        BinaryOp::BsTestTail2 => true,
        BinaryOp::BsTestUnit => true,
        BinaryOp::BsGetUtf8 => true,
        BinaryOp::BsGetUtf16 => true,
        BinaryOp::BsGetUtf32 => true,
        BinaryOp::BsMatch => true,
        BinaryOp::BsGetTail => true,
        _ => false,
    }
}

/// The operand that names the label to go to on failure.
pub open spec fn fail_operand_of(op: BinaryOp, operands: Seq<OperandView>) -> Option<OperandView> {
    if has_fail_operand_of(op) && operands.len() > 0 {
        Some(operands[0])
    } else {
        None
    }
}

/// The operand that names the label to go to on failure.
pub fn fail_operand(op: BinaryOp, operands: &Vec<Operand>) -> (r: Option<&Operand>)
    ensures
        fail_operand_of(op, operand_views(operands@)) == match r {
            Some(operand) => Some(operand.view()),
            None => None::<OperandView>,
        },
{
    if has_fail_operand(op) && operands.len() > 0 {
        Some(&operands[0])
    } else {
        None
    }
}

/// What [`supported_binary_op`] answers.
pub open spec fn supported_binary_op_of(op: BinaryOp) -> bool {
    match op {
        BinaryOp::BsStartMatch3 => true,
        BinaryOp::BsStartMatch4 => true,
        BinaryOp::BsGetInteger2 => true,
        BinaryOp::BsGetBinary2 => true,
        BinaryOp::BsTestTail2 => true,
        BinaryOp::BsTestUnit => true,
        BinaryOp::BsGetUtf8 => true,
        BinaryOp::BsGetUtf16 => true,
        BinaryOp::BsGetUtf32 => true,
        BinaryOp::BsInitWritable => true,
        BinaryOp::BsCreateBin => true,
        BinaryOp::BsGetTail => true,
        BinaryOp::BsMatch => true,
        _ => false,
    }
}

/// Whether a binary instruction is lowered.
pub fn supported_binary_op(op: BinaryOp) -> (r: bool)
    ensures
        r == supported_binary_op_of(op),
{
    match op {
        BinaryOp::BsStartMatch3 => true,
        BinaryOp::BsStartMatch4 => true,
        BinaryOp::BsGetInteger2 => true,
        BinaryOp::BsGetBinary2 => true,
        BinaryOp::BsTestTail2 => true,
        BinaryOp::BsTestUnit => true,
        BinaryOp::BsGetUtf8 => true,
        BinaryOp::BsGetUtf16 => true,
        BinaryOp::BsGetUtf32 => true,
        BinaryOp::BsInitWritable => true,
        BinaryOp::BsCreateBin => true,
        BinaryOp::BsGetTail => true,
        BinaryOp::BsMatch => true,
        _ => false,
    }
}

/// What [`allocation_binary_op`] answers.
pub open spec fn allocation_binary_op_of(op: BinaryOp) -> bool {
    match op {
        BinaryOp::BsStartMatch3 => true,
        BinaryOp::BsStartMatch4 => true,
        BinaryOp::BsGetBinary2 => true,
        BinaryOp::BsInitWritable => true,
        BinaryOp::BsCreateBin => true,
        BinaryOp::BsGetTail => true,
        BinaryOp::BsMatch => true,
        _ => false,
    }
}

/// Whether a binary instruction allocates.
pub fn allocation_binary_op(op: BinaryOp) -> (r: bool)
    ensures
        r == allocation_binary_op_of(op),
{
    match op {
        BinaryOp::BsStartMatch3 => true,
        BinaryOp::BsStartMatch4 => true,
        BinaryOp::BsGetBinary2 => true,
        BinaryOp::BsInitWritable => true,
        BinaryOp::BsCreateBin => true,
        BinaryOp::BsGetTail => true,
        BinaryOp::BsMatch => true,
        _ => false,
    }
}

/// The value of a segment, if it is an integer or a binary.
pub open spec fn segment_root_of(segment: OperandView) -> Option<OperandView> {
    match segment {
        OperandView::List(fields) => if (fields.len() == 5 || fields.len() == 2) && fields[0]
            == OperandView::Atom(None) {
            Some(fields[1])
        } else {
            None
        },
        _ => None,
    }
}

/// The values of the segments from the third operand to the `n`th.
pub open spec fn segment_roots_of(operands: Seq<OperandView>, n: nat) -> Seq<OperandView>
    decreases n,
{
    if n <= 2 {
        Seq::empty()
    } else {
        let before = segment_roots_of(operands, (n - 1) as nat);
        match segment_root_of(operands[n - 1]) {
            Some(root) => before.push(root),
            None => before,
        }
    }
}

/// What is live while a binary instruction allocates.
pub open spec fn binary_allocation_roots_of(op: BinaryOp, operands: Seq<OperandView>) -> Result<
    Seq<OperandView>,
    JitFault,
> {
    match op {
        BinaryOp::BsStartMatch3 | BinaryOp::BsStartMatch4 => {
            match parse_start_match_operands_of(operands) {
                Err(e) => Err(e),
                Ok(parsed) => Ok(seq![parsed.source, parsed.destination]),
            }
        },
        BinaryOp::BsGetBinary2 => match parse_get_operands_of(operands, "bs_get_binary2"@) {
            Err(e) => Err(e),
            Ok(parsed) => Ok(seq![parsed.match_context, parsed.destination]),
        },
        BinaryOp::BsInitWritable => if operands.len() == 2 {
            Ok(seq![operands[1]])
        } else {
            Ok(Seq::empty())
        },
        BinaryOp::BsCreateBin => if operands.len() >= 2 {
            Ok(seq![operands[0]] + segment_roots_of(operands, operands.len()))
        } else {
            Ok(Seq::empty())
        },
        BinaryOp::BsGetTail => if operands.len() == 4 {
            Ok(seq![operands[1], operands[3]])
        } else if operands.len() == 3 {
            Ok(seq![operands[1], operands[2]])
        } else {
            Ok(Seq::empty())
        },
        _ => Ok(Seq::empty()),
    }
}

fn two_roots(first: &Operand, second: &Operand) -> (r: Vec<Operand>)
    ensures
        operand_views(r@) == seq![first.view(), second.view()],
{
    let a = first.clone();
    let b = second.clone();
    let roots: Vec<Operand> = vec![a, b];
    assert(operand_views(roots@) =~= seq![first.view(), second.view()]);
    roots
}

fn segment_root(segment: &Operand) -> (r: Option<Operand>)
    ensures
        segment_root_of(segment.view()) == match r {
            Some(root) => Some(root.view()),
            None => None::<OperandView>,
        },
{
    match segment {
        Operand::List(fields) => {
            proof {
                lemma_operand_list_view(*fields);
            }
            if fields.len() == 5 || fields.len() == 2 {
                match &fields[0] {
                    Operand::Atom(None) => Some(fields[1].clone()),
                    _ => None,
                }
            } else {
                None
            }
        },
        _ => None,
    }
}

fn create_roots(operands: &Vec<Operand>) -> (r: Vec<Operand>)
    requires
        operands@.len() >= 2,
    ensures
        operand_views(r@) == seq![operands@[0].view()] + segment_roots_of(
            operand_views(operands@),
            operands@.len(),
        ),
{
    let ghost views = operand_views(operands@);
    let first = operands[0].clone();
    let mut roots: Vec<Operand> = vec![first];
    assert(operand_views(roots@) =~= seq![operands@[0].view()] + segment_roots_of(views, 2));
    let mut i: usize = 2;
    while i < operands.len()
        invariant
            2 <= i <= operands@.len(),
            views == operand_views(operands@),
            operand_views(roots@) == seq![operands@[0].view()] + segment_roots_of(views, i as nat),
        decreases operands@.len() - i,
    {
        let ghost before = roots@;
        match segment_root(&operands[i]) {
            Some(root) => {
                proof {
                    lemma_operand_views_push(before, root);
                }
                roots.push(root);
                assert(operand_views(roots@) =~= seq![operands@[0].view()] + segment_roots_of(
                    views,
                    (i + 1) as nat,
                ));
            },
            None => {},
        }
        i += 1;
    }
    roots
}

/// What is live while a binary instruction allocates.
pub fn binary_allocation_roots(op: BinaryOp, operands: &Vec<Operand>) -> (r: Result<
    Vec<Operand>,
    JitError,
>)
    ensures
        match r {
            Ok(roots) => binary_allocation_roots_of(op, operand_views(operands@)) == Ok::<
                Seq<OperandView>,
                JitFault,
            >(operand_views(roots@)),
            Err(e) => binary_allocation_roots_of(op, operand_views(operands@)) == Err::<
                Seq<OperandView>,
                JitFault,
            >(e@),
        },
{
    let none: Vec<Operand> = Vec::new();
    assert(operand_views(none@) =~= Seq::empty());
    match op {
        BinaryOp::BsStartMatch3 | BinaryOp::BsStartMatch4 => {
            let parsed = parse_start_match_operands(operands)?;
            Ok(two_roots(parsed.source, parsed.destination))
        },
        BinaryOp::BsGetBinary2 => {
            let parsed = parse_get_operands(operands, "bs_get_binary2")?;
            Ok(two_roots(parsed.match_context, parsed.destination))
        },
        BinaryOp::BsInitWritable => if operands.len() == 2 {
            let root = operands[1].clone();
            let roots: Vec<Operand> = vec![root];
            assert(operand_views(roots@) =~= seq![operands@[1].view()]);
            Ok(roots)
        } else {
            Ok(none)
        },
        BinaryOp::BsCreateBin => if operands.len() >= 2 {
            Ok(create_roots(operands))
        } else {
            Ok(none)
        },
        BinaryOp::BsGetTail => if operands.len() == 4 {
            Ok(two_roots(&operands[1], &operands[3]))
        } else if operands.len() == 3 {
            Ok(two_roots(&operands[1], &operands[2]))
        } else {
            Ok(none)
        },
        _ => Ok(none),
    }
}

/// What [`lower_exception_block`] makes of a lowering.
pub open spec fn lower_exception_block_ir(b: LoweringView) -> LoweringView {
    let badarg = atom_term_of(Atom(5));
    let (reason, b) = b.emit(IrOp::Iconst { ty: IrType::I64, value: badarg });
    let b = return_status_ir(b, JIT_STATUS_EXCEPTION, reason);
    b
}

/// Returns the exception of a bad argument.
pub fn lower_exception_block(b: &mut Lowering)
    ensures
        final(b)@ == lower_exception_block_ir(old(b)@),
{
    let badarg: i64 = atom_term(Atom::badarg());
    let reason = b.emit(IrOp::Iconst { ty: IrType::I64, value: badarg });
    return_status(b, JIT_STATUS_EXCEPTION, reason);
}

} // verus!
