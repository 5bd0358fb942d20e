//! The code that instructions are lowered to.
//!
//! Code is a list of operations. An operation that makes a value or a block is
//! known by its position in the list. Operations belong to the block that was
//! switched to last.

use vstd::prelude::*;
use super::error::{JitError, JitFault};
use super::float_registers::{FloatRegisterMap, FloatsView};
use super::helper::{Helper, IrType};
use super::register::Register;
use super::safepoint::SafepointBuilder;
use super::typed_state::{TypedRegisterState, Types};
use super::types::StackMapView;

verus! {

/// A value: the position of the operation that makes it.
pub type Value = usize;

/// A block: the position of the operation that makes it.
pub type Block = usize;

/// How two integers are compared.
#[derive(Debug, Clone, Copy, PartialEq, Eq, Structural)]
pub enum IntCc {
    Equal,
    NotEqual,
    SignedLessThan,
    SignedGreaterThan,
    SignedGreaterThanOrEqual,
    UnsignedLessThan,
}

/// What is computed of two values.
#[derive(Debug, Clone, Copy, PartialEq, Eq, Structural)]
pub enum BinaryCode {
    Iadd,
    Isub,
    Sdiv,
    Srem,
    Band,
    Bor,
    Bxor,
    Fadd,
    Fsub,
    Fmul,
    Fdiv,
}

/// What is computed of a value and a constant.
#[derive(Debug, Clone, Copy, PartialEq, Eq, Structural)]
pub enum ImmCode {
    Band,
    Bor,
    Ishl,
    Sshr,
    Ushr,
}

/// The arguments of a call.
#[derive(Debug, Clone, Copy, PartialEq, Eq, Structural)]
pub enum Args {
    One(Value),
    Two(Value, Value),
    Three(Value, Value, Value),
    Four(Value, Value, Value, Value),
    Five(Value, Value, Value, Value, Value),
}

/// One operation.
#[allow(inconsistent_fields)]
#[derive(Debug, Clone, Copy, PartialEq, Eq, Structural)]
pub enum IrOp {
    /// A new block.
    Block,
    /// A parameter of a block.
    Param { block: Block, ty: IrType },
    /// What follows belongs to the block.
    Switch { block: Block },
    Iconst { ty: IrType, value: i64 },
    /// A float, by its bits.
    Fconst { bits: u64 },
    Binary { code: BinaryCode, left: Value, right: Value },
    BinaryImm { code: ImmCode, left: Value, imm: i64 },
    Compare { cc: IntCc, left: Value, right: Value },
    CompareImm { cc: IntCc, left: Value, imm: i64 },
    /// Whether either of two floats is no number.
    Unordered { left: Value, right: Value },
    /// The signed product; its second result says whether it overflowed.
    SmulOverflow { left: Value, right: Value },
    Fneg { value: Value },
    FcvtFromSint { value: Value },
    /// The bits of a float.
    Bitcast { value: Value },
    Load { ty: IrType, base: Value, offset: i64 },
    Store { value: Value, base: Value, offset: i64 },
    /// Room on the stack for a number of words; the value is its address.
    StackSlot { words: usize },
    Call { helper: Helper, args: Args },
    /// A result of a call or of a product, counted from zero.
    Result { of: Value, index: usize },
    Jump { block: Block },
    /// Jumps to a block that has a parameter.
    JumpWith { block: Block, value: Value },
    /// Goes to one block when the condition is not zero, to the other otherwise.
    Brif { condition: Value, then_block: Block, else_block: Block },
    Return { value: Value },
    ReturnStatus { status: Value, value: Value },
}

/// Where an exception goes while a `try` is open.
#[derive(Debug, Clone, Copy, PartialEq, Eq, Structural)]
pub struct TryCatchFrame {
    pub catch_block: Block,
    pub class_register: Register,
    pub reason_register: Register,
    pub trace_register: Register,
}

/// A function while it is lowered.
#[derive(Debug)]
pub struct Lowering {
    pub ops: Vec<IrOp>,
    /// The block that was switched to last.
    pub current: Option<Block>,
    pub typed: TypedRegisterState,
    pub safepoints: SafepointBuilder,
    /// The open `try`s, the innermost last.
    pub tries: Vec<TryCatchFrame>,
    pub floats: FloatRegisterMap,
}

/// A [`Lowering`] with sequences in place of its containers.
#[verifier::ext_equal]
pub struct LoweringView {
    pub ops: Seq<IrOp>,
    pub current: Option<Block>,
    pub types: Types,
    pub maps: Seq<StackMapView>,
    pub tries: Seq<TryCatchFrame>,
    pub floats: FloatsView,
}

impl View for Lowering {
    type V = LoweringView;

    open spec fn view(&self) -> LoweringView {
        LoweringView {
            ops: self.ops@,
            current: self.current,
            types: self.typed@,
            maps: self.safepoints@,
            tries: self.tries@,
            floats: self.floats@,
        }
    }
}

impl LoweringView {
    /// The value of one more operation, and the lowering with it.
    pub open spec fn emit(self, op: IrOp) -> (Value, LoweringView) {
        (self.ops.len() as usize, LoweringView { ops: self.ops.push(op), ..self })
    }

    /// One more block, and the lowering with it.
    pub open spec fn create_block(self) -> (Block, LoweringView) {
        self.emit(IrOp::Block)
    }

    /// The lowering after a block was switched to.
    pub open spec fn switch(self, block: Block) -> LoweringView {
        LoweringView { current: Some(block), ..self.emit(IrOp::Switch { block }).1 }
    }
}

/// A lowering, or the fault that stopped it.
pub open spec fn lowered(r: Result<(), JitError>, b: LoweringView) -> Result<LoweringView, JitFault> {
    match r {
        Ok(_) => Ok(b),
        Err(e) => Err(e@),
    }
}

/// A value and a lowering, or the fault that stopped it.
pub open spec fn lowered_with<T>(r: Result<T, JitError>, b: LoweringView) -> Result<
    (T, LoweringView),
    JitFault,
> {
    match r {
        Ok(value) => Ok((value, b)),
        Err(e) => Err(e@),
    }
}

impl Lowering {
    /// Nothing lowered yet.
    pub fn new(typed: TypedRegisterState) -> (r: Self)
        ensures
            r@ == (LoweringView {
                ops: Seq::empty(),
                current: None,
                types: typed@,
                maps: Seq::empty(),
                tries: Seq::empty(),
                floats: FloatsView { default: 0, set: Seq::empty() },
            }),
    {
        let r = Lowering {
            ops: Vec::new(),
            current: None,
            typed,
            safepoints: SafepointBuilder::new(),
            tries: Vec::new(),
            floats: FloatRegisterMap::new(0),
        };
        assert(r@.ops =~= Seq::empty());
        assert(r@.tries =~= Seq::empty());
        r
    }

    /// Adds an operation; the value is its own.
    pub fn emit(&mut self, op: IrOp) -> (r: Value)
        ensures
            (r, final(self)@) == old(self)@.emit(op),
    {
        let position: usize = self.ops.len();
        self.ops.push(op);
        position
    }

    /// Adds a block.
    pub fn create_block(&mut self) -> (r: Block)
        ensures
            (r, final(self)@) == old(self)@.create_block(),
    {
        self.emit(IrOp::Block)
    }

    /// Lets what follows belong to a block.
    pub fn switch(&mut self, block: Block)
        ensures
            final(self)@ == old(self)@.switch(block),
    {
        self.emit(IrOp::Switch { block });
        self.current = Some(block);
    }
}

} // verus!
