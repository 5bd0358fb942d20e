//! The values of the float registers while a function is lowered.

use vstd::prelude::*;
use super::error::{jit_outcome, number_error, number_fault, JitError, JitFault};

verus! {

/// How many float registers there are.
pub const FLOAT_REGISTER_COUNT: u32 = 16;

/// The value that each float register holds.
#[derive(Debug)]
pub struct FloatRegisterMap {
    default: usize,
    set: Vec<(u32, usize)>,
}

/// What float registers hold: a default value, and the values set since.
#[verifier::ext_equal]
pub struct FloatsView {
    pub default: usize,
    pub set: Seq<(u32, usize)>,
}

/// Whether there is such a float register.
pub open spec fn float_register_index_of(index: u32) -> Result<u32, JitFault> {
    if index < FLOAT_REGISTER_COUNT {
        Ok(index)
    } else {
        Err(number_fault("float register fr"@, index as u64))
    }
}

/// Whether there is such a float register.
pub fn float_register_index(index: u32) -> (r: Result<u32, JitError>)
    ensures
        jit_outcome(r) == float_register_index_of(index),
{
    if index < FLOAT_REGISTER_COUNT {
        Ok(index)
    } else {
        Err(number_error("float register fr", index as u64))
    }
}

/// The value that was set last, or else the default.
pub open spec fn last_set(default: usize, set: Seq<(u32, usize)>, index: u32) -> usize
    decreases set.len(),
{
    if set.len() == 0 {
        default
    } else if set.last().0 == index {
        set.last().1
    } else {
        last_set(default, set.drop_last(), index)
    }
}

impl FloatsView {
    /// The value of a float register.
    pub open spec fn value(self, index: u32) -> usize {
        last_set(self.default, self.set, index)
    }

    /// The registers after one was set.
    pub open spec fn with(self, index: u32, value: usize) -> FloatsView {
        FloatsView { set: self.set.push((index, value)), ..self }
    }
}

impl View for FloatRegisterMap {
    type V = FloatsView;

    closed spec fn view(&self) -> FloatsView {
        FloatsView { default: self.default, set: self.set@ }
    }
}

impl FloatRegisterMap {
    /// All registers hold the default value.
    pub fn new(default: usize) -> (r: Self)
        ensures
            r@ == (FloatsView { default, set: Seq::empty() }),
    {
        let r = FloatRegisterMap { default, set: Vec::new() };
        assert(r@.set =~= Seq::empty());
        r
    }

    /// The value of a register.
    pub fn get(&self, fr_index: u32) -> (r: Result<usize, JitError>)
        ensures
            jit_outcome(r) == match float_register_index_of(fr_index) {
                Ok(index) => Ok(self@.value(index)),
                Err(e) => Err(e),
            },
    {
        let index: u32 = float_register_index(fr_index)?;
        let mut n: usize = self.set.len();
        assert(self.set@.take(n as int) =~= self.set@);
        while n > 0
            invariant
                n <= self.set@.len(),
                self@.value(index) == last_set(self.default, self.set@.take(n as int), index),
                float_register_index_of(fr_index) == Ok::<u32, JitFault>(index),
            decreases n,
        {
            assert(self.set@.take(n as int).drop_last() =~= self.set@.take(n - 1));
            let (set_index, value) = self.set[n - 1];
            if set_index == index {
                return Ok(value);
            }
            n -= 1;
        }
        Ok(self.default)
    }

    /// Sets the value of a register.
    pub fn set(&mut self, fr_index: u32, value: usize) -> (r: Result<(), JitError>)
        ensures
            match float_register_index_of(fr_index) {
                Ok(index) => r is Ok && final(self)@ == old(self)@.with(index, value),
                Err(e) => r matches Err(error) && error@ == e && final(self)@ == old(self)@,
            },
    {
        let index: u32 = float_register_index(fr_index)?;
        self.set.push((index, value));
        Ok(())
    }
}

/// A register holds what was last set in it, and setting one leaves the others.
pub proof fn law_float_registers_are_separate(
    floats: FloatsView,
    index: u32,
    value: usize,
    other: u32,
)
    ensures
        floats.with(index, value).value(index) == value,
        other != index ==> floats.with(index, value).value(other) == floats.value(other),
{
    let set = floats.set.push((index, value));
    assert(set.drop_last() =~= floats.set);
}

} // verus!
