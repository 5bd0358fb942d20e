//! Native functions and the capabilities that they need.

use vstd::prelude::*;
use crate::atom::Atom;

verus! {

/// What a native function may do to the world outside the process.
#[derive(Debug, Clone, Copy, PartialEq, Eq, Structural)]
pub enum Capability {
    /// Nothing: the result depends on the arguments alone.
    Pure,
    /// Read the clock.
    Clock,
    /// Read or write files, sockets or other devices.
    ExternalIo,
}

/// Which pool runs a long native function.
#[derive(Debug, Clone, Copy, PartialEq, Eq, Structural)]
pub enum DirtyKind {
    Cpu,
    Io,
}

/// A native function, by its number in the host's table.
#[derive(Debug, Clone, Copy, PartialEq, Eq, Structural)]
pub struct NativeFunction(pub u32);

/// The number of the function that answers for denied ones.
pub const DENIAL_STUB: u32 = 0xffff_ffff;

/// The function that stands in for a denied one.
pub fn denial_stub() -> (r: NativeFunction)
    ensures
        r == NativeFunction(DENIAL_STUB),
{
    NativeFunction(DENIAL_STUB)
}

/// A native function and what calling it takes.
#[derive(Debug, Clone, Copy, PartialEq, Eq, Structural)]
pub struct NativeEntry {
    pub function: NativeFunction,
    pub dirty_kind: Option<DirtyKind>,
    pub capability: Capability,
}

/// The native functions that a host offers.
pub trait BifRegistry {
    /// The native function of the given name and arity, if there is one.
    fn lookup(&self, module: Atom, function: Atom, arity: u8) -> Option<NativeEntry>;
}

/// Decides which capabilities loaded code gets.
pub trait CapabilityPolicy {
    /// Whether loaded code gets the capability.
    fn is_granted(&self, capability: Capability) -> bool;
}

/// Grants every capability.
#[derive(Debug, Clone, Copy)]
pub struct AllCapabilitiesPolicy;

impl CapabilityPolicy for AllCapabilitiesPolicy {
    fn is_granted(&self, capability: Capability) -> (r: bool)
        ensures
            r,
    {
        true
    }
}

/// Grants no capability that reaches outside the process.
#[derive(Debug, Clone, Copy)]
pub struct LeastAuthorityPolicy;

impl CapabilityPolicy for LeastAuthorityPolicy {
    fn is_granted(&self, capability: Capability) -> (r: bool)
        ensures
            r == (capability is Pure),
    {
        match capability {
            Capability::Pure => true,
            _ => false,
        }
    }
}

} // verus!
