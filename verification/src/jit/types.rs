//! Where the roots of compiled code are.

use vstd::prelude::*;

verus! {

/// Where compiled code keeps a live term.
#[derive(Debug, Clone, Copy, PartialEq, Eq, Structural)]
pub enum RootLocation {
    /// In an X register.
    Register(u16),
    /// In a stack slot.
    StackSlot(i32),
}

/// What is live at a place where compiled code allocates.
#[derive(Debug, Clone, PartialEq, Eq)]
pub struct StackMapEntry {
    /// The place, counted from the entry of the function.
    pub offset_from_entry: u32,
    pub live_roots: Vec<RootLocation>,
}

/// A [`StackMapEntry`] with a sequence in place of its vector.
#[verifier::ext_equal]
pub struct StackMapView {
    pub offset_from_entry: u32,
    pub live_roots: Seq<RootLocation>,
}

impl View for StackMapEntry {
    type V = StackMapView;

    open spec fn view(&self) -> StackMapView {
        StackMapView {
            offset_from_entry: self.offset_from_entry,
            live_roots: self.live_roots@,
        }
    }
}

/// The views of stack maps.
pub open spec fn stack_map_views(entries: Seq<StackMapEntry>) -> Seq<StackMapView> {
    Seq::new(entries.len(), |i: int| entries[i]@)
}

} // verus!
