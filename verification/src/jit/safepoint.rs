//! What is live where compiled code allocates.
//!
//! A place is counted in instructions: it is the index of the instruction that
//! allocates.

use vstd::prelude::*;
use vstd::string::*;
use crate::loader::decode::compact::{operand_views, Operand, OperandView};
use crate::text::{decimal_u64, nat_text};
use super::error::{jit_outcome, JitError, JitFault};
use super::register::{register_operand, register_operand_of, Register};
use super::types::{stack_map_views, RootLocation, StackMapEntry, StackMapView};

verus! {

/// Collects stack maps while a function is lowered.
#[derive(Debug)]
pub struct SafepointBuilder {
    entries: Vec<StackMapEntry>,
}

impl View for SafepointBuilder {
    type V = Seq<StackMapView>;

    closed spec fn view(&self) -> Seq<StackMapView> {
        stack_map_views(self.entries@)
    }
}

/// Where a register is, as a root.
pub open spec fn location_for_register_of(register: Register) -> RootLocation {
    match register {
        Register::X(index) => RootLocation::Register(index as u16),
        Register::Y(index) => RootLocation::StackSlot(index as i32),
    }
}

fn location_for_register(register: Register) -> (r: RootLocation)
    ensures
        r == location_for_register_of(register),
{
    match register {
        Register::X(index) => RootLocation::Register(
            #[verifier::truncate]
            (index as u16),
        ),
        Register::Y(index) => RootLocation::StackSlot(
            #[verifier::truncate]
            (index as i32),
        ),
    }
}

/// The root that an operand is, if it is one: a register is, a constant is not.
pub open spec fn root_location_of(operand: OperandView) -> Result<Option<RootLocation>, JitFault> {
    match operand {
        OperandView::X(_) | OperandView::Y(_) | OperandView::TypedRegister { .. } => {
            match register_operand_of(operand) {
                Ok(register) => Ok(Some(location_for_register_of(register))),
                Err(e) => Err(e),
            }
        },
        _ => Ok(None),
    }
}

fn root_location(operand: &Operand) -> (r: Result<Option<RootLocation>, JitError>)
    ensures
        jit_outcome(r) == root_location_of(operand.view()),
{
    match operand {
        Operand::X(_) | Operand::Y(_) | Operand::TypedRegister { .. } => {
            match register_operand(operand) {
                Ok(register) => Ok(Some(location_for_register(register))),
                Err(e) => Err(e),
            }
        },
        _ => Ok(None),
    }
}

/// The roots with one more, unless it is there already.
pub open spec fn with_root(roots: Seq<RootLocation>, root: RootLocation) -> Seq<RootLocation> {
    if roots.contains(root) {
        roots
    } else {
        roots.push(root)
    }
}

fn push_unique(roots: &mut Vec<RootLocation>, root: RootLocation)
    ensures
        final(roots)@ == with_root(old(roots)@, root),
{
    let mut i: usize = 0;
    while i < roots.len()
        invariant
            i <= roots@.len(),
            roots@ == old(roots)@,
            forall|j: int| 0 <= j < i ==> roots@[j] != root,
        decreases roots@.len() - i,
    {
        if roots[i] == root {
            assert(roots@.contains(root));
            return;
        }
        i += 1;
    }
    assert(!roots@.contains(root));
    roots.push(root);
}

/// The roots among the first `n` operands, each once, in the order of the
/// operands.
pub open spec fn live_roots(operands: Seq<OperandView>, n: nat) -> Result<
    Seq<RootLocation>,
    JitFault,
>
    decreases n,
{
    if n == 0 {
        Ok(Seq::empty())
    } else {
        match live_roots(operands, (n - 1) as nat) {
            Err(e) => Err(e),
            Ok(roots) => match root_location_of(operands[n - 1]) {
                Err(e) => Err(e),
                Ok(None) => Ok(roots),
                Ok(Some(root)) => Ok(with_root(roots, root)),
            },
        }
    }
}

/// The maps with that of one more place.
pub open spec fn with_site(
    maps: Seq<StackMapView>,
    instruction_index: usize,
    operands: Seq<OperandView>,
) -> Result<Seq<StackMapView>, JitFault> {
    match live_roots(operands, operands.len()) {
        Err(e) => Err(e),
        Ok(roots) => if instruction_index > u32::MAX {
            Err(
                JitFault::CraneliftError(
                    "JIT instruction index "@ + nat_text(instruction_index as nat)
                        + " does not fit stack-map offset"@,
                ),
            )
        } else {
            Ok(
                maps.push(
                    StackMapView {
                        offset_from_entry: instruction_index as u32,
                        live_roots: roots,
                    },
                ),
            )
        },
    }
}

proof fn lemma_roots_fail(operands: Seq<OperandView>, n: nat)
    requires
        n <= operands.len(),
    ensures
        live_roots(operands, n) matches Err(e) ==> live_roots(operands, operands.len()) == Err::<
            Seq<RootLocation>,
            JitFault,
        >(e),
    decreases operands.len() - n,
{
    if n < operands.len() {
        lemma_roots_fail(operands, n + 1);
    }
}

impl SafepointBuilder {
    /// No maps yet.
    pub fn new() -> (r: Self)
        ensures
            r@ == Seq::<StackMapView>::empty(),
    {
        let r = SafepointBuilder { entries: Vec::new() };
        assert(r@ =~= Seq::<StackMapView>::empty());
        r
    }

    /// Records that the instruction allocates while the operands are live.
    pub fn record_allocation_site(
        &mut self,
        instruction_index: usize,
        operands: &Vec<Operand>,
    ) -> (r: Result<(), JitError>)
        ensures
            match r {
                Ok(_) => with_site(old(self)@, instruction_index, operand_views(operands@)) == Ok::<
                    Seq<StackMapView>,
                    JitFault,
                >(final(self)@),
                Err(e) => with_site(old(self)@, instruction_index, operand_views(operands@))
                    == Err::<Seq<StackMapView>, JitFault>(e@) && final(self)@ == old(self)@,
            },
    {
        let mut roots: Vec<RootLocation> = Vec::new();
        let ghost views = operand_views(operands@);
        let mut i: usize = 0;
        assert(roots@ =~= Seq::empty());
        while i < operands.len()
            invariant
                i <= operands@.len(),
                views == operand_views(operands@),
                self@ == old(self)@,
                live_roots(views, i as nat) == Ok::<Seq<RootLocation>, JitFault>(roots@),
            decreases operands@.len() - i,
        {
            proof {
                lemma_roots_fail(views, (i + 1) as nat);
            }
            match root_location(&operands[i]) {
                Err(e) => {
                    return Err(e);
                },
                Ok(None) => {},
                Ok(Some(root)) => {
                    push_unique(&mut roots, root);
                },
            }
            i += 1;
        }
        if instruction_index as u64 > 0xffff_ffff {
            let mut text = "JIT instruction index ".to_owned();
            text.append(decimal_u64(instruction_index as u64).as_str());
            text.append(" does not fit stack-map offset");
            return Err(JitError::CraneliftError(text));
        }
        let ghost before = self.entries@;
        self.entries.push(
            StackMapEntry { offset_from_entry: instruction_index as u32, live_roots: roots },
        );
        assert(self@ =~= stack_map_views(before).push(self.entries@.last()@));
        Ok(())
    }

    /// The maps, in the order in which they were recorded.
    pub fn finish(self) -> (r: Vec<StackMapEntry>)
        ensures
            stack_map_views(r@) == self@,
    {
        self.entries
    }
}

/// No place lists a root twice.
pub proof fn law_roots_are_listed_once(operands: Seq<OperandView>, n: nat)
    requires
        n <= operands.len(),
    ensures
        live_roots(operands, n) matches Ok(roots) ==> roots.no_duplicates(),
    decreases n,
{
    if n > 0 {
        law_roots_are_listed_once(operands, (n - 1) as nat);
    }
}

/// The roots of a place are just the registers among its operands: an X register by its number,
/// and a Y register by its slot on the stack.
pub proof fn law_roots_are_the_registers_among_the_operands(
    operands: Seq<OperandView>,
    n: nat,
    root: RootLocation,
)
    requires
        n <= operands.len(),
    ensures
        live_roots(operands, n) matches Ok(roots) ==> (roots.contains(root) <==> exists|i: int|
            0 <= i < n && names_root(#[trigger] operands[i], root)),
    decreases n,
{
    if n > 0 {
        law_roots_are_the_registers_among_the_operands(operands, (n - 1) as nat, root);
        if let Ok(roots) = live_roots(operands, n) {
            let before = live_roots(operands, (n - 1) as nat)->Ok_0;
            lemma_names_root(operands[n - 1], root);
            if let Ok(Some(last)) = root_location_of(operands[n - 1]) {
                if !before.contains(last) {
                    assert(before.push(last)[before.len() as int] == last);
                    if before.contains(root) {
                        let k = choose|k: int| 0 <= k < before.len() && before[k] == root;
                        assert(before.push(last)[k] == root);
                    }
                }
            }
            if roots.contains(root) && !before.contains(root) {
                assert(names_root(operands[n - 1], root));
            }
        }
    }
}

/// Whether an operand names a register that is a root.
pub open spec fn names_root(operand: OperandView, root: RootLocation) -> bool
    decreases operand,
{
    match operand {
        OperandView::X(index) => root == RootLocation::Register(index as u16),
        OperandView::Y(index) => root == RootLocation::StackSlot(index as i32),
        OperandView::TypedRegister { register, .. } => names_root(*register, root),
        _ => false,
    }
}

proof fn lemma_names_root(operand: OperandView, root: RootLocation)
    ensures
        root_location_of(operand) is Ok ==> (names_root(operand, root) <==> root_location_of(operand)
            == Ok::<Option<RootLocation>, JitFault>(Some(root))),
    decreases operand,
{
    if let OperandView::TypedRegister { register, .. } = operand {
        lemma_names_root(*register, root);
    }
}

/// One more place is recorded last, with the index of its instruction; the others stay.
pub proof fn law_sites_are_recorded_in_order(
    maps: Seq<StackMapView>,
    index: usize,
    operands: Seq<OperandView>,
)
    ensures
        with_site(maps, index, operands) matches Ok(after) ==> after.len() == maps.len() + 1
            && after.drop_last() == maps && after.last().offset_from_entry == index && live_roots(
            operands,
            operands.len(),
        ) == Ok::<Seq<RootLocation>, JitFault>(after.last().live_roots),
{
    if let Ok(after) = with_site(maps, index, operands) {
        assert(after.drop_last() =~= maps);
    }
}

} // verus!
