//! What is known of the types of registers while a function is lowered.
//!
//! A register of type [`TypeDescriptor::Int`] holds the bare integer instead of
//! the tagged term.

use vstd::prelude::*;
use crate::loader::decode::compact::{lemma_operand_list_view, operand_views, Operand, OperandView};
use super::register::{register_operand, register_operand_of, Register};
use super::type_info::{
    copy_type, lemma_tuple_type_view, lemma_type_views_push, type_views, FunctionSignature,
    SignatureView, TypeDescriptor, TypeView,
};

verus! {

/// The types of registers, in the order in which they became known.
#[derive(Debug)]
pub struct TypedRegisterState {
    registers: Vec<(Register, TypeDescriptor)>,
}

/// Types of registers, in the order in which they became known.
pub type Types = Seq<(Register, TypeView)>;

spec fn entry_views(registers: Seq<(Register, TypeDescriptor)>) -> Types {
    Seq::new(registers.len(), |i: int| (registers[i].0, registers[i].1.view()))
}

impl View for TypedRegisterState {
    type V = Types;

    closed spec fn view(&self) -> Types {
        entry_views(self.registers@)
    }
}

/// The type of a register, if it is known.
pub open spec fn known(types: Types, register: Register) -> Option<TypeView>
    decreases types.len(),
{
    if types.len() == 0 {
        None
    } else if types.last().0 == register {
        Some(types.last().1)
    } else {
        known(types.drop_last(), register)
    }
}

/// The entries without those of a register.
pub open spec fn without<T>(types: Seq<(Register, T)>, register: Register) -> Seq<(Register, T)>
    decreases types.len(),
{
    if types.len() == 0 {
        Seq::empty()
    } else if types.last().0 == register {
        without(types.drop_last(), register)
    } else {
        without(types.drop_last(), register).push(types.last())
    }
}

/// The types after that of a register became known.
pub open spec fn learned(types: Types, register: Register, type_: TypeView) -> Types {
    without(types, register).push((register, type_))
}

/// The types of the registers that operands name, as far as the lowering makes
/// use of them: nothing is made of a type that holds a part it makes no use of.
pub open spec fn supported(type_: TypeView) -> bool
    decreases type_, 0nat,
{
    match type_ {
        TypeView::Int | TypeView::Bool | TypeView::Atom | TypeView::Nil => true,
        TypeView::List(inner) => supported(*inner),
        TypeView::Tuple(elements) => all_supported(elements, elements.len()),
        _ => false,
    }
}

/// Whether use is made of the first `n` types.
pub open spec fn all_supported(types: Seq<TypeView>, n: nat) -> bool
    decreases types, n,
{
    n == 0 || n > types.len() || all_supported(types, (n - 1) as nat) && supported(types[n - 1])
}

fn all_supported_types(types: &Vec<TypeDescriptor>) -> (r: bool)
    ensures
        r == all_supported(type_views(types@), types@.len()),
    decreases types,
{
    let mut i: usize = 0;
    let mut all = true;
    while i < types.len()
        invariant
            i <= types@.len(),
            all == all_supported(type_views(types@), i as nat),
        decreases types@.len() - i,
    {
        proof {
            assert(decreases_to!(types => types@[i as int]));
        }
        let next = is_supported(&types[i]);
        all = all && next;
        i += 1;
    }
    all
}

fn is_supported(type_: &TypeDescriptor) -> (r: bool)
    ensures
        r == supported(type_.view()),
    decreases type_,
{
    match type_ {
        TypeDescriptor::Int
        | TypeDescriptor::Bool
        | TypeDescriptor::Atom
        | TypeDescriptor::Nil => true,
        TypeDescriptor::List(inner) => is_supported(inner),
        TypeDescriptor::Tuple(elements) => {
            proof {
                lemma_tuple_type_view(*elements);
            }
            all_supported_types(elements)
        },
        _ => false,
    }
}

/// The type, if use is made of it.
pub open spec fn supported_type_of(type_: TypeView) -> Option<TypeView> {
    if supported(type_) {
        Some(type_)
    } else {
        None
    }
}

/// An optional type with a view.
pub open spec fn option_view(type_: Option<TypeDescriptor>) -> Option<TypeView> {
    match type_ {
        Some(type_) => Some(type_.view()),
        None => None,
    }
}

/// The type, if use is made of it.
pub fn supported_type(type_: &TypeDescriptor) -> (r: Option<TypeDescriptor>)
    ensures
        option_view(r) == supported_type_of(type_.view()),
{
    if is_supported(type_) {
        Some(copy_type(type_))
    } else {
        None
    }
}

/// The types of the first `n` parameters of a function, in X registers.
pub open spec fn param_registers(params: Seq<TypeView>, n: nat) -> Types
    decreases n,
{
    if n == 0 {
        Seq::empty()
    } else {
        let before = param_registers(params, (n - 1) as nat);
        if n - 1 <= u32::MAX && supported(params[n - 1]) {
            before.push((Register::X((n - 1) as u32), params[n - 1]))
        } else {
            before
        }
    }
}

/// The types that a function starts with.
pub open spec fn entry_types(signature: Option<SignatureView>) -> Types {
    match signature {
        Some(signature) => param_registers(signature.param_types, signature.param_types.len()),
        None => Seq::empty(),
    }
}

/// The type of the register that an operand names.
pub open spec fn operand_type_of(types: Types, operand: OperandView) -> Option<TypeView> {
    match register_operand_of(operand) {
        Ok(register) => known(types, register),
        Err(_) => None,
    }
}

/// The types after that of an operand became known, or unknown.
pub open spec fn with_operand_type(types: Types, operand: OperandView, type_: Option<TypeView>) -> Types {
    match register_operand_of(operand) {
        Ok(register) => match type_ {
            Some(type_) => if supported(type_) {
                learned(types, register, type_)
            } else {
                without(types, register)
            },
            None => without(types, register),
        },
        Err(_) => types,
    }
}

/// The types after an operand was set to a value of unknown type.
pub open spec fn without_operand(types: Types, operand: OperandView) -> Types {
    match register_operand_of(operand) {
        Ok(register) => without(types, register),
        Err(_) => types,
    }
}

/// The types after one operand was copied to another.
pub open spec fn with_copy(types: Types, source: OperandView, destination: OperandView) -> Types {
    match operand_type_of(types, source) {
        Some(type_) => with_operand_type(types, destination, Some(type_)),
        None => without_operand(types, destination),
    }
}

/// The types with one more that may be unknown.
pub open spec fn with_known(types: Types, register: Register, type_: Option<TypeView>) -> Types {
    match type_ {
        Some(type_) => learned(types, register, type_),
        None => types,
    }
}

/// The types after two operands were exchanged.
pub open spec fn with_swap(types: Types, left: OperandView, right: OperandView) -> Types {
    match (register_operand_of(left), register_operand_of(right)) {
        (Ok(left), Ok(right)) => {
            let left_type = known(types, left);
            let rest = without(types, left);
            let right_type = known(rest, right);
            let rest = without(rest, right);
            with_known(with_known(rest, left, right_type), right, left_type)
        },
        _ => types,
    }
}

/// The type of a list whose head is the operand.
pub open spec fn list_type_from_head_of(types: Types, head: OperandView) -> Option<TypeView> {
    match operand_type_of(types, head) {
        Some(type_) => Some(TypeView::List(Box::new(type_))),
        None => None,
    }
}

/// The type of the head of the list in the operand.
pub open spec fn list_head_type_of(types: Types, source: OperandView) -> Option<TypeView> {
    match operand_type_of(types, source) {
        Some(TypeView::List(inner)) => Some(*inner),
        _ => None,
    }
}

/// The type of the tail of the list in the operand.
pub open spec fn list_tail_type_of(types: Types, source: OperandView) -> Option<TypeView> {
    match operand_type_of(types, source) {
        Some(TypeView::List(inner)) => Some(TypeView::List(inner)),
        _ => None,
    }
}

/// The types of the first `n` operands, if all are known.
pub open spec fn element_types(types: Types, elements: Seq<OperandView>, n: nat) -> Option<
    Seq<TypeView>,
>
    decreases n,
{
    if n == 0 {
        Some(Seq::empty())
    } else {
        match (
            element_types(types, elements, (n - 1) as nat),
            operand_type_of(types, elements[n - 1]),
        ) {
            (Some(before), Some(type_)) => Some(before.push(type_)),
            _ => None,
        }
    }
}

/// The type of a tuple of the operands.
pub open spec fn tuple_type_from_elements_of(types: Types, elements: OperandView) -> Option<
    TypeView,
> {
    match elements {
        OperandView::List(elements) => match element_types(types, elements, elements.len()) {
            Some(found) => Some(TypeView::Tuple(found)),
            None => None,
        },
        _ => None,
    }
}

/// The type of an element of the tuple in the operand.
pub open spec fn tuple_element_type_of(types: Types, source: OperandView, index: usize) -> Option<
    TypeView,
> {
    match operand_type_of(types, source) {
        Some(TypeView::Tuple(elements)) => if index < elements.len() {
            Some(elements[index as int])
        } else {
            None
        },
        _ => None,
    }
}

/// Whether both operands hold bare integers.
pub open spec fn operands_are_int_of(types: Types, left: OperandView, right: OperandView) -> bool {
    operand_type_of(types, left) == Some(TypeView::Int) && operand_type_of(types, right) == Some(
        TypeView::Int,
    )
}

proof fn lemma_without_views(registers: Seq<(Register, TypeDescriptor)>, register: Register)
    ensures
        entry_views(without(registers, register)) == without(entry_views(registers), register),
    decreases registers.len(),
{
    if registers.len() > 0 {
        lemma_without_views(registers.drop_last(), register);
        assert(entry_views(registers).drop_last() =~= entry_views(registers.drop_last()));
        let rest = without(registers.drop_last(), register);
        assert(entry_views(rest.push(registers.last())) =~= entry_views(rest).push(
            entry_views(registers).last(),
        ));
    } else {
        assert(entry_views(without(registers, register)) =~= without(
            entry_views(registers),
            register,
        ));
    }
}

proof fn lemma_elements_unknown(types: Types, elements: Seq<OperandView>, n: nat)
    requires
        n <= elements.len(),
        element_types(types, elements, n) is None,
    ensures
        element_types(types, elements, elements.len()) is None,
    decreases elements.len() - n,
{
    if n < elements.len() {
        lemma_elements_unknown(types, elements, n + 1);
    }
}

impl TypedRegisterState {
    /// The types that a function starts with.
    pub fn new(signature: Option<&FunctionSignature>) -> (r: Self)
        ensures
            r@ == entry_types(
                match signature {
                    Some(signature) => Some(signature@),
                    None => None,
                },
            ),
    {
        let mut registers: Vec<(Register, TypeDescriptor)> = Vec::new();
        assert(entry_views(registers@) =~= Seq::empty());
        match signature {
            Some(signature) => {
                let ghost params = type_views(signature.param_types@);
                let mut i: usize = 0;
                while i < signature.param_types.len()
                    invariant
                        i <= signature.param_types@.len(),
                        params == type_views(signature.param_types@),
                        entry_views(registers@) == param_registers(params, i as nat),
                    decreases signature.param_types@.len() - i,
                {
                    let ghost before = registers@;
                    if i as u64 <= 0xffff_ffff {
                        match supported_type(&signature.param_types[i]) {
                            Some(type_) => {
                                registers.push((Register::X(i as u32), type_));
                                assert(entry_views(registers@) =~= entry_views(before).push(
                                    (Register::X(i as u32), type_.view()),
                                ));
                            },
                            None => {},
                        }
                    }
                    i += 1;
                }
            },
            None => {},
        }
        TypedRegisterState { registers }
    }

    /// The registers whose types are known, in order.
    pub fn known_registers(&self) -> (r: Vec<Register>)
        ensures
            r@ == Seq::new(self@.len(), |i: int| self@[i].0),
    {
        let mut found: Vec<Register> = Vec::new();
        let mut i: usize = 0;
        while i < self.registers.len()
            invariant
                i <= self.registers@.len(),
                found@ == Seq::new(i as nat, |j: int| self@[j].0),
            decreases self.registers@.len() - i,
        {
            found.push(self.registers[i].0);
            i += 1;
            assert(found@ =~= Seq::new(i as nat, |j: int| self@[j].0));
        }
        assert(found@ =~= Seq::new(self@.len(), |j: int| self@[j].0));
        found
    }

    fn position(&self, register: Register) -> (r: Option<usize>)
        ensures
            match r {
                Some(i) => i < self.registers@.len() && known(self@, register) == Some(
                    self.registers@[i as int].1.view(),
                ),
                None => known(self@, register) is None,
            },
    {
        let mut n: usize = self.registers.len();
        assert(self@.take(n as int) =~= self@);
        while n > 0
            invariant
                n <= self.registers@.len(),
                known(self@, register) == known(self@.take(n as int), register),
            decreases n,
        {
            assert(self@.take(n as int).drop_last() =~= self@.take(n - 1));
            if self.registers[n - 1].0 == register {
                return Some(n - 1);
            }
            n -= 1;
        }
        None
    }

    /// Whether a register holds a bare integer.
    pub fn is_int(&self, register: Register) -> (r: bool)
        ensures
            r == (known(self@, register) == Some(TypeView::Int)),
    {
        match self.position(register) {
            Some(i) => match &self.registers[i].1 {
                TypeDescriptor::Int => true,
                _ => false,
            },
            None => false,
        }
    }

    /// Forgets the type of a register.
    pub fn forget(&mut self, register: Register)
        ensures
            final(self)@ == without(old(self)@, register),
    {
        let ghost all = self.registers@;
        let ghost mut seen: int = 0;
        let mut i: usize = 0;
        assert(self.registers@.take(0) =~= without(all.take(0), register));
        assert(all.skip(0) =~= all);
        while i < self.registers.len()
            invariant
                i <= self.registers@.len(),
                0 <= seen <= all.len(),
                self.registers@.len() - i == all.len() - seen,
                self.registers@.take(i as int) == without(all.take(seen), register),
                self.registers@.skip(i as int) == all.skip(seen),
            decreases self.registers@.len() - i,
        {
            proof {
                assert(all.skip(seen)[0] == all[seen]);
                assert(self.registers@.skip(i as int)[0] == self.registers@[i as int]);
                assert(all.take(seen + 1).drop_last() =~= all.take(seen));
                assert(all.skip(seen).skip(1) =~= all.skip(seen + 1));
                assert(self.registers@.skip(i as int).skip(1) =~= self.registers@.skip(i + 1));
            }
            let ghost before = self.registers@;
            if self.registers[i].0 == register {
                self.registers.remove(i);
                assert(self.registers@.take(i as int) =~= before.take(i as int));
                assert(self.registers@.skip(i as int) =~= before.skip(i + 1));
            } else {
                assert(before.take(i + 1) =~= before.take(i as int).push(before[i as int]));
                i += 1;
            }
            proof {
                seen = seen + 1;
            }
        }
        proof {
            assert(all.take(seen) =~= all);
            assert(self.registers@.take(i as int) =~= self.registers@);
            lemma_without_views(all, register);
        }
    }

    /// Sets the type of a register.
    pub fn learn(&mut self, register: Register, type_: TypeDescriptor)
        ensures
            final(self)@ == learned(old(self)@, register, type_.view()),
    {
        self.forget(register);
        let ghost before = self.registers@;
        self.registers.push((register, type_));
        assert(self@ =~= entry_views(before).push((register, type_.view())));
    }

    /// Takes the type of a register out.
    pub fn take(&mut self, register: Register) -> (r: Option<TypeDescriptor>)
        ensures
            option_view(r) == known(old(self)@, register),
            final(self)@ == without(old(self)@, register),
    {
        let found = self.register_type(register);
        self.forget(register);
        found
    }

    fn register_type(&self, register: Register) -> (r: Option<TypeDescriptor>)
        ensures
            option_view(r) == known(self@, register),
    {
        match self.position(register) {
            Some(i) => Some(copy_type(&self.registers[i].1)),
            None => None,
        }
    }

    /// The type of the register that an operand names.
    pub fn operand_type(&self, operand: &Operand) -> (r: Option<TypeDescriptor>)
        ensures
            option_view(r) == operand_type_of(self@, operand.view()),
    {
        match register_operand(operand) {
            Ok(register) => self.register_type(register),
            Err(_) => None,
        }
    }

    /// Sets the type of an operand, or forgets it where no use is made of it.
    pub fn set_optional_operand_type(&mut self, operand: &Operand, type_: Option<TypeDescriptor>)
        ensures
            final(self)@ == with_operand_type(old(self)@, operand.view(), option_view(type_)),
    {
        match register_operand(operand) {
            Ok(register) => match type_ {
                Some(type_) => match supported_type(&type_) {
                    Some(type_) => {
                        self.learn(register, type_);
                    },
                    None => {
                        self.forget(register);
                    },
                },
                None => {
                    self.forget(register);
                },
            },
            Err(_) => {},
        }
    }

    /// Sets the type of an operand.
    pub fn set_operand_type(&mut self, operand: &Operand, type_: TypeDescriptor)
        ensures
            final(self)@ == with_operand_type(old(self)@, operand.view(), Some(type_.view())),
    {
        self.set_optional_operand_type(operand, Some(type_));
    }

    /// Forgets the type of an operand.
    pub fn clear_operand(&mut self, operand: &Operand)
        ensures
            final(self)@ == without_operand(old(self)@, operand.view()),
    {
        match register_operand(operand) {
            Ok(register) => {
                self.forget(register);
            },
            Err(_) => {},
        }
    }

    /// Gives the destination the type of the source.
    pub fn copy(&mut self, source: &Operand, destination: &Operand)
        ensures
            final(self)@ == with_copy(old(self)@, source.view(), destination.view()),
    {
        match self.operand_type(source) {
            Some(type_) => {
                self.set_operand_type(destination, type_);
            },
            None => {
                self.clear_operand(destination);
            },
        }
    }

    /// Exchanges the types of two operands.
    pub fn swap(&mut self, left: &Operand, right: &Operand)
        ensures
            final(self)@ == with_swap(old(self)@, left.view(), right.view()),
    {
        let left_register = match register_operand(left) {
            Ok(register) => register,
            Err(_) => {
                return;
            },
        };
        let right_register = match register_operand(right) {
            Ok(register) => register,
            Err(_) => {
                return;
            },
        };
        let left_type = self.take(left_register);
        let right_type = self.take(right_register);
        match right_type {
            Some(type_) => {
                self.learn(left_register, type_);
            },
            None => {},
        }
        match left_type {
            Some(type_) => {
                self.learn(right_register, type_);
            },
            None => {},
        }
    }

    /// Whether both operands hold bare integers.
    pub fn operands_are_int(&self, left: &Operand, right: &Operand) -> (r: bool)
        ensures
            r == operands_are_int_of(self@, left.view(), right.view()),
    {
        match (register_operand(left), register_operand(right)) {
            (Ok(left), Ok(right)) => self.is_int(left) && self.is_int(right),
            _ => false,
        }
    }

    /// Whether an operand is a register, whose type can be known.
    pub fn can_write_typed(&self, operand: &Operand) -> (r: bool)
        ensures
            r == (register_operand_of(operand.view()) is Ok),
    {
        register_operand(operand).is_ok()
    }

    /// The type of a list whose head is the operand.
    pub fn list_type_from_head(&self, head: &Operand) -> (r: Option<TypeDescriptor>)
        ensures
            option_view(r) == list_type_from_head_of(self@, head.view()),
    {
        match self.operand_type(head) {
            Some(type_) => Some(TypeDescriptor::List(Box::new(type_))),
            None => None,
        }
    }

    /// The type of the head of the list in the operand.
    pub fn list_head_type(&self, source: &Operand) -> (r: Option<TypeDescriptor>)
        ensures
            option_view(r) == list_head_type_of(self@, source.view()),
    {
        match self.operand_type(source) {
            Some(TypeDescriptor::List(inner)) => Some(*inner),
            _ => None,
        }
    }

    /// The type of the tail of the list in the operand.
    pub fn list_tail_type(&self, source: &Operand) -> (r: Option<TypeDescriptor>)
        ensures
            option_view(r) == list_tail_type_of(self@, source.view()),
    {
        match self.operand_type(source) {
            Some(TypeDescriptor::List(inner)) => Some(TypeDescriptor::List(inner)),
            _ => None,
        }
    }

    /// The type of a tuple of the operands.
    pub fn tuple_type_from_elements(&self, elements: &Operand) -> (r: Option<TypeDescriptor>)
        ensures
            option_view(r) == tuple_type_from_elements_of(self@, elements.view()),
    {
        let items = match elements {
            Operand::List(items) => items,
            _ => {
                return None;
            },
        };
        let ghost views = operand_views(items@);
        proof {
            lemma_operand_list_view(*items);
        }
        let mut found: Vec<TypeDescriptor> = Vec::new();
        let mut i: usize = 0;
        assert(type_views(found@) =~= Seq::empty());
        while i < items.len()
            invariant
                i <= items@.len(),
                views == operand_views(items@),
                elements.view() == OperandView::List(views),
                element_types(self@, views, i as nat) == Some(type_views(found@)),
            decreases items@.len() - i,
        {
            let ghost before = found@;
            match self.operand_type(&items[i]) {
                Some(type_) => {
                    proof {
                        lemma_type_views_push(before, type_);
                    }
                    found.push(type_);
                },
                None => {
                    proof {
                        lemma_elements_unknown(self@, views, (i + 1) as nat);
                    }
                    return None;
                },
            }
            i += 1;
        }
        proof {
            lemma_tuple_type_view(found);
        }
        Some(TypeDescriptor::Tuple(found))
    }

    /// The type of an element of the tuple in the operand.
    pub fn tuple_element_type(&self, source: &Operand, index: usize) -> (r: Option<TypeDescriptor>)
        ensures
            option_view(r) == tuple_element_type_of(self@, source.view(), index),
    {
        match self.operand_type(source) {
            Some(TypeDescriptor::Tuple(elements)) => {
                proof {
                    lemma_tuple_type_view(elements);
                }
                if index < elements.len() {
                    Some(copy_type(&elements[index]))
                } else {
                    None
                }
            },
            _ => None,
        }
    }
}

/// The type of a register is what was learned of it last, and learning of one
/// leaves the others.
pub proof fn law_types_are_per_register(
    types: Types,
    register: Register,
    type_: TypeView,
    other: Register,
)
    ensures
        known(learned(types, register, type_), register) == Some(type_),
        other != register ==> known(learned(types, register, type_), other) == known(types, other),
        known(without(types, register), register) is None,
        other != register ==> known(without(types, register), other) == known(types, other),
{
    let rest = without(types, register);
    assert(rest.push((register, type_)).drop_last() =~= rest);
    lemma_without(types, register, other);
    lemma_without(types, register, register);
}

proof fn lemma_without(types: Types, register: Register, other: Register)
    ensures
        other != register ==> known(without(types, register), other) == known(types, other),
        known(without(types, register), register) is None,
    decreases types.len(),
{
    if types.len() > 0 {
        lemma_without(types.drop_last(), register, other);
        let rest = without(types.drop_last(), register);
        assert(rest.push(types.last()).drop_last() =~= rest);
    }
}

/// A function starts with the types of its parameters, each in the register of its position, as
/// far as use is made of them.
pub proof fn law_parameters_are_in_their_registers(params: Seq<TypeView>, n: nat, i: u32)
    requires
        n <= params.len() <= 0x1_0000_0000,
    ensures
        known(param_registers(params, n), Register::X(i)) == if i < n && supported(
            params[i as int],
        ) {
            Some(params[i as int])
        } else {
            None
        },
        known(param_registers(params, n), Register::Y(i)) is None,
    decreases n,
{
    if n > 0 {
        law_parameters_are_in_their_registers(params, (n - 1) as nat, i);
        let before = param_registers(params, (n - 1) as nat);
        if supported(params[n - 1]) {
            let entry = (Register::X((n - 1) as u32), params[n - 1]);
            assert(before.push(entry).drop_last() =~= before);
        }
    }
}

/// Use is made of integers, booleans, atoms and the empty list, and of lists and tuples of types
/// that use is made of; of floats, strings, bit arrays and what is not known none is made.
pub proof fn law_types_that_are_used(type_: TypeView)
    ensures
        supported(type_) <==> match type_ {
            TypeView::Int | TypeView::Bool | TypeView::Atom | TypeView::Nil => true,
            TypeView::List(inner) => supported(*inner),
            TypeView::Tuple(elements) => forall|i: int|
                0 <= i < elements.len() ==> supported(#[trigger] elements[i]),
            TypeView::Float | TypeView::String | TypeView::BitArray | TypeView::Dynamic => false,
        },
{
    if let TypeView::Tuple(elements) = type_ {
        lemma_all_supported(elements, elements.len());
    }
}

proof fn lemma_all_supported(types: Seq<TypeView>, n: nat)
    requires
        n <= types.len(),
    ensures
        all_supported(types, n) <==> forall|i: int| 0 <= i < n ==> supported(#[trigger] types[i]),
    decreases n,
{
    if n > 0 {
        lemma_all_supported(types, (n - 1) as nat);
        if forall|i: int| 0 <= i < n ==> supported(#[trigger] types[i]) {
            assert(supported(types[n - 1]));
        }
    }
}

} // verus!
