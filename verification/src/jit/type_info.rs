//! What is known of the types of a function's parameters.

use vstd::prelude::*;
use crate::text::same_text;

verus! {

/// The type of a value.
#[derive(Debug, PartialEq, Eq)]
pub enum TypeDescriptor {
    Int,
    Float,
    Bool,
    Atom,
    Nil,
    String,
    BitArray,
    List(Box<TypeDescriptor>),
    Tuple(Vec<TypeDescriptor>),
    /// A type that says nothing of the value's form.
    Dynamic,
}

/// A [`TypeDescriptor`] with a sequence in place of its vector.
#[verifier::ext_equal]
pub enum TypeView {
    Int,
    Float,
    Bool,
    Atom,
    Nil,
    String,
    BitArray,
    List(Box<TypeView>),
    Tuple(Seq<TypeView>),
    Dynamic,
}

impl TypeDescriptor {
    pub open spec fn view(&self) -> TypeView
        decreases self,
    {
        match self {
            TypeDescriptor::Int => TypeView::Int,
            TypeDescriptor::Float => TypeView::Float,
            TypeDescriptor::Bool => TypeView::Bool,
            TypeDescriptor::Atom => TypeView::Atom,
            TypeDescriptor::Nil => TypeView::Nil,
            TypeDescriptor::String => TypeView::String,
            TypeDescriptor::BitArray => TypeView::BitArray,
            TypeDescriptor::List(inner) => TypeView::List(Box::new(inner.view())),
            TypeDescriptor::Tuple(elements) => TypeView::Tuple(
                Seq::new(
                    elements@.len(),
                    |i: int|
                        if 0 <= i < elements@.len() {
                            elements@[i].view()
                        } else {
                            arbitrary()
                        },
                ),
            ),
            TypeDescriptor::Dynamic => TypeView::Dynamic,
        }
    }
}

/// The views of types.
pub open spec fn type_views(types: Seq<TypeDescriptor>) -> Seq<TypeView> {
    Seq::new(types.len(), |i: int| types[i].view())
}

pub proof fn lemma_tuple_type_view(elements: Vec<TypeDescriptor>)
    ensures
        TypeDescriptor::Tuple(elements).view() == TypeView::Tuple(type_views(elements@)),
{
    assert(TypeDescriptor::Tuple(elements).view()->Tuple_0 =~= type_views(elements@));
}

pub proof fn lemma_type_views_push(types: Seq<TypeDescriptor>, last: TypeDescriptor)
    ensures
        type_views(types.push(last)) == type_views(types).push(last.view()),
{
    assert(type_views(types.push(last)) =~= type_views(types).push(last.view()));
}

fn copy_types(types: &Vec<TypeDescriptor>) -> (r: Vec<TypeDescriptor>)
    ensures
        type_views(r@) == type_views(types@),
    decreases types,
{
    let mut copy: Vec<TypeDescriptor> = Vec::new();
    let mut i: usize = 0;
    while i < types.len()
        invariant
            i <= types@.len(),
            type_views(copy@) == type_views(types@).take(i as int),
        decreases types@.len() - i,
    {
        proof {
            assert(decreases_to!(types => types@[i as int]));
        }
        let ghost before = copy@;
        let item = copy_type(&types[i]);
        proof {
            lemma_type_views_push(before, item);
        }
        copy.push(item);
        i += 1;
        assert(type_views(copy@) =~= type_views(types@).take(i as int));
    }
    assert(type_views(types@).take(types@.len() as int) =~= type_views(types@));
    copy
}

/// A copy of a type.
pub fn copy_type(type_: &TypeDescriptor) -> (r: TypeDescriptor)
    ensures
        r.view() == type_.view(),
    decreases type_,
{
    match type_ {
        TypeDescriptor::Int => TypeDescriptor::Int,
        TypeDescriptor::Float => TypeDescriptor::Float,
        TypeDescriptor::Bool => TypeDescriptor::Bool,
        TypeDescriptor::Atom => TypeDescriptor::Atom,
        TypeDescriptor::Nil => TypeDescriptor::Nil,
        TypeDescriptor::String => TypeDescriptor::String,
        TypeDescriptor::BitArray => TypeDescriptor::BitArray,
        TypeDescriptor::List(inner) => TypeDescriptor::List(Box::new(copy_type(inner))),
        TypeDescriptor::Tuple(elements) => {
            let copy = copy_types(elements);
            proof {
                lemma_tuple_type_view(copy);
                lemma_tuple_type_view(*elements);
            }
            TypeDescriptor::Tuple(copy)
        },
        TypeDescriptor::Dynamic => TypeDescriptor::Dynamic,
    }
}

impl Clone for TypeDescriptor {
    fn clone(&self) -> (r: Self)
        ensures
            r.view() == self.view(),
    {
        copy_type(self)
    }
}

/// The types of a function's parameters and result.
#[derive(Debug)]
pub struct FunctionSignature {
    pub name: String,
    pub arity: u8,
    pub param_types: Vec<TypeDescriptor>,
    pub return_type: TypeDescriptor,
}

/// A [`FunctionSignature`] with sequences in place of its containers.
#[verifier::ext_equal]
pub struct SignatureView {
    pub name: Seq<char>,
    pub arity: u8,
    pub param_types: Seq<TypeView>,
    pub return_type: TypeView,
}

impl View for FunctionSignature {
    type V = SignatureView;

    open spec fn view(&self) -> SignatureView {
        SignatureView {
            name: self.name@,
            arity: self.arity,
            param_types: type_views(self.param_types@),
            return_type: self.return_type.view(),
        }
    }
}

impl Clone for FunctionSignature {
    fn clone(&self) -> (r: Self)
        ensures
            r@ == self@,
    {
        FunctionSignature {
            name: self.name.clone(),
            arity: self.arity,
            param_types: copy_types(&self.param_types),
            return_type: copy_type(&self.return_type),
        }
    }
}

/// The signatures of a module's functions.
#[derive(Debug)]
pub struct GleamTypeReader {
    module_name: String,
    functions: Vec<FunctionSignature>,
}

/// The first signature of the given name and arity.
pub open spec fn signature_of(functions: Seq<SignatureView>, name: Seq<char>, arity: u8) -> Option<
    SignatureView,
>
    decreases functions.len(),
{
    if functions.len() == 0 {
        None
    } else if functions[0].name == name && functions[0].arity == arity {
        Some(functions[0])
    } else {
        signature_of(functions.skip(1), name, arity)
    }
}

/// The views of signatures.
pub open spec fn signature_views(functions: Seq<FunctionSignature>) -> Seq<SignatureView> {
    Seq::new(functions.len(), |i: int| functions[i]@)
}

impl GleamTypeReader {
    pub closed spec fn name(&self) -> Seq<char> {
        self.module_name@
    }

    pub closed spec fn signatures(&self) -> Seq<SignatureView> {
        signature_views(self.functions@)
    }

    /// The signatures of the module of the given name.
    pub fn new(module_name: String, functions: Vec<FunctionSignature>) -> (r: Self)
        ensures
            r.name() == module_name@,
            r.signatures() == signature_views(functions@),
    {
        GleamTypeReader { module_name, functions }
    }

    /// The name of the module.
    pub fn module_name(&self) -> (r: &str)
        ensures
            r@ == self.name(),
    {
        self.module_name.as_str()
    }

    /// The signature of a function, if there is one.
    pub fn function_signature(&self, function: &str, arity: u8) -> (r: Option<FunctionSignature>)
        ensures
            match signature_of(self.signatures(), function@, arity) {
                Some(signature) => r matches Some(found) && found@ == signature,
                None => r is None,
            },
    {
        let mut i: usize = 0;
        let ghost all = self.signatures();
        assert(all.skip(0) =~= all);
        while i < self.functions.len()
            invariant
                i <= self.functions@.len(),
                all == self.signatures(),
                signature_of(all, function@, arity) == signature_of(
                    all.skip(i as int),
                    function@,
                    arity,
                ),
            decreases self.functions@.len() - i,
        {
            assert(all.skip(i as int)[0] == self.functions@[i as int]@);
            assert(all.skip(i as int).skip(1) =~= all.skip(i + 1));
            if self.functions[i].arity == arity && same_text(
                self.functions[i].name.as_str(),
                function,
            ) {
                return Some(self.functions[i].clone());
            }
            i += 1;
        }
        None
    }
}

/// The signature of a function is the first of its name and arity.
pub proof fn law_first_signature_counts(functions: Seq<SignatureView>, name: Seq<char>, arity: u8)
    ensures
        match signature_of(functions, name, arity) {
            Some(found) => exists|i: int|
                0 <= i < functions.len() && #[trigger] functions[i] == found && found.name == name
                    && found.arity == arity && forall|j: int|
                    0 <= j < i ==> !((#[trigger] functions[j]).name == name && functions[j].arity
                        == arity),
            None => forall|i: int|
                0 <= i < functions.len() ==> !((#[trigger] functions[i]).name == name
                    && functions[i].arity == arity),
        },
    decreases functions.len(),
{
    if functions.len() > 0 {
        if functions[0].name == name && functions[0].arity == arity {
            assert(functions[0] == functions[0]);
        } else {
            let rest = functions.skip(1);
            law_first_signature_counts(rest, name, arity);
            match signature_of(rest, name, arity) {
                Some(found) => {
                    let i = choose|i: int|
                        0 <= i < rest.len() && #[trigger] rest[i] == found && found.name == name
                            && found.arity == arity && forall|j: int|
                            0 <= j < i ==> !((#[trigger] rest[j]).name == name && rest[j].arity
                                == arity);
                    assert(functions[i + 1] == found);
                    assert forall|j: int| 0 <= j < i + 1 implies !((#[trigger] functions[j]).name
                        == name && functions[j].arity == arity) by {
                        if j > 0 {
                            assert(functions[j] == rest[j - 1]);
                        }
                    }
                },
                None => {
                    assert forall|j: int| 0 <= j < functions.len() implies !((
                    #[trigger] functions[j]).name == name && functions[j].arity == arity) by {
                        if j > 0 {
                            assert(functions[j] == rest[j - 1]);
                        }
                    }
                },
            }
        }
    }
}

} // verus!
