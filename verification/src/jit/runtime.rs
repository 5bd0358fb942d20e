//! What compiled code calls to allocate, to be charged and to call functions.

use std::sync::Arc;

use vstd::prelude::*;
use crate::atom::Atom;
use crate::module::{
    label_position, Module, ModuleRegistry, ModuleVersions, ResolvedImport, ResolvedImportTarget,
};
use crate::term::{atom_term, atom_term_of, NIL_TERM};
use super::exceptions::{
    JitReturn, JIT_STATUS_DEOPT, JIT_STATUS_EXCEPTION, JIT_STATUS_NORMAL, JIT_STATUS_YIELD,
};

verus! {

/// The word of a return that lets the interpreter take over.
pub const DEOPT_WORD: u64 = 0xffff_ffff_ffff_ffff;

/// The word of a return that lets the process yield.
pub const YIELD_WORD: u64 = 0xffff_ffff_ffff_fffe;

/// How many words a list cell takes.
pub const CONS_WORDS: usize = 2;

/// How many words a number of terms and some more take, if they can be counted.
pub open spec fn words_of(terms: u64, more: int) -> Option<usize> {
    if terms + more > usize::MAX {
        None
    } else {
        Some((terms + more) as usize)
    }
}

fn count_words(terms: u64, more: usize) -> (r: Option<usize>)
    ensures
        r == words_of(terms, more as int),
{
    if terms > usize::MAX as u64 {
        return None;
    }
    (terms as usize).checked_add(more)
}

/// How many words a tuple takes.
pub fn tuple_words(arity: u64) -> (r: Option<usize>)
    ensures
        r == words_of(arity, 1),
{
    count_words(arity, 1)
}

/// How many words a closure takes.
pub fn closure_words(num_free: u64) -> (r: Option<usize>)
    ensures
        r == words_of(num_free, 7),
{
    count_words(num_free, 7)
}

/// Charges a process for a call; answers whether it has to yield.
pub fn charge_reduction(remaining: &mut u32) -> (r: bool)
    ensures
        *final(remaining) == if *old(remaining) == 0 {
            0
        } else {
            *old(remaining) - 1
        },
        r == (*final(remaining) == 0),
{
    if *remaining > 0 {
        *remaining = *remaining - 1;
    }
    *remaining == 0
}

/// How a run of the interpreter ended.
#[derive(Debug, Clone, Copy, PartialEq, Eq, Structural)]
pub enum ExecutionOutcome {
    /// The process exited normally.
    Returned,
    /// The process exited for another reason.
    Exited,
    Waiting,
    DirtyCall,
    Yielded,
    /// The code could not be run.
    Failed,
}

/// What a call of interpreted code returns to compiled code: what is in the
/// first register, the reason of an exception, or a word that lets the
/// interpreter take over or the process yield.
pub open spec fn interpreted_return_of(
    outcome: ExecutionOutcome,
    exception: Option<u64>,
    first_register: u64,
) -> JitReturn {
    match outcome {
        ExecutionOutcome::Returned => JitReturn {
            status: JIT_STATUS_NORMAL,
            value: first_register,
        },
        ExecutionOutcome::Exited | ExecutionOutcome::Failed => match exception {
            Some(reason) => JitReturn { status: JIT_STATUS_EXCEPTION, value: reason },
            None => JitReturn { status: JIT_STATUS_DEOPT, value: DEOPT_WORD },
        },
        ExecutionOutcome::Waiting | ExecutionOutcome::DirtyCall => JitReturn {
            status: JIT_STATUS_DEOPT,
            value: DEOPT_WORD,
        },
        ExecutionOutcome::Yielded => JitReturn { status: JIT_STATUS_YIELD, value: YIELD_WORD },
    }
}

/// What a call of interpreted code returns to compiled code.
pub fn interpreted_return(
    outcome: ExecutionOutcome,
    exception: Option<u64>,
    first_register: u64,
) -> (r: JitReturn)
    ensures
        r == interpreted_return_of(outcome, exception, first_register),
{
    match outcome {
        ExecutionOutcome::Returned => JitReturn::normal(first_register),
        ExecutionOutcome::Exited | ExecutionOutcome::Failed => match exception {
            Some(reason) => JitReturn::exception(reason),
            None => JitReturn::deopt(DEOPT_WORD),
        },
        ExecutionOutcome::Waiting | ExecutionOutcome::DirtyCall => JitReturn::deopt(DEOPT_WORD),
        ExecutionOutcome::Yielded => JitReturn::yield_(YIELD_WORD),
    }
}

/// Interpreted code that compiled code calls.
#[derive(Debug)]
pub struct CallTarget {
    pub module: Arc<Module>,
    pub instruction_pointer: usize,
}

/// Whether an import is called by the interpreter: native functions and those
/// that are not there are not.
pub open spec fn is_interpreted(target: ResolvedImportTarget) -> bool {
    target is Code || target is Deferred
}

/// The import that a call names: of the module whose code runs, and of the arity
/// of the call.
pub open spec fn called_import(
    name: Atom,
    imports: Seq<ResolvedImport>,
    module: u64,
    import: u64,
    arity: u64,
) -> Option<ResolvedImport> {
    if module == name.0 && import < imports.len() && imports[import as int].arity == arity
        && is_interpreted(imports[import as int].target) {
        Some(imports[import as int])
    } else {
        None
    }
}

/// Where the function of an import is, if its module is loaded and exports it.
pub open spec fn import_position(modules: Map<u32, ModuleVersions>, import: ResolvedImport) -> Option<
    (Arc<Module>, usize),
> {
    if !modules.contains_key(import.module.0) {
        None
    } else {
        let module = modules[import.module.0].current;
        if !module.exports@.contains_key((import.function, import.arity)) {
            None
        } else {
            match label_position(
                module.label_index@,
                module.exports@[(import.function, import.arity)],
            ) {
                Ok(position) => Some((module, position)),
                Err(_) => None,
            }
        }
    }
}

/// What a call of an import by compiled code reaches; `None` lets the
/// interpreter take over.
pub fn interpreted_target(
    registry: &ModuleRegistry,
    current: &Module,
    module: u64,
    import: u64,
    arity: u64,
) -> (r: Option<CallTarget>)
    ensures
        match called_import(current.name, current.resolved_imports@, module, import, arity) {
            None => r is None,
            Some(called) => match import_position(registry@, called) {
                None => r is None,
                Some((loaded, position)) => r matches Some(target) && target.module == loaded
                    && target.instruction_pointer == position,
            },
        },
{
    if module != current.name.0 as u64 || import >= current.resolved_imports.len() as u64 {
        return None;
    }
    let called = current.resolved_imports[import as usize];
    if called.arity as u64 != arity {
        return None;
    }
    match called.target {
        ResolvedImportTarget::Code { .. } | ResolvedImportTarget::Deferred { .. } => {},
        ResolvedImportTarget::Unresolved { .. } | ResolvedImportTarget::Native(_) => {
            return None;
        },
    }
    match registry.lookup(called.module) {
        None => None,
        Some(loaded) => match loaded.export_ip(called.function, called.arity) {
            Err(_) => None,
            Ok(instruction_pointer) => Some(CallTarget { module: loaded, instruction_pointer }),
        },
    }
}

/// What a term that is called says of itself, if it is a closure.
#[derive(Debug, Clone, Copy, PartialEq, Eq, Structural)]
pub struct ClosureShape {
    pub arity: u8,
    pub num_free: usize,
}

/// Whether a term can be called with as many arguments.
#[derive(Debug, Clone, Copy, PartialEq, Eq, Structural)]
pub enum ClosureCheck {
    Call,
    /// The term is no closure.
    BadFun,
    /// The closure takes another number of arguments.
    BadArity,
    /// The interpreter has to take over: there are more arguments and free
    /// variables than registers for them.
    Deopt,
}

/// Whether a term can be called with as many arguments.
pub open spec fn closure_check_of(closure: Option<ClosureShape>, arity: u64) -> ClosureCheck {
    if arity > 255 {
        ClosureCheck::Deopt
    } else {
        match closure {
            None => ClosureCheck::BadFun,
            Some(shape) => if shape.arity != arity {
                ClosureCheck::BadArity
            } else if arity + shape.num_free > 256 {
                ClosureCheck::Deopt
            } else {
                ClosureCheck::Call
            },
        }
    }
}

/// Whether a term can be called with as many arguments.
pub fn closure_check(closure: Option<ClosureShape>, arity: u64) -> (r: ClosureCheck)
    ensures
        r == closure_check_of(closure, arity),
{
    if arity > 255 {
        return ClosureCheck::Deopt;
    }
    match closure {
        None => ClosureCheck::BadFun,
        Some(shape) => {
            if shape.arity as u64 != arity {
                ClosureCheck::BadArity
            } else if shape.num_free > 256 - arity as usize {
                ClosureCheck::Deopt
            } else {
                ClosureCheck::Call
            }
        },
    }
}

/// The function whose compiled code a closure runs, if the instruction that it
/// starts at belongs to a function of its arity.
pub fn compiled_closure_function(module: &Module, instruction_pointer: usize, arity: u8) -> (r: Option<
    Atom,
>)
    ensures
        r == match crate::module::function_before(
            module.function_table@,
            instruction_pointer,
            module.function_table@.len(),
        ) {
            Some(i) => if module.function_table@[i as int].2 == arity {
                Some(module.function_table@[i as int].1)
            } else {
                None::<Atom>
            },
            None => None::<Atom>,
        },
{
    match module.function_at_ip(instruction_pointer) {
        Some((function, function_arity)) => if function_arity == arity {
            Some(function)
        } else {
            None
        },
        None => None,
    }
}

/// What a call of compiled code returns: what the code returned, unless the
/// process has asked to yield.
pub fn native_return(returned: JitReturn, yields: bool) -> (r: JitReturn)
    ensures
        r == if yields {
            JitReturn { status: JIT_STATUS_YIELD, value: YIELD_WORD }
        } else {
            returned
        },
{
    if yields {
        JitReturn::yield_(YIELD_WORD)
    } else {
        returned
    }
}

/// An exception, as terms.
#[derive(Debug, Clone, Copy, PartialEq, Eq, Structural)]
pub struct Exception {
    pub class: i64,
    pub reason: i64,
    pub stacktrace: i64,
}

/// The exception of an error.
pub open spec fn error_of(reason: Atom) -> Exception {
    Exception {
        class: atom_term_of(Atom(1)),
        reason: atom_term_of(reason),
        stacktrace: NIL_TERM,
    }
}

/// The exception of an error.
pub fn error_exception(reason: Atom) -> (r: Exception)
    ensures
        r == error_of(reason),
{
    Exception {
        class: atom_term(Atom::error()),
        reason: atom_term(reason),
        stacktrace: NIL_TERM,
    }
}

/// What an error returns to compiled code: the reason of its exception.
pub fn exception_return(reason: Atom) -> (r: (Exception, JitReturn))
    ensures
        r.0 == error_of(reason),
        r.1 == (JitReturn { status: JIT_STATUS_EXCEPTION, value: atom_term_of(reason) as u64 }),
{
    let exception = error_exception(reason);
    (exception, JitReturn::exception(exception.reason as u64))
}

/// Compiled code never takes what an interpreted call returns for a value when
/// it is none: only a normal return carries what is in the first register.
pub proof fn law_only_a_return_carries_a_value(
    outcome: ExecutionOutcome,
    exception: Option<u64>,
    first_register: u64,
)
    ensures
        interpreted_return_of(outcome, exception, first_register).status == JIT_STATUS_NORMAL
            <==> outcome is Returned,
        interpreted_return_of(outcome, exception, first_register).status == JIT_STATUS_EXCEPTION
            <==> (outcome is Exited || outcome is Failed) && exception is Some,
{
}

/// Interpreted code that returned gives 0 and the first register; code that exited or failed gives
/// 1 and the reason of its exception, and without one 2, as code that waits or makes a dirty call
/// does; code that yielded gives 3.
pub proof fn law_interpreted_code_says_how_it_ended(
    outcome: ExecutionOutcome,
    exception: Option<u64>,
    first_register: u64,
)
    ensures
        ({
            let r = interpreted_return_of(outcome, exception, first_register);
            match outcome {
                ExecutionOutcome::Returned => r.status == 0 && r.value == first_register,
                ExecutionOutcome::Exited | ExecutionOutcome::Failed => match exception {
                    Some(reason) => r.status == 1 && r.value == reason,
                    None => r.status == 2 && r.value == 0xffff_ffff_ffff_ffff,
                },
                ExecutionOutcome::Waiting | ExecutionOutcome::DirtyCall => r.status == 2 && r.value
                    == 0xffff_ffff_ffff_ffff,
                ExecutionOutcome::Yielded => r.status == 3 && r.value == 0xffff_ffff_ffff_fffe,
            }
        }),
{
}

/// A term is called just when it is a closure of as many arguments that all of its values have
/// registers for, which are 256.
pub proof fn law_closures_are_called_with_their_arity(
    closure: Option<ClosureShape>,
    arity: u64,
)
    ensures
        match closure_check_of(closure, arity) {
            ClosureCheck::Call => closure matches Some(shape) && shape.arity == arity && arity
                + shape.num_free <= 256,
            ClosureCheck::BadFun => closure is None && arity < 256,
            ClosureCheck::BadArity => closure matches Some(shape) && shape.arity != arity && arity
                < 256,
            ClosureCheck::Deopt => arity >= 256 || (closure matches Some(shape) && arity
                + shape.num_free > 256),
        },
{
}

/// An error is an exception whose class is the second atom, with a reason and no trace.
pub proof fn law_errors_have_their_class(reason: Atom)
    ensures
        error_of(reason).class == 8 * 1 + 1,
        error_of(reason).reason == 8 * reason.0 + 1,
        error_of(reason).stacktrace == 3,
{
}

/// A call reaches an import of the module whose code runs, of its arity, and no native function.
pub proof fn law_calls_reach_imports_of_their_arity(
    name: Atom,
    imports: Seq<ResolvedImport>,
    module: u64,
    import: u64,
    arity: u64,
)
    ensures
        match called_import(name, imports, module, import, arity) {
            Some(called) => import < imports.len() && called == imports[import as int] && called.arity
                == arity && module == name.0 && !(called.target is Native) && !(called.target
                is Unresolved),
            None => module != name.0 || import >= imports.len() || imports[import as int].arity
                != arity || imports[import as int].target is Native || imports[import as int].target
                is Unresolved,
        },
{
}

} // verus!
