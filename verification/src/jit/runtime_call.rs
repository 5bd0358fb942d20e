//! Calls that leave compiled code: what is decided before the callee runs, and
//! what is returned after it did.
//!
//! A call begins with a function that says how the callee is entered. Whoever
//! runs the callee then says how it ended, and learns what compiled code gets.

use std::sync::Arc;

use vstd::prelude::*;
use crate::atom::Atom;
use crate::module::{
    function_before, label_position, Module, ModuleRegistry, ModuleVersions, ResolvedImport,
};
use super::compile_job::JitCacheKey;
use super::exceptions::{JitReturn, JIT_STATUS_DEOPT, JIT_STATUS_EXCEPTION, JIT_STATUS_YIELD};
use super::register::X_REGISTER_COUNT;
use super::runtime::{
    called_import, charge_reduction, closure_check, compiled_closure_function, error_of,
    exception_return, import_position, interpreted_return, interpreted_return_of,
    interpreted_target, native_return, ClosureCheck, ClosureShape, Exception, ExecutionOutcome,
    DEOPT_WORD, YIELD_WORD,
};
use super::runtime_message::CodePosition;
use crate::term::atom_term_of;

verus! {

/// What of a process calls are about.
#[derive(Debug)]
pub struct Caller {
    /// The X registers.
    pub registers: Vec<u64>,
    /// The module whose code runs.
    pub module: Option<Arc<Module>>,
    pub position: Option<CodePosition>,
    /// How many calls the process may still make before it yields.
    pub reductions: u32,
    /// Whether the process has asked to yield.
    pub yields: bool,
    pub exception: Option<Exception>,
}

/// A [`Caller`] with a sequence in place of its registers.
#[verifier::ext_equal]
pub struct CallerView {
    pub registers: Seq<u64>,
    pub module: Option<Arc<Module>>,
    pub position: Option<CodePosition>,
    pub reductions: u32,
    pub yields: bool,
    pub exception: Option<Exception>,
}

impl View for Caller {
    type V = CallerView;

    open spec fn view(&self) -> CallerView {
        CallerView {
            registers: self.registers@,
            module: self.module,
            position: self.position,
            reductions: self.reductions,
            yields: self.yields,
            exception: self.exception,
        }
    }
}

/// Where the caller was when interpreted code was entered.
#[derive(Debug)]
pub struct Saved {
    pub module: Option<Arc<Module>>,
    pub position: Option<CodePosition>,
}

/// How a call goes on.
#[derive(Debug)]
pub enum CallStep {
    /// It is over.
    Return(JitReturn),
    /// The interpreter runs from the position of the caller.
    Interpret(Saved),
}

/// How the call of a closure goes on.
#[derive(Debug)]
pub enum ClosureStep {
    /// It is over.
    Return(JitReturn),
    /// The closure is entered: by the compiled code of the given key, if there
    /// is some, else by the interpreter.
    Enter { module: Arc<Module>, position: CodePosition, native: Option<JitCacheKey> },
}

/// A closure that is called: its arity, how many free variables it says to have,
/// and those that it holds.
#[derive(Debug)]
pub struct ClosureValue {
    pub arity: u8,
    pub num_free: usize,
    pub free: Vec<u64>,
}

/// A [`ClosureValue`] with a sequence in place of its vector.
#[verifier::ext_equal]
pub struct ClosureView {
    pub arity: u8,
    pub num_free: usize,
    pub free: Seq<u64>,
}

impl View for ClosureValue {
    type V = ClosureView;

    open spec fn view(&self) -> ClosureView {
        ClosureView { arity: self.arity, num_free: self.num_free, free: self.free@ }
    }
}

/// The number of the atom `badarity`.
pub const BADARITY: u32 = 7;

/// The number of the atom `badfun`.
pub const BADFUN: u32 = 8;

/// The interpreter takes over.
pub open spec fn deopt_return() -> JitReturn {
    JitReturn { status: JIT_STATUS_DEOPT, value: DEOPT_WORD }
}

/// The process yields.
pub open spec fn yield_return() -> JitReturn {
    JitReturn { status: JIT_STATUS_YIELD, value: YIELD_WORD }
}

impl CallerView {
    /// With values written to the registers from the one with the number `first`
    /// on.
    pub open spec fn loaded(self, first: nat, values: Seq<u64>) -> CallerView {
        CallerView {
            registers: Seq::new(
                self.registers.len(),
                |i: int|
                    if first <= i < first + values.len() {
                        values[i - first]
                    } else {
                        self.registers[i]
                    },
            ),
            ..self
        }
    }

    /// With an exception of class error.
    pub open spec fn failed(self, reason: Atom) -> CallerView {
        CallerView { exception: Some(error_of(reason)), ..self }
    }

    /// How interpreted code is entered: the call is charged, and when that was
    /// the last the process yields where the code starts.
    pub open spec fn entered(self, module: Arc<Module>, position: CodePosition) -> (
        CallStep,
        CallerView,
    ) {
        let left: u32 = if self.reductions == 0 {
            0
        } else {
            (self.reductions - 1) as u32
        };
        let inside = CallerView {
            module: Some(module),
            position: Some(position),
            reductions: left,
            ..self
        };
        if left == 0 {
            (CallStep::Return(yield_return()), CallerView { yields: true, ..inside })
        } else {
            (
                CallStep::Interpret(Saved { module: self.module, position: self.position }),
                inside,
            )
        }
    }

    /// What compiled code gets when interpreted code has ended, and the caller
    /// back where it was.
    pub open spec fn left(self, saved: Saved, outcome: ExecutionOutcome) -> (
        JitReturn,
        CallerView,
    ) {
        let reason = match self.exception {
            Some(exception) => Some(exception.reason as u64),
            None => None,
        };
        (
            interpreted_return_of(outcome, reason, self.registers[0]),
            CallerView {
                module: if saved.module is Some {
                    saved.module
                } else {
                    self.module
                },
                position: saved.position,
                yields: self.yields || outcome is Yielded,
                ..self
            },
        )
    }
}

/// How a call of an imported function begins.
///
/// The interpreter takes over when compiled code runs without a module, when the
/// call names no import of it, or when the import cannot be reached.
pub open spec fn interpreted_call(
    caller: CallerView,
    modules: Map<u32, ModuleVersions>,
    current: Option<(Atom, Seq<ResolvedImport>)>,
    module: u64,
    import: u64,
    arity: u64,
    args: Option<Seq<u64>>,
) -> (CallStep, CallerView) {
    match current {
        None => (CallStep::Return(deopt_return()), caller),
        Some((name, imports)) => if module > u32::MAX || import > usize::MAX || arity > 255 || (
        args is None && arity != 0) {
            (CallStep::Return(deopt_return()), caller)
        } else {
            let inside = if arity == 0 {
                caller
            } else {
                caller.loaded(0, args->Some_0.take(arity as int))
            };
            match called_import(name, imports, module, import, arity) {
                None => (CallStep::Return(deopt_return()), inside),
                Some(called) => match import_position(modules, called) {
                    None => (CallStep::Return(deopt_return()), inside),
                    Some((loaded, instruction_pointer)) => inside.entered(
                        loaded,
                        CodePosition { module: called.module, instruction_pointer },
                    ),
                },
            }
        },
    }
}

/// The key of the compiled code of a closure, if the code that it starts at
/// belongs to a function of its arity.
pub open spec fn closure_key(module: Module, instruction_pointer: usize, arity: u8) -> Option<
    JitCacheKey,
> {
    match function_before(
        module.function_table@,
        instruction_pointer,
        module.function_table@.len(),
    ) {
        Some(i) => if module.function_table@[i as int].2 == arity {
            Some(
                JitCacheKey {
                    module: module.name,
                    function: module.function_table@[i as int].1,
                    arity,
                    generation: module.generation,
                },
            )
        } else {
            None
        },
        None => None,
    }
}

/// A call of a closure that ends with an exception.
pub open spec fn failed_call(caller: CallerView, reason: Atom) -> (ClosureStep, CallerView) {
    (
        ClosureStep::Return(
            JitReturn { status: JIT_STATUS_EXCEPTION, value: atom_term_of(reason) as u64 },
        ),
        caller.failed(reason),
    )
}

/// How a call of a closure goes on once its registers are loaded; `target` is
/// the module and the label of its code, if they are there.
pub open spec fn closure_entry(
    caller: CallerView,
    arity: u8,
    target: Option<(Arc<Module>, u32)>,
) -> (ClosureStep, CallerView) {
    match target {
        None => failed_call(caller, Atom(BADFUN)),
        Some((module, label)) => match label_position(module.label_index@, label) {
            Err(_) => (ClosureStep::Return(deopt_return()), caller),
            Ok(instruction_pointer) => (
                ClosureStep::Enter {
                    module,
                    position: CodePosition { module: module.name, instruction_pointer },
                    native: closure_key(*module, instruction_pointer, arity),
                },
                caller,
            ),
        },
    }
}

/// How a call of a closure begins.
///
/// A term that is no closure, or one of another arity, raises an exception. The
/// arguments and the free variables are loaded to the registers; the interpreter
/// takes over when they are too many, or when the closure does not hold as many
/// free variables as it says.
pub open spec fn closure_call(
    caller: CallerView,
    has_module: bool,
    arity: u64,
    args: Option<Seq<u64>>,
    closure: Option<ClosureView>,
    target: Option<(Arc<Module>, u32)>,
) -> (ClosureStep, CallerView) {
    if !has_module || arity > 255 || (args is None && arity != 0) {
        (ClosureStep::Return(deopt_return()), caller)
    } else {
        match closure {
            None => failed_call(caller, Atom(BADFUN)),
            Some(closure) => if closure.arity != arity {
                failed_call(caller, Atom(BADARITY))
            } else {
                let inside = if arity == 0 {
                    caller
                } else {
                    caller.loaded(0, args->Some_0.take(arity as int))
                };
                if arity + closure.num_free > 256 {
                    (ClosureStep::Return(deopt_return()), inside)
                } else if closure.free.len() < closure.num_free {
                    (
                        ClosureStep::Return(deopt_return()),
                        inside.loaded(arity as nat, closure.free),
                    )
                } else {
                    closure_entry(
                        inside.loaded(arity as nat, closure.free.take(closure.num_free as int)),
                        closure.arity,
                        target,
                    )
                }
            },
        }
    }
}

/// The view of an optional sequence.
pub open spec fn args_view(args: Option<&Vec<u64>>) -> Option<Seq<u64>> {
    match args {
        Some(args) => Some(args@),
        None => None,
    }
}

impl Caller {
    /// There are as many X registers as code may name.
    pub open spec fn wf(&self) -> bool {
        self.registers@.len() == X_REGISTER_COUNT
    }

    fn load(&mut self, first: usize, values: &Vec<u64>, count: usize)
        requires
            first + count <= old(self).registers@.len(),
            count <= values@.len(),
        ensures
            final(self)@ == old(self)@.loaded(first as nat, values@.take(count as int)),
    {
        let ghost before = self@;
        let mut i: usize = 0;
        assert(self@.registers =~= before.loaded(first as nat, values@.take(0)).registers);
        while i < count
            invariant
                i <= count <= values@.len(),
                first + count <= self.registers@.len(),
                self@ == before.loaded(first as nat, values@.take(i as int)),
            decreases count - i,
        {
            let total: usize = self.registers.len();
            assert(first + i < total);
            self.registers.set(first + i, values[i]);
            i += 1;
            assert(self@.registers =~= before.loaded(
                first as nat,
                values@.take(i as int),
            ).registers);
        }
    }

    /// Enters interpreted code.
    pub fn enter_interpreted(&mut self, module: Arc<Module>, position: CodePosition) -> (r: CallStep)
        ensures
            (r, final(self)@) == old(self)@.entered(module, position),
    {
        let saved = Saved { module: self.module.take(), position: self.position };
        self.module = Some(module);
        self.position = Some(position);
        if charge_reduction(&mut self.reductions) {
            self.yields = true;
            return CallStep::Return(JitReturn::yield_(YIELD_WORD));
        }
        CallStep::Interpret(saved)
    }

    /// Leaves interpreted code that has ended.
    pub fn leave_interpreted(&mut self, saved: Saved, outcome: ExecutionOutcome) -> (r: JitReturn)
        requires
            old(self).wf(),
        ensures
            (r, final(self)@) == old(self)@.left(saved, outcome),
    {
        if let Some(module) = saved.module {
            self.module = Some(module);
        }
        self.position = saved.position;
        if let ExecutionOutcome::Yielded = outcome {
            self.yields = true;
        }
        let reason: Option<u64> = match &self.exception {
            Some(exception) => Some(exception.reason as u64),
            None => None,
        };
        interpreted_return(outcome, reason, self.registers[0])
    }

    /// Begins a call of an imported function.
    pub fn begin_interpreted_call(
        &mut self,
        registry: &ModuleRegistry,
        current: Option<&Module>,
        module: u64,
        import: u64,
        arity: u64,
        args: Option<&Vec<u64>>,
    ) -> (r: CallStep)
        requires
            old(self).wf(),
            args matches Some(args) ==> arity <= args@.len(),
        ensures
            (r, final(self)@) == interpreted_call(
                old(self)@,
                registry@,
                match current {
                    Some(current) => Some((current.name, current.resolved_imports@)),
                    None => None,
                },
                module,
                import,
                arity,
                args_view(args),
            ),
    {
        let current = match current {
            Some(current) => current,
            None => {
                return CallStep::Return(JitReturn::deopt(DEOPT_WORD));
            },
        };
        if module > 0xffff_ffff || import > usize::MAX as u64 || arity > 255 {
            return CallStep::Return(JitReturn::deopt(DEOPT_WORD));
        }
        match args {
            Some(args) => {
                if arity > 0 {
                    self.load(0, args, arity as usize);
                }
            },
            None => {
                if arity > 0 {
                    return CallStep::Return(JitReturn::deopt(DEOPT_WORD));
                }
            },
        }
        match interpreted_target(registry, current, module, import, arity) {
            None => CallStep::Return(JitReturn::deopt(DEOPT_WORD)),
            Some(target) => {
                let called = current.resolved_imports[import as usize].module;
                let position = CodePosition {
                    module: called,
                    instruction_pointer: target.instruction_pointer,
                };
                self.enter_interpreted(target.module, position)
            },
        }
    }

    fn fail_call(&mut self, reason: Atom) -> (r: ClosureStep)
        ensures
            (r, final(self)@) == failed_call(old(self)@, reason),
    {
        let (exception, returned) = exception_return(reason);
        self.exception = Some(exception);
        ClosureStep::Return(returned)
    }

    fn closure_step(&mut self, arity: u8, target: Option<(Arc<Module>, u32)>) -> (r: ClosureStep)
        ensures
            (r, final(self)@) == closure_entry(old(self)@, arity, target),
    {
        match target {
            None => self.fail_call(Atom::badfun()),
            Some((module, label)) => match module.label_ip(label) {
                Err(_) => ClosureStep::Return(JitReturn::deopt(DEOPT_WORD)),
                Ok(instruction_pointer) => {
                    let native = match compiled_closure_function(
                        &module,
                        instruction_pointer,
                        arity,
                    ) {
                        Some(function) => Some(
                            JitCacheKey {
                                module: module.name,
                                function,
                                arity,
                                generation: module.generation,
                            },
                        ),
                        None => None,
                    };
                    let position = CodePosition { module: module.name, instruction_pointer };
                    ClosureStep::Enter { module, position, native }
                },
            },
        }
    }

    /// Begins a call of a closure; `target` is the module and the label of its
    /// code, if they are there.
    pub fn begin_closure_call(
        &mut self,
        has_module: bool,
        arity: u64,
        args: Option<&Vec<u64>>,
        closure: Option<ClosureValue>,
        target: Option<(Arc<Module>, u32)>,
    ) -> (r: ClosureStep)
        requires
            old(self).wf(),
            args matches Some(args) ==> arity <= args@.len(),
        ensures
            (r, final(self)@) == closure_call(
                old(self)@,
                has_module,
                arity,
                args_view(args),
                match closure {
                    Some(closure) => Some(closure@),
                    None => None,
                },
                target,
            ),
    {
        if !has_module || arity > 255 || (args.is_none() && arity != 0) {
            return ClosureStep::Return(JitReturn::deopt(DEOPT_WORD));
        }
        let closure = match closure {
            Some(closure) => closure,
            None => {
                return self.fail_call(Atom::badfun());
            },
        };
        let shape = ClosureShape { arity: closure.arity, num_free: closure.num_free };
        let check = closure_check(Some(shape), arity);
        if let ClosureCheck::BadArity = check {
            return self.fail_call(Atom::badarity());
        }
        if let Some(args) = args {
            if arity > 0 {
                self.load(0, args, arity as usize);
            }
        }
        if let ClosureCheck::Deopt = check {
            return ClosureStep::Return(JitReturn::deopt(DEOPT_WORD));
        }
        let held: usize = closure.free.len();
        if held < closure.num_free {
            self.load(arity as usize, &closure.free, held);
            assert(closure.free@.take(held as int) =~= closure.free@);
            return ClosureStep::Return(JitReturn::deopt(DEOPT_WORD));
        }
        self.load(arity as usize, &closure.free, closure.num_free);
        self.closure_step(closure.arity, target)
    }

    /// Enters the compiled code of a closure.
    pub fn enter_native(&mut self, position: CodePosition)
        ensures
            final(self)@ == (CallerView { position: Some(position), yields: false, ..old(self)@ }),
    {
        self.position = Some(position);
        self.yields = false;
    }

    /// Leaves compiled code that has returned.
    pub fn leave_native(&mut self, returned: JitReturn) -> (r: JitReturn)
        ensures
            r == if old(self)@.yields {
                yield_return()
            } else {
                returned
            },
            final(self)@ == (CallerView { yields: false, ..old(self)@ }),
    {
        let yields: bool = self.yields;
        self.yields = false;
        native_return(returned, yields)
    }
}

/// A call of interpreted code that ends leaves the caller where it was, with its
/// registers as the code left them.
pub proof fn law_calls_come_back(
    caller: CallerView,
    module: Arc<Module>,
    position: CodePosition,
    outcome: ExecutionOutcome,
)
    requires
        caller.module is Some,
        caller.reductions > 1,
    ensures
        ({
            let (step, inside) = caller.entered(module, position);
            let (_, back) = inside.left(step->Interpret_0, outcome);
            &&& step is Interpret
            &&& inside.module == Some(module) && inside.position == Some(position)
            &&& back.module == caller.module && back.position == caller.position
            &&& back.registers == caller.registers
            &&& back.reductions == caller.reductions - 1
        }),
{
}

/// A process that has no more than one call left yields at the code that it
/// called, so that it goes on there.
pub proof fn law_an_exhausted_call_yields_at_its_callee(
    caller: CallerView,
    module: Arc<Module>,
    position: CodePosition,
)
    requires
        caller.reductions <= 1,
    ensures
        ({
            let (step, inside) = caller.entered(module, position);
            &&& step == CallStep::Return(yield_return())
            &&& inside.position == Some(position) && inside.yields && inside.reductions == 0
        }),
{
}

/// A call of a closure of the arity loads the arguments to the first registers and the free
/// variables to those behind them, leaves the others alone, and enters the code at the label of
/// the closure.
pub proof fn law_closure_gets_its_arguments_and_free_variables(
    caller: CallerView,
    args: Seq<u64>,
    closure: ClosureView,
    module: Arc<Module>,
    label: u32,
    i: int,
)
    requires
        args.len() == closure.arity,
        closure.free.len() == closure.num_free,
        args.len() + closure.free.len() <= 256 <= caller.registers.len(),
        module.label_index@.contains_key(label),
        0 <= i < caller.registers.len(),
    ensures
        ({
            let (step, inside) = closure_call(
                caller,
                true,
                closure.arity as u64,
                Some(args),
                Some(closure),
                Some((module, label)),
            );
            &&& step matches ClosureStep::Enter { module: entered, position, .. } && entered == module
                && position.module == module.name && position.instruction_pointer
                == module.label_index@[label]
            &&& inside.registers.len() == caller.registers.len()
            &&& inside.registers[i] == if i < args.len() {
                args[i]
            } else if i < args.len() + closure.free.len() {
                closure.free[i - args.len()]
            } else {
                caller.registers[i]
            }
            &&& inside.exception == caller.exception
            &&& inside.reductions == caller.reductions
        }),
{
    assert(args.take(closure.arity as int) =~= args);
    assert(closure.free.take(closure.num_free as int) =~= closure.free);
}

/// Calling what is no closure raises the atom for a bad function, the ninth, and calling a
/// closure with another number of arguments the atom for a bad arity, the eighth; both are
/// errors, whose class is the second atom, and neither touches a register.
pub proof fn law_bad_calls_raise_errors(
    caller: CallerView,
    arity: u64,
    args: Seq<u64>,
    closure: ClosureView,
    target: Option<(Arc<Module>, u32)>,
)
    requires
        arity <= 255,
        closure.arity != arity,
    ensures
        ({
            let (step, inside) = closure_call(caller, true, arity, Some(args), None, target);
            &&& step matches ClosureStep::Return(returned) && returned.status == 1 && returned.value
                == 8 * 8 + 1
            &&& inside.exception matches Some(raised) && raised.reason == 8 * 8 + 1 && raised.class
                == 8 * 1 + 1 && raised.stacktrace == 3
            &&& inside.registers == caller.registers
        }),
        ({
            let (step, inside) = closure_call(
                caller,
                true,
                arity,
                Some(args),
                Some(closure),
                target,
            );
            &&& step matches ClosureStep::Return(returned) && returned.status == 1 && returned.value
                == 8 * 7 + 1
            &&& inside.exception matches Some(raised) && raised.reason == 8 * 7 + 1 && raised.class
                == 8 * 1 + 1 && raised.stacktrace == 3
            &&& inside.registers == caller.registers
        }),
{
}

/// A call of an import loads its arguments to the first registers, and enters the function where
/// its loaded module exports it.
pub proof fn law_import_gets_its_arguments(
    caller: CallerView,
    modules: Map<u32, ModuleVersions>,
    name: Atom,
    imports: Seq<ResolvedImport>,
    import: u64,
    args: Seq<u64>,
    i: int,
)
    requires
        import < imports.len(),
        import <= usize::MAX,
        args.len() == imports[import as int].arity,
        imports[import as int].target is Code || imports[import as int].target is Deferred,
        import_position(modules, imports[import as int]) is Some,
        caller.reductions > 1,
        args.len() <= 256 <= caller.registers.len(),
        0 <= i < caller.registers.len(),
    ensures
        ({
            let called = imports[import as int];
            let (step, inside) = interpreted_call(
                caller,
                modules,
                Some((name, imports)),
                name.0 as u64,
                import,
                called.arity as u64,
                Some(args),
            );
            let (loaded, at) = import_position(modules, called)->Some_0;
            &&& step matches CallStep::Interpret(saved) && saved.module == caller.module
                && saved.position == caller.position
            &&& inside.module == Some(loaded)
            &&& inside.position matches Some(position) && position.module == called.module
                && position.instruction_pointer == at
            &&& inside.reductions == caller.reductions - 1
            &&& inside.registers[i] == if i < args.len() {
                args[i]
            } else {
                caller.registers[i]
            }
        }),
{
    assert(args.take(args.len() as int) =~= args);
}

} // verus!
