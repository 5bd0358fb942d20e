//! Compiling a hot function.

use vstd::prelude::*;
use crate::atom::Atom;
use crate::loader::decode::instruction::{instruction_views, Instruction, InstructionView};
use super::aot::is_skippable;
use super::compiler::{
    compile_outcome, compiled, next_id, no_metadata, FunctionIr, FunctionView, JitCompiler,
};
use super::error::{JitError, JitFault};
use super::exceptions::CompiledFrameInfo;
use super::profiler::{
    fresh_profile, JitProfiler, MfaKey, ProfilerView, STATE_COMPILED, STATE_UNSUPPORTED,
};

verus! {

/// Under what compiled code is kept: a function of one generation of a module.
#[derive(Debug, Clone, Copy, PartialEq, Eq, Hash, Structural)]
pub struct JitCacheKey {
    pub module: Atom,
    pub function: Atom,
    pub arity: u8,
    pub generation: u64,
}

/// A function that should be compiled.
#[derive(Debug)]
pub struct CompilationRequest {
    module: Atom,
    function: Atom,
    arity: u8,
    generation: u64,
    instructions: Vec<Instruction>,
}

/// A [`CompilationRequest`] with a sequence in place of its instructions.
#[verifier::ext_equal]
pub struct RequestView {
    pub key: JitCacheKey,
    pub instructions: Seq<InstructionView>,
}

impl View for CompilationRequest {
    type V = RequestView;

    closed spec fn view(&self) -> RequestView {
        RequestView {
            key: JitCacheKey {
                module: self.module,
                function: self.function,
                arity: self.arity,
                generation: self.generation,
            },
            instructions: instruction_views(self.instructions@),
        }
    }
}

impl RequestView {
    /// The function, of whatever generation.
    pub open spec fn mfa(self) -> MfaKey {
        self.key.mfa()
    }

    /// What compiling the function answers.
    pub open spec fn compiled(self, id: u64) -> Result<FunctionView, JitFault> {
        compiled(
            self.instructions,
            CompiledFrameInfo {
                module: self.key.module,
                function: self.key.function,
                arity: self.key.arity,
            },
            None,
            no_metadata(),
            id,
        )
    }
}

impl CompilationRequest {
    /// A request to compile a function of one generation of its module.
    pub fn new(
        module: Atom,
        function: Atom,
        arity: u8,
        generation: u64,
        instructions: Vec<Instruction>,
    ) -> (r: CompilationRequest)
        ensures
            r@ == (RequestView {
                key: JitCacheKey { module, function, arity, generation },
                instructions: instruction_views(instructions@),
            }),
    {
        CompilationRequest { module, function, arity, generation, instructions }
    }
}

/// What a profiler knows after an attempt to compile a function: one that was
/// compiled and one that cannot be are settled, any other may become hot again.
pub open spec fn after_compilation(
    profiler: ProfilerView,
    key: MfaKey,
    fault: Option<JitFault>,
) -> ProfilerView {
    match fault {
        None => profiler.set_state(key, STATE_COMPILED),
        Some(e) => if is_skippable(e) {
            profiler.set_state(key, STATE_UNSUPPORTED)
        } else {
            profiler.with(key, fresh_profile())
        },
    }
}

/// The fault of a compilation, if it has one.
pub open spec fn fault_of(result: Result<FunctionView, JitFault>) -> Option<JitFault> {
    match result {
        Ok(_) => None,
        Err(e) => Some(e),
    }
}

impl JitCacheKey {
    /// The function, of whatever generation.
    pub open spec fn mfa(self) -> MfaKey {
        MfaKey { module: self.module, function: self.function, arity: self.arity }
    }

    /// Tells the profiler what became of a compilation: `error` is why there is no
    /// code. Where there is, it is kept before this is told.
    pub fn settle(&self, profiler: &mut JitProfiler, error: Option<&JitError>)
        ensures
            final(profiler)@ == after_compilation(
                old(profiler)@,
                self.mfa(),
                match error {
                    None => None,
                    Some(e) => Some(e@),
                },
            ),
    {
        match error {
            None => {
                profiler.mark_compiled(self.module, self.function, self.arity);
            },
            Some(JitError::UnsupportedOpcode { .. })
            | Some(JitError::UnsupportedOperand { .. })
            | Some(JitError::UnknownLabel { .. }) => {
                profiler.mark_unsupported(self.module, self.function, self.arity);
            },
            Some(JitError::CraneliftError(_)) | Some(JitError::EmptyFunction) => {
                profiler.reset_counter(self.module, self.function, self.arity);
            },
        }
    }
}

/// The compilation of a function.
#[derive(Debug)]
pub struct CompilationJob {
    request: CompilationRequest,
}

impl CompilationJob {
    /// What is asked for.
    pub closed spec fn request(&self) -> RequestView {
        self.request@
    }

    /// The job of a request.
    pub fn new(request: CompilationRequest) -> (r: CompilationJob)
        ensures
            r.request() == request@,
    {
        CompilationJob { request }
    }

    /// Compiles the function. Answers the key to keep its code under, and the code.
    pub fn lower(self, compiler: &mut JitCompiler) -> (r: (
        JitCacheKey,
        Result<FunctionIr, JitError>,
    ))
        requires
            self.request().instructions.len() < usize::MAX,
        ensures
            r.0 == self.request().key,
            compile_outcome(r.1) == self.request().compiled(old(compiler).id()),
            final(compiler).id() == next_id(self.request().instructions, old(compiler).id()),
    {
        let request = self.request;
        let key = JitCacheKey {
            module: request.module,
            function: request.function,
            arity: request.arity,
            generation: request.generation,
        };
        let code = compiler.compile(
            request.instructions.as_slice(),
            request.module,
            request.function,
            request.arity,
        );
        (key, code)
    }

    /// Compiles the function and tells the profiler what became of it. Answers
    /// the code, with the key to keep it under.
    pub fn run(self, compiler: &mut JitCompiler, profiler: &mut JitProfiler) -> (r: Option<
        (JitCacheKey, FunctionIr),
    >)
        requires
            self.request().instructions.len() < usize::MAX,
        ensures
            match self.request().compiled(old(compiler).id()) {
                Ok(function) => r matches Some(kept) && kept.0 == self.request().key && kept.1@
                    == function,
                Err(_) => r is None,
            },
            final(profiler)@ == after_compilation(
                old(profiler)@,
                self.request().mfa(),
                fault_of(self.request().compiled(old(compiler).id())),
            ),
            final(compiler).id() == next_id(self.request().instructions, old(compiler).id()),
    {
        let (key, code) = self.lower(compiler);
        match code {
            Ok(code) => {
                key.settle(profiler, None);
                Some((key, code))
            },
            Err(error) => {
                key.settle(profiler, Some(&error));
                None
            },
        }
    }
}

/// Once a function was compiled or found to be one that cannot be, no call asks
/// for its compilation again.
pub proof fn law_compiled_functions_are_settled(
    profiler: ProfilerView,
    key: MfaKey,
    fault: Option<JitFault>,
    calls: Seq<MfaKey>,
)
    requires
        fault matches Some(e) ==> is_skippable(e),
    ensures
        super::profiler::after_calls(
            after_compilation(profiler, key, fault),
            calls,
        ).record(key).0 is Continue,
{
    super::profiler::law_settled_functions_are_left_alone(
        after_compilation(profiler, key, fault),
        key,
        calls,
    );
}

} // verus!
