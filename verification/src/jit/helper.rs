//! The runtime functions that compiled code calls.

use vstd::prelude::*;

verus! {

/// The type of a value in compiled code.
#[derive(Debug, Clone, Copy, PartialEq, Eq, Structural)]
pub enum IrType {
    I8,
    I64,
    F64,
}

/// A runtime function that compiled code calls.
#[derive(Debug, Clone, Copy, PartialEq, Eq, Structural)]
pub enum Helper {
    AllocTuple,
    AllocCons,
    AllocClosure,
    BoxFloat,
    CallClosure,
    ChargeReduction,
    CallInterpreted,
    ExceptionClass,
    ExceptionReason,
    ExceptionTrace,
    ClearException,
    AddCompiledFrame,
    BsStartMatch,
    BsGetInteger,
    BsGetBinary,
    BsTestTail,
    BsTestUnit,
    BsGetUtf8,
    BsGetUtf16,
    BsGetUtf32,
    BsInit,
    BsPutInteger,
    BsPutBinary,
    BsPutUtf8,
    BsPutUtf16,
    BsPutUtf32,
    BsFinish,
    MapNew,
    MapUpdate,
    MapGet,
    MapHasKey,
    SendMessage,
    ReceivePeek,
    ReceiveNext,
    ReceiveAccept,
    ReceiveWait,
    ReceiveWaitTimeout,
    ReceiveTimeout,
}

/// How compiled code calls a runtime function.
#[derive(Debug)]
pub struct HelperDeclaration {
    pub helper: Helper,
    /// The name under which the function is linked.
    pub symbol: &'static str,
    pub params: Vec<IrType>,
    pub results: Vec<IrType>,
}

/// A [`HelperDeclaration`] with sequences in place of its containers.
#[verifier::ext_equal]
pub struct DeclarationView {
    pub helper: Helper,
    pub symbol: Seq<char>,
    pub params: Seq<IrType>,
    pub results: Seq<IrType>,
}

impl View for HelperDeclaration {
    type V = DeclarationView;

    open spec fn view(&self) -> DeclarationView {
        DeclarationView {
            helper: self.helper,
            symbol: self.symbol@,
            params: self.params@,
            results: self.results@,
        }
    }
}

/// The views of declarations.
pub open spec fn declaration_views(all: Seq<HelperDeclaration>) -> Seq<DeclarationView> {
    Seq::new(all.len(), |i: int| all[i]@)
}

/// How many parameters of word size a function has.
pub open spec fn words(n: nat) -> Seq<IrType> {
    Seq::new(n, |i: int| IrType::I64)
}

/// A function of `n` words that returns nothing.
pub open spec fn void_helper(helper: Helper, symbol: Seq<char>, n: nat) -> DeclarationView {
    DeclarationView { helper, symbol, params: words(n), results: Seq::empty() }
}

/// A function of `n` words that returns a value of the given type.
pub open spec fn value_helper(
    helper: Helper,
    symbol: Seq<char>,
    n: nat,
    result: IrType,
) -> DeclarationView {
    DeclarationView { helper, symbol, params: words(n), results: seq![result] }
}

/// A function of `n` words that returns a status and a word.
pub open spec fn status_helper(helper: Helper, symbol: Seq<char>, n: nat) -> DeclarationView {
    DeclarationView { helper, symbol, params: words(n), results: seq![IrType::I8, IrType::I64] }
}

fn word_params(n: usize) -> (r: Vec<IrType>)
    ensures
        r@ == words(n as nat),
{
    let mut params: Vec<IrType> = Vec::new();
    let mut i: usize = 0;
    while i < n
        invariant
            i <= n,
            params@ == words(i as nat),
        decreases n - i,
    {
        params.push(IrType::I64);
        i += 1;
        assert(params@ =~= words(i as nat));
    }
    params
}

fn declare_multi_return_helper(
    helper: Helper,
    symbol: &'static str,
    params: Vec<IrType>,
    results: Vec<IrType>,
) -> (r: HelperDeclaration)
    ensures
        r@ == (DeclarationView { helper, symbol: symbol@, params: params@, results: results@ }),
{
    HelperDeclaration { helper, symbol, params, results }
}

fn declare_void_helper(helper: Helper, symbol: &'static str, n: usize) -> (r: HelperDeclaration)
    ensures
        r@ == void_helper(helper, symbol@, n as nat),
{
    declare_multi_return_helper(helper, symbol, word_params(n), Vec::new())
}

fn declare_helper(helper: Helper, symbol: &'static str, n: usize, result: IrType) -> (r:
    HelperDeclaration)
    ensures
        r@ == value_helper(helper, symbol@, n as nat, result),
{
    let results: Vec<IrType> = vec![result];
    assert(results@ =~= seq![result]);
    declare_multi_return_helper(helper, symbol, word_params(n), results)
}

fn declare_status_helper(helper: Helper, symbol: &'static str, n: usize) -> (r: HelperDeclaration)
    ensures
        r@ == status_helper(helper, symbol@, n as nat),
{
    let results: Vec<IrType> = vec![IrType::I8, IrType::I64];
    assert(results@ =~= seq![IrType::I8, IrType::I64]);
    declare_multi_return_helper(helper, symbol, word_params(n), results)
}

fn declare_unary_helper(helper: Helper, symbol: &'static str) -> (r: HelperDeclaration)
    ensures
        r@ == value_helper(helper, symbol@, 1, IrType::I64),
{
    declare_helper(helper, symbol, 1, IrType::I64)
}

fn declare_add_frame_helper() -> (r: HelperDeclaration)
    ensures
        r@ == void_helper(Helper::AddCompiledFrame, "beamr_jit_add_compiled_frame"@, 4),
{
    declare_void_helper(Helper::AddCompiledFrame, "beamr_jit_add_compiled_frame", 4)
}

fn declare_box_float_helper() -> (r: HelperDeclaration)
    ensures
        r@ == (DeclarationView {
            helper: Helper::BoxFloat,
            symbol: "beamr_jit_box_float"@,
            params: seq![IrType::I64, IrType::F64],
            results: seq![IrType::I64],
        }),
{
    let params: Vec<IrType> = vec![IrType::I64, IrType::F64];
    let results: Vec<IrType> = vec![IrType::I64];
    assert(params@ =~= seq![IrType::I64, IrType::F64]);
    assert(results@ =~= seq![IrType::I64]);
    declare_multi_return_helper(Helper::BoxFloat, "beamr_jit_box_float", params, results)
}

/// The functions for sending and receiving messages.
pub open spec fn message_helpers() -> Seq<DeclarationView> {
    seq![
        value_helper(Helper::SendMessage, "beamr_jit_send_message"@, 3, IrType::I64),
        status_helper(Helper::ReceivePeek, "beamr_jit_receive_peek"@, 1),
        void_helper(Helper::ReceiveNext, "beamr_jit_receive_next"@, 1),
        void_helper(Helper::ReceiveAccept, "beamr_jit_receive_accept"@, 1),
        value_helper(Helper::ReceiveWait, "beamr_jit_receive_wait"@, 1, IrType::I8),
        value_helper(Helper::ReceiveWaitTimeout, "beamr_jit_receive_wait_timeout"@, 2, IrType::I8),
        void_helper(Helper::ReceiveTimeout, "beamr_jit_receive_timeout"@, 1),
    ]
}

/// Declares the functions for sending and receiving messages.
pub fn declare_message_helpers() -> (r: Vec<HelperDeclaration>)
    ensures
        declaration_views(r@) == message_helpers(),
{
    let all: Vec<HelperDeclaration> = vec![
        declare_helper(Helper::SendMessage, "beamr_jit_send_message", 3, IrType::I64),
        declare_status_helper(Helper::ReceivePeek, "beamr_jit_receive_peek", 1),
        declare_void_helper(Helper::ReceiveNext, "beamr_jit_receive_next", 1),
        declare_void_helper(Helper::ReceiveAccept, "beamr_jit_receive_accept", 1),
        declare_helper(Helper::ReceiveWait, "beamr_jit_receive_wait", 1, IrType::I8),
        declare_helper(Helper::ReceiveWaitTimeout, "beamr_jit_receive_wait_timeout", 2, IrType::I8),
        declare_void_helper(Helper::ReceiveTimeout, "beamr_jit_receive_timeout", 1),
    ];
    assert(declaration_views(all@) =~= message_helpers());
    all
}

/// The functions on maps.
pub open spec fn map_helpers() -> Seq<DeclarationView> {
    seq![
        value_helper(Helper::MapNew, "beamr_jit_map_new"@, 4, IrType::I64),
        value_helper(Helper::MapUpdate, "beamr_jit_map_update"@, 4, IrType::I64),
        status_helper(Helper::MapGet, "beamr_jit_map_get"@, 2),
        value_helper(Helper::MapHasKey, "beamr_jit_map_has_key"@, 2, IrType::I8),
    ]
}

/// Declares the functions on maps.
pub fn declare_map_helpers() -> (r: Vec<HelperDeclaration>)
    ensures
        declaration_views(r@) == map_helpers(),
{
    let all: Vec<HelperDeclaration> = vec![
        declare_helper(Helper::MapNew, "beamr_jit_map_new", 4, IrType::I64),
        declare_helper(Helper::MapUpdate, "beamr_jit_map_update", 4, IrType::I64),
        declare_status_helper(Helper::MapGet, "beamr_jit_map_get", 2),
        declare_helper(Helper::MapHasKey, "beamr_jit_map_has_key", 2, IrType::I8),
    ];
    assert(declaration_views(all@) =~= map_helpers());
    all
}

/// The functions that match and build binaries.
pub open spec fn binary_helpers() -> Seq<DeclarationView> {
    seq![
        value_helper(Helper::BsStartMatch, "beamr_jit_bs_start_match"@, 2, IrType::I64),
        value_helper(Helper::BsGetInteger, "beamr_jit_bs_get_integer"@, 3, IrType::I64),
        value_helper(Helper::BsGetBinary, "beamr_jit_bs_get_binary"@, 3, IrType::I64),
        value_helper(Helper::BsTestTail, "beamr_jit_bs_test_tail"@, 2, IrType::I8),
        value_helper(Helper::BsTestUnit, "beamr_jit_bs_test_unit"@, 2, IrType::I8),
        value_helper(Helper::BsGetUtf8, "beamr_jit_bs_get_utf8"@, 2, IrType::I64),
        value_helper(Helper::BsGetUtf16, "beamr_jit_bs_get_utf16"@, 2, IrType::I64),
        value_helper(Helper::BsGetUtf32, "beamr_jit_bs_get_utf32"@, 2, IrType::I64),
        value_helper(Helper::BsInit, "beamr_jit_bs_init"@, 2, IrType::I64),
        value_helper(Helper::BsPutInteger, "beamr_jit_bs_put_integer"@, 5, IrType::I8),
        value_helper(Helper::BsPutBinary, "beamr_jit_bs_put_binary"@, 3, IrType::I8),
        value_helper(Helper::BsPutUtf8, "beamr_jit_bs_put_utf8"@, 3, IrType::I8),
        value_helper(Helper::BsPutUtf16, "beamr_jit_bs_put_utf16"@, 4, IrType::I8),
        value_helper(Helper::BsPutUtf32, "beamr_jit_bs_put_utf32"@, 4, IrType::I8),
        value_helper(Helper::BsFinish, "beamr_jit_bs_finish"@, 2, IrType::I64),
    ]
}

/// Declares the functions that match and build binaries.
pub fn declare_binary_helpers() -> (r: Vec<HelperDeclaration>)
    ensures
        declaration_views(r@) == binary_helpers(),
{
    let all: Vec<HelperDeclaration> = vec![
        declare_helper(Helper::BsStartMatch, "beamr_jit_bs_start_match", 2, IrType::I64),
        declare_helper(Helper::BsGetInteger, "beamr_jit_bs_get_integer", 3, IrType::I64),
        declare_helper(Helper::BsGetBinary, "beamr_jit_bs_get_binary", 3, IrType::I64),
        declare_helper(Helper::BsTestTail, "beamr_jit_bs_test_tail", 2, IrType::I8),
        declare_helper(Helper::BsTestUnit, "beamr_jit_bs_test_unit", 2, IrType::I8),
        declare_helper(Helper::BsGetUtf8, "beamr_jit_bs_get_utf8", 2, IrType::I64),
        declare_helper(Helper::BsGetUtf16, "beamr_jit_bs_get_utf16", 2, IrType::I64),
        declare_helper(Helper::BsGetUtf32, "beamr_jit_bs_get_utf32", 2, IrType::I64),
        declare_helper(Helper::BsInit, "beamr_jit_bs_init", 2, IrType::I64),
        declare_helper(Helper::BsPutInteger, "beamr_jit_bs_put_integer", 5, IrType::I8),
        declare_helper(Helper::BsPutBinary, "beamr_jit_bs_put_binary", 3, IrType::I8),
        declare_helper(Helper::BsPutUtf8, "beamr_jit_bs_put_utf8", 3, IrType::I8),
        declare_helper(Helper::BsPutUtf16, "beamr_jit_bs_put_utf16", 4, IrType::I8),
        declare_helper(Helper::BsPutUtf32, "beamr_jit_bs_put_utf32", 4, IrType::I8),
        declare_helper(Helper::BsFinish, "beamr_jit_bs_finish", 2, IrType::I64),
    ];
    assert(declaration_views(all@) =~= binary_helpers());
    all
}

/// The functions on exceptions.
pub open spec fn exception_helpers() -> Seq<DeclarationView> {
    seq![
        value_helper(Helper::ExceptionClass, "beamr_jit_exception_class"@, 1, IrType::I64),
        value_helper(Helper::ExceptionReason, "beamr_jit_exception_reason"@, 1, IrType::I64),
        value_helper(Helper::ExceptionTrace, "beamr_jit_exception_trace"@, 1, IrType::I64),
        void_helper(Helper::ClearException, "beamr_jit_clear_exception"@, 1),
        void_helper(Helper::AddCompiledFrame, "beamr_jit_add_compiled_frame"@, 4),
    ]
}

/// Declares the functions on exceptions.
pub fn declare_exception_helpers() -> (r: Vec<HelperDeclaration>)
    ensures
        declaration_views(r@) == exception_helpers(),
{
    let all: Vec<HelperDeclaration> = vec![
        declare_unary_helper(Helper::ExceptionClass, "beamr_jit_exception_class"),
        declare_unary_helper(Helper::ExceptionReason, "beamr_jit_exception_reason"),
        declare_unary_helper(Helper::ExceptionTrace, "beamr_jit_exception_trace"),
        declare_void_helper(Helper::ClearException, "beamr_jit_clear_exception", 1),
        declare_add_frame_helper(),
    ];
    assert(declaration_views(all@) =~= exception_helpers());
    all
}

/// The functions that allocate, call and charge.
pub open spec fn core_helpers() -> Seq<DeclarationView> {
    seq![
        value_helper(Helper::AllocTuple, "beamr_jit_alloc_tuple"@, 2, IrType::I64),
        value_helper(Helper::AllocCons, "beamr_jit_alloc_cons"@, 1, IrType::I64),
        value_helper(Helper::AllocClosure, "beamr_jit_alloc_closure"@, 2, IrType::I64),
        DeclarationView {
            helper: Helper::BoxFloat,
            symbol: "beamr_jit_box_float"@,
            params: seq![IrType::I64, IrType::F64],
            results: seq![IrType::I64],
        },
        status_helper(Helper::CallClosure, "beamr_jit_call_closure"@, 4),
        value_helper(Helper::ChargeReduction, "beamr_jit_charge_reduction"@, 1, IrType::I64),
        status_helper(Helper::CallInterpreted, "beamr_jit_call_interpreted"@, 5),
    ]
}

/// Declares the functions that allocate, call and charge.
pub fn declare_core_helpers() -> (r: Vec<HelperDeclaration>)
    ensures
        declaration_views(r@) == core_helpers(),
{
    let all: Vec<HelperDeclaration> = vec![
        declare_helper(Helper::AllocTuple, "beamr_jit_alloc_tuple", 2, IrType::I64),
        declare_helper(Helper::AllocCons, "beamr_jit_alloc_cons", 1, IrType::I64),
        declare_helper(Helper::AllocClosure, "beamr_jit_alloc_closure", 2, IrType::I64),
        declare_box_float_helper(),
        declare_status_helper(Helper::CallClosure, "beamr_jit_call_closure", 4),
        declare_helper(Helper::ChargeReduction, "beamr_jit_charge_reduction", 1, IrType::I64),
        declare_status_helper(Helper::CallInterpreted, "beamr_jit_call_interpreted", 5),
    ];
    assert(declaration_views(all@) =~= core_helpers());
    all
}

/// The functions of code that returns one word.
pub open spec fn plain_helpers() -> Seq<DeclarationView> {
    seq![
        value_helper(Helper::AllocTuple, "beamr_jit_alloc_tuple"@, 2, IrType::I64),
        value_helper(Helper::AllocCons, "beamr_jit_alloc_cons"@, 1, IrType::I64),
        value_helper(Helper::ChargeReduction, "beamr_jit_charge_reduction"@, 1, IrType::I64),
        value_helper(Helper::CallInterpreted, "beamr_jit_call_interpreted"@, 5, IrType::I64),
    ]
}

/// Declares the functions of code that returns one word.
pub fn declare_plain_helpers() -> (r: Vec<HelperDeclaration>)
    ensures
        declaration_views(r@) == plain_helpers(),
{
    let all: Vec<HelperDeclaration> = vec![
        declare_helper(Helper::AllocTuple, "beamr_jit_alloc_tuple", 2, IrType::I64),
        declare_helper(Helper::AllocCons, "beamr_jit_alloc_cons", 1, IrType::I64),
        declare_helper(Helper::ChargeReduction, "beamr_jit_charge_reduction", 1, IrType::I64),
        declare_helper(Helper::CallInterpreted, "beamr_jit_call_interpreted", 5, IrType::I64),
    ];
    assert(declaration_views(all@) =~= plain_helpers());
    all
}

/// The functions of code that returns a status and a word.
pub open spec fn compile_helpers() -> Seq<DeclarationView> {
    core_helpers() + exception_helpers() + binary_helpers() + map_helpers() + message_helpers()
}

/// Declares every function that compiled code may call, each once.
pub fn declare_compile_helpers() -> (r: Vec<HelperDeclaration>)
    ensures
        declaration_views(r@) == compile_helpers(),
{
    let mut all = declare_core_helpers();
    let mut more = declare_exception_helpers();
    let ghost a = all@;
    let ghost b = more@;
    all.append(&mut more);
    assert(declaration_views(all@) =~= declaration_views(a) + declaration_views(b));
    let mut more = declare_binary_helpers();
    let ghost a = all@;
    let ghost b = more@;
    all.append(&mut more);
    assert(declaration_views(all@) =~= declaration_views(a) + declaration_views(b));
    let mut more = declare_map_helpers();
    let ghost a = all@;
    let ghost b = more@;
    all.append(&mut more);
    assert(declaration_views(all@) =~= declaration_views(a) + declaration_views(b));
    let mut more = declare_message_helpers();
    let ghost a = all@;
    let ghost b = more@;
    all.append(&mut more);
    assert(declaration_views(all@) =~= declaration_views(a) + declaration_views(b));
    all
}

/// The name, the parameters and the results of a function that compiled code calls.
pub open spec fn described(helper: Helper) -> (Seq<char>, Seq<IrType>, Seq<IrType>) {
    match helper {
        Helper::AllocTuple => (
            "beamr_jit_alloc_tuple"@,
            seq![IrType::I64, IrType::I64],
            seq![IrType::I64],
        ),
        Helper::AllocCons => (
            "beamr_jit_alloc_cons"@,
            seq![IrType::I64],
            seq![IrType::I64],
        ),
        Helper::AllocClosure => (
            "beamr_jit_alloc_closure"@,
            seq![IrType::I64, IrType::I64],
            seq![IrType::I64],
        ),
        Helper::BoxFloat => (
            "beamr_jit_box_float"@,
            seq![IrType::I64, IrType::F64],
            seq![IrType::I64],
        ),
        Helper::CallClosure => (
            "beamr_jit_call_closure"@,
            seq![IrType::I64, IrType::I64, IrType::I64, IrType::I64],
            seq![IrType::I8, IrType::I64],
        ),
        Helper::ChargeReduction => (
            "beamr_jit_charge_reduction"@,
            seq![IrType::I64],
            seq![IrType::I64],
        ),
        Helper::CallInterpreted => (
            "beamr_jit_call_interpreted"@,
            seq![IrType::I64, IrType::I64, IrType::I64, IrType::I64, IrType::I64],
            seq![IrType::I8, IrType::I64],
        ),
        Helper::ExceptionClass => (
            "beamr_jit_exception_class"@,
            seq![IrType::I64],
            seq![IrType::I64],
        ),
        Helper::ExceptionReason => (
            "beamr_jit_exception_reason"@,
            seq![IrType::I64],
            seq![IrType::I64],
        ),
        Helper::ExceptionTrace => (
            "beamr_jit_exception_trace"@,
            seq![IrType::I64],
            seq![IrType::I64],
        ),
        Helper::ClearException => (
            "beamr_jit_clear_exception"@,
            seq![IrType::I64],
            Seq::<IrType>::empty(),
        ),
        Helper::AddCompiledFrame => (
            "beamr_jit_add_compiled_frame"@,
            seq![IrType::I64, IrType::I64, IrType::I64, IrType::I64],
            Seq::<IrType>::empty(),
        ),
        Helper::BsStartMatch => (
            "beamr_jit_bs_start_match"@,
            seq![IrType::I64, IrType::I64],
            seq![IrType::I64],
        ),
        Helper::BsGetInteger => (
            "beamr_jit_bs_get_integer"@,
            seq![IrType::I64, IrType::I64, IrType::I64],
            seq![IrType::I64],
        ),
        Helper::BsGetBinary => (
            "beamr_jit_bs_get_binary"@,
            seq![IrType::I64, IrType::I64, IrType::I64],
            seq![IrType::I64],
        ),
        Helper::BsTestTail => (
            "beamr_jit_bs_test_tail"@,
            seq![IrType::I64, IrType::I64],
            seq![IrType::I8],
        ),
        Helper::BsTestUnit => (
            "beamr_jit_bs_test_unit"@,
            seq![IrType::I64, IrType::I64],
            seq![IrType::I8],
        ),
        Helper::BsGetUtf8 => (
            "beamr_jit_bs_get_utf8"@,
            seq![IrType::I64, IrType::I64],
            seq![IrType::I64],
        ),
        Helper::BsGetUtf16 => (
            "beamr_jit_bs_get_utf16"@,
            seq![IrType::I64, IrType::I64],
            seq![IrType::I64],
        ),
        Helper::BsGetUtf32 => (
            "beamr_jit_bs_get_utf32"@,
            seq![IrType::I64, IrType::I64],
            seq![IrType::I64],
        ),
        Helper::BsInit => (
            "beamr_jit_bs_init"@,
            seq![IrType::I64, IrType::I64],
            seq![IrType::I64],
        ),
        Helper::BsPutInteger => (
            "beamr_jit_bs_put_integer"@,
            seq![IrType::I64, IrType::I64, IrType::I64, IrType::I64, IrType::I64],
            seq![IrType::I8],
        ),
        Helper::BsPutBinary => (
            "beamr_jit_bs_put_binary"@,
            seq![IrType::I64, IrType::I64, IrType::I64],
            seq![IrType::I8],
        ),
        Helper::BsPutUtf8 => (
            "beamr_jit_bs_put_utf8"@,
            seq![IrType::I64, IrType::I64, IrType::I64],
            seq![IrType::I8],
        ),
        Helper::BsPutUtf16 => (
            "beamr_jit_bs_put_utf16"@,
            seq![IrType::I64, IrType::I64, IrType::I64, IrType::I64],
            seq![IrType::I8],
        ),
        Helper::BsPutUtf32 => (
            "beamr_jit_bs_put_utf32"@,
            seq![IrType::I64, IrType::I64, IrType::I64, IrType::I64],
            seq![IrType::I8],
        ),
        Helper::BsFinish => (
            "beamr_jit_bs_finish"@,
            seq![IrType::I64, IrType::I64],
            seq![IrType::I64],
        ),
        Helper::MapNew => (
            "beamr_jit_map_new"@,
            seq![IrType::I64, IrType::I64, IrType::I64, IrType::I64],
            seq![IrType::I64],
        ),
        Helper::MapUpdate => (
            "beamr_jit_map_update"@,
            seq![IrType::I64, IrType::I64, IrType::I64, IrType::I64],
            seq![IrType::I64],
        ),
        Helper::MapGet => (
            "beamr_jit_map_get"@,
            seq![IrType::I64, IrType::I64],
            seq![IrType::I8, IrType::I64],
        ),
        Helper::MapHasKey => (
            "beamr_jit_map_has_key"@,
            seq![IrType::I64, IrType::I64],
            seq![IrType::I8],
        ),
        Helper::SendMessage => (
            "beamr_jit_send_message"@,
            seq![IrType::I64, IrType::I64, IrType::I64],
            seq![IrType::I64],
        ),
        Helper::ReceivePeek => (
            "beamr_jit_receive_peek"@,
            seq![IrType::I64],
            seq![IrType::I8, IrType::I64],
        ),
        Helper::ReceiveNext => (
            "beamr_jit_receive_next"@,
            seq![IrType::I64],
            Seq::<IrType>::empty(),
        ),
        Helper::ReceiveAccept => (
            "beamr_jit_receive_accept"@,
            seq![IrType::I64],
            Seq::<IrType>::empty(),
        ),
        Helper::ReceiveWait => (
            "beamr_jit_receive_wait"@,
            seq![IrType::I64],
            seq![IrType::I8],
        ),
        Helper::ReceiveWaitTimeout => (
            "beamr_jit_receive_wait_timeout"@,
            seq![IrType::I64, IrType::I64],
            seq![IrType::I8],
        ),
        Helper::ReceiveTimeout => (
            "beamr_jit_receive_timeout"@,
            seq![IrType::I64],
            Seq::<IrType>::empty(),
        ),
    }
}

/// Where a function is declared among all.
pub open spec fn declared_at(helper: Helper) -> int {
    match helper {
        Helper::AllocTuple => 0,
        Helper::AllocCons => 1,
        Helper::AllocClosure => 2,
        Helper::BoxFloat => 3,
        Helper::CallClosure => 4,
        Helper::ChargeReduction => 5,
        Helper::CallInterpreted => 6,
        Helper::ExceptionClass => 7,
        Helper::ExceptionReason => 8,
        Helper::ExceptionTrace => 9,
        Helper::ClearException => 10,
        Helper::AddCompiledFrame => 11,
        Helper::BsStartMatch => 12,
        Helper::BsGetInteger => 13,
        Helper::BsGetBinary => 14,
        Helper::BsTestTail => 15,
        Helper::BsTestUnit => 16,
        Helper::BsGetUtf8 => 17,
        Helper::BsGetUtf16 => 18,
        Helper::BsGetUtf32 => 19,
        Helper::BsInit => 20,
        Helper::BsPutInteger => 21,
        Helper::BsPutBinary => 22,
        Helper::BsPutUtf8 => 23,
        Helper::BsPutUtf16 => 24,
        Helper::BsPutUtf32 => 25,
        Helper::BsFinish => 26,
        Helper::MapNew => 27,
        Helper::MapUpdate => 28,
        Helper::MapGet => 29,
        Helper::MapHasKey => 30,
        Helper::SendMessage => 31,
        Helper::ReceivePeek => 32,
        Helper::ReceiveNext => 33,
        Helper::ReceiveAccept => 34,
        Helper::ReceiveWait => 35,
        Helper::ReceiveWaitTimeout => 36,
        Helper::ReceiveTimeout => 37,
    }
}

/// Every function that compiled code calls is declared, once, by its own name and with
/// the words that it takes and gives.
#[verifier::rlimit(60)]
pub proof fn law_helpers_are_declared_once(helper: Helper)
    ensures
        compile_helpers().len() == 38,
        0 <= declared_at(helper) < 38,
        ({
            let declaration = compile_helpers()[declared_at(helper)];
            &&& declaration.helper == helper
            &&& declaration.symbol == described(helper).0
            &&& declaration.params == described(helper).1
            &&& declaration.results == described(helper).2
        }),
        forall|i: int|
            0 <= i < compile_helpers().len() ==> declared_at(
                (#[trigger] compile_helpers()[i]).helper,
            ) == i,
{
    assert(words(1) =~= seq![IrType::I64]);
    assert(words(2) =~= seq![IrType::I64, IrType::I64]);
    assert(words(3) =~= seq![IrType::I64, IrType::I64, IrType::I64]);
    assert(words(4) =~= seq![IrType::I64, IrType::I64, IrType::I64, IrType::I64]);
    assert(words(5) =~= seq![IrType::I64, IrType::I64, IrType::I64, IrType::I64, IrType::I64]);
    let core = core_helpers();
    let exceptions = core + exception_helpers();
    let binaries = exceptions + binary_helpers();
    let maps = binaries + map_helpers();
    let all = compile_helpers();
    assert(core.len() == 7 && exceptions.len() == 12 && binaries.len() == 27 && maps.len() == 31);
    assert(all.len() == 38);
    assert forall|i: int| 0 <= i < all.len() implies declared_at((#[trigger] all[i]).helper) == i by {
        if i < 7 {
            assert(all[i] == core[i]);
        } else if i < 12 {
            assert(all[i] == exception_helpers()[i - 7]);
        } else if i < 27 {
            assert(all[i] == binary_helpers()[i - 12]);
        } else if i < 31 {
            assert(all[i] == map_helpers()[i - 27]);
        } else {
            assert(all[i] == message_helpers()[i - 31]);
        }
    }
    let i = declared_at(helper);
    if i < 7 {
        assert(all[i] == core[i]);
    } else if i < 12 {
        assert(all[i] == exception_helpers()[i - 7]);
    } else if i < 27 {
        assert(all[i] == binary_helpers()[i - 12]);
    } else if i < 31 {
        assert(all[i] == map_helpers()[i - 27]);
    } else {
        assert(all[i] == message_helpers()[i - 31]);
    }
}

} // verus!
