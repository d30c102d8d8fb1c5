//! The decisions of the runtime that need no wasm engine: how a constructor
//! call is made up, how arguments and buffers are handed over, and how the
//! end of an execution becomes a receipt.

use vstd::prelude::*;
use vstd::string::StringExecFns;
use crate::buffer::{Buffer, BufferMut};
use crate::common::{Address, State};
use crate::types::{AppTransaction, BufferSlice, WasmValue};
use crate::value::{RawValue, Value};

verus! {

/// Why the execution of a function of a contract failed.
#[derive(Debug, PartialEq)]
pub enum ExecAppError {
    /// The transaction could not be parsed.
    ParseFailed { reason: String },
    /// No contract is known at the address.
    AppNotFound { app_addr: Address },
    /// The code of the template did not compile.
    CompilationFailed { app_addr: Address, template_addr: Address, reason: String },
    /// The compiled code could not be instantiated.
    InstantiationFailed { app_addr: Address, template_addr: Address, reason: String },
    /// The contract exports no function of that name.
    FuncNotFound { app_addr: Address, template_addr: Address, func_name: String },
    /// The function failed while it ran.
    ExecFailed {
        app_addr: Address,
        template_addr: Address,
        func_name: String,
        func_args: String,
        reason: String,
    },
    /// The function gave back a value that is no wasm integer.
    InvalidReturnValue {
        app_addr: Address,
        template_addr: Address,
        func_name: String,
        func_args: String,
        func_rets: String,
        reason: String,
    },
}

/// What is reported of the execution of a transaction.
#[derive(Debug, PartialEq)]
pub struct Receipt {
    /// Whether the execution succeeded.
    pub success: bool,
    /// Why the execution failed, if it did.
    pub error: Option<ExecAppError>,
    /// What the function gave back, if the execution succeeded.
    pub results: Option<Vec<Value>>,
    /// The state root after the execution, if it succeeded.
    pub new_state: Option<State>,
}

/// The receipt of an execution that ended with `result`.
pub fn make_receipt(result: Result<(State, Vec<Value>), ExecAppError>) -> (receipt: Receipt)
    ensures
        match result {
            Ok((state, values)) => receipt == (Receipt {
                success: true,
                error: None,
                results: Some(values),
                new_state: Some(state),
            }),
            Err(e) => receipt == (Receipt {
                success: false,
                error: Some(e),
                results: None,
                new_state: None,
            }),
        },
{
    match result {
        Err(e) => Receipt { success: false, error: Some(e), results: None, new_state: None },
        Ok((state, values)) => Receipt {
            success: true,
            error: None,
            results: Some(values),
            new_state: Some(state),
        },
    }
}

/// What an execution comes to when the function to call could not be got
/// for the reason `error`. A contract need not have a constructor: a
/// constructor that is not found ends the execution well, at the all-zero
/// state and with no values. Every other failure stands.
pub fn on_missing_func(error: ExecAppError, is_ctor: bool) -> (r: Result<
    (State, Vec<Value>),
    ExecAppError,
>)
    ensures
        is_ctor && error is FuncNotFound ==> r is Ok && r.unwrap().0@ == crate::bytes::zeros(32)
            && r.unwrap().1@.len() == 0,
        !(is_ctor && error is FuncNotFound) ==> r == Err::<(State, Vec<Value>), ExecAppError>(
            error,
        ),
{
    match error {
        ExecAppError::FuncNotFound { app_addr, template_addr, func_name } => {
            if is_ctor {
                Ok((State::empty(), Vec::new()))
            } else {
                Err(ExecAppError::FuncNotFound { app_addr, template_addr, func_name })
            }
        },
        e => Err(e),
    }
}

/// The transaction that calls the constructor of the contract at
/// `app_addr` for `creator`, with the arguments and the buffer of the spawn.
pub fn build_ctor_call(
    creator: &Address,
    ctor_args: Vec<WasmValue>,
    ctor_buf: Vec<BufferSlice>,
    app_addr: &Address,
) -> (tx: AppTransaction)
    ensures
        tx.app == *app_addr,
        tx.sender == *creator,
        tx.func_name@ == "ctor"@,
        tx.func_args == ctor_args,
        tx.func_buf == ctor_buf,
{
    AppTransaction {
        app: *app_addr,
        sender: *creator,
        func_name: String::from_str("ctor"),
        func_args: ctor_args,
        func_buf: ctor_buf,
    }
}

/// The value of the wasm engine that carries the argument `arg`: the same
/// bits, read as a signed integer.
pub open spec fn arg_value(arg: WasmValue) -> RawValue {
    match arg {
        WasmValue::I32(v) => RawValue::I32(v as i32),
        WasmValue::I64(v) => RawValue::I64(v as i64),
    }
}

/// The arguments of a transaction as values of the wasm engine, in order.
pub fn prepare_args(func_args: &Vec<WasmValue>) -> (wasmer_args: Vec<RawValue>)
    ensures
        wasmer_args@.len() == func_args@.len(),
        forall|i: int|
            0 <= i < func_args@.len() ==> #[trigger] wasmer_args@[i] == arg_value(func_args@[i]),
{
    let n: usize = func_args.len();
    let mut wasmer_args: Vec<RawValue> = Vec::with_capacity(n);
    let mut i: usize = 0;
    while i < n
        invariant
            i <= n,
            n == func_args@.len(),
            wasmer_args@.len() == i,
            forall|j: int| 0 <= j < i ==> #[trigger] wasmer_args@[j] == arg_value(func_args@[j]),
        decreases n - i,
    {
        let wasmer_arg = match func_args[i] {
            WasmValue::I32(v) => RawValue::I32(#[verifier::truncate] (v as i32)),
            WasmValue::I64(v) => RawValue::I64(#[verifier::truncate] (v as i64)),
        };
        wasmer_args.push(wasmer_arg);
        i += 1;
    }
    wasmer_args
}

/// The bytes of the slices `slices`, one after the other.
pub open spec fn joined(slices: Seq<BufferSlice>) -> Seq<u8>
    decreases slices.len(),
{
    if slices.len() == 0 {
        Seq::empty()
    } else {
        joined(slices.drop_last()) + slices.last().data@
    }
}

/// The read-only buffer of the arguments of a transaction: the bytes of
/// all slices of `func_buf`, in order.
pub fn args_buffer(func_buf: &Vec<BufferSlice>) -> (buffer: Buffer)
    ensures
        buffer@ == joined(func_buf@),
{
    let n: usize = func_buf.len();
    let mut buf_cap: usize = 0;
    let mut i: usize = 0;
    while i < n
        invariant
            i <= n,
            n == func_buf@.len(),
        decreases n - i,
    {
        let len: usize = func_buf[i].len();
        buf_cap = if len <= usize::MAX - buf_cap {
            buf_cap + len
        } else {
            usize::MAX
        };
        i += 1;
    }
    let mut buf = BufferMut::new(#[verifier::truncate] (buf_cap as u32));
    let mut k: usize = 0;
    assert(func_buf@.take(0) =~= Seq::empty());
    while k < n
        invariant
            k <= n,
            n == func_buf@.len(),
            buf@ == joined(func_buf@.take(k as int)),
        decreases n - k,
    {
        proof {
            assert(func_buf@.take(k + 1).drop_last() =~= func_buf@.take(k as int));
            assert(func_buf@.take(k + 1).last() == func_buf@[k as int]);
        }
        buf.write(func_buf[k].data.as_slice());
        k += 1;
    }
    assert(func_buf@.take(n as int) =~= func_buf@);
    buf.freeze()
}

} // verus!
