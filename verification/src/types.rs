//! The plain data of the runtime: templates, transactions and the values
//! and buffers that a transaction carries.

use vstd::prelude::*;
use crate::common::Address;

verus! {

/// A wasm integer value that is passed to a function of a contract.
#[derive(Debug, PartialEq, Copy, Clone)]
pub enum WasmValue {
    /// Thirty-two bits.
    I32(u32),
    /// Sixty-four bits.
    I64(u64),
}

/// One slice of the buffer of arguments of a transaction.
#[derive(Debug, PartialEq)]
pub struct BufferSlice {
    /// The bytes of the slice.
    pub data: Vec<u8>,
}

impl BufferSlice {
    /// The number of bytes of the slice.
    pub fn len(&self) -> (n: usize)
        ensures
            n == self.data@.len(),
    {
        self.data.len()
    }
}

/// A template of contracts.
#[derive(PartialEq)]
pub struct AppTemplate {
    /// The name of the template.
    pub name: String,
    /// The address of the author.
    pub author: Address,
    /// The number of pages of a contract of this template.
    pub page_count: u16,
    /// The wasm code.
    pub code: Vec<u8>,
}

/// A transaction that executes a function of a contract.
#[derive(PartialEq)]
pub struct AppTransaction {
    /// The address of the contract.
    pub app: Address,
    /// The address of the sender.
    pub sender: Address,
    /// The slices of the buffer of arguments.
    pub func_buf: Vec<BufferSlice>,
    /// The name of the function to execute.
    pub func_name: String,
    /// The arguments of the function.
    pub func_args: Vec<WasmValue>,
}

} // verus!
