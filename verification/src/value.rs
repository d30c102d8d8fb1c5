//! The integer values that a contract function gives back, and how they are
//! taken from the values of the wasm engine.

use vstd::prelude::*;
use vstd::string::StringExecFns;

verus! {

/// A wasm integer value.
#[derive(Debug, PartialEq, Copy, Clone)]
pub enum Value {
    /// Thirty-two bits.
    I32(u32),
    /// Sixty-four bits.
    I64(u64),
}

/// Why a value of the wasm engine is no wasm integer value.
#[derive(Debug, PartialEq)]
pub enum ValueCastError {
    /// The value has a type that is not supported, such as a float or a
    /// vector; the name of the type is given.
    NotSupportedType(&'static str),
}

/// A value as the wasm engine hands it over. A float is held by its bits.
#[derive(Debug, PartialEq, Copy, Clone)]
pub enum RawValue {
    /// A thirty-two bit integer.
    I32(i32),
    /// A sixty-four bit integer.
    I64(i64),
    /// The bits of a thirty-two bit float.
    F32(u32),
    /// The bits of a sixty-four bit float.
    F64(u64),
    /// A vector of 128 bits.
    V128(u128),
}

impl ValueCastError {
    /// The name of the type that is not supported.
    pub open spec fn name(&self) -> Seq<char> {
        match self {
            ValueCastError::NotSupportedType(name) => name@,
        }
    }

    /// The error as text: the name of the variant and, in brackets and
    /// double quotes, the name of the type.
    pub fn to_string(&self) -> (text: String)
        ensures
            text@ == "NotSupportedType(\""@ + self.name() + "\")"@,
    {
        match self {
            ValueCastError::NotSupportedType(name) => {
                let mut text = String::from_str("NotSupportedType(\"");
                text.append(name);
                text.append("\")");
                text
            },
        }
    }
}

impl Value {
    /// The wasm integer value of `value`: an integer keeps its bits, a
    /// float or a vector is refused by the name of its type.
    pub fn try_from(value: &RawValue) -> (r: Result<Value, ValueCastError>)
        ensures
            match *value {
                RawValue::I32(v) => r == Ok::<Value, ValueCastError>(Value::I32(v as u32)),
                RawValue::I64(v) => r == Ok::<Value, ValueCastError>(Value::I64(v as u64)),
                RawValue::F32(_) => r is Err && r->Err_0.name() == "F32"@,
                RawValue::F64(_) => r is Err && r->Err_0.name() == "F64"@,
                RawValue::V128(_) => r is Err && r->Err_0.name() == "V128"@,
            },
    {
        match value {
            RawValue::I32(v) => Ok(Value::I32(#[verifier::truncate] (*v as u32))),
            RawValue::I64(v) => Ok(Value::I64(#[verifier::truncate] (*v as u64))),
            RawValue::F32(_) => Err(ValueCastError::NotSupportedType("F32")),
            RawValue::F64(_) => Err(ValueCastError::NotSupportedType("F64")),
            RawValue::V128(_) => Err(ValueCastError::NotSupportedType("V128")),
        }
    }

    /// The wasm integer values of the values that a function gave back: all
    /// of them, in order, where every one is an integer, else the refusal
    /// of the first that is not.
    pub fn cast_returns(results: &Vec<RawValue>) -> (r: Result<Vec<Value>, ValueCastError>)
        ensures
            match r {
                Ok(values) => {
                    &&& values@.len() == results@.len()
                    &&& forall|i: int|
                        0 <= i < results@.len() ==> Value::spec_cast(results@[i]) == Some(
                            #[trigger] values@[i],
                        )
                },
                Err(e) => exists|i: int|
                    0 <= i < results@.len() && Value::spec_cast(#[trigger] results@[i]) is None
                        && (forall|j: int|
                        0 <= j < i ==> Value::spec_cast(#[trigger] results@[j]) is Some)
                        && e.name() == Value::kind_name(results@[i]),
            },
    {
        let n: usize = results.len();
        let mut values: Vec<Value> = Vec::new();
        let mut i: usize = 0;
        while i < n
            invariant
                i <= n,
                n == results@.len(),
                values@.len() == i,
                forall|j: int|
                    0 <= j < i ==> Value::spec_cast(results@[j]) == Some(#[trigger] values@[j]),
                forall|j: int| 0 <= j < i ==> Value::spec_cast(#[trigger] results@[j]) is Some,
            decreases n - i,
        {
            match Value::try_from(&results[i]) {
                Ok(v) => values.push(v),
                Err(e) => {
                    assert(Value::spec_cast(results@[i as int]) is None);
                    assert(e.name() == Value::kind_name(results@[i as int]));
                    return Err(e);
                },
            }
            i += 1;
        }
        Ok(values)
    }

    /// The wasm integer value of `value`, if it is an integer.
    pub open spec fn spec_cast(value: RawValue) -> Option<Value> {
        match value {
            RawValue::I32(v) => Some(Value::I32(v as u32)),
            RawValue::I64(v) => Some(Value::I64(v as u64)),
            _ => None,
        }
    }

    /// The name of the type of `value`.
    pub open spec fn kind_name(value: RawValue) -> Seq<char> {
        match value {
            RawValue::I32(_) => "I32"@,
            RawValue::I64(_) => "I64"@,
            RawValue::F32(_) => "F32"@,
            RawValue::F64(_) => "F64"@,
            RawValue::V128(_) => "V128"@,
        }
    }
}

} // verus!
