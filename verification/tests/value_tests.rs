use svm::value::{RawValue, Value, ValueCastError};

#[test]
fn value_try_from() {
    let wasmer_value = RawValue::I32(10);
    assert_eq!(Ok(Value::I32(10)), Value::try_from(&wasmer_value));

    let wasmer_value = RawValue::I64(20);
    assert_eq!(Ok(Value::I64(20)), Value::try_from(&wasmer_value));

    let wasmer_value = RawValue::F32(10.0f32.to_bits());
    assert_eq!(
        Err(ValueCastError::NotSupportedType("F32")),
        Value::try_from(&wasmer_value)
    );

    let wasmer_value = RawValue::F64(20.0f64.to_bits());
    assert_eq!(
        Err(ValueCastError::NotSupportedType("F64")),
        Value::try_from(&wasmer_value)
    );

    let wasmer_value = RawValue::V128(0);
    assert_eq!(
        Err(ValueCastError::NotSupportedType("V128")),
        Value::try_from(&wasmer_value)
    );
}

#[test]
fn value_cast_error_to_string() {
    let e = ValueCastError::NotSupportedType("F32");
    assert_eq!(format!("{:?}", e), e.to_string());
    assert_eq!("NotSupportedType(\"F32\")", e.to_string());
}

#[test]
fn cast_returns_keeps_order_and_stops_at_first_float() {
    let all = vec![RawValue::I32(-1), RawValue::I64(-2)];
    assert_eq!(
        Ok(vec![Value::I32(u32::MAX), Value::I64(u64::MAX - 1)]),
        Value::cast_returns(&all)
    );

    let mixed = vec![RawValue::I32(1), RawValue::F64(0), RawValue::V128(9)];
    assert_eq!(
        Err(ValueCastError::NotSupportedType("F64")),
        Value::cast_returns(&mixed)
    );
}
