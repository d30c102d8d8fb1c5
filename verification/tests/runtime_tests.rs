use svm::common::{Address, State};
use svm::contract_store::{CodeHash, ContractStoreError, KvContractStore};
use svm::kv::{KVStore, MemKVStore};
use svm::runtime::{
    args_buffer, build_ctor_call, make_receipt, on_missing_func, prepare_args, ExecAppError,
};
use svm::types::{BufferSlice, WasmValue};
use svm::value::{RawValue, Value};

fn func_not_found() -> ExecAppError {
    ExecAppError::FuncNotFound {
        app_addr: Address::from(1),
        template_addr: Address::from(2),
        func_name: "ctor".to_string(),
    }
}

#[test]
fn receipt_of_success() {
    let receipt = make_receipt(Ok((State([1; 32]), vec![Value::I32(7)])));
    assert!(receipt.success);
    assert_eq!(None, receipt.error);
    assert_eq!(Some(vec![Value::I32(7)]), receipt.results);
    assert_eq!(Some(State([1; 32])), receipt.new_state);
}

#[test]
fn receipt_of_failure() {
    let receipt = make_receipt(Err(func_not_found()));
    assert!(!receipt.success);
    assert_eq!(Some(func_not_found()), receipt.error);
    assert_eq!(None, receipt.results);
    assert_eq!(None, receipt.new_state);
}

#[test]
fn missing_ctor_is_no_error() {
    assert_eq!(Ok((State::empty(), vec![])), on_missing_func(func_not_found(), true));
    assert_eq!(Err(func_not_found()), on_missing_func(func_not_found(), false));

    let other = ExecAppError::AppNotFound { app_addr: Address::from(1) };
    assert!(on_missing_func(other, true).is_err());
}

#[test]
fn ctor_call_is_made_of_the_spawn() {
    let creator = Address::from(10);
    let app = Address::from(20);
    let tx = build_ctor_call(
        &creator,
        vec![WasmValue::I32(1), WasmValue::I64(2)],
        vec![BufferSlice { data: vec![1, 2] }],
        &app,
    );

    assert_eq!(app, tx.app);
    assert_eq!(creator, tx.sender);
    assert_eq!("ctor", tx.func_name);
    assert_eq!(vec![WasmValue::I32(1), WasmValue::I64(2)], tx.func_args);
    assert_eq!(vec![BufferSlice { data: vec![1, 2] }], tx.func_buf);
}

#[test]
fn args_keep_their_bits() {
    let args = vec![WasmValue::I32(10), WasmValue::I64(20), WasmValue::I32(u32::MAX)];
    assert_eq!(
        vec![RawValue::I32(10), RawValue::I64(20), RawValue::I32(-1)],
        prepare_args(&args)
    );
    assert!(prepare_args(&vec![]).is_empty());
}

#[test]
fn args_buffer_joins_the_slices() {
    let slices = vec![
        BufferSlice { data: vec![1, 2, 3] },
        BufferSlice { data: vec![] },
        BufferSlice { data: vec![4] },
    ];
    let buffer = args_buffer(&slices);
    assert_eq!(4, buffer.len());
    assert_eq!(&[1, 2, 3, 4], buffer.read(0, 4));

    assert_eq!(0, args_buffer(&vec![]).len());
}

#[test]
fn contract_store_stores_and_loads() {
    let mut store = KvContractStore::new(MemKVStore::new());
    let addr = Address::from(7);
    let hash = CodeHash([9; 32]);

    assert_eq!(Ok(None), store.load(&addr));

    store.store(&[1, 2, 3], &addr, hash);
    assert_eq!(Ok(Some(vec![1, 2, 3])), store.load(&addr));
    assert_eq!(Ok(None), store.load(&Address::from(8)));

    let kv = store.into_db();
    assert_eq!(Some(hash.0.to_vec()), kv.get(addr.as_slice()));
    assert_eq!(Some(vec![1, 2, 3]), kv.get(&hash.0));
}

#[test]
fn contract_store_misses_code() {
    let mut kv = MemKVStore::new();
    let addr = Address::from(7);
    kv.store(&[(addr.as_slice(), &[9; 32])]);

    let store = KvContractStore::new(kv);
    assert_eq!(Err(ContractStoreError::CodeNotFound), store.load(&addr));
}
