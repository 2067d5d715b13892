//! Tests of the capability check and the contracts call builders.

use paint_client::capability::{CapabilitySet, RuntimeCapability, RuntimeDescription};
use paint_client::calls::{
    ModuleCalls,
    CALL_FUNCTION_TAG,
    CREATE_FUNCTION_TAG,
    PUT_CODE_FUNCTION_TAG,
};
use paint_client::codec::{compact_encode, compact_encode_bytes};
use paint_client::errors::ClientError;
use paint_client::types::{AccountId, Hash32};

fn full_runtime() -> RuntimeDescription {
    RuntimeDescription {
        capabilities: CapabilitySet { system: true, balances: true, contracts: true },
    }
}

fn builder(runtime: RuntimeDescription) -> ModuleCalls {
    ModuleCalls::contracts(&runtime, 9)
}

#[test]
fn put_code_encodes_header_then_gas_then_code() {
    let m = builder(full_runtime());
    let payload = m.put_code(7, vec![0xab]).expect("capabilities are satisfied");
    assert_eq!(payload.bytes, vec![9, PUT_CODE_FUNCTION_TAG, 28, 4, 0xab]);
}

#[test]
fn create_encodes_all_four_arguments_in_order() {
    let m = builder(full_runtime());
    let hash = Hash32 { bytes: vec![0x11; 32] };
    let payload = m.create(0, 0, hash, vec![]).expect("capabilities are satisfied");
    let mut expected = vec![9, CREATE_FUNCTION_TAG, 0x00, 0x00];
    expected.extend(vec![0x11; 32]);
    expected.push(0x00);
    assert_eq!(payload.bytes, expected);
}

#[test]
fn call_encodes_dest_value_gas_data() {
    let m = builder(full_runtime());
    let dest = AccountId { bytes: vec![0x22; 32] };
    let payload = m.call(dest, 63, 64, vec![1, 2]).expect("capabilities are satisfied");
    let mut expected = vec![9, CALL_FUNCTION_TAG];
    expected.extend(vec![0x22; 32]);
    expected.push(0xfc);
    expected.extend(vec![0x01, 0x01]);
    expected.extend(vec![0x08, 1, 2]);
    assert_eq!(payload.bytes, expected);
}

#[test]
fn missing_capability_fails_construction() {
    let runtime = RuntimeDescription {
        capabilities: CapabilitySet { system: true, balances: false, contracts: true },
    };
    let m = builder(runtime);
    let err = m.put_code(7, vec![0xab]).unwrap_err();
    assert_eq!(err, ClientError::MissingCapability(RuntimeCapability::Balances));
}

#[test]
fn first_missing_capability_is_reported_in_fixed_order() {
    let runtime = RuntimeDescription {
        capabilities: CapabilitySet { system: false, balances: false, contracts: false },
    };
    let m = builder(runtime);
    let err = m.create(1, 1, Hash32 { bytes: vec![0; 32] }, vec![]).unwrap_err();
    assert_eq!(err, ClientError::MissingCapability(RuntimeCapability::System));
    let err = m.call(AccountId { bytes: vec![0; 32] }, 1, 1, vec![]).unwrap_err();
    assert_eq!(err, ClientError::MissingCapability(RuntimeCapability::System));
}

#[test]
fn all_capabilities_present_never_fails() {
    // The check is a subset test: a runtime declaring everything satisfies
    // every builder, whatever the arguments.
    let m = builder(full_runtime());
    assert!(m.put_code(u64::MAX, vec![]).is_ok());
    assert!(m.create(u128::MAX, 0, Hash32 { bytes: vec![0xff; 32] }, vec![0; 100]).is_ok());
    assert!(m.call(AccountId { bytes: vec![0; 32] }, 0, 0, vec![]).is_ok());
}

#[test]
fn invoke_below_existential_minimum_still_encodes() {
    // A fresh, never-seen destination and a value below any plausible
    // existential minimum: the minimum-deposit rule is the remote runtime's
    // concern, so construction must still succeed locally.
    let m = builder(full_runtime());
    let fresh_dest = AccountId { bytes: vec![0xfe; 32] };
    let payload = m.call(fresh_dest, 1, 100, vec![]).expect("not rejected locally");
    assert_eq!(payload.bytes[0], 9);
    assert_eq!(payload.bytes[1], CALL_FUNCTION_TAG);
}

#[test]
fn subset_check_is_structural() {
    let declared = CapabilitySet { system: true, balances: true, contracts: true };
    let required = CapabilitySet { system: true, balances: true, contracts: false };
    assert!(required.is_subset_of(&declared));
    assert!(!declared.is_subset_of(&required));
    assert!(declared.contains(RuntimeCapability::Contracts));
    assert!(!required.contains(RuntimeCapability::Contracts));
}

#[test]
fn split_on_field_boundaries_recovers_arguments() {
    // Encoding a (moduleTag, functionTag, arg1, arg2) call and splitting on
    // the declared boundaries must recover byte-identical argument segments.
    let m = builder(full_runtime());
    let gas: u64 = 300_000;
    let code = vec![0xde, 0xad, 0xbe, 0xef];
    let payload = m.put_code(gas, code.clone()).expect("capabilities are satisfied");
    let arg1 = compact_encode(gas as u128);
    let arg2 = compact_encode_bytes(&code);
    assert_eq!(payload.bytes.len(), 2 + arg1.len() + arg2.len());
    assert_eq!(&payload.bytes[2..2 + arg1.len()], &arg1[..]);
    assert_eq!(&payload.bytes[2 + arg1.len()..], &arg2[..]);
}
