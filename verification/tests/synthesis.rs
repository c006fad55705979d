//! Value-synthesizer tests: concrete shapes per strategy and
//! determinism across repeated calls.

use sigscan::abi::CanonicalType;
use sigscan::evm::caller_address;
use sigscan::synth::{synthesize, ValueTree};
use sigscan::types::CallStrategy;

#[test]
fn smart_defaults_pick_minimal_non_zero_values() {
    let caller = caller_address();
    let s = CallStrategy::SmartDefaults;
    assert_eq!(
        synthesize(&CanonicalType::Bool, s, &caller),
        ValueTree::Bool(true)
    );
    let mut one_word = vec![0u8; 31];
    one_word.push(1);
    assert_eq!(
        synthesize(&CanonicalType::Uint(64), s, &caller),
        ValueTree::Uint(one_word.clone(), 64)
    );
    let mut addr = vec![0u8; 19];
    addr.push(1);
    assert_eq!(
        synthesize(&CanonicalType::Address, s, &caller),
        ValueTree::Address(addr)
    );
    assert_eq!(
        synthesize(&CanonicalType::Bytes, s, &caller),
        ValueTree::Bytes(vec![1])
    );
    assert_eq!(
        synthesize(&CanonicalType::Str, s, &caller),
        ValueTree::Str(vec![97])
    );
}

#[test]
fn zero_defaults_produce_empty_and_zero_values() {
    let caller = caller_address();
    let s = CallStrategy::ZeroDefaults;
    assert_eq!(
        synthesize(&CanonicalType::Bool, s, &caller),
        ValueTree::Bool(false)
    );
    assert_eq!(
        synthesize(&CanonicalType::Bytes, s, &caller),
        ValueTree::Bytes(Vec::new())
    );
    assert_eq!(
        synthesize(
            &CanonicalType::Array(Box::new(CanonicalType::Bool)),
            s,
            &caller
        ),
        ValueTree::Array(Vec::new())
    );
    assert_eq!(
        synthesize(
            &CanonicalType::FixedArray(Box::new(CanonicalType::Bool), 2),
            s,
            &caller
        ),
        ValueTree::FixedArray(vec![ValueTree::Bool(false), ValueTree::Bool(false)])
    );
}

#[test]
fn caller_address_reaches_address_leaves_only() {
    let caller = caller_address();
    let s = CallStrategy::CallerAddress;
    assert_eq!(
        synthesize(&CanonicalType::Address, s, &caller),
        ValueTree::Address(caller.clone())
    );
    assert_eq!(
        synthesize(&CanonicalType::Bool, s, &caller),
        ValueTree::Bool(true)
    );
    assert_eq!(
        synthesize(
            &CanonicalType::Tuple(vec![CanonicalType::Address, CanonicalType::Bool]),
            s,
            &caller
        ),
        ValueTree::Tuple(vec![ValueTree::Address(caller.clone()), ValueTree::Bool(true)])
    );
}

#[test]
fn fixed_array_has_exactly_its_declared_length() {
    let caller = caller_address();
    for s in [
        CallStrategy::SmartDefaults,
        CallStrategy::CallerAddress,
        CallStrategy::ZeroDefaults,
    ] {
        match synthesize(
            &CanonicalType::FixedArray(Box::new(CanonicalType::Uint(8)), 5),
            s,
            &caller,
        ) {
            ValueTree::FixedArray(es) => assert_eq!(es.len(), 5),
            other => panic!("expected a fixed array, got {:?}", other),
        }
    }
}

#[test]
fn synthesis_is_deterministic() {
    let caller = caller_address();
    let ty = CanonicalType::Tuple(vec![
        CanonicalType::Uint(256),
        CanonicalType::Array(Box::new(CanonicalType::Address)),
        CanonicalType::FixedBytes(8),
    ]);
    for s in [
        CallStrategy::SmartDefaults,
        CallStrategy::CallerAddress,
        CallStrategy::ZeroDefaults,
    ] {
        let a = synthesize(&ty, s, &caller);
        let b = synthesize(&ty, s, &caller);
        assert_eq!(a, b);
    }
}
