//! Round-trip and call-data layout tests: what the library encodes must
//! decode, under the canonical ABI rules, to exactly the synthesized
//! values.

use alloy_dyn_abi::{DynSolType, DynSolValue};
use alloy_primitives::{Address, U256};
use sigscan::abi::Param;
use sigscan::calldata::{
    encode_calldata_with_strategy, encode_constructor_args_with_strategy, AbiDescription,
    FunctionAbi,
};
use sigscan::evm::caller_address;
use sigscan::sig::{hex_prefixed, selector_of};
use sigscan::types::CallStrategy;

fn param(ty: &str) -> Param {
    Param {
        ty: ty.to_string(),
        components: Vec::new(),
    }
}

fn strategies() -> Vec<CallStrategy> {
    vec![
        CallStrategy::SmartDefaults,
        CallStrategy::CallerAddress,
        CallStrategy::ZeroDefaults,
    ]
}

/// Encodes a single-parameter constructor argument block and decodes it
/// with the canonical ABI rules.
fn roundtrip(p: Param, strategy: CallStrategy, decode_ty: DynSolType) -> DynSolValue {
    let abi = AbiDescription {
        constructor: Some(vec![p]),
        functions: Vec::new(),
    };
    let caller = caller_address();
    let encoded = encode_constructor_args_with_strategy(&abi, strategy, &caller)
        .expect("encoding should succeed");
    let outer = DynSolType::Tuple(vec![decode_ty]);
    let decoded = outer
        .abi_decode_params(&encoded)
        .expect("decoding should succeed");
    match decoded {
        DynSolValue::Tuple(mut vs) => {
            assert_eq!(vs.len(), 1);
            vs.pop().unwrap()
        }
        other => other,
    }
}

fn caller_alloy() -> Address {
    Address::from_slice(&caller_address())
}

#[test]
fn roundtrip_bool() {
    let ty = DynSolType::Bool;
    assert_eq!(
        roundtrip(param("bool"), CallStrategy::SmartDefaults, ty.clone()),
        DynSolValue::Bool(true)
    );
    assert_eq!(
        roundtrip(param("bool"), CallStrategy::CallerAddress, ty.clone()),
        DynSolValue::Bool(true)
    );
    assert_eq!(
        roundtrip(param("bool"), CallStrategy::ZeroDefaults, ty),
        DynSolValue::Bool(false)
    );
}

#[test]
fn roundtrip_uint256() {
    let ty = DynSolType::Uint(256);
    for s in strategies() {
        let expect = if s == CallStrategy::ZeroDefaults {
            U256::ZERO
        } else {
            U256::from(1)
        };
        assert_eq!(
            roundtrip(param("uint256"), s, ty.clone()),
            DynSolValue::Uint(expect, 256)
        );
    }
}

#[test]
fn roundtrip_address() {
    let ty = DynSolType::Address;
    assert_eq!(
        roundtrip(param("address"), CallStrategy::SmartDefaults, ty.clone()),
        DynSolValue::Address(Address::with_last_byte(1))
    );
    assert_eq!(
        roundtrip(param("address"), CallStrategy::CallerAddress, ty.clone()),
        DynSolValue::Address(caller_alloy())
    );
    assert_eq!(
        roundtrip(param("address"), CallStrategy::ZeroDefaults, ty),
        DynSolValue::Address(Address::ZERO)
    );
}

#[test]
fn roundtrip_bytes() {
    let ty = DynSolType::Bytes;
    assert_eq!(
        roundtrip(param("bytes"), CallStrategy::SmartDefaults, ty.clone()),
        DynSolValue::Bytes(vec![0x01])
    );
    assert_eq!(
        roundtrip(param("bytes"), CallStrategy::CallerAddress, ty.clone()),
        DynSolValue::Bytes(vec![0x01])
    );
    assert_eq!(
        roundtrip(param("bytes"), CallStrategy::ZeroDefaults, ty),
        DynSolValue::Bytes(Vec::new())
    );
}

#[test]
fn roundtrip_string() {
    let ty = DynSolType::String;
    assert_eq!(
        roundtrip(param("string"), CallStrategy::SmartDefaults, ty.clone()),
        DynSolValue::String("a".to_string())
    );
    assert_eq!(
        roundtrip(param("string"), CallStrategy::CallerAddress, ty.clone()),
        DynSolValue::String("a".to_string())
    );
    assert_eq!(
        roundtrip(param("string"), CallStrategy::ZeroDefaults, ty),
        DynSolValue::String(String::new())
    );
}

#[test]
fn roundtrip_fixed_bytes() {
    let ty = DynSolType::FixedBytes(4);
    let mut smart = [0u8; 32];
    smart[3] = 1;
    assert_eq!(
        roundtrip(param("bytes4"), CallStrategy::SmartDefaults, ty.clone()),
        DynSolValue::FixedBytes(alloy_primitives::B256::from(smart), 4)
    );
    assert_eq!(
        roundtrip(param("bytes4"), CallStrategy::CallerAddress, ty.clone()),
        DynSolValue::FixedBytes(alloy_primitives::B256::from(smart), 4)
    );
    assert_eq!(
        roundtrip(param("bytes4"), CallStrategy::ZeroDefaults, ty),
        DynSolValue::FixedBytes(alloy_primitives::B256::ZERO, 4)
    );
}

#[test]
fn roundtrip_two_field_tuple() {
    let p = Param {
        ty: "tuple".to_string(),
        components: vec![param("uint256"), param("address[]")],
    };
    let ty = DynSolType::Tuple(vec![
        DynSolType::Uint(256),
        DynSolType::Array(Box::new(DynSolType::Address)),
    ]);

    let smart = roundtrip(
        Param {
            ty: p.ty.clone(),
            components: vec![param("uint256"), param("address[]")],
        },
        CallStrategy::SmartDefaults,
        ty.clone(),
    );
    assert_eq!(
        smart,
        DynSolValue::Tuple(vec![
            DynSolValue::Uint(U256::from(1), 256),
            DynSolValue::Array(vec![DynSolValue::Address(Address::with_last_byte(1))]),
        ])
    );

    let with_caller = roundtrip(
        Param {
            ty: p.ty.clone(),
            components: vec![param("uint256"), param("address[]")],
        },
        CallStrategy::CallerAddress,
        ty.clone(),
    );
    assert_eq!(
        with_caller,
        DynSolValue::Tuple(vec![
            DynSolValue::Uint(U256::from(1), 256),
            DynSolValue::Array(vec![DynSolValue::Address(caller_alloy())]),
        ])
    );

    let zero = roundtrip(p, CallStrategy::ZeroDefaults, ty);
    assert_eq!(
        zero,
        DynSolValue::Tuple(vec![
            DynSolValue::Uint(U256::ZERO, 256),
            DynSolValue::Array(Vec::new()),
        ])
    );
}

#[test]
fn roundtrip_fixed_address_array() {
    let ty = DynSolType::FixedArray(Box::new(DynSolType::Address), 3);
    let smart = roundtrip(param("address[3]"), CallStrategy::SmartDefaults, ty.clone());
    assert_eq!(
        smart,
        DynSolValue::FixedArray(vec![
            DynSolValue::Address(Address::with_last_byte(1)),
            DynSolValue::Address(Address::with_last_byte(1)),
            DynSolValue::Address(Address::with_last_byte(1)),
        ])
    );
    let with_caller = roundtrip(param("address[3]"), CallStrategy::CallerAddress, ty.clone());
    assert_eq!(
        with_caller,
        DynSolValue::FixedArray(vec![
            DynSolValue::Address(caller_alloy()),
            DynSolValue::Address(caller_alloy()),
            DynSolValue::Address(caller_alloy()),
        ])
    );
    let zero = roundtrip(param("address[3]"), CallStrategy::ZeroDefaults, ty);
    assert_eq!(
        zero,
        DynSolValue::FixedArray(vec![
            DynSolValue::Address(Address::ZERO),
            DynSolValue::Address(Address::ZERO),
            DynSolValue::Address(Address::ZERO),
        ])
    );
}

#[test]
fn zero_parameter_call_is_exactly_the_selector() {
    let func = FunctionAbi {
        name: "foo".to_string(),
        inputs: Vec::new(),
    };
    let caller = caller_address();
    for s in strategies() {
        let cd = encode_calldata_with_strategy(&func, s, &caller).unwrap();
        assert_eq!(cd, vec![0xc2, 0x98, 0x55, 0x78]);
    }
}

#[test]
fn calldata_prepends_selector_before_arguments() {
    let func = FunctionAbi {
        name: "bar".to_string(),
        inputs: vec![param("uint256")],
    };
    let caller = caller_address();
    let cd = encode_calldata_with_strategy(&func, CallStrategy::SmartDefaults, &caller).unwrap();
    let expected_selector = &alloy_primitives::keccak256("bar(uint256)".as_bytes())[..4];
    assert_eq!(&cd[..4], expected_selector);
    assert_eq!(cd.len(), 36);
    assert_eq!(cd[35], 1);
    assert!(cd[4..35].iter().all(|b| *b == 0));
}

#[test]
fn selector_matches_reference_keccak() {
    let tys = vec![sigscan::abi::CanonicalType::Uint(256)];
    let sel = selector_of(&"transfer".to_string(), &tys);
    let expected = &alloy_primitives::keccak256("transfer(uint256)".as_bytes())[..4];
    assert_eq!(sel, expected.to_vec());
}

#[test]
fn hex_rendering_is_lowercase_and_prefixed() {
    assert_eq!(hex_prefixed(&vec![0xde, 0xad, 0x01]), "0xdead01");
    assert_eq!(hex_prefixed(&Vec::new()), "0x");
}

#[test]
fn absent_constructor_encodes_to_nothing() {
    let abi = AbiDescription {
        constructor: None,
        functions: Vec::new(),
    };
    let caller = caller_address();
    for s in strategies() {
        assert_eq!(
            encode_constructor_args_with_strategy(&abi, s, &caller).unwrap(),
            Vec::<u8>::new()
        );
    }
}

#[test]
fn unparseable_parameter_fails_with_the_offending_tag() {
    let func = FunctionAbi {
        name: "f".to_string(),
        inputs: vec![param("mystery")],
    };
    let caller = caller_address();
    match encode_calldata_with_strategy(&func, CallStrategy::SmartDefaults, &caller) {
        Err(sigscan::calldata::EncodeError::Parse(e)) => assert_eq!(e.tag, "mystery"),
        other => panic!("expected a parse failure, got {:?}", other),
    }
}

#[test]
fn dynamic_argument_block_layout_is_offset_length_data() {
    let abi = AbiDescription {
        constructor: Some(vec![param("bytes")]),
        functions: Vec::new(),
    };
    let caller = caller_address();
    let b =
        encode_constructor_args_with_strategy(&abi, CallStrategy::SmartDefaults, &caller).unwrap();
    // One offset word (32), one length word (1), one data byte padded to
    // a full word.
    assert_eq!(b.len(), 96);
    let mut expected = vec![0u8; 96];
    expected[31] = 0x20;
    expected[63] = 0x01;
    expected[64] = 0x01;
    assert_eq!(b, expected);
}
