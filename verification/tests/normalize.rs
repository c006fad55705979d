//! Type-normalizer tests: the elementary tag grammar, array suffixes,
//! tuple descriptors, and the tolerant bracket fallback.

use sigscan::abi::{normalize_param, CanonicalType, Param};

fn param(ty: &str) -> Param {
    Param {
        ty: ty.to_string(),
        components: Vec::new(),
    }
}

fn tuple_param(ty: &str, components: Vec<Param>) -> Param {
    Param {
        ty: ty.to_string(),
        components,
    }
}

#[test]
fn elementary_tags_normalize() {
    assert_eq!(normalize_param(&param("bool")).unwrap(), CanonicalType::Bool);
    assert_eq!(
        normalize_param(&param("address")).unwrap(),
        CanonicalType::Address
    );
    assert_eq!(
        normalize_param(&param("string")).unwrap(),
        CanonicalType::Str
    );
    assert_eq!(
        normalize_param(&param("bytes")).unwrap(),
        CanonicalType::Bytes
    );
    assert_eq!(
        normalize_param(&param("function")).unwrap(),
        CanonicalType::Function
    );
    assert_eq!(
        normalize_param(&param("uint256")).unwrap(),
        CanonicalType::Uint(256)
    );
    assert_eq!(
        normalize_param(&param("uint")).unwrap(),
        CanonicalType::Uint(256)
    );
    assert_eq!(
        normalize_param(&param("int")).unwrap(),
        CanonicalType::Int(256)
    );
    assert_eq!(
        normalize_param(&param("int8")).unwrap(),
        CanonicalType::Int(8)
    );
    assert_eq!(
        normalize_param(&param("bytes32")).unwrap(),
        CanonicalType::FixedBytes(32)
    );
    assert_eq!(
        normalize_param(&param("bytes1")).unwrap(),
        CanonicalType::FixedBytes(1)
    );
}

#[test]
fn malformed_tags_are_rejected() {
    for bad in [
        "", "bytes0", "bytes33", "uint0", "uint7", "uint264", "int12", "uintx", "notatype",
        "bool]", "[3]", "uint256[", "uint256[3", "address[0]", "bool[00]",
    ] {
        let e = normalize_param(&param(bad));
        assert!(e.is_err(), "tag {:?} should fail", bad);
    }
    let err = normalize_param(&param("notatype")).unwrap_err();
    assert_eq!(err.tag, "notatype");
}

#[test]
fn array_suffixes_normalize() {
    assert_eq!(
        normalize_param(&param("bool[]")).unwrap(),
        CanonicalType::Array(Box::new(CanonicalType::Bool))
    );
    assert_eq!(
        normalize_param(&param("uint8[3]")).unwrap(),
        CanonicalType::FixedArray(Box::new(CanonicalType::Uint(8)), 3)
    );
    assert_eq!(
        normalize_param(&param("uint256[2][]")).unwrap(),
        CanonicalType::Array(Box::new(CanonicalType::FixedArray(
            Box::new(CanonicalType::Uint(256)),
            2
        )))
    );
}

#[test]
fn tuple_descriptors_normalize_in_order() {
    let p = tuple_param("tuple", vec![param("uint256"), param("address")]);
    assert_eq!(
        normalize_param(&p).unwrap(),
        CanonicalType::Tuple(vec![CanonicalType::Uint(256), CanonicalType::Address])
    );
}

#[test]
fn tuple_array_descriptors_normalize() {
    let arr = tuple_param("tuple[]", vec![param("bool")]);
    assert_eq!(
        normalize_param(&arr).unwrap(),
        CanonicalType::Array(Box::new(CanonicalType::Tuple(vec![CanonicalType::Bool])))
    );
    let fixed = tuple_param("tuple[4]", vec![param("bool")]);
    assert_eq!(
        normalize_param(&fixed).unwrap(),
        CanonicalType::FixedArray(Box::new(CanonicalType::Tuple(vec![CanonicalType::Bool])), 4)
    );
}

#[test]
fn unusual_tuple_bracket_content_falls_back_to_dynamic_array() {
    let odd = tuple_param("tuple[x]", vec![param("bool")]);
    assert_eq!(
        normalize_param(&odd).unwrap(),
        CanonicalType::Array(Box::new(CanonicalType::Tuple(vec![CanonicalType::Bool])))
    );
}

#[test]
fn bad_tuple_component_fails_the_tuple() {
    let p = tuple_param("tuple", vec![param("uint256"), param("nope")]);
    assert!(normalize_param(&p).is_err());
}

#[test]
fn error_carries_the_first_failing_tag() {
    // The innermost first-failing descriptor's tag is reported.
    let p = tuple_param(
        "tuple",
        vec![
            param("uint256"),
            tuple_param("tuple", vec![param("bool"), param("nope")]),
            param("alsobad"),
        ],
    );
    let e = normalize_param(&p).unwrap_err();
    assert_eq!(e.tag, "nope");
}

#[test]
fn zero_sized_tuple_array_stays_a_fixed_array() {
    // The tolerant tuple bracket rule reads any machine-sized decimal,
    // zero included, unlike the elementary grammar.
    let p = tuple_param("tuple[0]", vec![param("bool")]);
    assert_eq!(
        normalize_param(&p).unwrap(),
        CanonicalType::FixedArray(Box::new(CanonicalType::Tuple(vec![CanonicalType::Bool])), 0)
    );
}
