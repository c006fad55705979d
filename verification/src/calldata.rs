//! Call-data construction: synthesizes one value per parameter under a
//! strategy, encodes the flattened parameter block, and prepends the
//! 4-byte selector for function calls (constructor arguments carry no
//! selector).

use vstd::prelude::*;
use crate::abi::{CanonicalType, Param, TypeModel, TypeParseError, params_model,
    spec_normalize_list, ty_models, normalize_components};
use crate::encode::{enc_value, spec_enc, spec_enc_seq};
use crate::sig::{selector_of, spec_selector};
use crate::synth::{spec_synth_list, synthesize, vt_model};
use crate::types::CallStrategy;

verus! {

/// One function of a contract interface: its name and its ordered
/// parameter descriptors.
#[derive(Debug)]
pub struct FunctionAbi {
    pub name: String,
    pub inputs: Vec<Param>,
}

/// A contract's interface description: the ordered function list and
/// the optional constructor's parameter list.
#[derive(Debug)]
pub struct AbiDescription {
    pub constructor: Option<Vec<Param>>,
    pub functions: Vec<FunctionAbi>,
}

/// A compiled contract: name, interface description, and deployable
/// bytecode with all library placeholders already resolved.
#[derive(Debug)]
pub struct CompiledContract {
    pub name: String,
    pub abi: AbiDescription,
    pub bytecode: Vec<u8>,
}

/// Why an encoding attempt produced no call data.
#[derive(Debug)]
pub enum EncodeError {
    /// A parameter descriptor failed type normalization.
    Parse(TypeParseError),
    /// The encoded form would not fit in memory.
    TooLarge,
}

/// The encoded parameter block for normalized types `ts` under strategy
/// `s`: each parameter's synthesized value, encoded flat (no outer
/// tuple wrapping).
pub open spec fn spec_params_block(ts: Seq<TypeModel>, s: CallStrategy, caller: Seq<u8>) -> Seq<
    u8,
> {
    spec_enc_seq(spec_synth_list(ts, s, caller))
}

/// Encodes `selector ++ params` for a function call under one strategy.
/// Fails with `Parse` exactly when some parameter descriptor fails
/// normalization, and with `TooLarge` exactly when the call data would
/// not fit in memory. A function with zero parameters encodes to
/// exactly its 4-byte selector.
pub fn encode_calldata_with_strategy(
    func: &FunctionAbi,
    strategy: CallStrategy,
    caller: &Vec<u8>,
) -> (r: Result<Vec<u8>, EncodeError>)
    requires
        caller@.len() == 20,
    ensures
        match r {
            Result::Ok(b) => spec_normalize_list(params_model(func.inputs@)) matches Option::Some(
                ts,
            ) && b@ == spec_selector(func.name@, ts) + spec_params_block(ts, strategy, caller@),
            Result::Err(EncodeError::Parse(e)) => spec_normalize_list(
                params_model(func.inputs@),
            ) is None && e.tag@ == crate::abi::spec_bad_tag_list(params_model(func.inputs@)),
            Result::Err(EncodeError::TooLarge) => spec_normalize_list(
                params_model(func.inputs@),
            ) matches Option::Some(ts) && 4 + spec_params_block(ts, strategy, caller@).len()
                > usize::MAX,
        },
{
    let tys = match normalize_components(&func.inputs) {
        Result::Ok(tys) => tys,
        Result::Err(e) => {
            return Err(EncodeError::Parse(e));
        },
    };
    let mut selector = selector_of(&func.name, &tys);
    let whole = CanonicalType::Tuple(tys);
    let tree = synthesize(&whole, strategy, caller);
    proof {
        assert(crate::abi::ty_model(whole) == TypeModel::Tuple(ty_models(whole->Tuple_0@)));
        assert(vt_model(tree) == crate::synth::ValueModel::Tuple(
            spec_synth_list(ty_models(whole->Tuple_0@), strategy, caller@),
        ));
        assert(spec_enc(vt_model(tree)) == spec_enc_seq(
            spec_synth_list(ty_models(whole->Tuple_0@), strategy, caller@),
        ));
    }
    let mut body = match enc_value(&tree) {
        Option::Some(b) => b,
        Option::None => {
            return Err(EncodeError::TooLarge);
        },
    };
    if body.len() > usize::MAX - 4 {
        return Err(EncodeError::TooLarge);
    }
    selector.append(&mut body);
    Ok(selector)
}

/// Encodes constructor arguments (no selector) under one strategy. An
/// absent constructor or an empty constructor parameter list encodes to
/// zero bytes.
pub fn encode_constructor_args_with_strategy(
    abi: &AbiDescription,
    strategy: CallStrategy,
    caller: &Vec<u8>,
) -> (r: Result<Vec<u8>, EncodeError>)
    requires
        caller@.len() == 20,
    ensures
        match r {
            Result::Ok(b) => match abi.constructor {
                Option::None => b@ == Seq::<u8>::empty(),
                Option::Some(ps) => if ps@.len() == 0 {
                    b@ == Seq::<u8>::empty()
                } else {
                    spec_normalize_list(params_model(ps@)) matches Option::Some(ts) && b@
                        == spec_params_block(ts, strategy, caller@)
                },
            },
            Result::Err(EncodeError::Parse(e)) => abi.constructor matches Option::Some(ps)
                && ps@.len() > 0 && (spec_normalize_list(params_model(ps@)) is None && e.tag@
                == crate::abi::spec_bad_tag_list(params_model(ps@))),
            Result::Err(EncodeError::TooLarge) => abi.constructor matches Option::Some(ps)
                && ps@.len() > 0 && (spec_normalize_list(params_model(ps@)) matches Option::Some(
                ts,
            ) && spec_params_block(ts, strategy, caller@).len() > usize::MAX),
        },
{
    let ps = match &abi.constructor {
        Option::Some(ps) => ps,
        Option::None => {
            return Ok(Vec::new());
        },
    };
    if ps.len() == 0 {
        return Ok(Vec::new());
    }
    let tys = match normalize_components(ps) {
        Result::Ok(tys) => tys,
        Result::Err(e) => {
            return Err(EncodeError::Parse(e));
        },
    };
    let whole = CanonicalType::Tuple(tys);
    let tree = synthesize(&whole, strategy, caller);
    proof {
        assert(crate::abi::ty_model(whole) == TypeModel::Tuple(ty_models(whole->Tuple_0@)));
        assert(vt_model(tree) == crate::synth::ValueModel::Tuple(
            spec_synth_list(ty_models(whole->Tuple_0@), strategy, caller@),
        ));
        assert(spec_enc(vt_model(tree)) == spec_enc_seq(
            spec_synth_list(ty_models(whole->Tuple_0@), strategy, caller@),
        ));
    }
    match enc_value(&tree) {
        Option::Some(b) => Ok(b),
        Option::None => Err(EncodeError::TooLarge),
    }
}

/// Selector/empty-parameter law: under every strategy the parameter
/// block of an empty parameter list is empty, so a function with zero
/// parameters encodes to exactly its 4-byte selector and nothing else.
pub proof fn lemma_empty_params_selector_only(s: CallStrategy, caller: Seq<u8>)
    ensures
        spec_params_block(Seq::empty(), s, caller) == Seq::<u8>::empty(),
{
    let vs = spec_synth_list(Seq::empty(), s, caller);
    assert(vs =~= Seq::<crate::synth::ValueModel>::empty());
    assert(crate::encode::enc_heads(vs, crate::encode::heads_len(vs)) =~= Seq::<u8>::empty());
    assert(crate::encode::enc_tails(vs) =~= Seq::<u8>::empty());
    assert(spec_params_block(Seq::empty(), s, caller) =~= Seq::<u8>::empty());
}

} // verus!
