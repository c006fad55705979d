//! The execution-engine boundary: revm's in-memory ledger and its
//! transaction execution, behind trusted wrappers. The ledger state is
//! opaque here; the ranking engine only threads it through.

use vstd::prelude::*;
use alloy_primitives::{Address, Bytes, TxKind, U256};
use revm::context::TxEnv;
use revm::state::AccountInfo;
use revm::database::CacheDB;
use revm::database_interface::{EmptyDB, EmptyDBTyped};
use revm::context_interface::result::{ExecutionResult, Output};
use revm::{ExecuteCommitEvm, ExecuteEvm, MainBuilder, MainContext};
use crate::types::{CallFailure, DeployError, ExecutionStatus};
use crate::words::{unit_tail_vec, zero_seq};

verus! {

/// Hard per-transaction gas budget the engine enforces.
pub const GAS_LIMIT: u64 = 30_000_000;

#[verifier::external_type_specification]
#[verifier::external_body]
#[verifier::reject_recursive_types(ExtDB)]
pub struct ExCacheDB<ExtDB>(CacheDB<ExtDB>);

#[verifier::external_type_specification]
#[verifier::external_body]
#[verifier::reject_recursive_types(E)]
pub struct ExEmptyDBTyped<E>(EmptyDBTyped<E>);

/// The fixed caller identity every transaction is sent from.
pub open spec fn spec_caller_address() -> Seq<u8> {
    seq![16u8] + zero_seq(18) + seq![1u8]
}

/// The fixed 20-byte caller identity.
pub fn caller_address() -> (r: Vec<u8>)
    ensures
        r@ == spec_caller_address(),
        r@.len() == 20,
{
    let mut r: Vec<u8> = Vec::new();
    r.push(16u8);
    let mut mid = unit_tail_vec(19);
    r.append(&mut mid);
    proof {
        assert(r@ =~= spec_caller_address());
    }
    r
}

/// Relies on revm's CacheDB over an empty backing database: a fresh
/// ledger whose caller account is pre-funded with a large native-token
/// balance.
#[verifier::external_body]
pub(crate) fn setup_db(caller: &Vec<u8>) -> (db: CacheDB<EmptyDB>)
    requires
        caller@.len() == 20,
{
    let mut db = CacheDB::new(EmptyDB::new());
    let mut info = AccountInfo::default();
    info.balance = U256::from(10_000u64) * U256::from(10u64).pow(U256::from(18u64));
    info.nonce = 0;
    db.insert_account_info(Address::from_slice(caller), info);
    db
}

/// Relies on revm's transact_commit: submits a creation transaction,
/// commits its state changes on success, and classifies the result; a
/// deployed address is 20 bytes. The conversion arms below map the
/// engine's outcomes to the revert, halt, missing-address, and engine
/// failures only, never to an encoding failure.
#[verifier::external_body]
pub(crate) fn evm_deploy(db: CacheDB<EmptyDB>, caller: &Vec<u8>, data: &Vec<u8>) -> (r: Result<
    (CacheDB<EmptyDB>, Vec<u8>),
    DeployError,
>)
    requires
        caller@.len() == 20,
    ensures
        r matches Ok(p) ==> p.1@.len() == 20,
        r matches Err(e) ==> e != DeployError::Encoding,
{
    let mut ctx = revm::Context::mainnet().with_db(db);
    ctx.cfg.tx_gas_limit_cap = Some(GAS_LIMIT);
    let mut evm = ctx.build_mainnet();
    let mut tx = TxEnv::default();
    tx.caller = Address::from_slice(caller);
    tx.gas_limit = GAS_LIMIT;
    tx.kind = TxKind::Create;
    tx.data = Bytes::copy_from_slice(data);
    match evm.transact_commit(tx) {
        Ok(ExecutionResult::Success { output: Output::Create(_, Some(a)), .. }) => Ok((evm.ctx.journaled_state.database, a.to_vec())),
        Ok(ExecutionResult::Success { .. }) => Err(DeployError::NoAddress),
        Ok(ExecutionResult::Revert { .. }) => Err(DeployError::Reverted),
        Ok(ExecutionResult::Halt { .. }) => Err(DeployError::Halted),
        Err(_) => Err(DeployError::Engine),
    }
}

/// Relies on revm's transact: submits a call transaction without
/// committing it to the baseline ledger, and reads gas used plus the
/// outcome classification.
#[verifier::external_body]
pub(crate) fn evm_call(db: &mut CacheDB<EmptyDB>, caller: &Vec<u8>, addr: &Vec<u8>, calldata: &Vec<u8>)
    -> (r: Result<(u64, ExecutionStatus), CallFailure>)
    requires
        caller@.len() == 20,
        addr@.len() == 20,
{
    let mut ctx = revm::Context::mainnet().with_db(&mut *db);
    ctx.cfg.tx_gas_limit_cap = Some(GAS_LIMIT);
    let mut evm = ctx.build_mainnet();
    let mut tx = TxEnv::default();
    tx.caller = Address::from_slice(caller);
    tx.gas_limit = GAS_LIMIT;
    tx.kind = TxKind::Call(Address::from_slice(addr));
    tx.data = Bytes::copy_from_slice(calldata);
    tx.nonce = 1;
    let res = match evm.transact(tx) { Ok(r) => r, Err(_) => return Err(CallFailure {}) };
    Ok((res.result.tx_gas_used(), match res.result {
        ExecutionResult::Success { .. } => ExecutionStatus::Success,
        ExecutionResult::Revert { .. } => ExecutionStatus::Revert,
        ExecutionResult::Halt { .. } => ExecutionStatus::Halt,
    }))
}

} // verus!
