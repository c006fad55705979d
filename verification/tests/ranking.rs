//! Ranking-engine tests: strategy order, early exit, outcome ranking
//! with canned results, deployment fallback, and end-to-end execution
//! against the real execution engine with hand-assembled bytecode.

use sigscan::abi::Param;
use sigscan::calldata::{AbiDescription, CompiledContract, FunctionAbi};
use sigscan::engine::{deploy_best, execute_contract, DeploySweep, Sweep};
use sigscan::evm::caller_address;
use sigscan::linker::{find_foundry_root, replace_library_placeholders};
use sigscan::types::{
    status_rank, strategy_label, CallStrategy, DeployError, ExecutionStatus, FunctionReport,
};

fn report(status: ExecutionStatus, label: &str) -> FunctionReport {
    FunctionReport {
        name: "f".to_string(),
        selector: "0x00000000".to_string(),
        signature: "f()".to_string(),
        gas: 21000,
        status,
        strategy: Some(label.to_string()),
    }
}

#[test]
fn status_ranks_order_success_over_revert_over_halt() {
    assert_eq!(status_rank(&ExecutionStatus::Success), 2);
    assert_eq!(status_rank(&ExecutionStatus::Revert), 1);
    assert_eq!(status_rank(&ExecutionStatus::Halt), 0);
}

#[test]
fn strategy_labels() {
    assert_eq!(strategy_label(CallStrategy::SmartDefaults), "smart_defaults");
    assert_eq!(strategy_label(CallStrategy::CallerAddress), "caller_address");
    assert_eq!(strategy_label(CallStrategy::ZeroDefaults), "zero_defaults");
}

#[test]
fn sweep_tries_strategies_in_fixed_order() {
    let mut sweep = Sweep::new();
    assert_eq!(sweep.next_strategy(), Some(CallStrategy::SmartDefaults));
    sweep.skip();
    assert_eq!(sweep.next_strategy(), Some(CallStrategy::CallerAddress));
    sweep.skip();
    assert_eq!(sweep.next_strategy(), Some(CallStrategy::ZeroDefaults));
    sweep.skip();
    assert_eq!(sweep.next_strategy(), None);
    assert!(sweep.into_best().is_none());
}

#[test]
fn success_on_first_strategy_stops_the_sweep() {
    let mut sweep = Sweep::new();
    let mut attempts = 0;
    while let Some(s) = sweep.next_strategy() {
        attempts += 1;
        assert_eq!(s, CallStrategy::SmartDefaults);
        sweep.record(report(ExecutionStatus::Success, "smart_defaults"));
    }
    assert_eq!(attempts, 1);
    let best = sweep.into_best().unwrap();
    assert_eq!(best.status, ExecutionStatus::Success);
    assert_eq!(best.strategy.as_deref(), Some("smart_defaults"));
}

#[test]
fn three_canned_outcomes_keep_the_revert() {
    let canned = [
        (ExecutionStatus::Halt, "smart_defaults"),
        (ExecutionStatus::Revert, "caller_address"),
        (ExecutionStatus::Halt, "zero_defaults"),
    ];
    let mut sweep = Sweep::new();
    let mut attempts = 0;
    while let Some(_s) = sweep.next_strategy() {
        let (status, label) = canned[attempts];
        attempts += 1;
        sweep.record(report(status, label));
    }
    assert_eq!(attempts, 3);
    let best = sweep.into_best().unwrap();
    assert_eq!(best.status, ExecutionStatus::Revert);
    assert_eq!(best.strategy.as_deref(), Some("caller_address"));
}

#[test]
fn tie_keeps_the_earliest_strategy() {
    let mut sweep = Sweep::new();
    sweep.next_strategy().unwrap();
    sweep.record(report(ExecutionStatus::Revert, "smart_defaults"));
    sweep.next_strategy().unwrap();
    sweep.record(report(ExecutionStatus::Revert, "caller_address"));
    sweep.next_strategy().unwrap();
    sweep.record(report(ExecutionStatus::Halt, "zero_defaults"));
    let best = sweep.into_best().unwrap();
    assert_eq!(best.strategy.as_deref(), Some("smart_defaults"));
}

#[test]
fn deployment_tries_smart_then_zero_defaults() {
    let mut sweep = DeploySweep::new();
    assert_eq!(sweep.next_strategy(), Some(CallStrategy::SmartDefaults));
    sweep.fail();
    assert_eq!(sweep.next_strategy(), Some(CallStrategy::ZeroDefaults));
    sweep.fail();
    assert_eq!(sweep.next_strategy(), None);
}

/// Init code that returns a one-byte runtime (`STOP`), accepting any
/// constructor arguments.
fn stop_contract_bytecode() -> Vec<u8> {
    vec![
        0x60, 0x01, 0x60, 0x0c, 0x60, 0x00, 0x39, // CODECOPY(0, 12, 1)
        0x60, 0x01, 0x60, 0x00, 0xf3, // RETURN(0, 1)
        0x00, // runtime: STOP
    ]
}

/// Init code for a constructor taking one bool word appended to the
/// code: it reverts when the argument is non-zero and otherwise
/// deploys an empty runtime. Under the smart defaults the bool is
/// true, so deployment must fall back to the zero defaults.
fn revert_on_true_bytecode() -> Vec<u8> {
    vec![
        0x60, 0x20, // PUSH1 32 (copy length)
        0x60, 0x20, 0x36, 0x03, // PUSH1 32, CODESIZE, SUB (arg offset)
        0x60, 0x00, // PUSH1 0 (dest)
        0x39, // CODECOPY
        0x60, 0x00, 0x51, // MLOAD(0)
        0x60, 0x14, 0x57, // JUMPI -> 20 when arg != 0
        0x60, 0x00, 0x60, 0x00, 0xf3, // RETURN(0, 0): empty runtime
        0x5b, // JUMPDEST (offset 20)
        0x60, 0x00, 0x60, 0x00, 0xfd, // REVERT(0, 0)
    ]
}

fn contract(name: &str, ctor: Option<Vec<Param>>, funcs: Vec<FunctionAbi>, code: Vec<u8>)
    -> CompiledContract {
    CompiledContract {
        name: name.to_string(),
        abi: AbiDescription {
            constructor: ctor,
            functions: funcs,
        },
        bytecode: code,
    }
}

#[test]
fn executes_a_function_against_the_engine() {
    let c = contract(
        "Stopper",
        None,
        vec![FunctionAbi {
            name: "ping".to_string(),
            inputs: Vec::new(),
        }],
        stop_contract_bytecode(),
    );
    let (reports, skipped) = execute_contract(&c).expect("deployment should succeed");
    assert_eq!(skipped.len(), 0);
    assert_eq!(reports.len(), 1);
    let r = &reports[0];
    assert_eq!(r.name, "ping");
    assert_eq!(r.signature, "ping()");
    let expected = alloy_primitives::keccak256("ping()".as_bytes());
    assert_eq!(r.selector, format!("0x{}", hex::encode(&expected[..4])));
    assert_eq!(r.status, ExecutionStatus::Success);
    assert_eq!(r.strategy.as_deref(), Some("smart_defaults"));
    assert!(r.gas >= 21000);
}

#[test]
fn deployment_falls_back_to_zero_defaults_on_constructor_revert() {
    let c = contract(
        "Picky",
        Some(vec![Param {
            ty: "bool".to_string(),
            components: Vec::new(),
        }]),
        Vec::new(),
        revert_on_true_bytecode(),
    );
    // Smart defaults pass `true`, which reverts; zero defaults pass
    // `false` and must win.
    let caller = caller_address();
    let deployed = deploy_best(&c, &caller);
    assert!(deployed.is_ok());
    let (reports, skipped) = execute_contract(&c).unwrap();
    assert!(reports.is_empty());
    assert!(skipped.is_empty());
}

#[test]
fn deployment_that_always_reverts_reports_the_failure() {
    let c = contract(
        "Never",
        None,
        Vec::new(),
        vec![0x60, 0x00, 0x60, 0x00, 0xfd], // REVERT(0, 0)
    );
    let r = execute_contract(&c);
    assert!(matches!(r, Err(DeployError::Reverted)));
}

#[test]
fn placeholder_replacement_preserves_length() {
    let token = format!("__${}$__", "a".repeat(34));
    assert_eq!(token.len(), 40);
    let zeros = "0".repeat(40);

    // Start, middle, and end of the byte string.
    for (input, expected) in [
        (format!("{token}6001"), format!("{zeros}6001")),
        (format!("6001{token}6002"), format!("6001{zeros}6002")),
        (format!("6001{token}"), format!("6001{zeros}")),
        ("600160026003".to_string(), "600160026003".to_string()),
        (
            format!("{token}60{token}"),
            format!("{zeros}60{zeros}"),
        ),
    ] {
        let out = replace_library_placeholders(&input.as_bytes().to_vec());
        assert_eq!(out.len(), input.len());
        assert_eq!(out, expected.as_bytes().to_vec());
    }
}

#[test]
fn unterminated_placeholder_is_copied_unchanged() {
    let input = b"6001__$abc".to_vec();
    let out = replace_library_placeholders(&input);
    assert_eq!(out, input);
}

#[test]
fn find_foundry_root_picks_nearest_marked_ancestor() {
    assert_eq!(find_foundry_root(&vec![false, true, true]), Some(1));
    assert_eq!(find_foundry_root(&vec![true]), Some(0));
    assert_eq!(find_foundry_root(&vec![false, false]), None);
    assert_eq!(find_foundry_root(&Vec::new()), None);
}

#[test]
fn deployment_that_halts_reports_the_failure() {
    let c = contract(
        "Broken",
        None,
        Vec::new(),
        vec![0xfe], // INVALID opcode: the creation halts
    );
    let r = execute_contract(&c);
    assert!(matches!(r, Err(DeployError::Halted)));
}

#[test]
fn unparseable_constructor_descriptor_reports_encoding_failure() {
    let c = contract(
        "BadCtor",
        Some(vec![Param {
            ty: "notatype".to_string(),
            components: Vec::new(),
        }]),
        Vec::new(),
        stop_contract_bytecode(),
    );
    let r = execute_contract(&c);
    assert!(matches!(r, Err(DeployError::Encoding)));
}
