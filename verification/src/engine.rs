//! The execution ranking engine: tries synthesis strategies in a fixed
//! order against the execution engine, for deployment and for each
//! function, keeping the best outcome under the total order
//! Success > Revert > Halt and stopping early on Success.

use vstd::prelude::*;
use revm::database::CacheDB;
use revm::database_interface::EmptyDB;
use crate::abi::{params_model, spec_normalize_list, normalize_components};
use crate::calldata::{AbiDescription, CompiledContract, FunctionAbi,
    encode_calldata_with_strategy, encode_constructor_args_with_strategy};
use crate::evm::{caller_address, evm_call, evm_deploy, setup_db, spec_caller_address};
use crate::sig::{hex_chars, hex_prefixed, selector_of, signature_string, spec_selector,
    spec_signature};
use crate::types::{CallStrategy, DeployError, ExecutionStatus, FunctionReport, spec_status_rank,
    spec_strategy_label, status_rank, strategy_label};
use crate::words::copy_bytes;

verus! {

/// The fixed order in which strategies are tried for a function call.
pub open spec fn strategy_at(i: int) -> CallStrategy {
    if i == 0 {
        CallStrategy::SmartDefaults
    } else if i == 1 {
        CallStrategy::CallerAddress
    } else {
        CallStrategy::ZeroDefaults
    }
}

/// The fixed order in which strategies are tried for deployment (the
/// caller-address strategy is not attempted: a constructor has no
/// sender-scoped semantics worth special-casing).
pub open spec fn deploy_strategy_at(i: int) -> CallStrategy {
    if i == 0 {
        CallStrategy::SmartDefaults
    } else {
        CallStrategy::ZeroDefaults
    }
}

/// Per-function strategy sweep: which strategy comes next, the best
/// report seen so far, and whether a Success ended the sweep early.
pub struct Sweep {
    pub next_idx: usize,
    pub best: Option<FunctionReport>,
    pub done: bool,
}

/// A sweep never walks past the end of the strategy list.
pub open spec fn sweep_wf(s: Sweep) -> bool {
    s.next_idx <= 3
}

/// The starting sweep state.
pub open spec fn spec_sweep_init() -> Sweep {
    Sweep { next_idx: 0, best: Option::None, done: false }
}

/// Which strategy the sweep tries next: none once all three were
/// attempted or a Success was recorded.
pub open spec fn spec_sweep_next(s: Sweep) -> Option<CallStrategy> {
    if s.done || s.next_idx >= 3 {
        Option::None
    } else {
        Option::Some(strategy_at(s.next_idx as int))
    }
}

/// Recording an outcome advances the sweep, keeps the report exactly
/// when it outranks the best so far (ties keep the earlier report), and
/// ends the sweep on Success.
pub open spec fn spec_sweep_record(s: Sweep, r: FunctionReport) -> Sweep {
    let better = match s.best {
        Option::None => true,
        Option::Some(b) => spec_status_rank(r.status) > spec_status_rank(b.status),
    };
    Sweep {
        next_idx: ((s.next_idx + 1) as usize),
        best: if better {
            Option::Some(r)
        } else {
            s.best
        },
        done: s.done || r.status is Success,
    }
}

/// A strategy whose encoding or submission failed is skipped: the sweep
/// advances with nothing recorded.
pub open spec fn spec_sweep_skip(s: Sweep) -> Sweep {
    Sweep { next_idx: ((s.next_idx + 1) as usize), best: s.best, done: s.done }
}

/// One sweep step: a skipped strategy, or a completed submission's
/// report.
pub open spec fn spec_sweep_step(s: Sweep, attempt: Option<FunctionReport>) -> Sweep {
    match attempt {
        Option::Some(r) => spec_sweep_record(s, r),
        Option::None => spec_sweep_skip(s),
    }
}

/// The sweep state after a whole trace of attempts, in trial order.
pub open spec fn spec_sweep_fold(s: Sweep, trace: Seq<Option<FunctionReport>>) -> Sweep
    decreases trace.len(),
{
    if trace.len() == 0 {
        s
    } else {
        spec_sweep_fold(spec_sweep_step(s, trace[0]), trace.drop_first())
    }
}

/// Folding one more attempt steps the folded state once.
proof fn lemma_sweep_fold_push(s: Sweep, trace: Seq<Option<FunctionReport>>, x: Option<
    FunctionReport,
>)
    ensures
        spec_sweep_fold(s, trace.push(x)) == spec_sweep_step(spec_sweep_fold(s, trace), x),
    decreases trace.len(),
{
    if trace.len() == 0 {
        let p = trace.push(x);
        assert(p[0] == x);
        assert(p.drop_first() =~= Seq::<Option<FunctionReport>>::empty());
        assert(spec_sweep_fold(s, p) == spec_sweep_fold(spec_sweep_step(s, x), p.drop_first()));
        assert(spec_sweep_fold(spec_sweep_step(s, x), Seq::<Option<FunctionReport>>::empty())
            == spec_sweep_step(s, x));
        assert(spec_sweep_fold(s, trace) == s);
    } else {
        lemma_sweep_fold_push(spec_sweep_step(s, trace[0]), trace.drop_first(), x);
        assert(trace.push(x).drop_first() =~= trace.drop_first().push(x));
        assert(trace.push(x)[0] == trace[0]);
        assert(spec_sweep_fold(s, trace.push(x)) == spec_sweep_fold(
            spec_sweep_step(s, trace[0]),
            trace.drop_first().push(x),
        ));
        assert(spec_sweep_fold(s, trace) == spec_sweep_fold(
            spec_sweep_step(s, trace[0]),
            trace.drop_first(),
        ));
    }
}

impl Sweep {
    /// A fresh sweep: the smart defaults come first, nothing recorded.
    pub fn new() -> (r: Sweep)
        ensures
            r == spec_sweep_init(),
    {
        Sweep { next_idx: 0, best: None, done: false }
    }

    /// The strategy to try next, if any.
    pub fn next_strategy(&self) -> (r: Option<CallStrategy>)
        ensures
            r == spec_sweep_next(*self),
    {
        if self.done || self.next_idx >= 3 {
            return None;
        }
        if self.next_idx == 0 {
            Some(CallStrategy::SmartDefaults)
        } else if self.next_idx == 1 {
            Some(CallStrategy::CallerAddress)
        } else {
            Some(CallStrategy::ZeroDefaults)
        }
    }

    /// Skips the current strategy.
    pub fn skip(&mut self)
        requires
            sweep_wf(*old(self)),
            spec_sweep_next(*old(self)) is Some,
        ensures
            *final(self) == spec_sweep_skip(*old(self)),
    {
        self.next_idx = self.next_idx + 1;
    }

    /// Records a completed submission's report.
    pub fn record(&mut self, r: FunctionReport)
        requires
            sweep_wf(*old(self)),
            spec_sweep_next(*old(self)) is Some,
        ensures
            *final(self) == spec_sweep_record(*old(self), r),
    {
        let better = match &self.best {
            None => true,
            Some(b) => status_rank(&r.status) > status_rank(&b.status),
        };
        if r.status == ExecutionStatus::Success {
            self.done = true;
        }
        if better {
            self.best = Some(r);
        }
        self.next_idx = self.next_idx + 1;
    }

    /// The best report observed, if any submission completed.
    pub fn into_best(self) -> (r: Option<FunctionReport>)
        ensures
            r == self.best,
    {
        self.best
    }
}

/// Ranking idempotence on early exit: when the first-tried strategy's
/// outcome is a Success, the sweep records it as best and attempts no
/// further strategy.
pub proof fn lemma_early_exit_on_success(r: FunctionReport)
    requires
        r.status is Success,
    ensures
        spec_sweep_next(spec_sweep_init()) == Option::Some(CallStrategy::SmartDefaults),
        spec_sweep_record(spec_sweep_init(), r).best == Option::Some(r),
        spec_sweep_next(spec_sweep_record(spec_sweep_init(), r)) is None,
{
}

/// Ranking correctness: a recorded outcome replaces the best so far
/// exactly when its classification ranks strictly higher, so ties keep
/// the earliest-tried strategy's report.
pub proof fn lemma_ranking_keeps_best(s: Sweep, r: FunctionReport)
    ensures
        s.best matches Option::Some(b) ==> (spec_sweep_record(s, r).best == (if spec_status_rank(
            r.status,
        ) > spec_status_rank(b.status) {
            Option::Some(r)
        } else {
            Option::Some(b)
        })),
        s.best is None ==> spec_sweep_record(s, r).best == Option::Some(r),
{
}

/// Per-contract deployment sweep over the fixed two-strategy order.
pub struct DeploySweep {
    pub next_idx: usize,
}

/// Which deployment strategy comes next.
pub open spec fn spec_deploy_next(s: DeploySweep) -> Option<CallStrategy> {
    if s.next_idx >= 2 {
        Option::None
    } else {
        Option::Some(deploy_strategy_at(s.next_idx as int))
    }
}

impl DeploySweep {
    /// A fresh deployment sweep: smart defaults, then zero defaults.
    pub fn new() -> (r: DeploySweep)
        ensures
            r == (DeploySweep { next_idx: 0usize }),
    {
        DeploySweep { next_idx: 0 }
    }

    /// The deployment strategy to try next, if any.
    pub fn next_strategy(&self) -> (r: Option<CallStrategy>)
        ensures
            r == spec_deploy_next(*self),
    {
        if self.next_idx == 0 {
            Some(CallStrategy::SmartDefaults)
        } else if self.next_idx == 1 {
            Some(CallStrategy::ZeroDefaults)
        } else {
            None
        }
    }

    /// A failed attempt moves on to the next strategy.
    pub fn fail(&mut self)
        requires
            old(self).next_idx < 2,
        ensures
            final(self).next_idx == old(self).next_idx + 1,
    {
        self.next_idx = self.next_idx + 1;
    }
}

/// Whether one function report is exactly the report owed to `f`: the
/// function's name, the hex-rendered selector and canonical signature
/// of its normalized parameter list, and one of the three strategy
/// labels.
pub open spec fn report_matches(f: FunctionAbi, rep: FunctionReport) -> bool {
    &&& rep.name@ == f.name@
    &&& spec_normalize_list(params_model(f.inputs@)) matches Option::Some(ts) && rep.selector@
        == "0x"@ + hex_chars(spec_selector(f.name@, ts)) && rep.signature@ == spec_signature(
        f.name@,
        ts,
    )
    &&& rep.strategy matches Option::Some(l) && (l@ == spec_strategy_label(
        CallStrategy::SmartDefaults,
    ) || l@ == spec_strategy_label(CallStrategy::CallerAddress) || l@ == spec_strategy_label(
        CallStrategy::ZeroDefaults,
    ))
}

/// Whether constructor-argument encoding fails under a strategy: a
/// non-empty constructor parameter list whose normalization fails or
/// whose encoded block would not fit in memory.
pub open spec fn ctor_encoding_fails(abi: AbiDescription, s: CallStrategy, caller: Seq<u8>) -> bool {
    abi.constructor matches Option::Some(ps) && ps@.len() > 0 && (match spec_normalize_list(
        params_model(ps@),
    ) {
        Option::None => true,
        Option::Some(ts) => crate::calldata::spec_params_block(ts, s, caller).len() > usize::MAX,
    })
}

/// Whether the constructor parameter list exists, is non-empty, and
/// fails type normalization (so no strategy can encode it).
pub open spec fn ctor_unnormalizable(abi: AbiDescription) -> bool {
    abi.constructor matches Option::Some(ps) && ps@.len() > 0 && spec_normalize_list(
        params_model(ps@),
    ) is None
}

/// A faithful record of the deployment attempts: entry `i` is the
/// failure of the attempt under the `i`-th deployment strategy (smart
/// defaults first, then zero defaults; the caller-address strategy is
/// never attempted), and an entry is an encoding failure exactly when
/// that strategy's constructor encoding fails. The outcome is `None`
/// when the attempt after the recorded failures deployed (first
/// success wins), and the last failure when both attempts failed.
pub open spec fn deploy_trace_ok(
    abi: AbiDescription,
    caller: Seq<u8>,
    fails: Seq<DeployError>,
    outcome: Option<DeployError>,
) -> bool {
    &&& (forall|i: int|
        0 <= i < fails.len() ==> ((#[trigger] fails[i]) == DeployError::Encoding
            <==> ctor_encoding_fails(abi, deploy_strategy_at(i), caller)))
    &&& match outcome {
        Option::None => fails.len() < 2,
        Option::Some(e) => fails.len() == 2 && e == fails[1],
    }
}

/// Deployment fallback: the first strategy tried is the smart defaults,
/// and after one failed attempt the zero defaults are attempted next;
/// after both fail, nothing further is attempted.
pub proof fn lemma_deployment_fallback()
    ensures
        spec_deploy_next(DeploySweep { next_idx: 0usize }) == Option::Some(
            CallStrategy::SmartDefaults,
        ),
        spec_deploy_next(DeploySweep { next_idx: 1usize }) == Option::Some(
            CallStrategy::ZeroDefaults,
        ),
        spec_deploy_next(DeploySweep { next_idx: 2usize }) is None,
{
}

/// Tries deploying under each deployment strategy in order (smart
/// defaults, then zero defaults; the caller-address strategy is never
/// attempted); each attempt submits the bytecode concatenated with
/// that strategy's constructor-argument block against a fresh funded
/// ledger. The first strategy that yields a deployed address wins and
/// its resulting ledger state becomes the contract's baseline; when
/// every strategy is exhausted the last failure is reported.
pub fn deploy_best(contract: &CompiledContract, caller: &Vec<u8>) -> (r: Result<
    (CacheDB<EmptyDB>, Vec<u8>),
    DeployError,
>)
    requires
        caller@.len() == 20,
    ensures
        r matches Ok(p) ==> p.1@.len() == 20,
        ctor_unnormalizable(contract.abi) ==> r == Err::<
            (CacheDB<EmptyDB>, Vec<u8>),
            DeployError,
        >(DeployError::Encoding),
        r matches Ok(_) ==> exists|fails: Seq<DeployError>|
            #[trigger] deploy_trace_ok(contract.abi, caller@, fails, Option::None),
        r matches Err(e) ==> exists|fails: Seq<DeployError>|
            #[trigger] deploy_trace_ok(contract.abi, caller@, fails, Option::Some(e)),
{
    let mut sweep = DeploySweep::new();
    let mut last: DeployError = DeployError::Encoding;
    let ghost mut fails: Seq<DeployError> = Seq::empty();
    loop
        invariant
            caller@.len() == 20,
            sweep.next_idx <= 2,
            fails.len() == sweep.next_idx,
            forall|i: int|
                0 <= i < fails.len() ==> ((#[trigger] fails[i]) == DeployError::Encoding
                    <==> ctor_encoding_fails(contract.abi, deploy_strategy_at(i), caller@)),
            fails.len() > 0 ==> last == fails.last(),
            ctor_unnormalizable(contract.abi) ==> forall|i: int|
                0 <= i < fails.len() ==> (#[trigger] fails[i]) == DeployError::Encoding,
        decreases 2 - sweep.next_idx,
    {
        let strategy = match sweep.next_strategy() {
            Some(s) => s,
            None => {
                proof {
                    assert(fails.len() == 2);
                    assert(last == fails[1]);
                    assert(deploy_trace_ok(
                        contract.abi,
                        caller@,
                        fails,
                        Option::Some(last),
                    ));
                }
                return Err(last);
            },
        };
        let args = match encode_constructor_args_with_strategy(&contract.abi, strategy, caller) {
            Ok(a) => a,
            Err(_) => {
                proof {
                    assert(ctor_encoding_fails(contract.abi, strategy, caller@));
                    fails = fails.push(DeployError::Encoding);
                }
                last = DeployError::Encoding;
                sweep.fail();
                continue ;
            },
        };
        proof {
            // A successful encoding rules the encoding failure out for
            // this strategy: the block is a real vector, so it fits.
            assert(args@.len() == args.len());
            assert(!ctor_encoding_fails(contract.abi, strategy, caller@));
        }
        let mut data = copy_bytes(&contract.bytecode);
        let mut tail = args;
        data.append(&mut tail);
        match evm_deploy(setup_db(caller), caller, &data) {
            Ok(p) => {
                proof {
                    assert(!ctor_unnormalizable(contract.abi));
                    assert(deploy_trace_ok(contract.abi, caller@, fails, Option::None));
                }
                return Ok(p);
            },
            Err(e) => {
                proof {
                    fails = fails.push(e);
                }
                last = e;
                sweep.fail();
            },
        }
    }
}

/// Tries each strategy in order for one function against the committed
/// baseline ledger, and returns the best-ranked completed report, its
/// strategy labeled; fails only when no strategy completes a
/// submission — in particular whenever the parameter list cannot be
/// normalized.
pub fn try_function(
    db: &mut CacheDB<EmptyDB>,
    addr: &Vec<u8>,
    func: &FunctionAbi,
    caller: &Vec<u8>,
) -> (r: Option<FunctionReport>)
    requires
        caller@.len() == 20,
        addr@.len() == 20,
    ensures
        spec_normalize_list(params_model(func.inputs@)) is None ==> r is None,
        r matches Some(rep) ==> report_matches(*func, rep),
        // The result is exactly what the ranking sweep selects over some
        // trace of per-strategy attempts, tried in the fixed order and
        // ended by the early-exit rule.
        exists|trace: Seq<Option<FunctionReport>>|
            {
                &&& trace.len() <= 3
                &&& (forall|i: int|
                    0 <= i < trace.len() ==> ((#[trigger] trace[i]) matches Some(rp)
                        ==> rp.strategy matches Some(l) && l@ == spec_strategy_label(
                        strategy_at(i),
                    )))
                &&& spec_sweep_next(#[trigger] spec_sweep_fold(spec_sweep_init(), trace)) is None
                &&& r == spec_sweep_fold(spec_sweep_init(), trace).best
            },
{
    let mut sweep = Sweep::new();
    let ghost mut trace: Seq<Option<FunctionReport>> = Seq::empty();
    loop
        invariant
            caller@.len() == 20,
            addr@.len() == 20,
            sweep_wf(sweep),
            sweep == spec_sweep_fold(spec_sweep_init(), trace),
            trace.len() == sweep.next_idx,
            forall|i: int|
                0 <= i < trace.len() ==> ((#[trigger] trace[i]) matches Some(rp)
                    ==> rp.strategy matches Some(l) && l@ == spec_strategy_label(
                    strategy_at(i),
                )),
            spec_normalize_list(params_model(func.inputs@)) is None ==> sweep.best is None,
            sweep.best matches Some(rep) ==> report_matches(*func, rep),
        decreases 3 - sweep.next_idx, (if sweep.done {
            0int
        } else {
            1int
        }),
    {
        let strategy = match sweep.next_strategy() {
            Some(s) => s,
            None => {
                proof {
                    assert(trace.len() <= 3 && spec_sweep_next(
                        spec_sweep_fold(spec_sweep_init(), trace),
                    ) is None);
                }
                return sweep.into_best();
            },
        };
        let cd = match encode_calldata_with_strategy(func, strategy, caller) {
            Ok(cd) => cd,
            Err(_) => {
                proof {
                    lemma_sweep_fold_push(spec_sweep_init(), trace, Option::None);
                    trace = trace.push(Option::None);
                }
                sweep.skip();
                continue ;
            },
        };
        let (gas, status) = match evm_call(db, caller, addr, &cd) {
            Ok(g) => g,
            Err(_) => {
                proof {
                    lemma_sweep_fold_push(spec_sweep_init(), trace, Option::None);
                    trace = trace.push(Option::None);
                }
                sweep.skip();
                continue ;
            },
        };
        // The encoding above succeeded, so normalization cannot fail
        // here; the failure arm is unreachable.
        let tys = match normalize_components(&func.inputs) {
            Ok(tys) => tys,
            Err(_) => {
                proof {
                    assert(false);
                }
                sweep.skip();
                continue ;
            },
        };
        let selector = selector_of(&func.name, &tys);
        let report = FunctionReport {
            name: func.name.clone(),
            selector: hex_prefixed(&selector),
            signature: signature_string(&func.name, &tys),
            gas,
            status,
            strategy: Some(strategy_label(strategy)),
        };
        proof {
            lemma_sweep_fold_push(spec_sweep_init(), trace, Option::Some(report));
            trace = trace.push(Option::Some(report));
        }
        sweep.record(report);
    }
}

/// The declared functions, in order, are partitioned into reports and
/// skipped names: walking the declarations from the end, each function
/// is either the last remaining report (and that report is exactly the
/// one owed to it) or the last remaining skipped name.
pub open spec fn reports_partition(
    funcs: Seq<FunctionAbi>,
    reports: Seq<FunctionReport>,
    skipped: Seq<String>,
) -> bool
    decreases funcs,
{
    if funcs.len() == 0 {
        reports.len() == 0 && skipped.len() == 0
    } else {
        ||| (reports.len() > 0 && report_matches(funcs.last(), reports.last())
            && reports_partition(funcs.drop_last(), reports.drop_last(), skipped))
        ||| (skipped.len() > 0 && skipped.last()@ == funcs.last().name@ && reports_partition(
            funcs.drop_last(),
            reports,
            skipped.drop_last(),
        ))
    }
}

/// Deploys the contract (first workable strategy wins; failure
/// abandons the contract with no reports, the failure surfaced to the
/// caller) and then runs every interface function once against the
/// committed baseline, collecting one report per function that
/// completed a submission and the names of the skipped functions, in
/// declaration order.
pub fn execute_contract(contract: &CompiledContract) -> (r: Result<
    (Vec<FunctionReport>, Vec<String>),
    DeployError,
>)
    ensures
        r matches Ok(p) ==> {
            &&& p.0@.len() + p.1@.len() == contract.abi.functions@.len()
            &&& reports_partition(contract.abi.functions@, p.0@, p.1@)
        },
        ctor_unnormalizable(contract.abi) ==> r == Err::<
            (Vec<FunctionReport>, Vec<String>),
            DeployError,
        >(DeployError::Encoding),
        // An error comes only from deployment, after both deployment
        // strategies failed; it is the last observed failure.
        r matches Err(e) ==> exists|fails: Seq<DeployError>|
            #[trigger] deploy_trace_ok(
                contract.abi,
                spec_caller_address(),
                fails,
                Option::Some(e),
            ),
{
    let caller = caller_address();
    let (mut db, addr) = match deploy_best(contract, &caller) {
        Ok(p) => p,
        Err(e) => {
            proof {
                let fails = choose|fails: Seq<DeployError>|
                    #[trigger] deploy_trace_ok(contract.abi, caller@, fails, Option::Some(e));
                assert(deploy_trace_ok(
                    contract.abi,
                    spec_caller_address(),
                    fails,
                    Option::Some(e),
                ));
            }
            return Err(e);
        },
    };
    let mut reports: Vec<FunctionReport> = Vec::new();
    let mut skipped: Vec<String> = Vec::new();
    let n = contract.abi.functions.len();
    let mut i: usize = 0;
    proof {
        assert(contract.abi.functions@.take(0) =~= Seq::<FunctionAbi>::empty());
    }
    while i < n
        invariant
            i <= n,
            n == contract.abi.functions@.len(),
            caller@.len() == 20,
            addr@.len() == 20,
            reports@.len() + skipped@.len() == i,
            reports_partition(contract.abi.functions@.take(i as int), reports@, skipped@),
        decreases n - i,
    {
        let ghost funcs = contract.abi.functions@;
        proof {
            assert(funcs.take(i + 1).drop_last() =~= funcs.take(i as int));
            assert(funcs.take(i + 1).last() == funcs[i as int]);
        }
        match try_function(&mut db, &addr, &contract.abi.functions[i], &caller) {
            Some(rep) => {
                let ghost before = reports@;
                let ghost gr = rep;
                reports.push(rep);
                proof {
                    assert(reports@.drop_last() =~= before);
                    assert(reports@.last() == gr);
                    assert(reports_partition(funcs.take(i + 1), reports@, skipped@));
                }
            },
            None => {
                let ghost before = skipped@;
                skipped.push(contract.abi.functions[i].name.clone());
                proof {
                    assert(skipped@.drop_last() =~= before);
                    assert(skipped@.last()@ == funcs[i as int].name@);
                    assert(reports_partition(funcs.take(i + 1), reports@, skipped@));
                }
            },
        }
        i += 1;
    }
    proof {
        assert(contract.abi.functions@.take(n as int) =~= contract.abi.functions@);
    }
    Ok((reports, skipped))
}

} // verus!
