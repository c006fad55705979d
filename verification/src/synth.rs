//! Value synthesis: turns a Canonical Type and a Strategy into a concrete
//! Value Tree of identical shape. Pure and total: every canonical type
//! has a synthesizable value under every strategy.

use vstd::prelude::*;
use crate::abi::{CanonicalType, TypeModel, ty_model, ty_models};
use crate::types::CallStrategy;
use crate::words::{copy_bytes, unit_tail_vec, unit_word, zero_seq, zero_vec};

verus! {

/// Value Tree: a concrete instantiation of a Canonical Type. Integer
/// payloads are 32-byte big-endian words (sign-extended for signed
/// values); addresses are 20 bytes; function-selector payloads 24 bytes;
/// string payloads are UTF-8 bytes.
#[derive(Debug, PartialEq, Eq)]
pub enum ValueTree {
    Bool(bool),
    Uint(Vec<u8>, usize),
    Int(Vec<u8>, usize),
    Address(Vec<u8>),
    Bytes(Vec<u8>),
    FixedBytes(Vec<u8>, usize),
    Str(Vec<u8>),
    Function(Vec<u8>),
    Array(Vec<ValueTree>),
    FixedArray(Vec<ValueTree>),
    Tuple(Vec<ValueTree>),
}

/// Mathematical model of a Value Tree.
pub enum ValueModel {
    Bool(bool),
    Uint(Seq<u8>, nat),
    Int(Seq<u8>, nat),
    Address(Seq<u8>),
    Bytes(Seq<u8>),
    FixedBytes(Seq<u8>, nat),
    Str(Seq<u8>),
    Function(Seq<u8>),
    Array(Seq<ValueModel>),
    FixedArray(Seq<ValueModel>),
    Tuple(Seq<ValueModel>),
}

/// Model of a value tree.
pub open spec fn vt_model(v: ValueTree) -> ValueModel
    decreases v,
{
    match v {
        ValueTree::Bool(b) => ValueModel::Bool(b),
        ValueTree::Uint(w, b) => ValueModel::Uint(w@, b as nat),
        ValueTree::Int(w, b) => ValueModel::Int(w@, b as nat),
        ValueTree::Address(a) => ValueModel::Address(a@),
        ValueTree::Bytes(d) => ValueModel::Bytes(d@),
        ValueTree::FixedBytes(d, n) => ValueModel::FixedBytes(d@, n as nat),
        ValueTree::Str(d) => ValueModel::Str(d@),
        ValueTree::Function(d) => ValueModel::Function(d@),
        ValueTree::Array(es) => ValueModel::Array(vt_models(es@)),
        ValueTree::FixedArray(es) => ValueModel::FixedArray(vt_models(es@)),
        ValueTree::Tuple(es) => ValueModel::Tuple(vt_models(es@)),
    }
}

/// Models of a sequence of value trees, in order.
pub open spec fn vt_models(es: Seq<ValueTree>) -> Seq<ValueModel>
    decreases es,
{
    if es.len() == 0 {
        Seq::empty()
    } else {
        seq![vt_model(es[0])] + vt_models(es.drop_first())
    }
}

/// `n` copies of one value model.
pub open spec fn repeat_val(m: ValueModel, n: nat) -> Seq<ValueModel> {
    Seq::new(n, |i: int| m)
}

/// The value synthesized for type `t` under strategy `s`: minimal
/// non-zero leaves for the smart defaults, the caller identity at
/// address-typed leaves for the caller-address strategy, and all-zero or
/// empty canonical values for the zero defaults.
pub open spec fn spec_synth(t: TypeModel, s: CallStrategy, caller: Seq<u8>) -> ValueModel
    decreases t,
{
    let zero = s is ZeroDefaults;
    match t {
        TypeModel::Bool => ValueModel::Bool(!zero),
        TypeModel::Uint(b) => ValueModel::Uint(unit_word(zero), b),
        TypeModel::Int(b) => ValueModel::Int(unit_word(zero), b),
        TypeModel::Address => ValueModel::Address(
            match s {
                CallStrategy::SmartDefaults => zero_seq(19).push(1u8),
                CallStrategy::CallerAddress => caller,
                CallStrategy::ZeroDefaults => zero_seq(20),
            },
        ),
        TypeModel::Bytes => ValueModel::Bytes(
            if zero {
                Seq::empty()
            } else {
                seq![1u8]
            },
        ),
        TypeModel::FixedBytes(n) => ValueModel::FixedBytes(
            if zero || n == 0 {
                zero_seq(n)
            } else {
                zero_seq((n - 1) as nat).push(1u8)
            },
            n,
        ),
        TypeModel::Str => ValueModel::Str(
            if zero {
                Seq::empty()
            } else {
                seq![97u8]
            },
        ),
        TypeModel::Function => ValueModel::Function(
            if zero {
                zero_seq(24)
            } else {
                zero_seq(23).push(1u8)
            },
        ),
        TypeModel::Array(inner) => ValueModel::Array(
            if zero {
                Seq::empty()
            } else {
                seq![spec_synth(*inner, s, caller)]
            },
        ),
        TypeModel::FixedArray(inner, n) => ValueModel::FixedArray(
            repeat_val(spec_synth(*inner, s, caller), n),
        ),
        TypeModel::Tuple(ts) => ValueModel::Tuple(spec_synth_list(ts, s, caller)),
    }
}

/// Synthesized values for an ordered field list.
pub open spec fn spec_synth_list(ts: Seq<TypeModel>, s: CallStrategy, caller: Seq<u8>) -> Seq<
    ValueModel,
>
    decreases ts,
{
    if ts.len() == 0 {
        Seq::empty()
    } else {
        seq![spec_synth(ts[0], s, caller)] + spec_synth_list(ts.drop_first(), s, caller)
    }
}

// ---------------------------------------------------------------------
// Executable synthesizer.
// ---------------------------------------------------------------------

/// Appending one tree appends its model.
proof fn lemma_vt_models_push(es: Seq<ValueTree>, e: ValueTree)
    ensures
        vt_models(es.push(e)) == vt_models(es) + seq![vt_model(e)],
    decreases es,
{
    if es.len() == 0 {
        let p = es.push(e);
        assert(p[0] == e);
        assert(p.drop_first() =~= Seq::<ValueTree>::empty());
        assert(vt_models(p) == seq![vt_model(p[0])] + vt_models(p.drop_first()));
        assert(vt_models(Seq::<ValueTree>::empty()) =~= Seq::<ValueModel>::empty());
        assert(vt_models(es) =~= Seq::<ValueModel>::empty());
        assert(vt_models(p) =~= vt_models(es) + seq![vt_model(e)]);
    } else {
        lemma_vt_models_push(es.drop_first(), e);
        assert(es.push(e).drop_first() =~= es.drop_first().push(e));
        assert(es.push(e)[0] == es[0]);
        assert(vt_models(es.push(e)) =~= vt_models(es) + seq![vt_model(e)]);
    }
}

/// Appending one field type appends its synthesized value.
proof fn lemma_spec_synth_list_push(
    ts: Seq<TypeModel>,
    t: TypeModel,
    s: CallStrategy,
    caller: Seq<u8>,
)
    ensures
        spec_synth_list(ts.push(t), s, caller) == spec_synth_list(ts, s, caller) + seq![
            spec_synth(t, s, caller),
        ],
    decreases ts,
{
    if ts.len() == 0 {
        let p = ts.push(t);
        assert(p[0] == t);
        assert(p.drop_first() =~= Seq::<TypeModel>::empty());
        assert(spec_synth_list(p, s, caller) == seq![spec_synth(p[0], s, caller)]
            + spec_synth_list(p.drop_first(), s, caller));
        assert(spec_synth_list(Seq::<TypeModel>::empty(), s, caller) =~= Seq::<
            ValueModel,
        >::empty());
        assert(spec_synth_list(ts, s, caller) =~= Seq::<ValueModel>::empty());
        assert(spec_synth_list(p, s, caller) =~= spec_synth_list(ts, s, caller) + seq![
            spec_synth(t, s, caller),
        ]);
    } else {
        lemma_spec_synth_list_push(ts.drop_first(), t, s, caller);
        assert(ts.push(t).drop_first() =~= ts.drop_first().push(t));
        assert(ts.push(t)[0] == ts[0]);
        assert(spec_synth_list(ts.push(t), s, caller) =~= spec_synth_list(ts, s, caller) + seq![
            spec_synth(t, s, caller),
        ]);
    }
}

/// Synthesizes the Value Tree for `t` under strategy `s`, with `caller`
/// the 20-byte caller identity used by the caller-address strategy.
pub fn synthesize(t: &CanonicalType, s: CallStrategy, caller: &Vec<u8>) -> (r: ValueTree)
    ensures
        vt_model(r) == spec_synth(ty_model(*t), s, caller@),
    decreases *t,
{
    let zero = matches!(s, CallStrategy::ZeroDefaults);
    match t {
        CanonicalType::Bool => ValueTree::Bool(!zero),
        CanonicalType::Uint(b) => ValueTree::Uint(
            if zero {
                zero_vec(32)
            } else {
                unit_tail_vec(32)
            },
            *b,
        ),
        CanonicalType::Int(b) => ValueTree::Int(
            if zero {
                zero_vec(32)
            } else {
                unit_tail_vec(32)
            },
            *b,
        ),
        CanonicalType::Address => ValueTree::Address(
            match s {
                CallStrategy::SmartDefaults => unit_tail_vec(20),
                CallStrategy::CallerAddress => copy_bytes(caller),
                CallStrategy::ZeroDefaults => zero_vec(20),
            },
        ),
        CanonicalType::Bytes => {
            let mut d: Vec<u8> = Vec::new();
            if !zero {
                d.push(1u8);
                proof {
                    assert(d@ =~= seq![1u8]);
                }
            }
            ValueTree::Bytes(d)
        },
        CanonicalType::FixedBytes(n) => ValueTree::FixedBytes(
            if zero || *n == 0 {
                zero_vec(*n)
            } else {
                unit_tail_vec(*n)
            },
            *n,
        ),
        CanonicalType::Str => {
            let mut d: Vec<u8> = Vec::new();
            if !zero {
                d.push(97u8);
                proof {
                    assert(d@ =~= seq![97u8]);
                }
            }
            ValueTree::Str(d)
        },
        CanonicalType::Function => ValueTree::Function(
            if zero {
                zero_vec(24)
            } else {
                unit_tail_vec(24)
            },
        ),
        CanonicalType::Array(inner) => {
            let mut es: Vec<ValueTree> = Vec::new();
            if !zero {
                proof {
                    assert(decreases_to!(*t => (*t)->Array_0));
                }
                let e = synthesize(inner, s, caller);
                proof {
                    lemma_vt_models_push(es@, e);
                }
                es.push(e);
                proof {
                    assert(vt_models(es@) =~= seq![
                        spec_synth(ty_model(**inner), s, caller@),
                    ]);
                }
            }
            ValueTree::Array(es)
        },
        CanonicalType::FixedArray(inner, n) => {
            let m = *n;
            let mut es: Vec<ValueTree> = Vec::new();
            let mut i: usize = 0;
            while i < m
                invariant
                    i <= m,
                    *t == CanonicalType::FixedArray(*inner, m),
                    vt_models(es@) == repeat_val(spec_synth(ty_model(**inner), s, caller@), i as nat),
                decreases m - i,
            {
                proof {
                    assert(decreases_to!(*t => (*t)->FixedArray_0));
                }
                let e = synthesize(inner, s, caller);
                proof {
                    lemma_vt_models_push(es@, e);
                }
                es.push(e);
                proof {
                    assert(vt_models(es@) =~= repeat_val(
                        spec_synth(ty_model(**inner), s, caller@),
                        (i + 1) as nat,
                    ));
                }
                i += 1;
            }
            ValueTree::FixedArray(es)
        },
        CanonicalType::Tuple(ts) => {
            let mut es: Vec<ValueTree> = Vec::new();
            let mut i: usize = 0;
            let m = ts.len();
            proof {
                assert(ty_models(ts@.take(0)) =~= Seq::<TypeModel>::empty());
            }
            while i < m
                invariant
                    i <= m,
                    m == ts@.len(),
                    *t == CanonicalType::Tuple(*ts),
                    vt_models(es@) == spec_synth_list(ty_models(ts@.take(i as int)), s, caller@),
                decreases m - i,
            {
                proof {
                    assert(decreases_to!(*t => (*t)->Tuple_0));
                    assert(decreases_to!((*t)->Tuple_0 => (*t)->Tuple_0@));
                    assert(decreases_to!((*t)->Tuple_0@ => (*t)->Tuple_0@[i as int]));
                }
                let e = synthesize(&ts[i], s, caller);
                proof {
                    lemma_vt_models_push(es@, e);
                    lemma_ty_models_take_push(ts@, i as int);
                    assert(ty_models(ts@.take(i + 1)) =~= ty_models(ts@.take(i as int)).push(
                        ty_model(ts@[i as int]),
                    ));
                    lemma_spec_synth_list_push(
                        ty_models(ts@.take(i as int)),
                        ty_model(ts@[i as int]),
                        s,
                        caller@,
                    );
                }
                es.push(e);
                i += 1;
            }
            proof {
                assert(ts@.take(m as int) =~= ts@);
            }
            ValueTree::Tuple(es)
        },
    }
}

/// Whether value `v` has exactly the shape of type `t` under strategy
/// `s`: the same variant and widths; for a dynamic array, one element
/// under the non-zero strategies and none under the zero defaults; for
/// a fixed array of `n`, exactly `n` elements; for a tuple, exactly the
/// field count and order of `t`.
pub open spec fn synth_shape_ok(t: TypeModel, s: CallStrategy, v: ValueModel) -> bool
    decreases t,
{
    match t {
        TypeModel::Bool => v is Bool,
        TypeModel::Uint(b) => v matches ValueModel::Uint(_, b2) && b2 == b,
        TypeModel::Int(b) => v matches ValueModel::Int(_, b2) && b2 == b,
        TypeModel::Address => v is Address,
        TypeModel::Bytes => v is Bytes,
        TypeModel::FixedBytes(n) => v matches ValueModel::FixedBytes(_, m) && m == n,
        TypeModel::Str => v is Str,
        TypeModel::Function => v is Function,
        TypeModel::Array(inner) => v matches ValueModel::Array(es) && es.len() == (
        if s is ZeroDefaults {
            0int
        } else {
            1int
        }) && (forall|i: int| 0 <= i < es.len() ==> synth_shape_ok(*inner, s, #[trigger] es[i])),
        TypeModel::FixedArray(inner, n) => v matches ValueModel::FixedArray(es) && es.len() == n
            && (forall|i: int|
            0 <= i < es.len() ==> synth_shape_ok(*inner, s, #[trigger] es[i])),
        TypeModel::Tuple(ts) => v matches ValueModel::Tuple(vs) && vs.len() == ts.len() && (
        forall|i: int| 0 <= i < ts.len() ==> synth_shape_ok(ts[i], s, #[trigger] vs[i])),
    }
}

/// Synthesized field lists index pointwise.
pub proof fn lemma_spec_synth_list_index(ts: Seq<TypeModel>, s: CallStrategy, caller: Seq<u8>)
    ensures
        spec_synth_list(ts, s, caller).len() == ts.len(),
        forall|i: int|
            0 <= i < ts.len() ==> #[trigger] spec_synth_list(ts, s, caller)[i] == spec_synth(
                ts[i],
                s,
                caller,
            ),
    decreases ts,
{
    if ts.len() > 0 {
        lemma_spec_synth_list_index(ts.drop_first(), s, caller);
        assert forall|i: int| 0 <= i < ts.len() implies #[trigger] spec_synth_list(
            ts,
            s,
            caller,
        )[i] == spec_synth(ts[i], s, caller) by {
            if i > 0 {
                assert(ts.drop_first()[i - 1] == ts[i]);
            }
        }
    }
}

/// For every canonical type and every strategy, the synthesized Value
/// Tree has exactly the type's shape.
pub proof fn lemma_synthesis_shape(t: TypeModel, s: CallStrategy, caller: Seq<u8>)
    ensures
        synth_shape_ok(t, s, spec_synth(t, s, caller)),
    decreases t,
{
    match t {
        TypeModel::Array(inner) => {
            if !(s is ZeroDefaults) {
                lemma_synthesis_shape(*inner, s, caller);
                let es = seq![spec_synth(*inner, s, caller)];
                assert(es[0] == spec_synth(*inner, s, caller));
            }
        },
        TypeModel::FixedArray(inner, n) => {
            lemma_synthesis_shape(*inner, s, caller);
            let es = repeat_val(spec_synth(*inner, s, caller), n);
            assert(forall|i: int| 0 <= i < es.len() ==> #[trigger] es[i] == spec_synth(
                *inner,
                s,
                caller,
            ));
        },
        TypeModel::Tuple(ts) => {
            lemma_spec_synth_list_index(ts, s, caller);
            let vs = spec_synth_list(ts, s, caller);
            assert forall|i: int| 0 <= i < ts.len() implies synth_shape_ok(
                ts[i],
                s,
                #[trigger] vs[i],
            ) by {
                lemma_synthesis_shape(ts[i], s, caller);
            }
        },
        _ => {},
    }
}

/// Synthesis is deterministic: the same type and strategy (and caller
/// identity) always yield the same Value Tree; there is no hidden
/// randomness in the synthesizer.
pub proof fn lemma_synthesis_deterministic(
    t: TypeModel,
    s: CallStrategy,
    caller: Seq<u8>,
    v1: ValueModel,
    v2: ValueModel,
)
    requires
        v1 == spec_synth(t, s, caller),
        v2 == spec_synth(t, s, caller),
    ensures
        v1 == v2,
{
}

/// Taking one more element appends its model.
proof fn lemma_ty_models_take_push(ts: Seq<CanonicalType>, i: int)
    requires
        0 <= i < ts.len(),
    ensures
        ty_models(ts.take(i + 1)) == ty_models(ts.take(i)) + seq![ty_model(ts[i])],
{
    assert(ts.take(i + 1) =~= ts.take(i).push(ts[i]));
    crate::abi::lemma_ty_models_push(ts.take(i), ts[i]);
}

} // verus!
