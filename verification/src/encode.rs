//! The canonical ABI encoding of value trees: 32-byte words, with a
//! head/tail layout for dynamic values (byte strings, strings, dynamic
//! arrays, and aggregates containing them). The head of a dynamic value
//! is a word holding the byte offset of its tail from the start of the
//! enclosing block.

use vstd::prelude::*;
use crate::synth::{ValueModel, ValueTree, vt_model, vt_models};
use crate::words::{copy_bytes, lemma_be_bytes_len, len_word, len_word_vec, pad32, pad_word_vec,
    zero_seq, zero_vec};

verus! {

/// Whether a value is encoded out of line (in the tail, behind an
/// offset word).
pub open spec fn is_dynamic(v: ValueModel) -> bool
    decreases v,
{
    match v {
        ValueModel::Bytes(_) => true,
        ValueModel::Str(_) => true,
        ValueModel::Array(_) => true,
        ValueModel::FixedArray(es) => any_dynamic(es),
        ValueModel::Tuple(es) => any_dynamic(es),
        _ => false,
    }
}

/// Whether any element of a sequence is dynamic.
pub open spec fn any_dynamic(es: Seq<ValueModel>) -> bool
    decreases es,
{
    if es.len() == 0 {
        false
    } else {
        is_dynamic(es[0]) || any_dynamic(es.drop_first())
    }
}

/// Bytes a value contributes to the head of its enclosing block: one
/// offset word when dynamic, its full encoding when static.
pub open spec fn head_len(v: ValueModel) -> nat
    decreases v, 1int,
{
    if is_dynamic(v) {
        32
    } else {
        spec_enc(v).len()
    }
}

/// Bytes a value contributes to the tail of its enclosing block.
pub open spec fn tail_len(v: ValueModel) -> nat
    decreases v, 1int,
{
    if is_dynamic(v) {
        spec_enc(v).len()
    } else {
        0
    }
}

/// Total head length of a block.
pub open spec fn heads_len(es: Seq<ValueModel>) -> nat
    decreases es, 2int,
{
    if es.len() == 0 {
        0
    } else {
        head_len(es[0]) + heads_len(es.drop_first())
    }
}

/// Total tail length of a block.
pub open spec fn tails_len(es: Seq<ValueModel>) -> nat
    decreases es, 2int,
{
    if es.len() == 0 {
        0
    } else {
        tail_len(es[0]) + tails_len(es.drop_first())
    }
}

/// Heads of a block, where `off` is the byte offset (from block start)
/// at which the next tail will land.
pub open spec fn enc_heads(es: Seq<ValueModel>, off: nat) -> Seq<u8>
    decreases es, 2int,
{
    if es.len() == 0 {
        Seq::empty()
    } else {
        (if is_dynamic(es[0]) {
            len_word(off)
        } else {
            spec_enc(es[0])
        }) + enc_heads(es.drop_first(), off + tail_len(es[0]))
    }
}

/// Tails of a block: the encodings of its dynamic elements, in order.
pub open spec fn enc_tails(es: Seq<ValueModel>) -> Seq<u8>
    decreases es, 2int,
{
    if es.len() == 0 {
        Seq::empty()
    } else {
        (if is_dynamic(es[0]) {
            spec_enc(es[0])
        } else {
            Seq::empty()
        }) + enc_tails(es.drop_first())
    }
}

/// Encoding of an ordered sequence of values as one block: all heads,
/// then all tails, offsets measured from the start of the block.
pub open spec fn spec_enc_seq(es: Seq<ValueModel>) -> Seq<u8>
    decreases es, 3int,
{
    enc_heads(es, heads_len(es)) + enc_tails(es)
}

/// Encoding of one value: a single padded word for static leaves;
/// length-prefixed padded data for byte strings and strings;
/// length-prefixed block for dynamic arrays; a plain block for fixed
/// arrays and tuples.
pub open spec fn spec_enc(v: ValueModel) -> Seq<u8>
    decreases v, 0int,
{
    match v {
        ValueModel::Bool(b) => zero_seq(31).push(
            if b {
                1u8
            } else {
                0u8
            },
        ),
        ValueModel::Uint(w, _) => w,
        ValueModel::Int(w, _) => w,
        ValueModel::Address(a) => zero_seq(12) + a,
        ValueModel::FixedBytes(d, _) => (d + zero_seq(32)).take(32),
        ValueModel::Function(f) => (f + zero_seq(32)).take(32),
        ValueModel::Bytes(d) => len_word(d.len()) + d + zero_seq(pad32(d.len())),
        ValueModel::Str(d) => len_word(d.len()) + d + zero_seq(pad32(d.len())),
        ValueModel::Array(es) => len_word(es.len()) + spec_enc_seq(es),
        ValueModel::FixedArray(es) => spec_enc_seq(es),
        ValueModel::Tuple(es) => spec_enc_seq(es),
    }
}

// ---------------------------------------------------------------------
// Length bookkeeping.
// ---------------------------------------------------------------------

/// The heads of a block are exactly `heads_len` bytes.
pub proof fn lemma_enc_heads_len(es: Seq<ValueModel>, off: nat)
    ensures
        enc_heads(es, off).len() == heads_len(es),
    decreases es,
{
    if es.len() > 0 {
        lemma_be_bytes_len(off, 32);
        lemma_enc_heads_len(es.drop_first(), off + tail_len(es[0]));
        assert(heads_len(es) == head_len(es[0]) + heads_len(es.drop_first()));
        assert(enc_heads(es, off) == (if is_dynamic(es[0]) {
            len_word(off)
        } else {
            spec_enc(es[0])
        }) + enc_heads(es.drop_first(), off + tail_len(es[0])));
        assert(head_len(es[0]) == if is_dynamic(es[0]) {
            32nat
        } else {
            spec_enc(es[0]).len()
        });
    }
}

/// The tails of a block are exactly `tails_len` bytes.
pub proof fn lemma_enc_tails_len(es: Seq<ValueModel>)
    ensures
        enc_tails(es).len() == tails_len(es),
    decreases es,
{
    if es.len() > 0 {
        lemma_enc_tails_len(es.drop_first());
    }
}

/// A block is exactly heads plus tails long.
pub proof fn lemma_enc_seq_len(es: Seq<ValueModel>)
    ensures
        spec_enc_seq(es).len() == heads_len(es) + tails_len(es),
{
    lemma_enc_heads_len(es, heads_len(es));
    lemma_enc_tails_len(es);
}

/// Appending one element adds its head contribution.
proof fn lemma_heads_len_push(es: Seq<ValueModel>, e: ValueModel)
    ensures
        heads_len(es.push(e)) == heads_len(es) + head_len(e),
    decreases es,
{
    if es.len() == 0 {
        let p = es.push(e);
        assert(p[0] == e);
        assert(p.drop_first() =~= Seq::<ValueModel>::empty());
        assert(heads_len(p) == head_len(p[0]) + heads_len(p.drop_first()));
        assert(heads_len(Seq::<ValueModel>::empty()) == 0);
        assert(heads_len(es) == 0);
    } else {
        lemma_heads_len_push(es.drop_first(), e);
        assert(es.push(e).drop_first() =~= es.drop_first().push(e));
        assert(es.push(e)[0] == es[0]);
        assert(heads_len(es.push(e)) == head_len(es[0]) + heads_len(es.drop_first().push(e)));
        assert(heads_len(es) == head_len(es[0]) + heads_len(es.drop_first()));
    }
}

/// Appending one element adds its tail contribution.
proof fn lemma_tails_len_push(es: Seq<ValueModel>, e: ValueModel)
    ensures
        tails_len(es.push(e)) == tails_len(es) + tail_len(e),
    decreases es,
{
    if es.len() == 0 {
        let p = es.push(e);
        assert(p[0] == e);
        assert(p.drop_first() =~= Seq::<ValueModel>::empty());
        assert(tails_len(p) == tail_len(p[0]) + tails_len(p.drop_first()));
        assert(tails_len(Seq::<ValueModel>::empty()) == 0);
        assert(tails_len(es) == 0);
    } else {
        lemma_tails_len_push(es.drop_first(), e);
        assert(es.push(e).drop_first() =~= es.drop_first().push(e));
        assert(es.push(e)[0] == es[0]);
        assert(tails_len(es.push(e)) == tail_len(es[0]) + tails_len(es.drop_first().push(e)));
        assert(tails_len(es) == tail_len(es[0]) + tails_len(es.drop_first()));
    }
}

/// Head totals over a prefix never exceed the whole.
proof fn lemma_heads_len_take_le(es: Seq<ValueModel>, i: int)
    requires
        0 <= i <= es.len(),
    ensures
        heads_len(es.take(i)) <= heads_len(es),
    decreases es.len() - i,
{
    if i < es.len() {
        assert(es.take(i + 1) =~= es.take(i).push(es[i]));
        lemma_heads_len_push(es.take(i), es[i]);
        lemma_heads_len_take_le(es, i + 1);
    } else {
        assert(es.take(i) =~= es);
    }
}

/// Tail totals over a prefix never exceed the whole.
proof fn lemma_tails_len_take_le(es: Seq<ValueModel>, i: int)
    requires
        0 <= i <= es.len(),
    ensures
        tails_len(es.take(i)) <= tails_len(es),
    decreases es.len() - i,
{
    if i < es.len() {
        assert(es.take(i + 1) =~= es.take(i).push(es[i]));
        lemma_tails_len_push(es.take(i), es[i]);
        lemma_tails_len_take_le(es, i + 1);
    } else {
        assert(es.take(i) =~= es);
    }
}

/// One element's encoding never exceeds the whole block.
proof fn lemma_elem_len_le(es: Seq<ValueModel>, i: int)
    requires
        0 <= i < es.len(),
    ensures
        spec_enc(es[i]).len() <= spec_enc_seq(es).len(),
    decreases es,
{
    lemma_enc_seq_len(es);
    if i == 0 {
        assert(heads_len(es) == head_len(es[0]) + heads_len(es.drop_first()));
        assert(tails_len(es) == tail_len(es[0]) + tails_len(es.drop_first()));
    } else {
        lemma_elem_len_le(es.drop_first(), i - 1);
        lemma_enc_seq_len(es.drop_first());
        assert(es.drop_first()[i - 1] == es[i]);
    }
}

// ---------------------------------------------------------------------
// Executable encoder.
// ---------------------------------------------------------------------

/// Models of a vector of trees index pointwise.
pub proof fn lemma_vt_models_index(es: Seq<ValueTree>)
    ensures
        vt_models(es).len() == es.len(),
        forall|i: int| 0 <= i < es.len() ==> vt_models(es)[i] == vt_model(es[i]),
    decreases es,
{
    if es.len() > 0 {
        lemma_vt_models_index(es.drop_first());
    }
}

/// A sequence has a dynamic element exactly when some index is dynamic.
proof fn lemma_any_dynamic_exists(es: Seq<ValueModel>)
    ensures
        any_dynamic(es) <==> exists|k: int| 0 <= k < es.len() && is_dynamic(es[k]),
    decreases es,
{
    if es.len() > 0 {
        lemma_any_dynamic_exists(es.drop_first());
        if is_dynamic(es[0]) {
            assert(0 <= 0 < es.len() && is_dynamic(es[0]));
        } else if any_dynamic(es.drop_first()) {
            let k = choose|k: int|
                0 <= k < es.drop_first().len() && is_dynamic(es.drop_first()[k]);
            assert(es.drop_first()[k] == es[k + 1]);
        } else {
            assert forall|k: int| 0 <= k < es.len() implies !is_dynamic(es[k]) by {
                if k > 0 {
                    assert(es[k] == es.drop_first()[k - 1]);
                }
            }
        }
    }
}

/// A vector of trees has a dynamic element exactly when its model does.
proof fn lemma_bridge_any_dynamic(es: Seq<ValueTree>)
    ensures
        any_dynamic(vt_models(es)) == (exists|k: int|
            0 <= k < es.len() && is_dynamic(vt_model(es[k]))),
{
    lemma_vt_models_index(es);
    lemma_any_dynamic_exists(vt_models(es));
    if exists|k: int| 0 <= k < es.len() && is_dynamic(vt_model(es[k])) {
        let k = choose|k: int| 0 <= k < es.len() && is_dynamic(vt_model(es[k]));
        assert(is_dynamic(vt_models(es)[k]));
        assert(any_dynamic(vt_models(es)));
    }
    if any_dynamic(vt_models(es)) {
        let k = choose|k: int| 0 <= k < vt_models(es).len() && is_dynamic(vt_models(es)[k]);
        assert(is_dynamic(vt_model(es[k])));
    }
}

/// Whether this value tree is encoded out of line.
pub fn is_dyn(v: &ValueTree) -> (r: bool)
    ensures
        r == is_dynamic(vt_model(*v)),
    decreases *v, 1int,
{
    match v {
        ValueTree::Bytes(_) => true,
        ValueTree::Str(_) => true,
        ValueTree::Array(_) => true,
        ValueTree::Bool(_) => false,
        ValueTree::Uint(_, _) => false,
        ValueTree::Int(_, _) => false,
        ValueTree::Address(_) => false,
        ValueTree::FixedBytes(_, _) => false,
        ValueTree::Function(_) => false,
        ValueTree::FixedArray(es) => {
            proof {
                lemma_vt_models_index(es@);
                lemma_any_dynamic_exists(vt_models(es@));
                assert(vt_model(*v) == ValueModel::FixedArray(vt_models(es@)));
                assert(is_dynamic(vt_model(*v)) == any_dynamic(vt_models(es@)));
                lemma_bridge_any_dynamic(es@);
            }
            any_dyn_elems(es, Ghost(*v))
        },
        ValueTree::Tuple(es) => {
            proof {
                lemma_vt_models_index(es@);
                lemma_any_dynamic_exists(vt_models(es@));
                assert(vt_model(*v) == ValueModel::Tuple(vt_models(es@)));
                assert(is_dynamic(vt_model(*v)) == any_dynamic(vt_models(es@)));
                lemma_bridge_any_dynamic(es@);
            }
            any_dyn_elems(es, Ghost(*v))
        },
    }
}

/// Whether any element of `es` is dynamic; `whole` is the enclosing
/// tree, for termination.
fn any_dyn_elems(es: &Vec<ValueTree>, whole: Ghost<ValueTree>) -> (r: bool)
    requires
        whole@ == ValueTree::FixedArray(*es) || whole@ == ValueTree::Tuple(*es),
    ensures
        r == (exists|k: int| 0 <= k < es@.len() && is_dynamic(vt_model(es@[k]))),
    decreases whole@, 0int,
{
    let n = es.len();
    let mut i: usize = 0;
    while i < n
        invariant
            i <= n,
            n == es@.len(),
            whole@ == ValueTree::FixedArray(*es) || whole@ == ValueTree::Tuple(*es),
            forall|k: int| 0 <= k < i ==> !is_dynamic(vt_model(es@[k])),
        decreases n - i,
    {
        proof {
            if whole@ == ValueTree::FixedArray(*es) {
                assert(decreases_to!(whole@ => whole@->FixedArray_0));
                assert(decreases_to!(whole@->FixedArray_0 => whole@->FixedArray_0@));
                assert(decreases_to!(whole@->FixedArray_0@ => whole@->FixedArray_0@[i as int]));
            } else {
                assert(decreases_to!(whole@ => whole@->Tuple_0));
                assert(decreases_to!(whole@->Tuple_0 => whole@->Tuple_0@));
                assert(decreases_to!(whole@->Tuple_0@ => whole@->Tuple_0@[i as int]));
            }
        }
        if is_dyn(&es[i]) {
            return true;
        }
        i += 1;
    }
    false
}

/// Length-prefixed, zero-padded encoding of a packed byte string.
fn enc_packed(d: &Vec<u8>) -> (r: Option<Vec<u8>>)
    ensures
        match r {
            Option::Some(b) => b@ == len_word(d@.len()) + d@ + zero_seq(pad32(d@.len())),
            Option::None => 32 + d@.len() + pad32(d@.len()) > usize::MAX,
        },
{
    let len = d.len();
    let pad: usize = if len % 32 == 0 {
        0
    } else {
        32 - len % 32
    };
    if len > usize::MAX - 32 - pad {
        return None;
    }
    let mut r = len_word_vec(len);
    let mut body = copy_bytes(d);
    r.append(&mut body);
    let mut padv = zero_vec(pad);
    r.append(&mut padv);
    Some(r)
}

/// Encodes one value tree; fails exactly when the encoding would exceed
/// the machine's byte-length limit.
pub fn enc_value(v: &ValueTree) -> (r: Option<Vec<u8>>)
    ensures
        match r {
            Option::Some(b) => b@ == spec_enc(vt_model(*v)),
            Option::None => spec_enc(vt_model(*v)).len() > usize::MAX,
        },
    decreases *v, 1int,
{
    match v {
        ValueTree::Bool(b) => {
            let mut w = zero_vec(31);
            w.push(if *b {
                1u8
            } else {
                0u8
            });
            Some(w)
        },
        ValueTree::Uint(w, _) => Some(copy_bytes(w)),
        ValueTree::Int(w, _) => Some(copy_bytes(w)),
        ValueTree::Address(a) => {
            let mut r = zero_vec(12);
            let mut t = copy_bytes(a);
            r.append(&mut t);
            Some(r)
        },
        ValueTree::FixedBytes(d, _) => Some(pad_word_vec(d)),
        ValueTree::Function(d) => Some(pad_word_vec(d)),
        ValueTree::Bytes(d) => {
            let r = enc_packed(d);
            proof {
                if r is None {
                    lemma_be_bytes_len(d@.len(), 32);
                }
            }
            r
        },
        ValueTree::Str(d) => {
            let r = enc_packed(d);
            proof {
                if r is None {
                    lemma_be_bytes_len(d@.len(), 32);
                }
            }
            r
        },
        ValueTree::Array(es) => {
            proof {
                assert(decreases_to!(*v => (*v)->Array_0));
                lemma_vt_models_index(es@);
            }
            let sub = match enc_seq(es, Ghost(*v)) {
                Option::Some(sub) => sub,
                Option::None => {
                    proof {
                        lemma_be_bytes_len(es@.len() as nat, 32);
                    }
                    return None;
                },
            };
            if sub.len() > usize::MAX - 32 {
                proof {
                    lemma_be_bytes_len(es@.len() as nat, 32);
                }
                return None;
            }
            let mut r = len_word_vec(es.len());
            let mut s2 = sub;
            r.append(&mut s2);
            Some(r)
        },
        ValueTree::FixedArray(es) => {
            proof {
                assert(decreases_to!(*v => (*v)->FixedArray_0));
            }
            enc_seq(es, Ghost(*v))
        },
        ValueTree::Tuple(es) => {
            proof {
                assert(decreases_to!(*v => (*v)->Tuple_0));
            }
            enc_seq(es, Ghost(*v))
        },
    }
}

/// Encodes an ordered sequence of value trees as one head/tail block;
/// `whole` is the enclosing tree, for termination. Fails exactly when
/// the block would exceed the machine's byte-length limit.
pub fn enc_seq(es: &Vec<ValueTree>, whole: Ghost<ValueTree>) -> (r: Option<Vec<u8>>)
    requires
        whole@ == ValueTree::FixedArray(*es) || whole@ == ValueTree::Tuple(*es) || whole@
            == ValueTree::Array(*es),
    ensures
        match r {
            Option::Some(b) => b@ == spec_enc_seq(vt_models(es@)),
            Option::None => spec_enc_seq(vt_models(es@)).len() > usize::MAX,
        },
    decreases whole@, 0int,
{
    let ghost ms = vt_models(es@);
    proof {
        lemma_vt_models_index(es@);
        assert(ms.take(0) =~= Seq::<ValueModel>::empty());
    }
    let n = es.len();
    // First pass: encode every element, record which are dynamic, and
    // total up the head and tail lengths.
    let mut parts: Vec<Vec<u8>> = Vec::new();
    let mut dyns: Vec<bool> = Vec::new();
    let mut head_total: usize = 0;
    let mut tail_total: usize = 0;
    let mut i: usize = 0;
    while i < n
        invariant
            i <= n,
            n == es@.len(),
            ms == vt_models(es@),
            ms.len() == n,
            forall|j: int| 0 <= j < n ==> ms[j] == vt_model(es@[j]),
            whole@ == ValueTree::FixedArray(*es) || whole@ == ValueTree::Tuple(*es) || whole@
                == ValueTree::Array(*es),
            parts@.len() == i,
            dyns@.len() == i,
            forall|j: int| 0 <= j < i ==> parts@[j]@ == spec_enc(ms[j]),
            forall|j: int| 0 <= j < i ==> dyns@[j] == is_dynamic(ms[j]),
            head_total == heads_len(ms.take(i as int)),
            tail_total == tails_len(ms.take(i as int)),
        decreases n - i,
    {
        proof {
            if whole@ == ValueTree::FixedArray(*es) {
                assert(decreases_to!(whole@ => whole@->FixedArray_0));
                assert(decreases_to!(whole@->FixedArray_0 => whole@->FixedArray_0@));
                assert(decreases_to!(whole@->FixedArray_0@ => whole@->FixedArray_0@[i as int]));
            } else if whole@ == ValueTree::Tuple(*es) {
                assert(decreases_to!(whole@ => whole@->Tuple_0));
                assert(decreases_to!(whole@->Tuple_0 => whole@->Tuple_0@));
                assert(decreases_to!(whole@->Tuple_0@ => whole@->Tuple_0@[i as int]));
            } else {
                assert(decreases_to!(whole@ => whole@->Array_0));
                assert(decreases_to!(whole@->Array_0 => whole@->Array_0@));
                assert(decreases_to!(whole@->Array_0@ => whole@->Array_0@[i as int]));
            }
        }
        let e = match enc_value(&es[i]) {
            Option::Some(e) => e,
            Option::None => {
                proof {
                    lemma_elem_len_le(ms, i as int);
                }
                return None;
            },
        };
        let d = is_dyn(&es[i]);
        let hc: usize = if d {
            32
        } else {
            e.len()
        };
        let tc: usize = if d {
            e.len()
        } else {
            0
        };
        proof {
            assert(ms.take(i + 1) =~= ms.take(i as int).push(ms[i as int]));
            lemma_heads_len_push(ms.take(i as int), ms[i as int]);
            lemma_tails_len_push(ms.take(i as int), ms[i as int]);
            assert(head_len(ms[i as int]) == if is_dynamic(ms[i as int]) {
                32nat
            } else {
                spec_enc(ms[i as int]).len()
            });
        }
        if hc > usize::MAX - head_total {
            proof {
                lemma_heads_len_take_le(ms, i + 1);
                lemma_enc_seq_len(ms);
            }
            return None;
        }
        head_total = head_total + hc;
        if tc > usize::MAX - tail_total {
            proof {
                lemma_tails_len_take_le(ms, i + 1);
                lemma_enc_seq_len(ms);
            }
            return None;
        }
        tail_total = tail_total + tc;
        parts.push(e);
        dyns.push(d);
        i += 1;
    }
    proof {
        assert(ms.take(n as int) =~= ms);
    }
    if tail_total > usize::MAX - head_total {
        proof {
            lemma_enc_seq_len(ms);
        }
        return None;
    }
    // Second pass: lay out all heads, then all tails; a dynamic
    // element's head is the offset at which its tail lands.
    let mut heads: Vec<u8> = Vec::new();
    let mut tails: Vec<u8> = Vec::new();
    let mut k: usize = 0;
    proof {
        assert(ms.skip(0) =~= ms);
        assert(ms.take(0) =~= Seq::<ValueModel>::empty());
        assert(heads@ + enc_heads(ms.skip(0), heads_len(ms)) =~= enc_heads(ms, heads_len(ms)));
        assert(tails@ + enc_tails(ms.skip(0)) =~= enc_tails(ms));
    }
    while k < n
        invariant
            k <= n,
            n == es@.len(),
            ms.len() == n,
            parts@.len() == n,
            dyns@.len() == n,
            forall|j: int| 0 <= j < n ==> parts@[j]@ == spec_enc(ms[j]),
            forall|j: int| 0 <= j < n ==> dyns@[j] == is_dynamic(ms[j]),
            head_total == heads_len(ms),
            head_total + tails_len(ms) <= usize::MAX,
            tails@.len() == tails_len(ms.take(k as int)),
            enc_heads(ms, heads_len(ms)) == heads@ + enc_heads(
                ms.skip(k as int),
                (head_total + tails@.len()) as nat,
            ),
            enc_tails(ms) == tails@ + enc_tails(ms.skip(k as int)),
        decreases n - k,
    {
        let ghost off0 = (head_total + tails@.len()) as nat;
        proof {
            lemma_tails_len_take_le(ms, k as int);
            assert(ms.skip(k as int)[0] == ms[k as int]);
            assert(ms.skip(k as int).drop_first() =~= ms.skip(k + 1));
            assert(enc_heads(ms.skip(k as int), off0) == (if is_dynamic(ms[k as int]) {
                len_word(off0)
            } else {
                spec_enc(ms[k as int])
            }) + enc_heads(ms.skip(k + 1), off0 + tail_len(ms[k as int])));
            assert(enc_tails(ms.skip(k as int)) == (if is_dynamic(ms[k as int]) {
                spec_enc(ms[k as int])
            } else {
                Seq::<u8>::empty()
            }) + enc_tails(ms.skip(k + 1)));
            assert(ms.take(k + 1) =~= ms.take(k as int).push(ms[k as int]));
            lemma_tails_len_push(ms.take(k as int), ms[k as int]);
            assert(tail_len(ms[k as int]) == if is_dynamic(ms[k as int]) {
                spec_enc(ms[k as int]).len()
            } else {
                0nat
            });
        }
        if dyns[k] {
            let off = head_total + tails.len();
            let mut w = len_word_vec(off);
            let ghost heads_before = heads@;
            heads.append(&mut w);
            proof {
                assert(heads@ =~= heads_before + len_word(off0));
                assert(heads_before + (len_word(off0) + enc_heads(
                    ms.skip(k + 1),
                    off0 + tail_len(ms[k as int]),
                )) =~= heads@ + enc_heads(ms.skip(k + 1), off0 + tail_len(ms[k as int])));
            }
            let mut p = copy_bytes(&parts[k]);
            let ghost tails_before = tails@;
            tails.append(&mut p);
            proof {
                assert(tails_before + (spec_enc(ms[k as int]) + enc_tails(ms.skip(k + 1)))
                    =~= tails@ + enc_tails(ms.skip(k + 1)));
            }
        } else {
            let mut p = copy_bytes(&parts[k]);
            let ghost heads_before = heads@;
            heads.append(&mut p);
            proof {
                assert(heads_before + (spec_enc(ms[k as int]) + enc_heads(
                    ms.skip(k + 1),
                    off0 + tail_len(ms[k as int]),
                )) =~= heads@ + enc_heads(ms.skip(k + 1), off0 + tail_len(ms[k as int])));
                assert(tails@ + (Seq::<u8>::empty() + enc_tails(ms.skip(k + 1))) =~= tails@
                    + enc_tails(ms.skip(k + 1)));
            }
        }
        k += 1;
    }
    proof {
        assert(ms.skip(n as int) =~= Seq::<ValueModel>::empty());
        assert(enc_heads(Seq::<ValueModel>::empty(), (head_total + tails@.len()) as nat)
            =~= Seq::<u8>::empty());
        assert(enc_tails(Seq::<ValueModel>::empty()) =~= Seq::<u8>::empty());
        assert(heads@ + Seq::<u8>::empty() =~= heads@);
        assert(tails@ + Seq::<u8>::empty() =~= tails@);
    }
    heads.append(&mut tails);
    Some(heads)
}

} // verus!
