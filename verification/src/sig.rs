//! Canonical signature strings (`name(type,type,...)`), 4-byte
//! selectors derived from them, and hex rendering for reports.

use vstd::prelude::*;
use crate::abi::{CanonicalType, TypeModel, ty_model, ty_models};

verus! {

/// Decimal digit characters of `n`, most significant first.
pub open spec fn dec_chars(n: nat) -> Seq<char>
    decreases n,
{
    if n < 10 {
        seq![digit_char(n)]
    } else {
        dec_chars(n / 10).push(digit_char(n % 10))
    }
}

/// The character for one decimal digit.
pub open spec fn digit_char(d: nat) -> char {
    ((48 + d) as u8) as char
}

/// Canonical type tag of a canonical type, tuples written out in
/// parentheses.
pub open spec fn tag_of(t: TypeModel) -> Seq<char>
    decreases t, 0int,
{
    match t {
        TypeModel::Bool => "bool"@,
        TypeModel::Uint(b) => "uint"@ + dec_chars(b),
        TypeModel::Int(b) => "int"@ + dec_chars(b),
        TypeModel::Address => "address"@,
        TypeModel::Bytes => "bytes"@,
        TypeModel::FixedBytes(n) => "bytes"@ + dec_chars(n),
        TypeModel::Str => "string"@,
        TypeModel::Function => "function"@,
        TypeModel::Array(inner) => tag_of(*inner) + "[]"@,
        TypeModel::FixedArray(inner, n) => tag_of(*inner) + "["@ + dec_chars(n) + "]"@,
        TypeModel::Tuple(ts) => "("@ + tags_join(ts) + ")"@,
    }
}

/// Comma-joined tags of an ordered type list.
pub open spec fn tags_join(ts: Seq<TypeModel>) -> Seq<char>
    decreases ts, 1int,
{
    if ts.len() == 0 {
        Seq::empty()
    } else if ts.len() == 1 {
        tag_of(ts[0])
    } else {
        tag_of(ts[0]) + ","@ + tags_join(ts.drop_first())
    }
}

/// Canonical signature: the function name followed by the parenthesized,
/// comma-joined canonical parameter tags.
pub open spec fn spec_signature(name: Seq<char>, ts: Seq<TypeModel>) -> Seq<char> {
    name + "("@ + tags_join(ts) + ")"@
}

/// The Keccak-256 digest of a byte string; a function of the bytes
/// alone.
pub uninterp spec fn keccak_of(data: Seq<u8>) -> Seq<u8>;

/// The 4-byte selector: the first four bytes of the Keccak-256 digest of
/// the UTF-8 encoded canonical signature.
pub open spec fn spec_selector(name: Seq<char>, ts: Seq<TypeModel>) -> Seq<u8> {
    keccak_of(vstd::utf8::encode_utf8(spec_signature(name, ts))).take(4)
}

/// Relies on alloy_primitives::keccak256: returns the 32-byte
/// Keccak-256 digest of the input, a function of the input bytes alone.
#[verifier::external_body]
fn keccak256_bytes(data: &Vec<u8>) -> (r: Vec<u8>)
    ensures
        r@ == keccak_of(data@),
        r@.len() == 32,
{
    alloy_primitives::keccak256(data.as_slice()).to_vec()
}

/// One decimal digit as a string slice.
fn digit_str(d: usize) -> (r: &'static str)
    requires
        d < 10,
    ensures
        r@ == seq![digit_char(d as nat)],
{
    let r: &'static str = match d {
        0 => "0",
        1 => "1",
        2 => "2",
        3 => "3",
        4 => "4",
        5 => "5",
        6 => "6",
        7 => "7",
        8 => "8",
        _ => "9",
    };
    proof {
        reveal_strlit("0");
        reveal_strlit("1");
        reveal_strlit("2");
        reveal_strlit("3");
        reveal_strlit("4");
        reveal_strlit("5");
        reveal_strlit("6");
        reveal_strlit("7");
        reveal_strlit("8");
        reveal_strlit("9");
        assert(r@ =~= seq![digit_char(d as nat)]);
    }
    r
}

/// Appends the decimal rendering of `n`.
fn append_dec(out: &mut String, n: usize)
    ensures
        final(out)@ == old(out)@ + dec_chars(n as nat),
    decreases n,
{
    if n < 10 {
        out.append(digit_str(n));
    } else {
        append_dec(out, n / 10);
        out.append(digit_str(n % 10));
        proof {
            assert(old(out)@ + dec_chars((n / 10) as nat) + seq![digit_char((n % 10) as nat)]
                =~= old(out)@ + dec_chars(n as nat));
        }
    }
}

/// Appends the canonical tag of `t`.
pub fn append_tag(out: &mut String, t: &CanonicalType)
    ensures
        final(out)@ == old(out)@ + tag_of(ty_model(*t)),
    decreases *t, 1int,
{
    match t {
        CanonicalType::Bool => out.append("bool"),
        CanonicalType::Uint(b) => {
            out.append("uint");
            append_dec(out, *b);
            proof {
                assert(old(out)@ + "uint"@ + dec_chars(*b as nat) =~= old(out)@ + ("uint"@
                    + dec_chars(*b as nat)));
            }
        },
        CanonicalType::Int(b) => {
            out.append("int");
            append_dec(out, *b);
            proof {
                assert(old(out)@ + "int"@ + dec_chars(*b as nat) =~= old(out)@ + ("int"@
                    + dec_chars(*b as nat)));
            }
        },
        CanonicalType::Address => out.append("address"),
        CanonicalType::Bytes => out.append("bytes"),
        CanonicalType::FixedBytes(n) => {
            out.append("bytes");
            append_dec(out, *n);
            proof {
                assert(old(out)@ + "bytes"@ + dec_chars(*n as nat) =~= old(out)@ + ("bytes"@
                    + dec_chars(*n as nat)));
            }
        },
        CanonicalType::Str => out.append("string"),
        CanonicalType::Function => out.append("function"),
        CanonicalType::Array(inner) => {
            proof {
                assert(decreases_to!(*t => (*t)->Array_0));
            }
            append_tag(out, inner);
            out.append("[]");
            proof {
                assert(old(out)@ + tag_of(ty_model(*(*t)->Array_0)) + "[]"@ =~= old(out)@ + (tag_of(
                    ty_model(*(*t)->Array_0),
                ) + "[]"@));
            }
        },
        CanonicalType::FixedArray(inner, n) => {
            proof {
                assert(decreases_to!(*t => (*t)->FixedArray_0));
            }
            append_tag(out, inner);
            out.append("[");
            append_dec(out, *n);
            out.append("]");
            proof {
                assert(old(out)@ + tag_of(ty_model(*(*t)->FixedArray_0)) + "["@ + dec_chars(
                    *n as nat,
                ) + "]"@ =~= old(out)@ + (tag_of(ty_model(*(*t)->FixedArray_0)) + "["@ + dec_chars(
                    *n as nat,
                ) + "]"@));
            }
        },
        CanonicalType::Tuple(ts) => {
            out.append("(");
            let n = ts.len();
            let mut i: usize = 0;
            while i < n
                invariant
                    i <= n,
                    n == ts@.len(),
                    *t == CanonicalType::Tuple(*ts),
                    out@ == old(out)@ + "("@ + tags_join(ty_models(ts@.take(i as int))),
                decreases n - i,
            {
                proof {
                    assert(decreases_to!(*t => (*t)->Tuple_0));
                    assert(decreases_to!((*t)->Tuple_0 => (*t)->Tuple_0@));
                    assert(decreases_to!((*t)->Tuple_0@ => (*t)->Tuple_0@[i as int]));
                }
                if i > 0 {
                    out.append(",");
                }
                append_tag(out, &ts[i]);
                proof {
                    crate::abi::lemma_ty_models_push(ts@.take(i as int), ts@[i as int]);
                    assert(ts@.take(i + 1) =~= ts@.take(i as int).push(ts@[i as int]));
                    lemma_tags_join_push(ty_models(ts@.take(i as int)), ty_model(ts@[i as int]));
                    assert(ty_models(ts@.take(i + 1)) =~= ty_models(ts@.take(i as int)).push(
                        ty_model(ts@[i as int]),
                    ));
                    if i == 0 {
                        assert(out@ =~= old(out)@ + "("@ + tags_join(ty_models(ts@.take(1))));
                    } else {
                        assert(out@ =~= old(out)@ + "("@ + tags_join(
                            ty_models(ts@.take(i + 1)),
                        ));
                    }
                }
                i += 1;
            }
            proof {
                assert(ts@.take(n as int) =~= ts@);
            }
            out.append(")");
            proof {
                assert(old(out)@ + "("@ + tags_join(ty_models(ts@)) + ")"@ =~= old(out)@ + ("("@
                    + tags_join(ty_models(ts@)) + ")"@));
            }
        },
    }
}

/// Appending one type extends the joined tags with a comma (when the
/// list was non-empty) and the new tag.
proof fn lemma_tags_join_push(ts: Seq<TypeModel>, t: TypeModel)
    ensures
        ts.len() == 0 ==> tags_join(ts.push(t)) == tag_of(t),
        ts.len() > 0 ==> tags_join(ts.push(t)) == tags_join(ts) + ","@ + tag_of(t),
    decreases ts,
{
    let p = ts.push(t);
    if ts.len() == 0 {
        assert(p.len() == 1);
        assert(p[0] == t);
    } else if ts.len() == 1 {
        assert(p.len() == 2);
        assert(p[0] == ts[0]);
        assert(p.drop_first() =~= seq![t]);
        assert(tags_join(seq![t]) == tag_of(t));
        assert(tags_join(ts) == tag_of(ts[0]));
        assert(tags_join(p) == tag_of(p[0]) + ","@ + tags_join(p.drop_first()));
    } else {
        lemma_tags_join_push(ts.drop_first(), t);
        assert(p.drop_first() =~= ts.drop_first().push(t));
        assert(p[0] == ts[0]);
        assert(tags_join(p) == tag_of(p[0]) + ","@ + tags_join(p.drop_first()));
        assert(tags_join(ts) == tag_of(ts[0]) + ","@ + tags_join(ts.drop_first()));
        assert(tags_join(ts) + ","@ + tag_of(t) =~= tag_of(ts[0]) + ","@ + (tags_join(
            ts.drop_first(),
        ) + ","@ + tag_of(t)));
    }
}

/// The canonical signature string of a function.
pub fn signature_string(name: &String, tys: &Vec<CanonicalType>) -> (r: String)
    ensures
        r@ == spec_signature(name@, ty_models(tys@)),
{
    let mut out = name.clone();
    out.append("(");
    let n = tys.len();
    let mut i: usize = 0;
    proof {
        assert(tags_join(ty_models(tys@.take(0))) =~= Seq::<char>::empty());
        assert(out@ =~= name@ + "("@ + tags_join(ty_models(tys@.take(0))));
    }
    while i < n
        invariant
            i <= n,
            n == tys@.len(),
            out@ == name@ + "("@ + tags_join(ty_models(tys@.take(i as int))),
        decreases n - i,
    {
        if i > 0 {
            out.append(",");
        }
        append_tag(&mut out, &tys[i]);
        proof {
            crate::abi::lemma_ty_models_push(tys@.take(i as int), tys@[i as int]);
            assert(tys@.take(i + 1) =~= tys@.take(i as int).push(tys@[i as int]));
            lemma_tags_join_push(ty_models(tys@.take(i as int)), ty_model(tys@[i as int]));
            assert(ty_models(tys@.take(i + 1)) =~= ty_models(tys@.take(i as int)).push(
                ty_model(tys@[i as int]),
            ));
            if i == 0 {
                assert(out@ =~= name@ + "("@ + tags_join(ty_models(tys@.take(1))));
            } else {
                assert(out@ =~= name@ + "("@ + tags_join(ty_models(tys@.take(i + 1))));
            }
        }
        i += 1;
    }
    proof {
        assert(tys@.take(n as int) =~= tys@);
    }
    out.append(")");
    proof {
        assert(out@ =~= spec_signature(name@, ty_models(tys@)));
    }
    out
}

/// The 4-byte selector of a function with the given name and canonical
/// parameter types.
pub fn selector_of(name: &String, tys: &Vec<CanonicalType>) -> (r: Vec<u8>)
    ensures
        r@ == spec_selector(name@, ty_models(tys@)),
        r@.len() == 4,
{
    let sig = signature_string(name, tys);
    let bytes = sig.as_str().as_bytes_vec();
    let mut digest = keccak256_bytes(&bytes);
    digest.truncate(4);
    proof {
        assert(digest@ =~= spec_selector(name@, ty_models(tys@)));
    }
    digest
}

/// The character for one hex digit (lowercase).
pub open spec fn hex_digit_char(d: nat) -> char {
    if d < 10 {
        ((48 + d) as u8) as char
    } else {
        ((87 + d) as u8) as char
    }
}

/// Lowercase hex rendering of a byte string, two digits per byte, in
/// order.
pub open spec fn hex_chars(bs: Seq<u8>) -> Seq<char> {
    Seq::new(
        2 * bs.len(),
        |i: int|
            if i % 2 == 0 {
                hex_digit_char((bs[i / 2] / 16) as nat)
            } else {
                hex_digit_char((bs[i / 2] % 16) as nat)
            },
    )
}

/// Relies on hex::encode: encodes the bytes as a lowercase hex string,
/// two digits per byte, in input order.
#[verifier::external_body]
fn hex_encode(data: &Vec<u8>) -> (r: String)
    ensures
        r@ == hex_chars(data@),
{
    hex::encode(data.as_slice())
}

/// The `0x`-prefixed lowercase hex rendering of a byte string.
pub fn hex_prefixed(data: &Vec<u8>) -> (r: String)
    ensures
        r@ == "0x"@ + hex_chars(data@),
{
    let h = hex_encode(data);
    let s = String::from_str("0x");
    s.concat(h.as_str())
}

} // verus!
