//! Canonical recursive representation of interface parameter types, and
//! the normalizer that builds it from a parameter descriptor (a type tag
//! string plus, for aggregate types, an ordered component list).

use vstd::prelude::*;

verus! {

/// Canonical Type: closed recursive variant describing a parameter's shape.
///
/// Integer widths are in bits (8-bit aligned, at most 256); `FixedBytes`
/// widths are in bytes (1 to 32). `Function` is the 24-byte
/// function-selector type.
#[derive(Debug, PartialEq, Eq)]
pub enum CanonicalType {
    Bool,
    Uint(usize),
    Int(usize),
    Address,
    Bytes,
    FixedBytes(usize),
    Str,
    Function,
    Array(Box<CanonicalType>),
    FixedArray(Box<CanonicalType>, usize),
    Tuple(Vec<CanonicalType>),
}

/// Mathematical model of a canonical type, with sequences in place of
/// vectors and unbounded widths.
pub enum TypeModel {
    Bool,
    Uint(nat),
    Int(nat),
    Address,
    Bytes,
    FixedBytes(nat),
    Str,
    Function,
    Array(Box<TypeModel>),
    FixedArray(Box<TypeModel>, nat),
    Tuple(Seq<TypeModel>),
}

/// Model of a canonical type.
pub open spec fn ty_model(t: CanonicalType) -> TypeModel
    decreases t,
{
    match t {
        CanonicalType::Bool => TypeModel::Bool,
        CanonicalType::Uint(b) => TypeModel::Uint(b as nat),
        CanonicalType::Int(b) => TypeModel::Int(b as nat),
        CanonicalType::Address => TypeModel::Address,
        CanonicalType::Bytes => TypeModel::Bytes,
        CanonicalType::FixedBytes(n) => TypeModel::FixedBytes(n as nat),
        CanonicalType::Str => TypeModel::Str,
        CanonicalType::Function => TypeModel::Function,
        CanonicalType::Array(inner) => TypeModel::Array(Box::new(ty_model(*inner))),
        CanonicalType::FixedArray(inner, n) => TypeModel::FixedArray(
            Box::new(ty_model(*inner)),
            n as nat,
        ),
        CanonicalType::Tuple(ts) => TypeModel::Tuple(ty_models(ts@)),
    }
}

/// Models of a sequence of canonical types, in order.
pub open spec fn ty_models(ts: Seq<CanonicalType>) -> Seq<TypeModel>
    decreases ts,
{
    if ts.len() == 0 {
        Seq::empty()
    } else {
        seq![ty_model(ts[0])] + ty_models(ts.drop_first())
    }
}

/// Model of an optional canonical type.
pub open spec fn opt_ty_model(r: Option<CanonicalType>) -> Option<TypeModel> {
    match r {
        Option::Some(t) => Option::Some(ty_model(t)),
        Option::None => Option::None,
    }
}

/// One interface parameter descriptor: a type tag plus, for aggregate
/// types, the ordered component descriptors.
#[derive(Debug)]
pub struct Param {
    pub ty: String,
    pub components: Vec<Param>,
}

/// Mathematical model of a parameter descriptor.
pub struct ParamModel {
    pub ty: Seq<char>,
    pub components: Seq<ParamModel>,
}

/// Model of a parameter descriptor.
pub open spec fn param_model(p: Param) -> ParamModel
    decreases p,
{
    ParamModel { ty: p.ty@, components: params_model(p.components@) }
}

/// Models of a sequence of parameter descriptors, in order.
pub open spec fn params_model(ps: Seq<Param>) -> Seq<ParamModel>
    decreases ps,
{
    if ps.len() == 0 {
        Seq::empty()
    } else {
        seq![param_model(ps[0])] + params_model(ps.drop_first())
    }
}

/// An interface parameter's type tag could not be normalized; carries the
/// offending tag string.
#[derive(Debug)]
pub struct TypeParseError {
    pub tag: String,
}

// ---------------------------------------------------------------------
// The elementary type-tag grammar.
// ---------------------------------------------------------------------

/// Whether `c` is an ASCII decimal digit.
pub open spec fn is_digit(c: char) -> bool {
    48 <= c as u32 && c as u32 <= 57
}

/// Numeric value of an ASCII decimal digit.
pub open spec fn digit_val(c: char) -> nat {
    (c as u32 - 48) as nat
}

/// Whether every character of `s` is an ASCII decimal digit.
pub open spec fn all_digits(s: Seq<char>) -> bool {
    forall|i: int| 0 <= i < s.len() ==> is_digit(s[i])
}

/// Value of `s` read as a decimal numeral (most significant digit first).
pub open spec fn dec_value(s: Seq<char>) -> nat
    decreases s.len(),
{
    if s.len() == 0 {
        0
    } else {
        dec_value(s.drop_last()) * 10 + digit_val(s.last())
    }
}

/// Elementary (root) type tags: the fixed names, sized byte strings
/// `bytes1` to `bytes32`, and signed/unsigned integers at 8-bit-aligned
/// widths up to 256 (`uint`/`int` alone abbreviate width 256).
pub open spec fn spec_parse_root(s: Seq<char>) -> Option<TypeModel> {
    if s == "bool"@ {
        Option::Some(TypeModel::Bool)
    } else if s == "address"@ {
        Option::Some(TypeModel::Address)
    } else if s == "string"@ {
        Option::Some(TypeModel::Str)
    } else if s == "bytes"@ {
        Option::Some(TypeModel::Bytes)
    } else if s == "function"@ {
        Option::Some(TypeModel::Function)
    } else if s == "uint"@ {
        Option::Some(TypeModel::Uint(256))
    } else if s == "int"@ {
        Option::Some(TypeModel::Int(256))
    } else if s.len() > 5 && s.take(5) == "bytes"@ {
        if all_digits(s.skip(5)) && 1 <= dec_value(s.skip(5)) <= 32 {
            Option::Some(TypeModel::FixedBytes(dec_value(s.skip(5))))
        } else {
            Option::None
        }
    } else if s.len() > 4 && s.take(4) == "uint"@ {
        if all_digits(s.skip(4)) && 8 <= dec_value(s.skip(4)) <= 256 && dec_value(s.skip(4)) % 8
            == 0 {
            Option::Some(TypeModel::Uint(dec_value(s.skip(4))))
        } else {
            Option::None
        }
    } else if s.len() > 3 && s.take(3) == "int"@ {
        if all_digits(s.skip(3)) && 8 <= dec_value(s.skip(3)) <= 256 && dec_value(s.skip(3)) % 8
            == 0 {
            Option::Some(TypeModel::Int(dec_value(s.skip(3))))
        } else {
            Option::None
        }
    } else {
        Option::None
    }
}

/// Index of the last `[` in `s`, or -1 if there is none.
pub open spec fn last_lbracket(s: Seq<char>) -> int
    decreases s.len(),
{
    if s.len() == 0 {
        -1
    } else if s.last() == '[' {
        s.len() - 1
    } else {
        last_lbracket(s.drop_last())
    }
}

/// Full elementary tag grammar: a root tag followed by array suffixes.
/// `[]` wraps in a dynamic array; `[n]` with `n` a positive decimal
/// that fits the machine wraps in a fixed array of length `n`; any
/// other bracket content (a zero size included) fails.
pub open spec fn spec_parse_tag(s: Seq<char>) -> Option<TypeModel>
    decreases s.len(),
{
    if s.len() == 0 {
        Option::None
    } else if s.last() == ']' {
        let lb = last_lbracket(s);
        if lb < 0 || lb >= s.len() {
            Option::None
        } else {
            let content = s.subrange(lb + 1, s.len() - 1);
            match spec_parse_tag(s.take(lb)) {
                Option::None => Option::None,
                Option::Some(t) => if content.len() == 0 {
                    Option::Some(TypeModel::Array(Box::new(t)))
                } else if all_digits(content) && 1 <= dec_value(content) && dec_value(content)
                    <= usize::MAX {
                    Option::Some(TypeModel::FixedArray(Box::new(t), dec_value(content)))
                } else {
                    Option::None
                },
            }
        }
    } else {
        spec_parse_root(s)
    }
}

/// Normalization of one parameter descriptor: `tuple` recurses into the
/// components; `tuple[...]` builds the tuple and wraps it in an array
/// (fixed where the bracket holds a machine-sized decimal, dynamic
/// otherwise, tolerating unusual bracket content); anything else is
/// parsed against the elementary tag grammar.
pub open spec fn spec_normalize(p: ParamModel) -> Option<TypeModel>
    decreases p,
{
    if p.ty == "tuple"@ {
        match spec_normalize_list(p.components) {
            Option::Some(ts) => Option::Some(TypeModel::Tuple(ts)),
            Option::None => Option::None,
        }
    } else if p.ty.len() >= 6 && p.ty.take(6) == "tuple["@ {
        match spec_normalize_list(p.components) {
            Option::Some(ts) => {
                let tup = TypeModel::Tuple(ts);
                if p.ty == "tuple[]"@ {
                    Option::Some(TypeModel::Array(Box::new(tup)))
                } else if p.ty.len() == 6 {
                    Option::Some(TypeModel::Array(Box::new(tup)))
                } else {
                    let mid = p.ty.subrange(6, p.ty.len() - 1);
                    if mid.len() > 0 && all_digits(mid) && dec_value(mid) <= usize::MAX {
                        Option::Some(TypeModel::FixedArray(Box::new(tup), dec_value(mid)))
                    } else {
                        Option::Some(TypeModel::Array(Box::new(tup)))
                    }
                }
            },
            Option::None => Option::None,
        }
    } else {
        spec_parse_tag(p.ty)
    }
}

/// Normalization of an ordered component list; fails as soon as any
/// component fails.
pub open spec fn spec_normalize_list(ps: Seq<ParamModel>) -> Option<Seq<TypeModel>>
    decreases ps,
{
    if ps.len() == 0 {
        Option::Some(Seq::empty())
    } else {
        match spec_normalize(ps[0]) {
            Option::None => Option::None,
            Option::Some(t) => match spec_normalize_list(ps.drop_first()) {
                Option::None => Option::None,
                Option::Some(ts) => Option::Some(seq![t] + ts),
            },
        }
    }
}

/// The offending tag reported when normalization of `p` fails: the
/// descriptor's own tag when its elementary parse fails, else the
/// first failing component's offending tag.
pub open spec fn spec_bad_tag(p: ParamModel) -> Seq<char>
    decreases p,
{
    if p.ty == "tuple"@ || (p.ty.len() >= 6 && p.ty.take(6) == "tuple["@) {
        spec_bad_tag_list(p.components)
    } else {
        p.ty
    }
}

/// The first failing descriptor's offending tag in an ordered list.
pub open spec fn spec_bad_tag_list(ps: Seq<ParamModel>) -> Seq<char>
    decreases ps,
{
    if ps.len() == 0 {
        Seq::empty()
    } else if spec_normalize(ps[0]) is None {
        spec_bad_tag(ps[0])
    } else {
        spec_bad_tag_list(ps.drop_first())
    }
}

/// Descriptor lists model pointwise.
pub proof fn lemma_params_model_index(ps: Seq<Param>)
    ensures
        params_model(ps).len() == ps.len(),
        forall|i: int| 0 <= i < ps.len() ==> params_model(ps)[i] == param_model(ps[i]),
    decreases ps,
{
    if ps.len() > 0 {
        lemma_params_model_index(ps.drop_first());
        assert forall|i: int| 0 <= i < ps.len() implies params_model(ps)[i] == param_model(
            ps[i],
        ) by {
            if i > 0 {
                assert(ps.drop_first()[i - 1] == ps[i]);
            }
        }
    }
}

/// When every descriptor before `i` normalizes and the one at `i`
/// fails, the list's offending tag is the one at `i`.
proof fn lemma_bad_tag_first(ms: Seq<ParamModel>, i: int)
    requires
        0 <= i < ms.len(),
        forall|j: int| 0 <= j < i ==> spec_normalize(#[trigger] ms[j]) is Some,
        spec_normalize(ms[i]) is None,
    ensures
        spec_bad_tag_list(ms) == spec_bad_tag(ms[i]),
    decreases i,
{
    if i > 0 {
        assert(spec_normalize(ms[0]) is Some);
        lemma_bad_tag_first(ms.drop_first(), i - 1);
        assert(ms.drop_first()[i - 1] == ms[i]);
    }
}

// ---------------------------------------------------------------------
// Executable normalizer.
// ---------------------------------------------------------------------

/// Characters of a string, in order.
fn chars_of(s: &str) -> (r: Vec<char>)
    ensures
        r@ == s@,
{
    let n = s.unicode_len();
    let mut r: Vec<char> = Vec::new();
    let mut i: usize = 0;
    while i < n
        invariant
            i <= n,
            n == s@.len(),
            r@ == s@.take(i as int),
        decreases n - i,
    {
        r.push(s.get_char(i));
        proof {
            assert(s@.take(i + 1) =~= s@.take(i as int).push(s@[i as int]));
        }
        i += 1;
    }
    proof {
        assert(s@.take(n as int) =~= s@);
    }
    r
}

/// Whether the segment `v[lo..hi]` spells exactly the literal `lit`.
fn seg_eq_lit(v: &Vec<char>, lo: usize, hi: usize, lit: &str) -> (r: bool)
    requires
        lo <= hi <= v@.len(),
    ensures
        r == (v@.subrange(lo as int, hi as int) == lit@),
{
    let n = lit.unicode_len();
    if hi - lo != n {
        proof {
            assert(v@.subrange(lo as int, hi as int).len() != lit@.len());
        }
        return false;
    }
    let mut i: usize = 0;
    while i < n
        invariant
            i <= n,
            n == lit@.len(),
            lo <= hi <= v@.len(),
            hi - lo == n,
            forall|k: int| 0 <= k < i ==> v@[lo + k] == lit@[k],
        decreases n - i,
    {
        if v[lo + i] != lit.get_char(i) {
            proof {
                assert(v@.subrange(lo as int, hi as int)[i as int] == v@[lo + i]);
            }
            return false;
        }
        i += 1;
    }
    proof {
        assert(v@.subrange(lo as int, hi as int) =~= lit@);
    }
    true
}

/// Reading one more digit multiplies the prefix value by ten.
proof fn lemma_dec_value_extend(s: Seq<char>, i: int)
    requires
        0 <= i < s.len(),
    ensures
        dec_value(s.take(i + 1)) == dec_value(s.take(i)) * 10 + digit_val(s[i]),
{
    assert(s.take(i + 1).drop_last() =~= s.take(i));
    assert(s.take(i + 1).last() == s[i]);
}

/// The value of a decimal numeral is monotone in its prefixes.
proof fn lemma_dec_value_mono(s: Seq<char>, i: int, j: int)
    requires
        0 <= i <= j <= s.len(),
    ensures
        dec_value(s.take(i)) <= dec_value(s.take(j)),
    decreases j - i,
{
    if i < j {
        lemma_dec_value_mono(s, i, j - 1);
        lemma_dec_value_extend(s, j - 1);
    }
}

/// Parses `v[lo..hi]` as a decimal numeral of value at most `bound`.
/// Returns the value exactly when the segment is a non-empty, all-digit
/// numeral whose value does not exceed the bound.
fn parse_dec_bounded(v: &Vec<char>, lo: usize, hi: usize, bound: usize) -> (r: Option<usize>)
    requires
        lo <= hi <= v@.len(),
    ensures
        ({
            let sub = v@.subrange(lo as int, hi as int);
            match r {
                Option::Some(n) => sub.len() > 0 && all_digits(sub) && n == dec_value(sub) && n
                    <= bound,
                Option::None => !(sub.len() > 0 && all_digits(sub) && dec_value(sub) <= bound),
            }
        }),
{
    let ghost sub = v@.subrange(lo as int, hi as int);
    if lo == hi {
        return None;
    }
    let mut acc: u128 = 0;
    let mut i: usize = 0;
    let n = hi - lo;
    while i < n
        invariant
            i <= n,
            n == hi - lo,
            lo <= hi <= v@.len(),
            sub == v@.subrange(lo as int, hi as int),
            acc == dec_value(sub.take(i as int)),
            acc <= bound,
            bound <= usize::MAX,
            forall|k: int| 0 <= k < i ==> is_digit(sub[k]),
        decreases n - i,
    {
        let c = v[lo + i];
        let d = c as u32;
        proof {
            assert(sub[i as int] == v@[lo + i]);
        }
        if d < 48 || d > 57 {
            proof {
                assert(!is_digit(sub[i as int]));
            }
            return None;
        }
        let next: u128 = acc * 10 + (d - 48) as u128;
        proof {
            lemma_dec_value_extend(sub, i as int);
        }
        if next > bound as u128 {
            proof {
                lemma_dec_value_mono(sub, i + 1, sub.len() as int);
                assert(sub.take(sub.len() as int) =~= sub);
            }
            return None;
        }
        acc = next;
        i += 1;
    }
    proof {
        assert(sub.take(n as int) =~= sub);
    }
    Some(acc as usize)
}

/// Parses the root segment `v[0..hi]` against the elementary type names.
fn parse_root(v: &Vec<char>, hi: usize) -> (r: Option<CanonicalType>)
    requires
        hi <= v@.len(),
    ensures
        opt_ty_model(r) == spec_parse_root(v@.take(hi as int)),
{
    let ghost s = v@.take(hi as int);
    proof {
        assert(s =~= v@.subrange(0, hi as int));
        if hi >= 5 {
            assert(s.take(5) =~= v@.subrange(0, 5));
            assert(s.skip(5) =~= v@.subrange(5, hi as int));
        }
        if hi >= 4 {
            assert(s.take(4) =~= v@.subrange(0, 4));
            assert(s.skip(4) =~= v@.subrange(4, hi as int));
        }
        if hi >= 3 {
            assert(s.take(3) =~= v@.subrange(0, 3));
            assert(s.skip(3) =~= v@.subrange(3, hi as int));
        }
    }
    if seg_eq_lit(v, 0, hi, "bool") {
        return Some(CanonicalType::Bool);
    }
    if seg_eq_lit(v, 0, hi, "address") {
        return Some(CanonicalType::Address);
    }
    if seg_eq_lit(v, 0, hi, "string") {
        return Some(CanonicalType::Str);
    }
    if seg_eq_lit(v, 0, hi, "bytes") {
        return Some(CanonicalType::Bytes);
    }
    if seg_eq_lit(v, 0, hi, "function") {
        return Some(CanonicalType::Function);
    }
    if seg_eq_lit(v, 0, hi, "uint") {
        return Some(CanonicalType::Uint(256));
    }
    if seg_eq_lit(v, 0, hi, "int") {
        return Some(CanonicalType::Int(256));
    }
    if hi > 5 && seg_eq_lit(v, 0, 5, "bytes") {
        proof {
            assert(s.take(5) =~= v@.subrange(0, 5));
            assert(s.skip(5) =~= v@.subrange(5, hi as int));
        }
        return match parse_dec_bounded(v, 5, hi, 32) {
            Option::Some(w) => if w >= 1 {
                Some(CanonicalType::FixedBytes(w))
            } else {
                None
            },
            Option::None => None,
        };
    }
    if hi > 4 && seg_eq_lit(v, 0, 4, "uint") {
        proof {
            assert(s.take(4) =~= v@.subrange(0, 4));
            assert(s.skip(4) =~= v@.subrange(4, hi as int));
        }
        return match parse_dec_bounded(v, 4, hi, 256) {
            Option::Some(w) => if w >= 8 && w % 8 == 0 {
                Some(CanonicalType::Uint(w))
            } else {
                None
            },
            Option::None => None,
        };
    }
    if hi > 3 && seg_eq_lit(v, 0, 3, "int") {
        proof {
            assert(s.take(3) =~= v@.subrange(0, 3));
            assert(s.skip(3) =~= v@.subrange(3, hi as int));
        }
        return match parse_dec_bounded(v, 3, hi, 256) {
            Option::Some(w) => if w >= 8 && w % 8 == 0 {
                Some(CanonicalType::Int(w))
            } else {
                None
            },
            Option::None => None,
        };
    }
    None
}

/// Parses the tag segment `v[0..hi]` against the full elementary grammar,
/// array suffixes included.
fn parse_tag(v: &Vec<char>, hi: usize) -> (r: Option<CanonicalType>)
    requires
        hi <= v@.len(),
    ensures
        opt_ty_model(r) == spec_parse_tag(v@.take(hi as int)),
    decreases hi,
{
    let ghost s = v@.take(hi as int);
    if hi == 0 {
        return None;
    }
    if v[hi - 1] != ']' {
        proof {
            assert(s.last() == v@[hi - 1]);
        }
        return parse_root(v, hi);
    }
    proof {
        assert(s.last() == v@[hi - 1]);
    }
    // Scan right to left for the last `[`.
    let mut j: usize = hi - 1;
    proof {
        assert(s.drop_last() =~= v@.take(hi - 1));
    }
    while j > 0 && v[j - 1] != '['
        invariant
            j <= hi - 1,
            hi <= v@.len(),
            s == v@.take(hi as int),
            last_lbracket(s) == last_lbracket(v@.take(j as int)),
        decreases j,
    {
        proof {
            assert(v@.take(j as int).drop_last() =~= v@.take(j - 1));
            assert(v@.take(j as int).last() == v@[j - 1]);
        }
        j -= 1;
    }
    if j == 0 {
        proof {
            assert(last_lbracket(s) == -1);
        }
        return None;
    }
    let lb = j - 1;
    proof {
        assert(v@.take(j as int).last() == v@[j - 1]);
        assert(last_lbracket(s) == lb);
    }
    let ghost content = s.subrange(lb + 1, s.len() - 1);
    proof {
        assert(content =~= v@.subrange(lb + 1, hi - 1));
        assert(s.take(lb as int) =~= v@.take(lb as int));
    }
    let inner = match parse_tag(v, lb) {
        Option::Some(t) => t,
        Option::None => {
            return None;
        },
    };
    if lb + 1 == hi - 1 {
        return Some(CanonicalType::Array(Box::new(inner)));
    }
    match parse_dec_bounded(v, lb + 1, hi - 1, usize::MAX) {
        Option::Some(0) => None,
        Option::Some(m) => Some(CanonicalType::FixedArray(Box::new(inner), m)),
        Option::None => None,
    }
}

/// Normalizes one parameter descriptor into a Canonical Type, or fails
/// with the offending tag. Succeeds exactly when the descriptor is
/// well-formed under the normalization rules.
pub fn normalize_param(p: &Param) -> (r: Result<CanonicalType, TypeParseError>)
    ensures
        match r {
            Result::Ok(t) => spec_normalize(param_model(*p)) == Option::Some(ty_model(t)),
            Result::Err(e) => spec_normalize(param_model(*p)) is None && e.tag@ == spec_bad_tag(
                param_model(*p),
            ),
        },
    decreases *p,
{
    let tyv = chars_of(p.ty.as_str());
    let n = tyv.len();
    proof {
        assert(tyv@.subrange(0, n as int) =~= tyv@);
        assert(tyv@.take(n as int) =~= tyv@);
        if n >= 6 {
            assert(p.ty@.take(6) =~= tyv@.subrange(0, 6));
        }
    }
    if seg_eq_lit(&tyv, 0, n, "tuple") {
        return match normalize_components(&p.components) {
            Result::Ok(ts) => Ok(CanonicalType::Tuple(ts)),
            Result::Err(e) => Err(e),
        };
    }
    if n >= 6 && seg_eq_lit(&tyv, 0, 6, "tuple[") {
        let ts = match normalize_components(&p.components) {
            Result::Ok(ts) => ts,
            Result::Err(e) => {
                return Err(e);
            },
        };
        let tup = CanonicalType::Tuple(ts);
        proof {
            assert(ty_model(tup) == TypeModel::Tuple(ty_models(tup->Tuple_0@)));
        }
        if seg_eq_lit(&tyv, 0, n, "tuple[]") {
            return Ok(CanonicalType::Array(Box::new(tup)));
        }
        if n == 6 {
            return Ok(CanonicalType::Array(Box::new(tup)));
        }
        return match parse_dec_bounded(&tyv, 6, n - 1, usize::MAX) {
            Option::Some(m) => Ok(CanonicalType::FixedArray(Box::new(tup), m)),
            Option::None => Ok(CanonicalType::Array(Box::new(tup))),
        };
    }
    match parse_tag(&tyv, n) {
        Option::Some(t) => Ok(t),
        Option::None => Err(TypeParseError { tag: p.ty.clone() }),
    }
}

/// A possibly failed tail, prefixed by an already-normalized head.
pub open spec fn opt_prepend(pre: Seq<TypeModel>, rest: Option<Seq<TypeModel>>) -> Option<
    Seq<TypeModel>,
> {
    match rest {
        Option::Some(r) => Option::Some(pre + r),
        Option::None => Option::None,
    }
}

proof fn lemma_opt_prepend_empty(rest: Option<Seq<TypeModel>>)
    ensures
        opt_prepend(Seq::empty(), rest) == rest,
{
    if let Option::Some(r) = rest {
        assert(Seq::empty() + r =~= r);
    }
}

proof fn lemma_opt_prepend_assoc(a: Seq<TypeModel>, b: Seq<TypeModel>, rest: Option<Seq<TypeModel>>)
    ensures
        opt_prepend(a, opt_prepend(b, rest)) == opt_prepend(a + b, rest),
{
    if let Option::Some(r) = rest {
        assert(a + (b + r) =~= (a + b) + r);
    }
}

/// Normalizes an ordered component list; fails on the first component
/// whose descriptor is malformed.
pub fn normalize_components(ps: &Vec<Param>) -> (r: Result<Vec<CanonicalType>, TypeParseError>)
    ensures
        match r {
            Result::Ok(ts) => spec_normalize_list(params_model(ps@)) == Option::Some(
                ty_models(ts@),
            ),
            Result::Err(e) => spec_normalize_list(params_model(ps@)) is None && e.tag@
                == spec_bad_tag_list(params_model(ps@)),
        },
    decreases ps@,
{
    let mut out: Vec<CanonicalType> = Vec::new();
    let mut i: usize = 0;
    let n = ps.len();
    proof {
        assert(ps@.skip(0) =~= ps@);
        lemma_opt_prepend_empty(spec_normalize_list(params_model(ps@)));
        assert(ty_models(out@) =~= Seq::<TypeModel>::empty());
    }
    proof {
        lemma_params_model_index(ps@);
    }
    while i < n
        invariant
            i <= n,
            n == ps@.len(),
            params_model(ps@).len() == n,
            forall|j: int| 0 <= j < n ==> params_model(ps@)[j] == param_model(ps@[j]),
            forall|j: int| 0 <= j < i ==> spec_normalize(#[trigger] params_model(ps@)[j]) is Some,
            spec_normalize_list(params_model(ps@)) == opt_prepend(
                ty_models(out@),
                spec_normalize_list(params_model(ps@.skip(i as int))),
            ),
        decreases n - i,
    {
        let ghost ms = params_model(ps@.skip(i as int));
        proof {
            lemma_params_model_skip_first(ps@, i as int);
            assert(ms.len() > 0);
            assert(ms[0] == param_model(ps@[i as int]));
            assert(ms.drop_first() =~= params_model(ps@.skip(i + 1)));
        }
        let t = match normalize_param(&ps[i]) {
            Result::Ok(t) => t,
            Result::Err(e) => {
                proof {
                    lemma_bad_tag_first(params_model(ps@), i as int);
                }
                return Err(e);
            },
        };
        proof {
            // One unfolding of the list normalization at the head.
            assert(spec_normalize_list(ms) == opt_prepend(
                seq![ty_model(t)],
                spec_normalize_list(params_model(ps@.skip(i + 1))),
            ));
            lemma_opt_prepend_assoc(
                ty_models(out@),
                seq![ty_model(t)],
                spec_normalize_list(params_model(ps@.skip(i + 1))),
            );
            lemma_ty_models_push(out@, t);
        }
        out.push(t);
        i += 1;
    }
    proof {
        assert(ps@.skip(n as int) =~= Seq::<Param>::empty());
        if let Option::Some(r) = spec_normalize_list(params_model(ps@.skip(n as int))) {
            assert(ty_models(out@) + r =~= ty_models(out@));
        }
    }
    Ok(out)
}

/// Unfolds the model of a descriptor list at its head.
proof fn lemma_params_model_skip_first(ps: Seq<Param>, i: int)
    requires
        0 <= i < ps.len(),
    ensures
        params_model(ps.skip(i)) == seq![param_model(ps[i])] + params_model(ps.skip(i + 1)),
{
    assert(ps.skip(i).len() == ps.len() - i);
    assert(ps.skip(i)[0] == ps[i]);
    assert(ps.skip(i).drop_first() =~= ps.skip(i + 1));
}

/// Appending one type appends its model.
pub proof fn lemma_ty_models_push(ts: Seq<CanonicalType>, t: CanonicalType)
    ensures
        ty_models(ts.push(t)) == ty_models(ts) + seq![ty_model(t)],
    decreases ts,
{
    if ts.len() == 0 {
        let p = ts.push(t);
        assert(p[0] == t);
        assert(p.drop_first() =~= Seq::<CanonicalType>::empty());
        assert(ty_models(p) == seq![ty_model(p[0])] + ty_models(p.drop_first()));
        assert(ty_models(Seq::<CanonicalType>::empty()) =~= Seq::<TypeModel>::empty());
        assert(seq![ty_model(t)] + Seq::<TypeModel>::empty() =~= seq![ty_model(t)]);
        assert(ty_models(ts) =~= Seq::<TypeModel>::empty());
        assert(Seq::<TypeModel>::empty() + seq![ty_model(t)] =~= seq![ty_model(t)]);
    } else {
        lemma_ty_models_push(ts.drop_first(), t);
        assert(ts.push(t).drop_first() =~= ts.drop_first().push(t));
        assert(ts.push(t)[0] == ts[0]);
        assert(ty_models(ts.push(t)) =~= ty_models(ts) + seq![ty_model(t)]);
    }
}

} // verus!
