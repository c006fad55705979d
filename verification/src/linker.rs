//! Build-output fixing: blanking unresolved external-library address
//! placeholders in pre-link hex bytecode, and locating the enclosing
//! project root among a directory's ancestors.

use vstd::prelude::*;

verus! {

/// First index at or after `j` where the closing `$__` token starts, or
/// -1 if there is none.
pub open spec fn spec_find_close(s: Seq<u8>, j: int) -> int
    recommends
        0 <= j,
    decreases s.len() - j when 0 <= j
{
    if j + 3 > s.len() {
        -1
    } else if s[j] == 36 && s[j + 1] == 95 && s[j + 2] == 95 {
        j
    } else {
        spec_find_close(s, j + 1)
    }
}

/// The hex string from position `i` on, with every `__$...$__`-style
/// placeholder replaced by the same number of `0` characters: a run
/// starting `__` is blanked through the next closing `$__`; `__`
/// without a closing token is copied as it stands.
pub open spec fn spec_replace(s: Seq<u8>, i: int) -> Seq<u8>
    recommends
        0 <= i,
    decreases s.len() - i when 0 <= i
{
    if i >= s.len() {
        Seq::empty()
    } else if i + 1 < s.len() && s[i] == 95 && s[i + 1] == 95 {
        let c = spec_find_close(s, i);
        if i <= c && c + 3 <= s.len() {
            Seq::new((c + 3 - i) as nat, |k: int| 48u8) + spec_replace(s, c + 3)
        } else {
            seq![s[i]] + spec_replace(s, i + 1)
        }
    } else {
        seq![s[i]] + spec_replace(s, i + 1)
    }
}

/// A close token found is never before the search start and leaves room
/// for its three characters.
proof fn lemma_find_close_range(s: Seq<u8>, j: int)
    requires
        0 <= j,
    ensures
        spec_find_close(s, j) == -1 || (j <= spec_find_close(s, j) && spec_find_close(s, j) + 3
            <= s.len()),
    decreases s.len() - j,
{
    if j + 3 <= s.len() && !(s[j] == 36 && s[j + 1] == 95 && s[j + 2] == 95) {
        lemma_find_close_range(s, j + 1);
    }
}

/// Placeholder replacement preserves the total length exactly: each
/// blanked run is replaced character for character, and everything else
/// is copied.
pub proof fn lemma_replace_preserves_len(s: Seq<u8>, i: int)
    requires
        0 <= i <= s.len(),
    ensures
        spec_replace(s, i).len() == s.len() - i,
    decreases s.len() - i,
{
    if i < s.len() {
        if i + 1 < s.len() && s[i] == 95 && s[i + 1] == 95 {
            let c = spec_find_close(s, i);
            lemma_find_close_range(s, i);
            if i <= c && c + 3 <= s.len() {
                lemma_replace_preserves_len(s, c + 3);
            } else {
                lemma_replace_preserves_len(s, i + 1);
            }
        } else {
            lemma_replace_preserves_len(s, i + 1);
        }
    }
}

/// Replaces unresolved library placeholders (`__$<hash>$__`) in a hex
/// byte string with `0` characters, preserving the total length so
/// bytecode offsets stay valid.
pub fn replace_library_placeholders(hex_str: &Vec<u8>) -> (r: Vec<u8>)
    ensures
        r@ == spec_replace(hex_str@, 0),
        r@.len() == hex_str@.len(),
{
    let ghost s = hex_str@;
    let n = hex_str.len();
    let mut r: Vec<u8> = Vec::new();
    let mut i: usize = 0;
    proof {
        assert(Seq::<u8>::empty() + spec_replace(s, 0) =~= spec_replace(s, 0));
    }
    while i < n
        invariant
            i <= n,
            n == s.len(),
            s == hex_str@,
            spec_replace(s, 0) == r@ + spec_replace(s, i as int),
        decreases n - i,
    {
        let ghost r_before = r@;
        if i + 1 < n && hex_str[i] == 95 && hex_str[i + 1] == 95 {
            // Find the closing `$__`.
            let mut j: usize = i;
            while n - j >= 3 && !(hex_str[j] == 36 && hex_str[j + 1] == 95 && hex_str[j + 2]
                == 95)
                invariant
                    i <= j <= n,
                    n == s.len(),
                    s == hex_str@,
                    spec_find_close(s, i as int) == spec_find_close(s, j as int),
                decreases n - j,
            {
                j += 1;
            }
            if n - j >= 3 {
                // A closing token at j: blank the whole run.
                proof {
                    assert(spec_find_close(s, i as int) == j);
                }
                let end = j + 3;
                let mut k: usize = i;
                while k < end
                    invariant
                        i <= k <= end,
                        end <= n,
                        r@ == r_before + Seq::new((k - i) as nat, |q: int| 48u8),
                    decreases end - k,
                {
                    r.push(48u8);
                    proof {
                        assert(r@ =~= r_before + Seq::new((k + 1 - i) as nat, |q: int| 48u8));
                    }
                    k += 1;
                }
                proof {
                    assert(r_before + (Seq::new((end - i) as nat, |q: int| 48u8) + spec_replace(
                        s,
                        end as int,
                    )) =~= r@ + spec_replace(s, end as int));
                }
                i = end;
                continue;
            }
            proof {
                assert(spec_find_close(s, i as int) == -1);
            }
        }
        r.push(hex_str[i]);
        proof {
            assert(r@ =~= r_before + seq![s[i as int]]);
            assert(r_before + (seq![s[i as int]] + spec_replace(s, i + 1)) =~= r@ + spec_replace(
                s,
                i + 1,
            ));
        }
        i += 1;
    }
    proof {
        assert(spec_replace(s, n as int) =~= Seq::<u8>::empty());
        assert(r@ + Seq::<u8>::empty() =~= r@);
        lemma_replace_preserves_len(s, 0);
    }
    r
}

/// Picks the nearest enclosing project root. The caller walks a file's
/// ancestor directories from the innermost outward and records, in that
/// order, whether each one holds the project marker file; the result is
/// the index of the first that does.
pub fn find_foundry_root(has_marker: &Vec<bool>) -> (r: Option<usize>)
    ensures
        match r {
            Option::Some(i) => i < has_marker@.len() && has_marker@[i as int] && forall|j: int|
                0 <= j < i ==> !has_marker@[j],
            Option::None => forall|j: int| 0 <= j < has_marker@.len() ==> !has_marker@[j],
        },
{
    let n = has_marker.len();
    let mut i: usize = 0;
    while i < n
        invariant
            i <= n,
            n == has_marker@.len(),
            forall|j: int| 0 <= j < i ==> !has_marker@[j],
        decreases n - i,
    {
        if has_marker[i] {
            return Some(i);
        }
        i += 1;
    }
    None
}

} // verus!
