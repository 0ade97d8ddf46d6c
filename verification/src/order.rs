//! The alphanumeric order of image paths.
//!
//! Paths compare as text, character by character, a proper prefix first. For
//! UTF-8 text this is the order in which `str` compares, since UTF-8 keeps the
//! order of code points.

use vstd::prelude::*;
use rand::seq::SliceRandom;
use vstd::string::StrSliceExecFns;

verus! {

/// `a` comes strictly before `b` in the lexicographic order on code points.
pub open spec fn text_lt(a: Seq<char>, b: Seq<char>) -> bool
    decreases a.len(),
{
    if b.len() == 0 {
        false
    } else if a.len() == 0 {
        true
    } else if a[0] != b[0] {
        a[0] < b[0]
    } else {
        text_lt(a.drop_first(), b.drop_first())
    }
}

/// No text comes before itself.
pub proof fn lemma_text_lt_irreflexive(a: Seq<char>)
    ensures
        !text_lt(a, a),
    decreases a.len(),
{
    if a.len() > 0 {
        lemma_text_lt_irreflexive(a.drop_first());
    }
}

/// Of two texts, exactly one of "before", "equal" and "after" holds.
pub proof fn lemma_text_trichotomy(a: Seq<char>, b: Seq<char>)
    ensures
        text_lt(a, b) || a == b || text_lt(b, a),
        !(text_lt(a, b) && text_lt(b, a)),
        text_lt(a, b) ==> a != b,
    decreases a.len(),
{
    lemma_text_lt_irreflexive(a);
    if a.len() > 0 && b.len() > 0 && a[0] == b[0] {
        lemma_text_trichotomy(a.drop_first(), b.drop_first());
        if a.drop_first() == b.drop_first() {
            assert(a =~= seq![a[0]] + a.drop_first());
            assert(b =~= seq![b[0]] + b.drop_first());
        }
    } else if a.len() == 0 && b.len() == 0 {
        assert(a =~= b);
    }
}

/// The order is transitive.
pub proof fn lemma_text_lt_transitive(a: Seq<char>, b: Seq<char>, c: Seq<char>)
    requires
        text_lt(a, b),
        text_lt(b, c),
    ensures
        text_lt(a, c),
    decreases a.len(),
{
    if a.len() > 0 && a[0] == b[0] && b[0] == c[0] {
        lemma_text_lt_transitive(a.drop_first(), b.drop_first(), c.drop_first());
    }
}

/// At the first position `k` where two texts differ, the one with the smaller
/// code point there comes first, whatever follows.
pub proof fn law_text_lt_first_difference(a: Seq<char>, b: Seq<char>, k: int)
    requires
        0 <= k < a.len(),
        k < b.len(),
        forall|j: int| 0 <= j < k ==> a[j] == b[j],
        a[k] != b[k],
    ensures
        text_lt(a, b) == (a[k] < b[k]),
        text_lt(b, a) == (b[k] < a[k]),
    decreases k,
{
    if k > 0 {
        assert(a[0] == b[0]);
        assert forall|j: int| 0 <= j < k - 1 implies a.drop_first()[j] == b.drop_first()[j] by {
            assert(a[j + 1] == b[j + 1]);
        }
        law_text_lt_first_difference(a.drop_first(), b.drop_first(), k - 1);
    }
}

/// A text that begins another comes before it exactly when it is shorter, and
/// never after it.
pub proof fn law_text_lt_prefix(a: Seq<char>, b: Seq<char>)
    requires
        a.len() <= b.len(),
        forall|j: int| 0 <= j < a.len() ==> a[j] == b[j],
    ensures
        text_lt(a, b) == (a.len() < b.len()),
        !text_lt(b, a),
    decreases a.len(),
{
    if a.len() > 0 {
        assert(a[0] == b[0]);
        assert forall|j: int| 0 <= j < a.len() - 1 implies a.drop_first()[j] == b.drop_first()[j] by {
            assert(a[j + 1] == b[j + 1]);
        }
        law_text_lt_prefix(a.drop_first(), b.drop_first());
    }
}

/// `x` is not after `y`.
pub open spec fn text_le(x: Seq<char>, y: Seq<char>) -> bool {
    !text_lt(y, x)
}

/// The strings of `s` stand in alphanumeric order.
pub open spec fn sorted_paths(s: Seq<String>) -> bool {
    forall|i: int, j: int| 0 <= i < j < s.len() ==> text_le(#[trigger] s[i]@, #[trigger] s[j]@)
}

/// Whether path `a` comes strictly before path `b` in alphanumeric order.
pub fn path_precedes(a: &String, b: &String) -> (r: bool)
    ensures
        r == text_lt(a@, b@),
{
    let sa = a.as_str();
    let sb = b.as_str();
    let la = sa.unicode_len();
    let lb = sb.unicode_len();
    let mut i: usize = 0;
    assert(a@.skip(0) =~= a@);
    assert(b@.skip(0) =~= b@);
    while i < la && i < lb
        invariant
            i <= la,
            i <= lb,
            la == a@.len(),
            lb == b@.len(),
            sa@ == a@,
            sb@ == b@,
            text_lt(a@, b@) == text_lt(a@.skip(i as int), b@.skip(i as int)),
        decreases la - i,
    {
        let ca = sa.get_char(i);
        let cb = sb.get_char(i);
        assert(a@.skip(i as int)[0] == ca);
        assert(b@.skip(i as int)[0] == cb);
        if ca != cb {
            return ca < cb;
        }
        assert(a@.skip(i as int).drop_first() =~= a@.skip(i + 1));
        assert(b@.skip(i as int).drop_first() =~= b@.skip(i + 1));
        i = i + 1;
    }
    i < lb
}

/// Sorts paths into alphanumeric order.
pub fn sort_paths(paths: Vec<String>) -> (sorted: Vec<String>)
    ensures
        sorted_paths(sorted@),
        sorted@.to_multiset() == paths@.to_multiset(),
{
    let mut res: Vec<String> = Vec::new();
    proof {
        broadcast use vstd::seq_lib::group_to_multiset_ensures;

        assert(paths@.subrange(0, 0) =~= Seq::<String>::empty());
        assert(res@ =~= Seq::<String>::empty());
    }
    let n = paths.len();
    let mut k: usize = 0;
    while k < n
        invariant
            n == paths.len(),
            k <= n,
            sorted_paths(res@),
            res@.to_multiset() == paths@.subrange(0, k as int).to_multiset(),
        decreases n - k,
    {
        let x = paths[k].clone();
        let mut j: usize = 0;
        while j < res.len() && !path_precedes(&x, &res[j])
            invariant
                j <= res.len(),
                forall|m: int| 0 <= m < j ==> text_le(#[trigger] res@[m]@, x@),
            decreases res.len() - j,
        {
            j = j + 1;
        }
        proof {
            assert forall|m: int| j <= m < res.len() implies text_lt(x@, #[trigger] res@[m]@) by {
                lemma_text_trichotomy(res@[j as int]@, res@[m]@);
                if m > j {
                    if res@[j as int]@ != res@[m]@ {
                        lemma_text_lt_transitive(x@, res@[j as int]@, res@[m]@);
                    }
                }
            }
            let s2 = res@.insert(j as int, x);
            assert forall|p: int, q: int| 0 <= p < q < s2.len() implies text_le(
                #[trigger] s2[p]@,
                #[trigger] s2[q]@,
            ) by {
                if p == j {
                    lemma_text_trichotomy(x@, s2[q]@);
                } else if q == j {
                } else {
                }
            }
            vstd::seq_lib::to_multiset_insert(res@, j as int, x);
            vstd::seq_lib::to_multiset_build(paths@.subrange(0, k as int), x);
            assert(paths@.subrange(0, k + 1) =~= paths@.subrange(0, k as int).push(x));
        }
        res.insert(j, x);
        k = k + 1;
    }
    assert(paths@.subrange(0, n as int) =~= paths@);
    res
}

/// Puts the paths in a random order, with `rand`'s `SliceRandom::shuffle` and
/// the thread-local generator of `rand::rng`.
///
/// Trusted: the shuffle swaps items of the slice (Fisher-Yates), so the result
/// is a permutation of its argument; which permutation comes out is left open.
/// `rand::rng` panics when the operating system gives no randomness to seed
/// the generator; that is a property of the machine, not of the argument, and
/// is left unsaid.
#[verifier::external_body]
pub(crate) fn shuffle_paths(paths: &mut Vec<String>)
    ensures
        final(paths)@.to_multiset() == old(paths)@.to_multiset(),
{
    paths.shuffle(&mut rand::rng());
}

} // verus!
