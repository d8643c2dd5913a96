//! Sets of 32-byte identifiers in canonical form: strictly increasing byte order.

use crate::bytes::{lemma_array_ext, same32};
use crate::order::{
    lemma_lex_asymmetric, lemma_lex_irreflexive, lemma_lex_total, lemma_lex_transitive, lex_less,
};
use vstd::prelude::*;

verus! {

/// Each identifier comes strictly before the next: sorted, and nothing twice.
pub open spec fn canonical(ids: Seq<[u8; 32]>) -> bool {
    forall|i: int, j: int|
        0 <= i < j < ids.len() ==> crate::order::lex_lt(#[trigger] ids[i]@, #[trigger] ids[j]@)
}

/// Whether each identifier comes strictly before the next.
pub fn is_canonical(ids: &[[u8; 32]]) -> (ok: bool)
    ensures
        ok == canonical(ids@),
{
    let mut i: usize = 1;
    while i < ids.len()
        invariant
            1 <= i,
            ids@.len() > 0 ==> i <= ids@.len(),
            forall|a: int, b: int|
                0 <= a < b < i && b < ids@.len() ==> crate::order::lex_lt(
                    #[trigger] ids@[a]@,
                    #[trigger] ids@[b]@,
                ),
        decreases ids@.len() - i,
    {
        if !lex_less(ids[i - 1].as_slice(), ids[i].as_slice()) {
            assert(!crate::order::lex_lt(ids@[i - 1]@, ids@[i as int]@));
            return false;
        }
        assert forall|a: int, b: int| 0 <= a < b < i + 1 && b < ids@.len() implies crate::order::lex_lt(
            #[trigger] ids@[a]@,
            #[trigger] ids@[b]@,
        ) by {
            if b == i && a < i - 1 {
                lemma_lex_transitive(ids@[a]@, ids@[i - 1]@, ids@[b]@);
            }
        }
        i = i + 1;
    }
    true
}

/// A canonical list is determined by the set that it lists.
pub proof fn law_canonical_form_is_unique(a: Seq<[u8; 32]>, b: Seq<[u8; 32]>)
    requires
        canonical(a),
        canonical(b),
        forall|x: [u8; 32]| a.contains(x) <==> b.contains(x),
    ensures
        a == b,
    decreases a.len(),
{
    if a.len() == 0 {
        if b.len() > 0 {
            assert(b.contains(b[0]));
        }
        assert(a =~= b);
    } else if b.len() == 0 {
        assert(a.contains(a[0]));
    } else {
        let x = a.last();
        let y = b.last();
        assert(a.contains(x));
        assert(b.contains(y));
        if x != y {
            let i = choose|i: int| 0 <= i < b.len() && b[i] == x;
            let j = choose|j: int| 0 <= j < a.len() && a[j] == y;
            assert(crate::order::lex_lt(b[i]@, b[b.len() - 1]@));
            assert(crate::order::lex_lt(a[j]@, a[a.len() - 1]@));
            lemma_lex_asymmetric(x@, y@);
        }
        let fa = a.drop_last();
        let fb = b.drop_last();
        assert forall|z: [u8; 32]| fa.contains(z) <==> fb.contains(z) by {
            lemma_front_contains(a, z);
            lemma_front_contains(b, z);
        }
        law_canonical_form_is_unique(fa, fb);
        assert(a =~= fa.push(x));
        assert(b =~= fb.push(y));
    }
}

proof fn lemma_front_contains(a: Seq<[u8; 32]>, z: [u8; 32])
    requires
        canonical(a),
        a.len() > 0,
    ensures
        a.drop_last().contains(z) <==> a.contains(z) && z != a.last(),
{
    let front = a.drop_last();
    if front.contains(z) {
        let i = choose|i: int| 0 <= i < front.len() && front[i] == z;
        assert(a[i] == z);
        assert(crate::order::lex_lt(a[i]@, a[a.len() - 1]@));
        lemma_lex_irreflexive(z@);
    }
    if a.contains(z) && z != a.last() {
        let i = choose|i: int| 0 <= i < a.len() && a[i] == z;
        assert(front[i] == z);
    }
}

/// Merges two canonical lists into the canonical list of their union.
fn merge_unique(a: &Vec<[u8; 32]>, b: &Vec<[u8; 32]>) -> (out: Vec<[u8; 32]>)
    requires
        canonical(a@),
        canonical(b@),
    ensures
        canonical(out@),
        forall|x: [u8; 32]| #[trigger] out@.contains(x) <==> a@.contains(x) || b@.contains(x),
{
    let mut out: Vec<[u8; 32]> = Vec::new();
    let mut i: usize = 0;
    let mut j: usize = 0;
    while i < a.len() || j < b.len()
        invariant
            canonical(a@),
            canonical(b@),
            i <= a@.len(),
            j <= b@.len(),
            canonical(out@),
            forall|k: int|
                0 <= k < out@.len() && i < a@.len() ==> crate::order::lex_lt(
                    #[trigger] out@[k]@,
                    a@[i as int]@,
                ),
            forall|k: int|
                0 <= k < out@.len() && j < b@.len() ==> crate::order::lex_lt(
                    #[trigger] out@[k]@,
                    b@[j as int]@,
                ),
            forall|k: int| 0 <= k < out@.len() ==> a@.contains(#[trigger] out@[k]) || b@.contains(out@[k]),
            forall|k: int| 0 <= k < i ==> out@.contains(#[trigger] a@[k]),
            forall|k: int| 0 <= k < j ==> out@.contains(#[trigger] b@[k]),
        decreases a@.len() - i + b@.len() - j,
    {
        let ghost before = out@;
        let take_a = i < a.len() && (j >= b.len() || !lex_less(b[j].as_slice(), a[i].as_slice()));
        let take_b = j < b.len() && (i >= a.len() || !lex_less(a[i].as_slice(), b[j].as_slice()));
        let x: [u8; 32] = if take_a {
            a[i]
        } else {
            b[j]
        };
        proof {
            if take_a && take_b {
                if a@[i as int]@ != b@[j as int]@ {
                    lemma_lex_total(a@[i as int]@, b@[j as int]@);
                }
                lemma_array_ext(a@[i as int], b@[j as int]);
            }
            if i < a@.len() && j < b@.len() && !take_a {
                assert(crate::order::lex_lt(b@[j as int]@, a@[i as int]@));
                lemma_lex_asymmetric(b@[j as int]@, a@[i as int]@);
            }
            if i < a@.len() && j < b@.len() && !take_b {
                assert(crate::order::lex_lt(a@[i as int]@, b@[j as int]@));
            }
        }
        let ghost (i0, j0) = (i, j);
        out.push(x);
        if take_a {
            i = i + 1;
        }
        if take_b {
            j = j + 1;
        }
        proof {
            assert(out@.last() == x);
            assert forall|k: int| 0 <= k < i implies out@.contains(#[trigger] a@[k]) by {
                if k < i0 {
                    let n = choose|n: int| 0 <= n < before.len() && before[n] == a@[k];
                    assert(out@[n] == a@[k]);
                } else {
                    assert(out@[before.len() as int] == a@[k]);
                }
            }
            assert forall|k: int| 0 <= k < j implies out@.contains(#[trigger] b@[k]) by {
                if k < j0 {
                    let n = choose|n: int| 0 <= n < before.len() && before[n] == b@[k];
                    assert(out@[n] == b@[k]);
                } else {
                    assert(out@[before.len() as int] == b@[k]);
                }
            }
            assert forall|k: int| 0 <= k < out@.len() && i < a@.len() implies crate::order::lex_lt(
                #[trigger] out@[k]@,
                a@[i as int]@,
            ) by {
                if take_a {
                    if k < before.len() {
                        lemma_lex_transitive(before[k]@, a@[i0 as int]@, a@[i as int]@);
                    }
                }
            }
            assert forall|k: int| 0 <= k < out@.len() && j < b@.len() implies crate::order::lex_lt(
                #[trigger] out@[k]@,
                b@[j as int]@,
            ) by {
                if take_b {
                    if k < before.len() {
                        lemma_lex_transitive(before[k]@, b@[j0 as int]@, b@[j as int]@);
                    }
                }
            }
            assert forall|k: int| 0 <= k < out@.len() implies a@.contains(#[trigger] out@[k])
                || b@.contains(out@[k]) by {
                if k < before.len() {
                    assert(out@[k] == before[k]);
                } else if take_a {
                    assert(a@[i0 as int] == x);
                } else {
                    assert(b@[j0 as int] == x);
                }
            }
        }
    }
    assert forall|x: [u8; 32]| #[trigger] out@.contains(x) <==> a@.contains(x) || b@.contains(x) by {
        if out@.contains(x) {
            let k = choose|k: int| 0 <= k < out@.len() && out@[k] == x;
            assert(a@.contains(out@[k]) || b@.contains(out@[k]));
        }
        if a@.contains(x) {
            let k = choose|k: int| 0 <= k < a@.len() && a@[k] == x;
            assert(out@.contains(a@[k]));
        }
        if b@.contains(x) {
            let k = choose|k: int| 0 <= k < b@.len() && b@[k] == x;
            assert(out@.contains(b@[k]));
        }
    }
    out
}

fn sort_range(ids: &Vec<[u8; 32]>, lo: usize, hi: usize) -> (out: Vec<[u8; 32]>)
    requires
        lo <= hi <= ids@.len(),
    ensures
        canonical(out@),
        forall|x: [u8; 32]|
            #[trigger] out@.contains(x) <==> ids@.subrange(lo as int, hi as int).contains(x),
    decreases hi - lo,
{
    let ghost whole = ids@.subrange(lo as int, hi as int);
    if hi - lo == 0 {
        let out: Vec<[u8; 32]> = Vec::new();
        assert(whole =~= out@);
        out
    } else if hi - lo == 1 {
        let mut out: Vec<[u8; 32]> = Vec::new();
        out.push(ids[lo]);
        assert(whole =~= out@);
        out
    } else {
        let mid: usize = lo + (hi - lo) / 2;
        let left = sort_range(ids, lo, mid);
        let right = sort_range(ids, mid, hi);
        let out = merge_unique(&left, &right);
        assert forall|x: [u8; 32]| #[trigger] out@.contains(x) <==> whole.contains(x) by {
            let l = ids@.subrange(lo as int, mid as int);
            let r = ids@.subrange(mid as int, hi as int);
            assert(whole =~= l + r);
            assert(left@.contains(x) <==> l.contains(x));
            assert(right@.contains(x) <==> r.contains(x));
            if whole.contains(x) {
                let k = choose|k: int| 0 <= k < whole.len() && whole[k] == x;
                if k < l.len() {
                    assert(l[k] == x);
                } else {
                    assert(r[k - l.len()] == x);
                }
            }
            if l.contains(x) {
                let k = choose|k: int| 0 <= k < l.len() && l[k] == x;
                assert(whole[k] == x);
            }
            if r.contains(x) {
                let k = choose|k: int| 0 <= k < r.len() && r[k] == x;
                assert(whole[l.len() + k] == x);
            }
        }
        out
    }
}

/// The canonical list of the set that `ids` lists.
pub fn canonicalize(ids: &Vec<[u8; 32]>) -> (out: Vec<[u8; 32]>)
    ensures
        canonical(out@),
        forall|x: [u8; 32]| #[trigger] out@.contains(x) <==> ids@.contains(x),
{
    let out = sort_range(ids, 0, ids.len());
    assert(ids@.subrange(0, ids@.len() as int) =~= ids@);
    out
}

/// Whether `id` is listed.
pub fn lists(ids: &[[u8; 32]], id: &[u8; 32]) -> (listed: bool)
    ensures
        listed == ids@.contains(*id),
{
    let mut i: usize = 0;
    while i < ids.len()
        invariant
            i <= ids@.len(),
            forall|j: int| 0 <= j < i ==> ids@[j] != *id,
        decreases ids@.len() - i,
    {
        if same32(&ids[i], id) {
            assert(ids@[i as int] == *id);
            return true;
        }
        i = i + 1;
    }
    false
}

} // verus!
