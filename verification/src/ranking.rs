//! Rendezvous ranking: candidates in the byte order of their scores.

use crate::order::{lemma_lex_asymmetric, lemma_lex_total, lemma_lex_transitive, lex_less};
use vstd::prelude::*;

verus! {

/// A candidate and its score.
#[derive(Clone, Copy, Debug)]
pub struct Scored {
    pub score: [u8; 32],
    pub id: [u8; 32],
}

/// A candidate and its score as mathematical values.
#[verifier::ext_equal]
pub struct Candidate {
    pub score: Seq<u8>,
    pub id: [u8; 32],
}

impl View for Scored {
    type V = Candidate;

    open spec fn view(&self) -> Candidate {
        Candidate { score: self.score@, id: self.id }
    }
}

/// The candidates of a list.
pub open spec fn candidates(list: Seq<Scored>) -> Seq<Candidate> {
    list.map_values(|s: Scored| s@)
}

/// `x` put behind everything that does not score more.
pub open spec fn placed(list: Seq<Candidate>, x: Candidate) -> Seq<Candidate>
    decreases list.len(),
{
    if list.len() == 0 || !crate::order::lex_lt(x.score, list.last().score) {
        list.push(x)
    } else {
        placed(list.drop_last(), x).push(list.last())
    }
}

/// The candidates by score, lowest first; those with equal scores keep their order.
pub open spec fn ranked(list: Seq<Candidate>) -> Seq<Candidate>
    decreases list.len(),
{
    if list.len() == 0 {
        list
    } else {
        placed(ranked(list.drop_last()), list.last())
    }
}

/// No candidate scores more than one behind it.
pub open spec fn by_score(list: Seq<Candidate>) -> bool {
    forall|i: int, j: int|
        0 <= i < j < list.len() ==> !crate::order::lex_lt(
            (#[trigger] list[j]).score,
            (#[trigger] list[i]).score,
        )
}

/// No two candidates score the same.
pub open spec fn distinct_scores(list: Seq<Candidate>) -> bool {
    forall|i: int, j: int|
        0 <= i < list.len() && 0 <= j < list.len() && (#[trigger] list[i]).score == (
        #[trigger] list[j]).score ==> i == j
}

proof fn lemma_placed(list: Seq<Candidate>, x: Candidate)
    ensures
        placed(list, x).len() == list.len() + 1,
        placed(list, x).to_multiset() == list.to_multiset().insert(x),
        by_score(list) ==> by_score(placed(list, x)),
    decreases list.len(),
{
    broadcast use vstd::seq_lib::to_multiset_build;

    let out = placed(list, x);
    if list.len() == 0 || !crate::order::lex_lt(x.score, list.last().score) {
        if by_score(list) {
            assert forall|i: int, j: int| 0 <= i < j < out.len() implies !crate::order::lex_lt(
                (#[trigger] out[j]).score,
                (#[trigger] out[i]).score,
            ) by {
                if j == list.len() {
                    let last = list.last().score;
                    if i < list.len() - 1 {
                        assert(!crate::order::lex_lt(list[list.len() - 1].score, list[i].score));
                        if crate::order::lex_lt(x.score, list[i].score) {
                            if last == x.score {
                            } else {
                                lemma_lex_total(last, x.score);
                                lemma_lex_transitive(last, x.score, list[i].score);
                            }
                        }
                    }
                }
            }
        }
    } else {
        let front = list.drop_last();
        lemma_placed(front, x);
        assert(list =~= front.push(list.last()));
        assert(list.to_multiset() == front.to_multiset().insert(list.last()));
        assert(out.to_multiset() == placed(front, x).to_multiset().insert(list.last()));
        assert(front.to_multiset().insert(x).insert(list.last()) =~= front.to_multiset().insert(
            list.last(),
        ).insert(x));
        if by_score(list) {
            assert forall|i: int, j: int| 0 <= i < j < front.len() implies !crate::order::lex_lt(
                (#[trigger] front[j]).score,
                (#[trigger] front[i]).score,
            ) by {
                assert(front[i] == list[i] && front[j] == list[j]);
            }
            let p = placed(front, x);
            assert forall|i: int| 0 <= i < p.len() implies !crate::order::lex_lt(
                list.last().score,
                (#[trigger] p[i]).score,
            ) by {
                front.to_multiset_ensures();
                p.to_multiset_ensures();
                assert(p.contains(p[i]));
                assert(p.to_multiset().count(p[i]) > 0);
                if p[i] == x {
                    lemma_lex_asymmetric(x.score, list.last().score);
                } else {
                    assert(front.to_multiset().count(p[i]) > 0);
                    assert(front.contains(p[i]));
                    let k = choose|k: int| 0 <= k < front.len() && front[k] == p[i];
                    assert(!crate::order::lex_lt(list[list.len() - 1].score, list[k].score));
                }
            }
            assert forall|i: int, j: int| 0 <= i < j < out.len() implies !crate::order::lex_lt(
                (#[trigger] out[j]).score,
                (#[trigger] out[i]).score,
            ) by {
                if j < p.len() {
                    assert(p[i] == out[i] && p[j] == out[j]);
                } else {
                    assert(p[i] == out[i]);
                }
            }
        }
    }
}

/// Ranking reorders, and nothing scores more than what is behind it.
pub proof fn law_ranking_sorts(list: Seq<Candidate>)
    ensures
        ranked(list).len() == list.len(),
        ranked(list).to_multiset() == list.to_multiset(),
        by_score(ranked(list)),
    decreases list.len(),
{
    broadcast use vstd::seq_lib::to_multiset_build;

    if list.len() > 0 {
        law_ranking_sorts(list.drop_last());
        lemma_placed(ranked(list.drop_last()), list.last());
        assert(list =~= list.drop_last().push(list.last()));
    }
}

proof fn lemma_sorted_unique(a: Seq<Candidate>, b: Seq<Candidate>)
    requires
        by_score(a),
        by_score(b),
        distinct_scores(a),
        a.to_multiset() == b.to_multiset(),
    ensures
        a == b,
    decreases a.len(),
{
    broadcast use vstd::seq_lib::to_multiset_build;

    a.to_multiset_ensures();
    b.to_multiset_ensures();
    if a.len() == 0 {
        assert(a =~= b);
    } else {
        let x = a.last();
        let y = b.last();
        let fa = a.drop_last();
        let fb = b.drop_last();
        assert(b.contains(y));
        assert(b.to_multiset().count(y) > 0);
        assert(a.contains(y));
        let j = choose|j: int| 0 <= j < a.len() && a[j] == y;
        assert(a.contains(x));
        assert(a.to_multiset().count(x) > 0);
        assert(b.contains(x));
        let i = choose|i: int| 0 <= i < b.len() && b[i] == x;
        if x != y {
            assert(!crate::order::lex_lt(a[a.len() - 1].score, a[j].score));
            assert(!crate::order::lex_lt(b[b.len() - 1].score, b[i].score));
            if x.score == y.score {
                assert(a[a.len() - 1].score == a[j].score);
            } else {
                lemma_lex_total(x.score, y.score);
            }
        }
        assert(a =~= fa.push(x));
        assert(b =~= fb.push(y));
        assert(fa.to_multiset() =~= a.to_multiset().remove(x));
        assert(fb.to_multiset() =~= b.to_multiset().remove(y));
        assert forall|p: int, q: int| 0 <= p < q < fa.len() implies !crate::order::lex_lt(
            (#[trigger] fa[q]).score,
            (#[trigger] fa[p]).score,
        ) by {
            assert(fa[p] == a[p] && fa[q] == a[q]);
        }
        assert forall|p: int, q: int| 0 <= p < q < fb.len() implies !crate::order::lex_lt(
            (#[trigger] fb[q]).score,
            (#[trigger] fb[p]).score,
        ) by {
            assert(fb[p] == b[p] && fb[q] == b[q]);
        }
        assert forall|p: int, q: int|
            0 <= p < fa.len() && 0 <= q < fa.len() && (#[trigger] fa[p]).score == (
            #[trigger] fa[q]).score implies p == q by {
            assert(a[p].score == a[q].score);
        }
        lemma_sorted_unique(fa, fb);
    }
}

/// Where no two candidates score the same, the ranking does not depend on the order in
/// which they were listed.
pub proof fn law_ranking_ignores_listing_order(a: Seq<Candidate>, b: Seq<Candidate>)
    requires
        a.to_multiset() == b.to_multiset(),
        distinct_scores(ranked(a)),
    ensures
        ranked(a) == ranked(b),
{
    law_ranking_sorts(a);
    law_ranking_sorts(b);
    lemma_sorted_unique(ranked(a), ranked(b));
}

/// Lists with the same items score to lists with the same candidates.
pub proof fn lemma_map_multiset(
    a: Seq<[u8; 32]>,
    b: Seq<[u8; 32]>,
    f: spec_fn([u8; 32]) -> Candidate,
)
    requires
        a.to_multiset() == b.to_multiset(),
    ensures
        a.map_values(f).to_multiset() == b.map_values(f).to_multiset(),
    decreases a.len(),
{
    broadcast use {vstd::seq_lib::to_multiset_build, vstd::seq_lib::to_multiset_remove};

    a.to_multiset_ensures();
    b.to_multiset_ensures();
    if a.len() == 0 {
        assert(a.map_values(f) =~= b.map_values(f));
    } else {
        let x = a.last();
        assert(a.contains(x));
        assert(a.to_multiset().count(x) > 0);
        assert(b.contains(x));
        let i = choose|i: int| 0 <= i < b.len() && b[i] == x;
        let fa = a.drop_last();
        let rb = b.remove(i);
        assert(a =~= fa.push(x));
        assert(fa.to_multiset() =~= a.to_multiset().remove(x));
        assert(rb.to_multiset() =~= b.to_multiset().remove(x));
        lemma_map_multiset(fa, rb, f);
        assert(a.map_values(f) =~= fa.map_values(f).push(f(x)));
        let mb = b.map_values(f);
        assert(mb.remove(i) =~= rb.map_values(f));
        assert(mb[i] == f(x));
        mb.to_multiset_ensures();
        assert(mb.contains(f(x)));
        assert(mb.to_multiset() =~= mb.remove(i).to_multiset().insert(f(x)));
    }
}

/// Ranks the candidates by score.
pub fn rank(list: &Vec<Scored>) -> (out: Vec<Scored>)
    ensures
        candidates(out@) == ranked(candidates(list@)),
{
    let mut out: Vec<Scored> = Vec::new();
    let mut i: usize = 0;
    assert(candidates(list@.take(0)) =~= Seq::<Candidate>::empty());
    assert(candidates(out@) =~= Seq::<Candidate>::empty());
    while i < list.len()
        invariant
            i <= list@.len(),
            candidates(out@) == ranked(candidates(list@.take(i as int))),
        decreases list@.len() - i,
    {
        let x = list[i];
        place(&mut out, x);
        proof {
            let next = candidates(list@.take(i + 1));
            assert(next.drop_last() =~= candidates(list@.take(i as int)));
            assert(next.last() == x@);
        }
        i = i + 1;
    }
    assert(list@.take(i as int) =~= list@);
    out
}

fn place(list: &mut Vec<Scored>, x: Scored)
    ensures
        candidates(final(list)@) == placed(candidates(old(list)@), x@),
{
    let mut at: usize = list.len();
    let ghost before = list@;
    assert(before.skip(at as int) =~= Seq::<Scored>::empty());
    assert(candidates(before.take(at as int)) =~= candidates(before));
    assert(placed(candidates(before), x@) =~= placed(candidates(before.take(at as int)), x@)
        + candidates(before.skip(at as int)));
    while at > 0 && lex_less(x.score.as_slice(), list[at - 1].score.as_slice())
        invariant
            at <= list@.len(),
            list@ == before,
            placed(candidates(before), x@) == placed(candidates(before.take(at as int)), x@)
                + candidates(before.skip(at as int)),
        ensures
            at <= list@.len(),
            list@ == before,
            placed(candidates(before), x@) == placed(candidates(before.take(at as int)), x@)
                + candidates(before.skip(at as int)),
            at > 0 ==> !crate::order::lex_lt(x.score@, before[at - 1].score@),
        decreases at,
    {
        proof {
            let c = candidates(before.take(at as int));
            assert(c.last() == before[at - 1]@);
            assert(c.drop_last() =~= candidates(before.take(at - 1)));
            assert(candidates(before.skip(at - 1)) =~= seq![before[at - 1]@] + candidates(
                before.skip(at as int),
            ));
            assert(placed(c, x@) =~= placed(c.drop_last(), x@).push(c.last()));
            assert(placed(c, x@) + candidates(before.skip(at as int)) =~= placed(
                candidates(before.take(at - 1)),
                x@,
            ) + candidates(before.skip(at - 1)));
        }
        at = at - 1;
    }
    list.insert(at, x);
    proof {
        let c = candidates(before.take(at as int));
        if at > 0 {
            assert(c.last() == before[at - 1]@);
        }
        assert(placed(c, x@) =~= c.push(x@));
        assert(candidates(list@) =~= c.push(x@) + candidates(before.skip(at as int)));
    }
}

/// The identifiers of the first candidates, `n` of them or all there are.
pub open spec fn first_ids(list: Seq<Candidate>, n: int) -> Seq<[u8; 32]> {
    Seq::new(
        if n < list.len() {
            n as nat
        } else {
            list.len()
        },
        |i: int| list[i].id,
    )
}

/// The identifiers of the first candidates, `n` of them or all there are.
pub fn take_ids(list: &Vec<Scored>, n: usize) -> (ids: Vec<[u8; 32]>)
    ensures
        ids@ == first_ids(candidates(list@), n as int),
{
    let mut ids: Vec<[u8; 32]> = Vec::new();
    let mut i: usize = 0;
    while i < n && i < list.len()
        invariant
            i <= n,
            i <= list@.len(),
            ids@ == first_ids(candidates(list@), i as int),
        decreases list@.len() - i,
    {
        ids.push(list[i].id);
        i = i + 1;
        assert(ids@ =~= first_ids(candidates(list@), i as int));
    }
    assert(ids@ =~= first_ids(candidates(list@), n as int));
    ids
}

/// The first of a ranking are taken, in order, and all of it where fewer are there.
pub proof fn law_the_first_are_taken(list: Vec<Scored>, n: usize, ids: Vec<[u8; 32]>, i: int)
    requires
        call_ensures(take_ids, (&list, n), ids),
        0 <= i < ids@.len(),
    ensures
        list@.len() <= n ==> ids@.len() == list@.len(),
        list@.len() >= n ==> ids@.len() == n,
        ids@[i] == list@[i].id,
{
}

} // verus!
