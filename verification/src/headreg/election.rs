//! Who holds a shard and who writes it. Every node works it out alone from the census and
//! the clock, and all come to the same answer.

use crate::bytes::{push_all, push_u64, same32, Cid};
use crate::digest::blake3_digest;
use crate::epoch::EPOCH_MILLIS;
use crate::headreg::shard::ShardKey;
use crate::idset::lists;
use crate::random::lemma_same_items;
use crate::ranking::{
    candidates, distinct_scores, first_ids, law_ranking_ignores_listing_order, law_ranking_sorts,
    rank, ranked, take_ids, Candidate, Scored,
};
use vstd::prelude::*;

verus! {

/// At the start of an epoch, how long the last epoch's writer still counts.
pub const GRACE_MILLIS: u64 = 2_000;

/// How many nodes hold each shard.
pub const REPLICATION_FACTOR: usize = 3;

/// The epoch whose writer counts at `now`: the running one, or the one before during the
/// grace at its start, so that clocks a little apart never see two writers.
pub open spec fn epoch_in_effect(now: u64) -> int {
    let e = now as int / EPOCH_MILLIS as int;
    if (now as int % EPOCH_MILLIS as int) < GRACE_MILLIS && e > 0 {
        e - 1
    } else {
        e
    }
}

/// The epoch whose writer counts at `now`.
pub fn effective_epoch(now: u64) -> (epoch: u64)
    ensures
        epoch == epoch_in_effect(now),
{
    let e: u64 = now / EPOCH_MILLIS;
    if now % EPOCH_MILLIS < GRACE_MILLIS && e > 0 {
        e - 1
    } else {
        e
    }
}

/// Two clocks that are less than the grace apart see the same writer's epoch, or one of
/// them is still in the grace of the epoch that the other has left behind it: their
/// epochs never differ by more than one.
pub proof fn law_skewed_clocks_stay_close(a: u64, b: u64)
    requires
        a <= b,
        b - a < GRACE_MILLIS,
    ensures
        epoch_in_effect(a) <= epoch_in_effect(b) <= epoch_in_effect(a) + 1,
{
}

/// Across the start of an epoch, a clock that has just passed it and one that has not, less
/// than the grace behind, agree on the writer's epoch.
pub proof fn law_grace_covers_the_boundary(before: u64, after: u64)
    requires
        before < after,
        after - before < GRACE_MILLIS,
        after as int / EPOCH_MILLIS as int == before as int / EPOCH_MILLIS as int + 1,
    ensures
        epoch_in_effect(before) == epoch_in_effect(after),
{
}

/// The score of `id` for a shard. The shard count does not enter it, so a shard number keeps
/// its holders when the count changes; nor does the epoch.
pub open spec fn replica_score(rtype: u8, shard: u64, id: [u8; 32]) -> Seq<u8> {
    blake3_digest(seq![rtype] + crate::bytes::le_digits(shard as nat, 8) + id@)
}

/// The eligible nodes with their scores for a shard.
pub open spec fn replica_candidates(rtype: u8, shard: u64, eligible: Seq<[u8; 32]>) -> Seq<
    Candidate,
> {
    eligible.map_values(
        |id: [u8; 32]| Candidate { score: replica_score(rtype, shard, id), id },
    )
}

/// The holders of a shard: the lowest-scoring eligible nodes.
pub open spec fn replica_set(rtype: u8, shard: u64, eligible: Seq<[u8; 32]>) -> Seq<[u8; 32]> {
    first_ids(ranked(replica_candidates(rtype, shard, eligible)), REPLICATION_FACTOR as int)
}

/// The holders of a shard.
pub fn replicas(sk: ShardKey, eligible: &[[u8; 32]]) -> (ids: Vec<[u8; 32]>)
    ensures
        ids@ == replica_set(sk.rtype, sk.shard, eligible@),
{
    let mut list: Vec<Scored> = Vec::new();
    let mut i: usize = 0;
    assert(candidates(list@) =~= replica_candidates(sk.rtype, sk.shard, eligible@.take(0)));
    while i < eligible.len()
        invariant
            i <= eligible@.len(),
            candidates(list@) == replica_candidates(
                sk.rtype,
                sk.shard,
                eligible@.take(i as int),
            ),
        decreases eligible@.len() - i,
    {
        let id = eligible[i];
        let mut key: Vec<u8> = Vec::new();
        key.push(sk.rtype);
        push_u64(&mut key, sk.shard);
        push_all(&mut key, id.as_slice());
        assert(key@ =~= seq![sk.rtype] + crate::bytes::le_digits(sk.shard as nat, 8) + id@);
        let score = Cid::of(key.as_slice()).0;
        assert(score@ == replica_score(sk.rtype, sk.shard, id));
        let ghost before = candidates(list@);
        list.push(Scored { score, id });
        assert(candidates(list@) =~= before.push(
            Candidate { score: replica_score(sk.rtype, sk.shard, id), id },
        ));
        i = i + 1;
        assert(candidates(list@) =~= replica_candidates(
            sk.rtype,
            sk.shard,
            eligible@.take(i as int),
        ));
    }
    assert(eligible@.take(i as int) =~= eligible@);
    let sorted = rank(&list);
    take_ids(&sorted, REPLICATION_FACTOR)
}

/// The writer of a shard among its holders in an epoch; `self_id` where there is nobody.
pub open spec fn writer_among(holders: Seq<[u8; 32]>, eff: u64, self_id: [u8; 32]) -> [u8; 32] {
    if holders.len() == 0 {
        self_id
    } else {
        holders[eff as usize as int % holders.len() as int]
    }
}

/// The writer of a shard in the epoch `eff`: the role goes round its holders.
pub fn writer_of(sk: ShardKey, eligible: &[[u8; 32]], eff: u64, self_id: [u8; 32]) -> (writer: [u8;
    32])
    ensures
        writer == writer_among(replica_set(sk.rtype, sk.shard, eligible@), eff, self_id),
{
    let reps = replicas(sk, eligible);
    if reps.len() == 0 {
        self_id
    } else {
        let turn: usize = eff as usize;
        reps[turn % reps.len()]
    }
}

/// Whether `self_id` holds the shard.
pub fn is_replica(sk: ShardKey, eligible: &[[u8; 32]], self_id: &[u8; 32]) -> (held: bool)
    ensures
        held == replica_set(sk.rtype, sk.shard, eligible@).contains(*self_id),
{
    let reps = replicas(sk, eligible);
    lists(reps.as_slice(), self_id)
}

/// The other holders of a shard, in order.
pub open spec fn others(ids: Seq<[u8; 32]>, self_id: [u8; 32]) -> Seq<[u8; 32]>
    decreases ids.len(),
{
    if ids.len() == 0 {
        ids
    } else if ids.last() == self_id {
        others(ids.drop_last(), self_id)
    } else {
        others(ids.drop_last(), self_id).push(ids.last())
    }
}

/// The holders of a shard that a write is pushed to, and that a new writer catches up from:
/// all but this node.
pub fn peers_of(sk: ShardKey, eligible: &[[u8; 32]], self_id: &[u8; 32]) -> (ids: Vec<[u8; 32]>)
    ensures
        ids@ == others(replica_set(sk.rtype, sk.shard, eligible@), *self_id),
{
    let reps = replicas(sk, eligible);
    let mut ids: Vec<[u8; 32]> = Vec::new();
    let mut i: usize = 0;
    assert(reps@.take(0) =~= Seq::<[u8; 32]>::empty());
    while i < reps.len()
        invariant
            i <= reps@.len(),
            ids@ == others(reps@.take(i as int), *self_id),
        decreases reps@.len() - i,
    {
        if !same32(&reps[i], self_id) {
            ids.push(reps[i]);
        }
        proof {
            let next = reps@.take(i + 1);
            assert(next.drop_last() =~= reps@.take(i as int));
            assert(next.last() == reps@[i as int]);
        }
        i = i + 1;
    }
    assert(reps@.take(i as int) =~= reps@);
    ids
}

/// Whom to ask for a key, in turn: the writer, then the other holders, nobody twice and
/// never this node.
pub open spec fn ask_order(writer: [u8; 32], holders: Seq<[u8; 32]>, self_id: [u8; 32]) -> Seq<
    [u8; 32],
>
    decreases holders.len(),
{
    if holders.len() == 0 {
        if writer != self_id {
            seq![writer]
        } else {
            Seq::empty()
        }
    } else {
        let front = ask_order(writer, holders.drop_last(), self_id);
        let id = holders.last();
        if id != self_id && !front.contains(id) {
            front.push(id)
        } else {
            front
        }
    }
}

/// Whom to ask for a key of the shard, in turn.
pub fn read_targets(sk: ShardKey, eligible: &[[u8; 32]], eff: u64, self_id: &[u8; 32]) -> (targets:
    Vec<[u8; 32]>)
    ensures
        ({
            let holders = replica_set(sk.rtype, sk.shard, eligible@);
            targets@ == ask_order(writer_among(holders, eff, *self_id), holders, *self_id)
        }),
{
    let reps = replicas(sk, eligible);
    let writer = writer_of(sk, eligible, eff, *self_id);
    let mut targets: Vec<[u8; 32]> = Vec::new();
    if !same32(&writer, self_id) {
        targets.push(writer);
    }
    let mut i: usize = 0;
    assert(reps@.take(0) =~= Seq::<[u8; 32]>::empty());
    assert(targets@ =~= ask_order(writer, reps@.take(0), *self_id));
    while i < reps.len()
        invariant
            i <= reps@.len(),
            targets@ == ask_order(writer, reps@.take(i as int), *self_id),
        decreases reps@.len() - i,
    {
        let id = reps[i];
        proof {
            let next = reps@.take(i + 1);
            assert(next.drop_last() =~= reps@.take(i as int));
            assert(next.last() == id);
        }
        if !same32(&id, self_id) && !lists(targets.as_slice(), &id) {
            targets.push(id);
        }
        i = i + 1;
    }
    assert(reps@.take(i as int) =~= reps@);
    targets
}

/// Asking order covers the writer and every holder but this node, each once.
pub proof fn law_reads_try_every_other_holder(
    writer: [u8; 32],
    holders: Seq<[u8; 32]>,
    self_id: [u8; 32],
)
    ensures
        ask_order(writer, holders, self_id).no_duplicates(),
        !ask_order(writer, holders, self_id).contains(self_id),
        forall|id: [u8; 32]| #[trigger]
            ask_order(writer, holders, self_id).contains(id) <==> id != self_id && (id == writer
                || holders.contains(id)),
        writer != self_id ==> ask_order(writer, holders, self_id)[0] == writer
            && ask_order(writer, holders, self_id).len() > 0,
    decreases holders.len(),
{
    let out = ask_order(writer, holders, self_id);
    if holders.len() == 0 {
        if writer != self_id {
            assert(out[0] == writer);
        }
    } else {
        let front = ask_order(writer, holders.drop_last(), self_id);
        let id = holders.last();
        law_reads_try_every_other_holder(writer, holders.drop_last(), self_id);
        assert forall|x: [u8; 32]| #[trigger] out.contains(x) <==> x != self_id && (x == writer
            || holders.contains(x)) by {
            assert(front.contains(x) <==> x != self_id && (x == writer
                || holders.drop_last().contains(x)));
            if holders.contains(x) {
                let k = choose|k: int| 0 <= k < holders.len() && holders[k] == x;
                if k < holders.len() - 1 {
                    assert(holders.drop_last()[k] == x);
                }
            }
            if holders.drop_last().contains(x) {
                let k = choose|k: int|
                    0 <= k < holders.drop_last().len() && holders.drop_last()[k] == x;
                assert(holders[k] == x);
            }
            if x == id {
                assert(holders[holders.len() - 1] == x);
            }
            if front.contains(x) {
                let k = choose|k: int| 0 <= k < front.len() && front[k] == x;
                assert(out[k] == x);
            }
            if out.contains(x) && !front.contains(x) {
                let k = choose|k: int| 0 <= k < out.len() && out[k] == x;
                if k < front.len() {
                    assert(front[k] == x);
                }
            }
            if id != self_id && !front.contains(id) {
                assert(out[front.len() as int] == id);
            }
        }
        assert(out.no_duplicates()) by {
            assert forall|i: int, j: int| 0 <= i < out.len() && 0 <= j < out.len() && i != j implies out[i]
                != out[j] by {
                if i < front.len() && j < front.len() {
                    assert(front[i] != front[j]);
                } else if i < front.len() {
                    assert(front.contains(front[i]));
                } else if j < front.len() {
                    assert(front.contains(front[j]));
                }
            }
        }
    }
}

/// The writer is always one of the holders.
pub proof fn law_writer_is_a_holder(
    rtype: u8,
    shard: u64,
    eligible: Seq<[u8; 32]>,
    eff: u64,
    self_id: [u8; 32],
)
    requires
        eligible.len() > 0,
    ensures
        replica_set(rtype, shard, eligible).contains(
            writer_among(replica_set(rtype, shard, eligible), eff, self_id),
        ),
{
    let holders = replica_set(rtype, shard, eligible);
    law_ranking_sorts(replica_candidates(rtype, shard, eligible));
    assert(holders.len() > 0);
    let i = eff as usize as int % holders.len() as int;
    assert(holders[i] == writer_among(holders, eff, self_id));
}

/// There are three holders, or all who are eligible where those are fewer.
pub proof fn law_holder_count(rtype: u8, shard: u64, eligible: Seq<[u8; 32]>)
    ensures
        replica_set(rtype, shard, eligible).len() == (if eligible.len() < REPLICATION_FACTOR {
            eligible.len()
        } else {
            REPLICATION_FACTOR as nat
        }),
{
    law_ranking_sorts(replica_candidates(rtype, shard, eligible));
}

/// No node holds a shard twice.
proof fn lemma_holders_are_distinct(rtype: u8, shard: u64, eligible: Seq<[u8; 32]>)
    requires
        eligible.no_duplicates(),
    ensures
        replica_set(rtype, shard, eligible).no_duplicates(),
{
    let all = replica_candidates(rtype, shard, eligible);
    let order = ranked(all);
    law_ranking_sorts(all);
    assert(all.no_duplicates()) by {
        assert forall|i: int, j: int| 0 <= i < all.len() && 0 <= j < all.len() && i != j implies all[i]
            != all[j] by {
            assert(all[i].id == eligible[i] && all[j].id == eligible[j]);
        }
    }
    all.lemma_multiset_has_no_duplicates();
    order.lemma_multiset_has_no_duplicates_conv();
    lemma_same_items(order, all);
    let holders = replica_set(rtype, shard, eligible);
    assert forall|i: int, j: int|
        0 <= i < holders.len() && 0 <= j < holders.len() && i != j implies holders[i]
        != holders[j] by {
        assert(order.contains(order[i]) && order.contains(order[j]));
        let a = choose|a: int| 0 <= a < all.len() && all[a] == order[i];
        let b = choose|b: int| 0 <= b < all.len() && all[b] == order[j];
        assert(order[i].score == replica_score(rtype, shard, order[i].id));
        assert(order[j].score == replica_score(rtype, shard, order[j].id));
        assert(order[i] != order[j]);
    }
}

/// The place in a round of `n` that the number `e` has, `k` steps on.
proof fn lemma_round(e: int, n: int, k: int)
    requires
        0 <= e,
        0 <= k < n,
    ensures
        (e + k) % n == if e % n + k < n {
            e % n + k
        } else {
            e % n + k - n
        },
        (e + n) % n == e % n,
        0 <= e % n < n,
{
    let q = e / n;
    let r = e % n;
    vstd::arithmetic::div_mod::lemma_fundamental_div_mod(e, n);
    vstd::arithmetic::div_mod::lemma_mod_bound(e, n);
    assert(q * n == n * q) by (nonlinear_arith);
    assert((q + 1) * n == n * q + n) by (nonlinear_arith);
    if r + k < n {
        vstd::arithmetic::div_mod::lemma_fundamental_div_mod_converse(e + k, n, q, r + k);
    } else {
        vstd::arithmetic::div_mod::lemma_fundamental_div_mod_converse(e + k, n, q + 1, r + k - n);
    }
    vstd::arithmetic::div_mod::lemma_fundamental_div_mod_converse(e + n, n, q + 1, r);
}

/// The writer's role goes round: where a shard has `n` holders, of `n` epochs in a row each
/// holder writes exactly one, and the `n`th epoch after has the same writer again. This holds
/// of all epochs that a machine word counts.
pub proof fn law_writers_take_turns(
    rtype: u8,
    shard: u64,
    eligible: Seq<[u8; 32]>,
    e: u64,
    self_id: [u8; 32],
)
    requires
        eligible.no_duplicates(),
        e + replica_set(rtype, shard, eligible).len() <= usize::MAX,
        e + replica_set(rtype, shard, eligible).len() <= u64::MAX,
    ensures
        ({
            let holders = replica_set(rtype, shard, eligible);
            let n = holders.len() as int;
            &&& n == 0 ==> writer_among(holders, e, self_id) == self_id
            &&& forall|i: int, j: int|
                0 <= i < n && 0 <= j < n && i != j ==> #[trigger] writer_among(
                    holders,
                    (e + i) as u64,
                    self_id,
                ) != #[trigger] writer_among(holders, (e + j) as u64, self_id)
            &&& forall|i: int|
                0 <= i < n ==> holders.contains(
                    #[trigger] writer_among(holders, (e + i) as u64, self_id),
                )
            &&& forall|id: [u8; 32]| #[trigger]
                holders.contains(id) ==> exists|i: int|
                    0 <= i < n && #[trigger] writer_among(holders, (e + i) as u64, self_id) == id
            &&& n > 0 ==> writer_among(holders, (e + n) as u64, self_id) == writer_among(
                holders,
                e,
                self_id,
            )
        }),
{
    let holders = replica_set(rtype, shard, eligible);
    let n = holders.len() as int;
    lemma_holders_are_distinct(rtype, shard, eligible);
    if n > 0 {
        let r = e as int % n;
        lemma_round(e as int, n, 0);
        assert forall|i: int| 0 <= i < n implies #[trigger] writer_among(
            holders,
            (e + i) as u64,
            self_id,
        ) == holders[if r + i < n {
            r + i
        } else {
            r + i - n
        }] by {
            lemma_round(e as int, n, i);
        }
        assert forall|id: [u8; 32]| #[trigger] holders.contains(id) implies exists|i: int|
            0 <= i < n && #[trigger] writer_among(holders, (e + i) as u64, self_id) == id by {
            let k = choose|k: int| 0 <= k < holders.len() && holders[k] == id;
            let i = if k >= r {
                k - r
            } else {
                k - r + n
            };
            assert(writer_among(holders, (e + i) as u64, self_id) == id);
        }
    }
}

proof fn lemma_scored_multiset(rtype: u8, shard: u64, a: Seq<[u8; 32]>, b: Seq<[u8; 32]>)
    requires
        a.to_multiset() == b.to_multiset(),
    ensures
        replica_candidates(rtype, shard, a).to_multiset() == replica_candidates(
            rtype,
            shard,
            b,
        ).to_multiset(),
{
    let f = |id: [u8; 32]| Candidate { score: replica_score(rtype, shard, id), id };
    crate::ranking::lemma_map_multiset(a, b, f);
}

/// Two nodes that see the same eligible nodes, in whatever order, elect the same holders and
/// the same writer, unless two nodes' scores collide.
pub proof fn law_same_census_same_election(
    rtype: u8,
    shard: u64,
    a: Seq<[u8; 32]>,
    b: Seq<[u8; 32]>,
    eff: u64,
    self_a: [u8; 32],
    self_b: [u8; 32],
)
    requires
        a.to_multiset() == b.to_multiset(),
        a.len() > 0,
        distinct_scores(ranked(replica_candidates(rtype, shard, a))),
    ensures
        replica_set(rtype, shard, a) == replica_set(rtype, shard, b),
        writer_among(replica_set(rtype, shard, a), eff, self_a) == writer_among(
            replica_set(rtype, shard, b),
            eff,
            self_b,
        ),
{
    lemma_scored_multiset(rtype, shard, a, b);
    law_ranking_ignores_listing_order(
        replica_candidates(rtype, shard, a),
        replica_candidates(rtype, shard, b),
    );
    law_holder_count(rtype, shard, a);
}

/// An epoch of five minutes takes effect two seconds after it begins; until then the one before
/// it is in effect, but for the first, which has none before it.
pub proof fn law_epochs_take_effect_late(epoch: u64, offset: u64)
    requires
        offset < 300_000,
        epoch * 300_000 + offset <= u64::MAX,
    ensures
        ({
            let now = (epoch * 300_000 + offset) as u64;
            &&& offset >= 2_000 ==> epoch_in_effect(now) == epoch
            &&& offset < 2_000 && epoch > 0 ==> epoch_in_effect(now) == epoch - 1
            &&& offset < 2_000 && epoch == 0 ==> epoch_in_effect(now) == 0
        }),
{
}

/// A shard is held by three nodes, or by all where there are fewer; each is eligible, and nobody
/// else scores lower than one of them.
pub proof fn law_the_lowest_scores_hold(
    rtype: u8,
    shard: u64,
    eligible: Seq<[u8; 32]>,
    i: int,
    at: int,
)
    requires
        0 <= i < eligible.len(),
        0 <= at < replica_set(rtype, shard, eligible).len(),
    ensures
        replica_set(rtype, shard, eligible).len() == if eligible.len() < 3 {
            eligible.len()
        } else {
            3
        },
        eligible.contains(replica_set(rtype, shard, eligible)[at]),
        replica_set(rtype, shard, eligible).contains(eligible[i]) || !crate::order::lex_lt(
            replica_score(rtype, shard, eligible[i]),
            replica_score(rtype, shard, replica_set(rtype, shard, eligible)[at]),
        ),
{
    let list = replica_candidates(rtype, shard, eligible);
    let order = ranked(list);
    let hold = replica_set(rtype, shard, eligible);
    crate::ranking::law_ranking_sorts(list);
    broadcast use vstd::seq_lib::group_to_multiset_ensures;

    assert(order.contains(order[at]));
    assert(order.to_multiset().count(order[at]) > 0);
    assert(list.contains(order[at]));
    let k = choose|k: int| 0 <= k < list.len() && list[k] == order[at];
    assert(eligible[k] == hold[at]);
    assert(list.contains(list[i]));
    assert(list.to_multiset().count(list[i]) > 0);
    assert(order.contains(list[i]));
    let j = choose|j: int| 0 <= j < order.len() && order[j] == list[i];
    if j < hold.len() {
        assert(hold[j] == eligible[i]);
    } else {
        assert(!crate::order::lex_lt(order[j].score, order[at].score));
    }
}

/// A holder's score is taken over the type, the shard and the node, each at its own place.
pub proof fn law_holders_score_per_shard(rtype: u8, shard: u64, id: [u8; 32])
    ensures
        exists|m: Seq<u8>|
            {
                &&& replica_score(rtype, shard, id) == #[trigger] blake3_digest(m)
                &&& m.len() == 41
                &&& m[0] == rtype
                &&& m.subrange(1, 9) == crate::bytes::le_digits(shard as nat, 8)
                &&& m.subrange(9, 41) == id@
            },
{
    crate::bytes::lemma_le_digits_len(shard as nat, 8);
    let m = seq![rtype] + crate::bytes::le_digits(shard as nat, 8) + id@;
    assert(m.subrange(1, 9) =~= crate::bytes::le_digits(shard as nat, 8));
    assert(m.subrange(9, 41) =~= id@);
    assert(replica_score(rtype, shard, id) == blake3_digest(m));
}

/// The writer of an epoch is the holder whose turn it is: they take turns in order, and the first
/// epoch is the first one's.
pub proof fn law_turns_go_by_the_epoch(
    holders: Seq<[u8; 32]>,
    rounds: nat,
    turn: nat,
    eff: u64,
    self_id: [u8; 32],
)
    requires
        turn < holders.len(),
        eff == rounds * holders.len() + turn,
        eff <= usize::MAX,
    ensures
        writer_among(holders, eff, self_id) == holders[turn as int],
{
    assert((eff as int) % (holders.len() as int) == turn) by {
        vstd::arithmetic::div_mod::lemma_fundamental_div_mod_converse(
            eff as int,
            holders.len() as int,
            rounds as int,
            turn as int,
        );
    }
}

/// Leaving oneself out leaves out nobody else, in order.
pub proof fn law_only_self_is_left_out(ids: Seq<[u8; 32]>, id: [u8; 32], self_id: [u8; 32])
    ensures
        others(Seq::empty(), self_id).len() == 0,
        id == self_id ==> others(ids.push(id), self_id) == others(ids, self_id),
        id != self_id ==> others(ids.push(id), self_id) == others(ids, self_id).push(id),
        others(ids, self_id).contains(id) <==> id != self_id && ids.contains(id),
{
    assert(ids.push(id).drop_last() =~= ids);
    lemma_others(ids, self_id, id);
}

proof fn lemma_others(ids: Seq<[u8; 32]>, self_id: [u8; 32], id: [u8; 32])
    ensures
        others(ids, self_id).contains(id) <==> id != self_id && ids.contains(id),
    decreases ids.len(),
{
    if ids.len() > 0 {
        let rest = ids.drop_last();
        let front = others(rest, self_id);
        let all = others(ids, self_id);
        lemma_others(rest, self_id, id);
        if ids.contains(id) {
            let k = choose|k: int| 0 <= k < ids.len() && ids[k] == id;
            if k < rest.len() {
                assert(rest[k] == id);
            } else if id != self_id {
                assert(all[front.len() as int] == id);
            }
        }
        if rest.contains(id) {
            let k = choose|k: int| 0 <= k < rest.len() && rest[k] == id;
            assert(ids[k] == id);
        }
        if front.contains(id) {
            let k = choose|k: int| 0 <= k < front.len() && front[k] == id;
            assert(all[k] == id);
        }
        if all.contains(id) && !front.contains(id) {
            let k = choose|k: int| 0 <= k < all.len() && all[k] == id;
            if k < front.len() {
                assert(front[k] == id);
            }
            assert(ids[ids.len() - 1] == id);
        }
    }
}

} // verus!
