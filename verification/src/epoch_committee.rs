//! The committee of an epoch: who vouches for a program's records in it.

use crate::bytes::{le_digits, push_all, push_u64, Cid};
use crate::digest::blake3_digest;
use crate::epoch::{epoch_at, EPOCH_MILLIS};
use crate::headreg::registry::electorate;
use crate::ranking::{candidates, distinct_scores, first_ids, law_ranking_sorts, rank, ranked,
    take_ids, Candidate, Scored};
use vstd::prelude::*;

verus! {

/// How many members a committee has where there are enough nodes.
pub const N_DEFAULT: usize = 4;

/// How many of them must agree.
pub const K_DEFAULT: usize = 3;

/// What every score is taken over first, so that this election never follows another's.
pub open spec fn committee_tag() -> Seq<u8> {
    seq![
        99u8, 114u8, 97u8, 102u8, 116u8, 101u8, 99u8, 47u8, 101u8, 112u8, 111u8, 99u8, 104u8, 45u8,
        99u8, 111u8, 109u8, 109u8, 105u8, 116u8, 116u8, 101u8, 101u8, 47u8, 49u8,
    ]
}

fn push_tag(out: &mut Vec<u8>)
    ensures
        final(out)@ == old(out)@ + committee_tag(),
{
    let tag: [u8; 25] = [
        99u8, 114u8, 97u8, 102u8, 116u8, 101u8, 99u8, 47u8, 101u8, 112u8, 111u8, 99u8, 104u8, 45u8,
        99u8, 111u8, 109u8, 109u8, 105u8, 116u8, 116u8, 101u8, 101u8, 47u8, 49u8,
    ];
    push_all(out, tag.as_slice());
    assert(tag@ =~= committee_tag());
}

/// Members, and how many of them must agree.
#[derive(Debug)]
pub struct Quorum {
    pub members: Vec<[u8; 32]>,
    pub threshold: usize,
}

/// The size of a committee out of `live` nodes.
pub open spec fn committee_size(live: nat) -> nat {
    if live == 0 {
        1
    } else if live < N_DEFAULT {
        live
    } else {
        N_DEFAULT as nat
    }
}

/// How many of `n` members must agree: three where there are as many, and always more than
/// half.
pub open spec fn committee_threshold(n: nat) -> nat {
    let k = if n < K_DEFAULT {
        n
    } else {
        K_DEFAULT as nat
    };
    let majority = n / 2 + 1;
    if k < majority {
        majority
    } else {
        k
    }
}

/// The score of a node for a program in an epoch.
pub open spec fn seat_score(program: [u8; 32], epoch: u64, id: [u8; 32]) -> Seq<u8> {
    blake3_digest(committee_tag() + program@ + le_digits(epoch as nat, 8) + id@)
}

/// The nodes with their scores.
pub open spec fn seat_candidates(program: [u8; 32], epoch: u64, eligible: Seq<[u8; 32]>) -> Seq<
    Candidate,
> {
    eligible.map_values(|id: [u8; 32]| Candidate { score: seat_score(program, epoch, id), id })
}

/// The members of a committee: the lowest-scoring nodes.
pub open spec fn seats(program: [u8; 32], epoch: u64, eligible: Seq<[u8; 32]>) -> Seq<[u8; 32]> {
    first_ids(
        ranked(seat_candidates(program, epoch, eligible)),
        committee_size(eligible.len()) as int,
    )
}

/// The part of a node in electing committees.
#[derive(Clone, Copy, Debug)]
pub struct EpochCommitteeSource {
    pub self_id: [u8; 32],
}

impl EpochCommitteeSource {
    /// The part of the node `self_id`.
    pub fn new(self_id: [u8; 32]) -> (source: EpochCommitteeSource)
        ensures
            source.self_id == self_id,
    {
        EpochCommitteeSource { self_id }
    }

    /// The committee of a program in an epoch, out of the eligible nodes: none where there
    /// are none.
    pub fn committee_for(program_cid: &[u8; 32], epoch: u64, eligible: &[[u8; 32]]) -> (quorum:
        Option<Quorum>)
        ensures
            quorum is None <==> eligible@.len() == 0,
            quorum matches Some(q) ==> {
                &&& q.members@ == seats(*program_cid, epoch, eligible@)
                &&& q.threshold == committee_threshold(q.members@.len())
            },
    {
        if eligible.len() == 0 {
            return None;
        }
        let mut list: Vec<Scored> = Vec::new();
        let mut i: usize = 0;
        assert(candidates(list@) =~= seat_candidates(*program_cid, epoch, eligible@.take(0)));
        while i < eligible.len()
            invariant
                i <= eligible@.len(),
                candidates(list@) == seat_candidates(
                    *program_cid,
                    epoch,
                    eligible@.take(i as int),
                ),
            decreases eligible@.len() - i,
        {
            let id = eligible[i];
            let mut key: Vec<u8> = Vec::new();
            push_tag(&mut key);
            push_all(&mut key, program_cid.as_slice());
            push_u64(&mut key, epoch);
            push_all(&mut key, id.as_slice());
            let ghost wanted = committee_tag() + program_cid@ + le_digits(epoch as nat, 8) + id@;
            assert(key@ =~= wanted);
            let score = Cid::of(key.as_slice()).0;
            let ghost before = candidates(list@);
            list.push(Scored { score, id });
            assert(candidates(list@) =~= before.push(Candidate { score: score@, id }));
            i = i + 1;
            assert(candidates(list@) =~= seat_candidates(
                *program_cid,
                epoch,
                eligible@.take(i as int),
            ));
        }
        assert(eligible@.take(i as int) =~= eligible@);
        let sorted = rank(&list);
        let n: usize = if eligible.len() < N_DEFAULT {
            eligible.len()
        } else {
            N_DEFAULT
        };
        let members = take_ids(&sorted, n);
        proof {
            lemma_committee_len(*program_cid, epoch, eligible@);
        }
        let k: usize = if n < K_DEFAULT {
            n
        } else {
            K_DEFAULT
        };
        let majority: usize = n / 2 + 1;
        let threshold: usize = if k < majority {
            majority
        } else {
            k
        };
        Some(Quorum { members, threshold })
    }

    /// The committee of a program in one epoch, past or present, given the live members.
    pub fn committee_for_epoch(&self, program_cid: &[u8; 32], epoch: u64, census: &[[u8; 32]]) -> (
        quorum: Option<Quorum>)
        ensures
            quorum matches Some(q) && q.members@ == seats(
                *program_cid,
                epoch,
                electorate(self.self_id, census@),
            ) && q.threshold == committee_threshold(q.members@.len()),
    {
        let ids = crate::headreg::registry::with_self(&self.self_id, census);
        Self::committee_for(program_cid, epoch, ids.as_slice())
    }

    /// The committee of a program at `now`, given the live members.
    pub fn quorum_for(&self, program_cid: &[u8; 32], census: &[[u8; 32]], now: u64) -> (quorum:
        Option<Quorum>)
        ensures
            quorum matches Some(q) && q.members@ == seats(
                *program_cid,
                now / EPOCH_MILLIS,
                electorate(self.self_id, census@),
            ) && q.threshold == committee_threshold(q.members@.len()),
    {
        self.committee_for_epoch(program_cid, epoch_at(now), census)
    }
}

proof fn lemma_committee_len(program: [u8; 32], epoch: u64, eligible: Seq<[u8; 32]>)
    requires
        eligible.len() > 0,
    ensures
        seats(program, epoch, eligible).len() == committee_size(eligible.len()),
{
    law_ranking_sorts(seat_candidates(program, epoch, eligible));
}

/// Two agreeing majorities of a committee always share a member: twice the threshold is more
/// than the committee, and the threshold can be met.
pub proof fn law_quorums_intersect(program: [u8; 32], epoch: u64, eligible: Seq<[u8; 32]>)
    requires
        eligible.len() > 0,
    ensures
        ({
            let n = seats(program, epoch, eligible).len();
            &&& 1 <= n <= N_DEFAULT
            &&& n <= eligible.len()
            &&& committee_threshold(n) <= n
            &&& 2 * committee_threshold(n) > n
        }),
{
    lemma_committee_len(program, epoch, eligible);
}

/// Nodes that see the same live nodes, in whatever order, seat the same committee.
pub proof fn law_committee_ignores_listing_order(
    program: [u8; 32],
    epoch: u64,
    a: Seq<[u8; 32]>,
    b: Seq<[u8; 32]>,
)
    requires
        a.to_multiset() == b.to_multiset(),
        distinct_scores(ranked(seat_candidates(program, epoch, a))),
    ensures
        seats(program, epoch, a) == seats(program, epoch, b),
{
    let f = |id: [u8; 32]| Candidate { score: seat_score(program, epoch, id), id };
    crate::ranking::lemma_map_multiset(a, b, f);
    crate::ranking::law_ranking_ignores_listing_order(
        seat_candidates(program, epoch, a),
        seat_candidates(program, epoch, b),
    );
    assert(a.len() == b.len()) by {
        a.to_multiset_ensures();
        b.to_multiset_ensures();
    }
}

/// A committee has as many seats as there are nodes to sit, four at most; and it takes all of one
/// or two, and three of three or four, to decide.
pub proof fn law_committees_are_small(program: [u8; 32], epoch: u64, eligible: Seq<[u8; 32]>)
    requires
        eligible.len() > 0,
    ensures
        ({
            let n = seats(program, epoch, eligible).len();
            &&& eligible.len() <= 4 ==> n == eligible.len()
            &&& eligible.len() > 4 ==> n == 4
            &&& n <= 2 ==> committee_threshold(n) == n
            &&& n >= 3 ==> committee_threshold(n) == 3
        }),
{
    lemma_committee_len(program, epoch, eligible);
}

/// Who sits is eligible, and who does not sit scores no lower than anyone who does.
pub proof fn law_the_lowest_scores_sit(
    program: [u8; 32],
    epoch: u64,
    eligible: Seq<[u8; 32]>,
    i: int,
    seat: int,
)
    requires
        0 <= i < eligible.len(),
        0 <= seat < seats(program, epoch, eligible).len(),
    ensures
        eligible.contains(seats(program, epoch, eligible)[seat]),
        seats(program, epoch, eligible).contains(eligible[i]) || !crate::order::lex_lt(
            seat_score(program, epoch, eligible[i]),
            seat_score(program, epoch, seats(program, epoch, eligible)[seat]),
        ),
{
    let list = seat_candidates(program, epoch, eligible);
    let order = ranked(list);
    let sit = seats(program, epoch, eligible);
    law_ranking_sorts(list);
    broadcast use vstd::seq_lib::group_to_multiset_ensures;

    assert(order.contains(order[seat]));
    assert(order.to_multiset().count(order[seat]) > 0);
    assert(list.contains(order[seat]));
    let k = choose|k: int| 0 <= k < list.len() && list[k] == order[seat];
    assert(eligible[k] == sit[seat]);
    assert(list.contains(list[i]));
    assert(list.to_multiset().count(list[i]) > 0);
    assert(order.contains(list[i]));
    let at = choose|at: int| 0 <= at < order.len() && order[at] == list[i];
    if at < sit.len() {
        assert(sit[at] == eligible[i]);
    } else {
        assert(!crate::order::lex_lt(order[at].score, order[seat].score));
    }
}

/// A score is taken over the tag, the program, the epoch and the node, each at its own place, so
/// that no two elections share one.
pub proof fn law_scores_are_over_all_that_matters(program: [u8; 32], epoch: u64, id: [u8; 32])
    ensures
        exists|m: Seq<u8>|
            {
                &&& seat_score(program, epoch, id) == #[trigger] blake3_digest(m)
                &&& m.len() == 97
                &&& m.subrange(0, 3) == seq![99u8, 114u8, 97u8]
                &&& m.subrange(25, 57) == program@
                &&& m.subrange(57, 65) == le_digits(epoch as nat, 8)
                &&& m.subrange(65, 97) == id@
            },
{
    crate::bytes::lemma_le_digits_len(epoch as nat, 8);
    let m = committee_tag() + program@ + le_digits(epoch as nat, 8) + id@;
    assert(m.subrange(0, 3) =~= seq![99u8, 114u8, 97u8]);
    assert(m.subrange(25, 57) =~= program@);
    assert(m.subrange(57, 65) =~= le_digits(epoch as nat, 8));
    assert(m.subrange(65, 97) =~= id@);
    assert(seat_score(program, epoch, id) == blake3_digest(m));
}

/// A committee is seated by whoever is eligible, and none where nobody is: this node always is for
/// its own, so that there always is one. It is that of the five minutes that it is asked in.
pub proof fn law_there_is_always_a_committee(
    source: EpochCommitteeSource,
    program: [u8; 32],
    epoch: u64,
    eligible: &[[u8; 32]],
    census: &[[u8; 32]],
    now: u64,
    given: Option<Quorum>,
    own: Option<Quorum>,
    i: int,
)
    requires
        call_ensures(EpochCommitteeSource::committee_for, (&program, epoch, eligible), given),
        call_ensures(EpochCommitteeSource::quorum_for, (&source, &program, census, now), own),
    ensures
        given is None <==> eligible@.len() == 0,
        given matches Some(q) ==> 1 <= q.members@.len() <= 4 && q.members@.len() <= eligible@.len()
            && 2 * q.threshold > q.members@.len() && q.threshold <= q.members@.len(),
        given matches Some(q) ==> 0 <= i < q.members@.len() ==> eligible@.contains(q.members@[i]),
        own is Some,
        own matches Some(q) ==> 0 <= i < q.members@.len() ==> q.members@[i] == source.self_id
            || census@.contains(q.members@[i]),
        own matches Some(q) ==> q.members@ == seats(
            program,
            (now / 300_000) as u64,
            electorate(source.self_id, census@),
        ),
{
    if let Some(q) = given {
        law_quorums_intersect(program, epoch, eligible@);
        if 0 <= i < q.members@.len() {
            law_the_lowest_scores_sit(program, epoch, eligible@, 0, i);
        }
    }
    if let Some(q) = own {
        let who = electorate(source.self_id, census@);
        if 0 <= i < q.members@.len() {
            law_the_lowest_scores_sit(program, (now / 300_000) as u64, who, 0, i);
            crate::headreg::registry::law_every_live_node_may_be_elected(
                source.self_id,
                census@,
                q.members@[i],
            );
        }
    }
}

/// Whatever the size of a committee, more than half of it decides, and no more than all of it.
pub proof fn law_thresholds_are_majorities(n: nat)
    requires
        n > 0,
    ensures
        2 * committee_threshold(n) > n,
        committee_threshold(n) <= n,
        n >= 3 ==> committee_threshold(n) >= 3,
        n > 5 ==> 2 * committee_threshold(n) <= n + 2,
{
}

} // verus!
