//! Following the membership and the governed shard count: when to hand state on, and how an
//! old shard count is swept, drained and dropped.

use crate::bytes::{lemma_le_digits_len, lemma_le_round_trip, push_all, push_u32, read_le, Cid};
use crate::digest::blake3_digest;
use crate::manifest::concat_ids;
use crate::ranking::{candidates, first_ids, rank, ranked, take_ids, Candidate, Scored};
use vstd::prelude::*;

verus! {

/// How many ticks the census must stay the same before state is handed on.
pub const MIGRATE_STABLE_TICKS: u32 = 3;

/// How many ticks an old shard count is swept before it is dropped.
pub const DRAIN_TICKS: u32 = 18;

/// What a tick of resharding has to do, in order.
#[derive(Clone, Copy, Debug, PartialEq, Eq, Structural)]
pub enum ReshardStep {
    /// Carry every head from the old shard count to the new one.
    Sweep { from: u32, to: u32 },
    /// Store the shard count that this node is at.
    Record(u32),
    /// Drop the shards of an old shard count.
    Drop(u32),
}

/// The old shard count that is being drained, and for how many ticks it has been.
#[derive(Clone, Copy, Debug, PartialEq, Eq, Structural)]
pub struct Drain {
    pub old: u32,
    pub ticks: u32,
}

/// Where resharding stands.
#[derive(Clone, Copy, Debug)]
pub struct Resharding {
    pub draining: Option<Drain>,
}

/// What a tick comes to: where resharding stands after it, and what it has to do. On the
/// first tick ever the live count is recorded. On a change everything is swept over and the
/// old count starts to drain. A draining count is swept on every tick, and dropped on the
/// last.
pub open spec fn ticked(draining: Option<Drain>, current: u32, recorded: Option<u32>) -> (
    Option<Drain>,
    Seq<ReshardStep>,
) {
    match recorded {
        None => (draining, seq![ReshardStep::Record(current)]),
        Some(last) => if last != current {
            (
                Some(Drain { old: last, ticks: 0 }),
                seq![
                    ReshardStep::Sweep { from: last, to: current },
                    ReshardStep::Record(current),
                ],
            )
        } else {
            match draining {
                None => (None, Seq::empty()),
                Some(d) => if d.old == current {
                    (None, Seq::empty())
                } else if d.ticks + 1 >= DRAIN_TICKS {
                    (
                        None,
                        seq![
                            ReshardStep::Sweep { from: d.old, to: current },
                            ReshardStep::Drop(d.old),
                        ],
                    )
                } else {
                    (
                        Some(Drain { old: d.old, ticks: (d.ticks + 1) as u32 }),
                        seq![ReshardStep::Sweep { from: d.old, to: current }],
                    )
                },
            }
        },
    }
}

impl Resharding {
    /// Nothing is draining.
    pub fn new() -> (r: Resharding)
        ensures
            r.draining is None,
    {
        Resharding { draining: None }
    }

    /// A drain ends before its ticks could run over.
    pub open spec fn wf(&self) -> bool {
        self.draining matches Some(d) ==> d.ticks < DRAIN_TICKS
    }

    /// One tick, at the live shard count `current` and the one that was `recorded`.
    pub fn reshard_round(&mut self, current: u32, recorded: Option<u32>) -> (steps: Vec<
        ReshardStep,
    >)
        requires
            old(self).wf(),
        ensures
            final(self).wf(),
            (final(self).draining, steps@) == ticked(old(self).draining, current, recorded),
    {
        let mut steps: Vec<ReshardStep> = Vec::new();
        match recorded {
            None => {
                steps.push(ReshardStep::Record(current));
            },
            Some(last) => {
                if last != current {
                    steps.push(ReshardStep::Sweep { from: last, to: current });
                    steps.push(ReshardStep::Record(current));
                    self.draining = Some(Drain { old: last, ticks: 0 });
                } else if let Some(d) = self.draining {
                    if d.old == current {
                        self.draining = None;
                    } else {
                        steps.push(ReshardStep::Sweep { from: d.old, to: current });
                        if d.ticks + 1 >= DRAIN_TICKS {
                            steps.push(ReshardStep::Drop(d.old));
                            self.draining = None;
                        } else {
                            self.draining = Some(Drain { old: d.old, ticks: d.ticks + 1 });
                        }
                    }
                }
            },
        }
        assert(steps@ =~= ticked(old(self).draining, current, recorded).1);
        steps
    }
}

/// Where draining stands after `n` ticks at an unchanged shard count.
pub open spec fn drained_for(draining: Option<Drain>, current: u32, n: nat) -> Option<Drain>
    decreases n,
{
    if n == 0 {
        draining
    } else {
        ticked(drained_for(draining, current, (n - 1) as nat), current, Some(current)).0
    }
}

/// After a change of the shard count the old count is swept on each of the next eighteen
/// ticks, is dropped on the last of them and not before, and nothing drains after that.
pub proof fn law_old_counts_are_drained_then_dropped(old: u32, current: u32, n: nat)
    requires
        old != current,
        n < DRAIN_TICKS,
    ensures
        ({
            let start = ticked(None, current, Some(old));
            let before = drained_for(start.0, current, n);
            let step = ticked(before, current, Some(current));
            &&& start.1[0] == (ReshardStep::Sweep { from: old, to: current })
            &&& before == Some(Drain { old, ticks: n as u32 })
            &&& step.1[0] == (ReshardStep::Sweep { from: old, to: current })
            &&& step.1.contains(ReshardStep::Drop(old)) <==> n == DRAIN_TICKS - 1
            &&& step.0 is None <==> n == DRAIN_TICKS - 1
        }),
    decreases n,
{
    let start = ticked(None, current, Some(old));
    if n > 0 {
        law_old_counts_are_drained_then_dropped(old, current, (n - 1) as nat);
    }
    let before = drained_for(start.0, current, n);
    let step = ticked(before, current, Some(current));
    if n == DRAIN_TICKS - 1 {
        assert(step.1[1] == ReshardStep::Drop(old));
    } else {
        assert(step.1.len() == 1);
    }
}

/// Reads the recorded shard count: four bytes, least significant first. Anything else is no
/// record.
pub fn load_gen(raw: &[u8]) -> (recorded: Option<u32>)
    ensures
        recorded is Some <==> raw@.len() == 4,
        recorded matches Some(bits) ==> bits == crate::bytes::le_value(raw@),
{
    if raw.len() == 4 {
        proof {
            lemma_four_bytes(raw@);
        }
        let x: u64 = read_le(raw);
        Some(x as u32)
    } else {
        None
    }
}

proof fn lemma_four_bytes(s: Seq<u8>)
    requires
        s.len() == 4,
    ensures
        crate::bytes::le_value(s) <= u32::MAX,
{
    reveal_with_fuel(crate::bytes::le_value, 5);
    assert(s.skip(1).skip(1).skip(1).skip(1).len() == 0);
}

/// The form in which a shard count is recorded.
pub fn save_gen(bits: u32) -> (raw: Vec<u8>)
    ensures
        raw@ == crate::bytes::le_digits(bits as nat, 4),
{
    let mut raw: Vec<u8> = Vec::new();
    push_u32(&mut raw, bits);
    assert(raw@ =~= crate::bytes::le_digits(bits as nat, 4));
    raw
}

/// A recorded shard count reads back.
pub proof fn law_recorded_count_reads_back(bits: u32)
    ensures
        crate::bytes::le_digits(bits as nat, 4).len() == 4,
        crate::bytes::le_value(crate::bytes::le_digits(bits as nat, 4)) == bits,
{
    lemma_le_digits_len(bits as nat, 4);
    assert(crate::bytes::bound256(4) == 0x1_0000_0000) by {
        reveal_with_fuel(crate::bytes::bound256, 5);
    }
    lemma_le_round_trip(bits as nat, 4);
}

/// Identifiers as candidates that score as themselves.
pub open spec fn self_scored(ids: Seq<[u8; 32]>) -> Seq<Candidate> {
    ids.map_values(|id: [u8; 32]| Candidate { score: id@, id })
}

/// Identifiers in byte order.
pub open spec fn sorted_ids(ids: Seq<[u8; 32]>) -> Seq<[u8; 32]> {
    first_ids(ranked(self_scored(ids)), ids.len() as int)
}

/// A hash of a set of nodes that does not depend on the order in which they are listed.
pub fn census_digest(ids: &[[u8; 32]]) -> (digest: [u8; 32])
    ensures
        digest@ == blake3_digest(concat_ids(sorted_ids(ids@))),
{
    let mut list: Vec<Scored> = Vec::new();
    let mut i: usize = 0;
    assert(candidates(list@) =~= self_scored(ids@.take(0)));
    while i < ids.len()
        invariant
            i <= ids@.len(),
            candidates(list@) == self_scored(ids@.take(i as int)),
        decreases ids@.len() - i,
    {
        let ghost before = candidates(list@);
        list.push(Scored { score: ids[i], id: ids[i] });
        assert(candidates(list@) =~= before.push(
            Candidate { score: ids@[i as int]@, id: ids@[i as int] },
        ));
        i = i + 1;
        assert(candidates(list@) =~= self_scored(ids@.take(i as int)));
    }
    assert(ids@.take(i as int) =~= ids@);
    let sorted = rank(&list);
    let order = take_ids(&sorted, ids.len());
    let mut buf: Vec<u8> = Vec::new();
    let mut j: usize = 0;
    assert(order@.take(0) =~= Seq::<[u8; 32]>::empty());
    while j < order.len()
        invariant
            j <= order@.len(),
            buf@ == concat_ids(order@.take(j as int)),
        decreases order@.len() - j,
    {
        push_all(&mut buf, order[j].as_slice());
        proof {
            let next = order@.take(j + 1);
            assert(next.drop_last() =~= order@.take(j as int));
            assert(next.last() == order@[j as int]);
        }
        j = j + 1;
    }
    assert(order@.take(j as int) =~= order@);
    Cid::of(buf.as_slice()).0
}

/// Watches the census, to hand state on once it has settled.
#[derive(Clone, Copy, Debug)]
pub struct CensusWatch {
    /// The hash last seen, and for how many ticks it has stayed the same.
    pub last: Option<([u8; 32], u32)>,
}

/// What seeing `digest` makes of the watch, and whether state is to be handed on now.
pub open spec fn watched_census(last: Option<([u8; 32], u32)>, digest: [u8; 32]) -> (
    Option<([u8; 32], u32)>,
    bool,
) {
    match last {
        Some((d, ticks)) => if d == digest {
            if ticks < MIGRATE_STABLE_TICKS {
                (Some((d, (ticks + 1) as u32)), ticks + 1 == MIGRATE_STABLE_TICKS)
            } else {
                (last, false)
            }
        } else {
            (Some((digest, 0)), false)
        },
        None => (Some((digest, 0)), false),
    }
}

impl CensusWatch {
    /// Nothing seen yet.
    pub fn new() -> (watch: CensusWatch)
        ensures
            watch.last is None,
    {
        CensusWatch { last: None }
    }

    /// Sees the hash of the census on a tick. Says whether state is to be handed on now: once
    /// per settled census, on the third tick on which it is unchanged.
    pub fn observe(&mut self, digest: [u8; 32]) -> (migrate: bool)
        ensures
            (final(self).last, migrate) == watched_census(old(self).last, digest),
    {
        match self.last {
            Some((d, ticks)) => {
                if crate::bytes::same32(&d, &digest) {
                    if ticks < MIGRATE_STABLE_TICKS {
                        self.last = Some((d, ticks + 1));
                        ticks + 1 == MIGRATE_STABLE_TICKS
                    } else {
                        false
                    }
                } else {
                    self.last = Some((digest, 0));
                    false
                }
            },
            None => {
                self.last = Some((digest, 0));
                false
            },
        }
    }
}

/// The watch after seeing one hash for the first time and `n` times more.
pub open spec fn settled_for(digest: [u8; 32], n: nat) -> Option<([u8; 32], u32)>
    decreases n,
{
    if n == 0 {
        Some((digest, 0))
    } else {
        watched_census(settled_for(digest, (n - 1) as nat), digest).0
    }
}

/// A settled census hands state on exactly once, when it is seen unchanged for the third
/// time; a changed one never does at once.
pub proof fn law_settled_census_migrates_once(digest: [u8; 32], n: nat)
    ensures
        watched_census(settled_for(digest, n), digest).1 <==> n == MIGRATE_STABLE_TICKS - 1,
        settled_for(digest, n) == Some(
            (
                digest,
                if n < MIGRATE_STABLE_TICKS {
                    n as u32
                } else {
                    MIGRATE_STABLE_TICKS
                },
            ),
        ),
        forall|other: [u8; 32]| other != digest ==> !(#[trigger] watched_census(
            settled_for(digest, n),
            other,
        )).1,
    decreases n,
{
    if n > 0 {
        law_settled_census_migrates_once(digest, (n - 1) as nat);
    }
}

/// What a tick does about the shard count. Where none is recorded, the present one is, and nothing
/// moves. Where it has changed, everything is swept over at once and the old count starts to
/// drain. Afterwards the old count is swept each tick, and dropped with the eighteenth. Where
/// nothing drains, nothing is done.
pub proof fn law_count_changes_are_swept(draining: Option<Drain>, current: u32, recorded: Option<u32>)
    ensures
        ({
            let (next, steps) = ticked(draining, current, recorded);
            let changed = recorded is Some && recorded->0 != current;
            let same = recorded == Some(current);
            &&& recorded is None ==> next == draining && steps.len() == 1 && steps[0]
                == ReshardStep::Record(current)
            &&& changed ==> next is Some && next->0.old == recorded->0 && next->0.ticks == 0
                && steps.len() == 2 && steps[0] == (ReshardStep::Sweep {
                from: recorded->0,
                to: current,
            }) && steps[1] == ReshardStep::Record(current)
            &&& same && (draining is None || draining->0.old == current) ==> next is None
                && steps.len() == 0
            &&& same && draining is Some && draining->0.old != current ==> {
                &&& steps.len() >= 1
                &&& steps[0] == (ReshardStep::Sweep { from: draining->0.old, to: current })
                &&& draining->0.ticks >= 17 ==> next is None && steps.len() == 2 && steps[1]
                    == ReshardStep::Drop(draining->0.old)
                &&& draining->0.ticks < 17 ==> steps.len() == 1 && next is Some && next->0.old
                    == draining->0.old && next->0.ticks == draining->0.ticks + 1
            }
        }),
{
}

/// Shards migrate once a census has been the same for three ticks more, and not again until it
/// changes.
pub proof fn law_migration_waits_for_the_census(
    last: Option<([u8; 32], u32)>,
    digest: [u8; 32],
)
    ensures
        ({
            let (next, migrate) = watched_census(last, digest);
            let (was, ticks) = last->0;
            let (is, count) = next->0;
            let same = last is Some && was == digest;
            &&& migrate <==> same && ticks == 2
            &&& next is Some && is == digest
            &&& !same ==> count == 0
            &&& same && ticks < 3 ==> count == ticks + 1
            &&& same && ticks >= 3 ==> count == ticks
        }),
{
}

/// The census is taken over the same nodes in the order of their identities.
pub proof fn law_the_census_is_sorted(ids: Seq<[u8; 32]>, i: int, j: int)
    requires
        0 <= i < j < ids.len(),
    ensures
        sorted_ids(ids).len() == ids.len(),
        !crate::order::lex_lt(sorted_ids(ids)[j]@, sorted_ids(ids)[i]@),
        ids.contains(sorted_ids(ids)[i]),
        sorted_ids(ids).contains(ids[i]),
{
    let list = self_scored(ids);
    let order = ranked(list);
    crate::ranking::law_ranking_sorts(list);
    broadcast use vstd::seq_lib::group_to_multiset_ensures;

    assert(!crate::order::lex_lt(order[j].score, order[i].score));
    assert forall|k: int| 0 <= k < order.len() implies (#[trigger] order[k]).score == order[k].id@
        && ids.contains(order[k].id) by {
        assert(order.contains(order[k]));
        assert(order.to_multiset().count(order[k]) > 0);
        assert(list.contains(order[k]));
        let m = choose|m: int| 0 <= m < list.len() && list[m] == order[k];
        assert(ids[m] == order[k].id);
    }
    assert(list.contains(list[i]));
    assert(list.to_multiset().count(list[i]) > 0);
    assert(order.contains(list[i]));
    let k = choose|k: int| 0 <= k < order.len() && order[k] == list[i];
    assert(sorted_ids(ids)[k] == ids[i]);
}

/// The count that was recorded reads back; what is not of four bytes is no record.
pub proof fn law_records_read_back(bits: u32, raw: Vec<u8>, other: &[u8], back: Option<u32>)
    requires
        call_ensures(save_gen, (bits,), raw),
        call_ensures(load_gen, (other,), back),
    ensures
        other@ == raw@ ==> back == Some(bits),
        other@.len() != 4 ==> back is None,
        raw@.len() == 4,
{
    law_recorded_count_reads_back(bits);
}

} // verus!
