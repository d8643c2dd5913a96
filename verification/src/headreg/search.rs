//! Finding a name: what is remembered, and where to look otherwise.

use crate::headreg::cache::{fresh, Head, NameKey};
use crate::headreg::election::{effective_epoch, epoch_in_effect, replica_set};
use crate::headreg::registry::HeadRegistry;
use crate::headreg::route::{
    generations, generations_to_try, lookups, lookups_at, route_write, shard_key, Lookup,
    WriteRoute,
};
use crate::headreg::rows::written_by;
use vstd::prelude::*;

verus! {

/// How a name is found.
#[derive(Debug)]
pub enum Search {
    /// It is remembered.
    Known(Head),
    /// Look in these places, in order, and take the first answer.
    Look(Vec<Lookup>),
}

/// The places to look in for a name, at one shard count after the other.
pub open spec fn searched(
    rtype: u8,
    counts: Seq<u32>,
    owner: [u8; 32],
    name: Seq<char>,
    eligible: Seq<[u8; 32]>,
    eff: u64,
    self_id: [u8; 32],
) -> Seq<Lookup>
    decreases counts.len(),
{
    if counts.len() == 0 {
        Seq::empty()
    } else {
        searched(rtype, counts.drop_last(), owner, name, eligible, eff, self_id) + lookups_at(
            shard_key(rtype, counts.last(), owner, name),
            eligible,
            eff,
            self_id,
        )
    }
}

/// While the shard count changes a name is found where it still is: every holder of its shard
/// at the live count and at the counts next to it is looked at.
pub proof fn law_search_spans_a_changing_count(
    rtype: u8,
    bits: u32,
    count: u32,
    owner: [u8; 32],
    name: Seq<char>,
    eligible: Seq<[u8; 32]>,
    eff: u64,
    self_id: [u8; 32],
    holder: [u8; 32],
)
    requires
        generations(bits).contains(count),
        holder != self_id,
        replica_set(rtype, shard_key(rtype, count, owner, name).shard, eligible).contains(holder),
    ensures
        searched(rtype, generations(bits), owner, name, eligible, eff, self_id).contains(
            Lookup { sk: shard_key(rtype, count, owner, name), node: Some(holder) },
        ),
{
    let sk = shard_key(rtype, count, owner, name);
    crate::headreg::route::law_read_reaches_every_holder(sk, eligible, eff, self_id, holder);
    let counts = generations(bits);
    let k = choose|k: int| 0 <= k < counts.len() && counts[k] == count;
    lemma_searched_holds(
        rtype,
        counts,
        k,
        owner,
        name,
        eligible,
        eff,
        self_id,
        Lookup { sk, node: Some(holder) },
    );
}

proof fn lemma_searched_holds(
    rtype: u8,
    counts: Seq<u32>,
    k: int,
    owner: [u8; 32],
    name: Seq<char>,
    eligible: Seq<[u8; 32]>,
    eff: u64,
    self_id: [u8; 32],
    l: Lookup,
)
    requires
        0 <= k < counts.len(),
        lookups_at(shard_key(rtype, counts[k], owner, name), eligible, eff, self_id).contains(l),
    ensures
        searched(rtype, counts, owner, name, eligible, eff, self_id).contains(l),
    decreases counts.len(),
{
    let front = searched(rtype, counts.drop_last(), owner, name, eligible, eff, self_id);
    let here = lookups_at(shard_key(rtype, counts.last(), owner, name), eligible, eff, self_id);
    let all = searched(rtype, counts, owner, name, eligible, eff, self_id);
    if k == counts.len() - 1 {
        let i = choose|i: int| 0 <= i < here.len() && here[i] == l;
        assert(all[front.len() + i] == l);
    } else {
        lemma_searched_holds(
            rtype,
            counts.drop_last(),
            k,
            owner,
            name,
            eligible,
            eff,
            self_id,
            l,
        );
        let i = choose|i: int| 0 <= i < front.len() && front[i] == l;
        assert(all[i] == l);
    }
}

impl HeadRegistry {
    /// How to find a name: by memory where this node does not hold the shard and the memory
    /// is fresh, else in the places at the live shard count and then at those next to it.
    pub fn resolve_entry(
        &self,
        rtype: u8,
        owner: &[u8; 32],
        name: &str,
        bits: u32,
        eligible: &[[u8; 32]],
        now: u64,
    ) -> (s: Search)
        requires
            bits < 64,
        ensures
            ({
                let own = replica_set(
                    rtype,
                    shard_key(rtype, bits, *owner, name@).shard,
                    eligible@,
                ).contains(self.self_id);
                let memory = fresh(
                    self.cache.holds(NameKey { rtype, owner: *owner, name: name@ }),
                    now,
                );
                match s {
                    Search::Known(head) => !own && memory == Some(head),
                    Search::Look(list) => {
                        &&& own || memory is None
                        &&& list@ == searched(
                            rtype,
                            generations(bits),
                            *owner,
                            name@,
                            eligible@,
                            epoch_in_effect(now) as u64,
                            self.self_id,
                        )
                    },
                }
            }),
    {
        if let Some(head) = self.remembered(rtype, owner, name, bits, eligible, now) {
            return Search::Known(head);
        }
        let eff: u64 = effective_epoch(now);
        let counts = generations_to_try(bits);
        let mut list: Vec<Lookup> = Vec::new();
        let mut i: usize = 0;
        assert(counts@.take(0) =~= Seq::<u32>::empty());
        while i < counts.len()
            invariant
                i <= counts@.len(),
                bits < 64,
                counts@ == generations(bits),
                list@ == searched(
                    rtype,
                    counts@.take(i as int),
                    *owner,
                    name@,
                    eligible@,
                    eff,
                    self.self_id,
                ),
            decreases counts@.len() - i,
        {
            proof {
                let next = counts@.take(i + 1);
                assert(next.drop_last() =~= counts@.take(i as int));
                assert(next.last() == counts@[i as int]);
            }
            let mut more = lookups(rtype, counts[i], owner, name, eligible, eff, &self.self_id);
            list.append(&mut more);
            i = i + 1;
        }
        assert(counts@.take(i as int) =~= counts@);
        Search::Look(list)
    }

    /// Where the version of a name is read: in the own copy where this node is the writer of
    /// the shard, else at the writer.
    pub fn current_version(
        &self,
        rtype: u8,
        owner: &[u8; 32],
        name: &str,
        bits: u32,
        eligible: &[[u8; 32]],
        now: u64,
    ) -> (r: WriteRoute)
        requires
            bits < 64,
        ensures
            ({
                let sk = shard_key(rtype, bits, *owner, name@);
                let eff = epoch_in_effect(now) as u64;
                if written_by(sk, eligible@, eff, self.self_id) {
                    r == WriteRoute::Local(sk)
                } else {
                    r == (WriteRoute::Forward {
                        sk,
                        writer: crate::headreg::election::writer_among(
                            replica_set(rtype, sk.shard, eligible@),
                            eff,
                            self.self_id,
                        ),
                    })
                }
            }),
    {
        route_write(rtype, bits, owner, name, eligible, effective_epoch(now), &self.self_id)
    }
}

/// A name is looked for at one shard count after the other, at each as if there were no other.
pub proof fn law_counts_are_searched_in_turn(
    rtype: u8,
    counts: Seq<u32>,
    count: u32,
    owner: [u8; 32],
    name: Seq<char>,
    eligible: Seq<[u8; 32]>,
    eff: u64,
    self_id: [u8; 32],
)
    ensures
        searched(rtype, Seq::empty(), owner, name, eligible, eff, self_id).len() == 0,
        searched(rtype, counts.push(count), owner, name, eligible, eff, self_id) == searched(
            rtype,
            counts,
            owner,
            name,
            eligible,
            eff,
            self_id,
        ) + lookups_at(shard_key(rtype, count, owner, name), eligible, eff, self_id),
{
    assert(counts.push(count).drop_last() =~= counts);
}

/// A name that is remembered is not looked for, unless this node holds a copy; otherwise it is
/// looked for at the live shard count first and with every holder.
pub proof fn law_remembered_names_are_not_looked_for(
    reg: HeadRegistry,
    rtype: u8,
    owner: [u8; 32],
    name: &str,
    bits: u32,
    eligible: &[[u8; 32]],
    now: u64,
    s: Search,
    head: Option<Head>,
    holder: [u8; 32],
)
    requires
        bits < 64,
        call_ensures(
            HeadRegistry::resolve_entry,
            (&reg, rtype, &owner, name, bits, eligible, now),
            s,
        ),
        call_ensures(
            HeadRegistry::remembered,
            (&reg, rtype, &owner, name, bits, eligible, now),
            head,
        ),
        holder != reg.self_id,
        replica_set(rtype, shard_key(rtype, bits, owner, name@).shard, eligible@).contains(holder),
    ensures
        head matches Some(h) ==> s == Search::Known(h),
        head is None ==> s is Look,
        s matches Search::Look(list) ==> list@.contains(
            crate::headreg::route::Lookup {
                sk: shard_key(rtype, bits, owner, name@),
                node: Some(holder),
            },
        ),
{
    crate::headreg::route::law_neighbouring_counts_are_tried(bits, bits);
    law_search_spans_a_changing_count(
        rtype,
        bits,
        bits,
        owner,
        name@,
        eligible@,
        epoch_in_effect(now) as u64,
        reg.self_id,
        holder,
    );
}

} // verus!
