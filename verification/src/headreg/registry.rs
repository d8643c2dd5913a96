//! The state of one registry node between requests.

use crate::bytes::same32;
use crate::headreg::cache::{fresh, Head, NameKey, ResolveCache, RESOLVE_CACHE_TTL_MS};
use crate::headreg::election::{effective_epoch, epoch_in_effect, is_replica, peers_of,
    replica_set};
use crate::headreg::held::{stored_shards, HeldIndex};
use crate::headreg::reshard::{census_digest, sorted_ids, ticked, watched_census, CensusWatch,
    ReshardStep, Resharding};
use crate::headreg::route::{lookups, lookups_at, plan_serve, planned, route, route_write,
    routed_by, shard_key, HeadSubmission, Lookup, RegistryReq, ServePlan, WriteRoute};
use crate::headreg::rows::{is_writer, listed_shards, written_by};
use crate::headreg::settle::{looked, Settling};
use crate::headreg::shard::{HeadEntry, ShardKey};
use crate::headreg::tally::ShardTally;
use crate::text::{hex_encode, hex_text};
use vstd::prelude::*;

verus! {

/// What a registry node remembers.
#[derive(Debug)]
pub struct HeadRegistry {
    pub self_id: [u8; 32],
    /// Names resolved over the network lately.
    pub cache: ResolveCache,
    pub resharding: Resharding,
    pub census: CensusWatch,
    /// The epoch in which this node last caught up as the writer of each shard.
    pub caught_up: ShardTally,
    /// How many times each shard was written.
    pub dirty: ShardTally,
    /// The shards that this node has state for.
    pub held: HeldIndex,
    pub settling: Settling,
}

/// The nodes that take part in the election: this one, and every other live member.
pub open spec fn electorate(self_id: [u8; 32], census: Seq<[u8; 32]>) -> Seq<[u8; 32]> {
    seq![self_id] + crate::headreg::election::others(census, self_id)
}

/// This node and every other live member, this node first.
pub fn with_self(self_id: &[u8; 32], census: &[[u8; 32]]) -> (ids: Vec<[u8; 32]>)
    ensures
        ids@ == electorate(*self_id, census@),
{
    let mut ids: Vec<[u8; 32]> = Vec::new();
    ids.push(*self_id);
    let mut i: usize = 0;
    assert(census@.take(0) =~= Seq::<[u8; 32]>::empty());
    assert(ids@ =~= electorate(*self_id, census@.take(0)));
    while i < census.len()
        invariant
            i <= census@.len(),
            ids@ == electorate(*self_id, census@.take(i as int)),
        decreases census@.len() - i,
    {
        proof {
            let next = census@.take(i + 1);
            assert(next.drop_last() =~= census@.take(i as int));
            assert(next.last() == census@[i as int]);
        }
        if !same32(&census[i], self_id) {
            ids.push(census[i]);
        }
        assert(ids@ =~= electorate(*self_id, census@.take(i + 1)));
        i = i + 1;
    }
    assert(census@.take(i as int) =~= census@);
    ids
}

impl HeadRegistry {
    /// The parts of the state are each well formed.
    pub open spec fn wf(&self) -> bool {
        self.held.wf() && self.resharding.wf()
    }

    /// A node that starts at `now`, with the index of held shards that it stored.
    pub fn open(self_id: [u8; 32], stored_index: &[u8], now: u64) -> (r: HeadRegistry)
        ensures
            r.wf(),
            r.self_id == self_id,
            forall|key: NameKey| #[trigger] r.cache.holds(key) is None,
            r.resharding.draining is None,
            r.census.last is None,
            forall|sk: ShardKey| #[trigger] r.caught_up.at(sk) == 0,
            forall|sk: ShardKey| #[trigger] r.dirty.at(sk) == 0,
            r.held@ == stored_shards(stored_index@),
            r.settling == (Settling {
                start_ms: now,
                last: None,
                stable_since_ms: now,
                ready: false,
            }),
    {
        HeadRegistry {
            self_id,
            cache: ResolveCache::new(),
            resharding: Resharding::new(),
            census: CensusWatch::new(),
            caught_up: ShardTally::new(),
            dirty: ShardTally::new(),
            held: HeldIndex::load(stored_index),
            settling: Settling::new(now),
        }
    }

    /// The nodes that take part in the election, given the live members.
    pub fn eligible(&self, census: &[[u8; 32]]) -> (ids: Vec<[u8; 32]>)
        ensures
            ids@ == electorate(self.self_id, census@),
    {
        with_self(&self.self_id, census)
    }

    /// A look at how many nodes take part, on the way to readiness.
    pub fn observe_eligible(&mut self, count: usize, now: u64)
        ensures
            final(self).settling == looked(old(self).settling, count, now),
            *final(self) == (HeadRegistry { settling: final(self).settling, ..*old(self) }),
    {
        self.settling.look(count, now);
    }

    /// Whether a request that has waited for `waited_ms` waits on for readiness.
    pub fn wait_ready(&self, waited_ms: u64) -> (wait: bool)
        ensures
            wait == (!self.settling.ready && waited_ms
                < crate::headreg::settle::READY_WAIT_MS),
    {
        self.settling.holds_back(waited_ms)
    }

    /// Where a head of this node is to be registered.
    pub fn register(&self, rtype: u8, name: &str, bits: u32, eligible: &[[u8; 32]], now: u64) -> (r:
        WriteRoute)
        requires
            bits < 64,
        ensures
            ({
                let sk = shard_key(rtype, bits, self.self_id, name@);
                let eff = epoch_in_effect(now) as u64;
                if written_by(sk, eligible@, eff, self.self_id) {
                    r == WriteRoute::Local(sk)
                } else {
                    r == (WriteRoute::Forward {
                        sk,
                        writer: crate::headreg::election::writer_among(
                            replica_set(rtype, sk.shard, eligible@),
                            eff,
                            self.self_id,
                        ),
                    })
                }
            }),
    {
        route_write(
            rtype,
            bits,
            &self.self_id,
            name,
            eligible,
            effective_epoch(now),
            &self.self_id,
        )
    }

    /// Notes that this node's head was written. Nothing older of it is served from memory any
    /// more, so the node reads its own write.
    pub fn registered(&mut self, rtype: u8, name: &str)
        ensures
            forall|key: NameKey| #[trigger]
                final(self).cache.holds(key) == (if key == (NameKey {
                    rtype,
                    owner: old(self).self_id,
                    name: name@,
                }) {
                    None
                } else {
                    old(self).cache.holds(key)
                }),
            *final(self) == (HeadRegistry { cache: final(self).cache, ..*old(self) }),
    {
        let me = self.self_id;
        self.cache.invalidate(rtype, &me, name);
    }

    /// What is remembered of a name. A holder of its shard reads its own state instead.
    pub fn remembered(
        &self,
        rtype: u8,
        owner: &[u8; 32],
        name: &str,
        bits: u32,
        eligible: &[[u8; 32]],
        now: u64,
    ) -> (head: Option<Head>)
        requires
            bits < 64,
        ensures
            head == (if replica_set(
                rtype,
                shard_key(rtype, bits, *owner, name@).shard,
                eligible@,
            ).contains(self.self_id) {
                None
            } else {
                fresh(self.cache.holds(NameKey { rtype, owner: *owner, name: name@ }), now)
            }),
    {
        let sk = route(rtype, bits, owner, name);
        if is_replica(sk, eligible, &self.self_id) {
            None
        } else {
            self.cache.get(rtype, owner, name, now)
        }
    }

    /// The places to look for a name in at one shard count, in order.
    pub fn resolve_at_bits(
        &self,
        rtype: u8,
        bits: u32,
        owner: &[u8; 32],
        name: &str,
        eligible: &[[u8; 32]],
        now: u64,
    ) -> (list: Vec<Lookup>)
        requires
            bits < 64,
        ensures
            list@ == lookups_at(
                shard_key(rtype, bits, *owner, name@),
                eligible@,
                epoch_in_effect(now) as u64,
                self.self_id,
            ),
    {
        lookups(rtype, bits, owner, name, eligible, effective_epoch(now), &self.self_id)
    }

    /// Takes note of a name that was found at the shard count `found_bits`. It is remembered
    /// if that is the live count and this node does not hold the shard itself.
    pub fn resolved(
        &mut self,
        rtype: u8,
        owner: &[u8; 32],
        name: &str,
        bits: u32,
        found_bits: u32,
        head: Head,
        eligible: &[[u8; 32]],
        now: u64,
    )
        requires
            bits < 64,
            now + RESOLVE_CACHE_TTL_MS <= u64::MAX,
        ensures
            ({
                let own = replica_set(
                    rtype,
                    shard_key(rtype, bits, *owner, name@).shard,
                    eligible@,
                ).contains(old(self).self_id);
                forall|key: NameKey| #[trigger]
                    final(self).cache.holds(key) == (if !own && found_bits == bits && key == (
                    NameKey { rtype, owner: *owner, name: name@ }) {
                        Some((head, (now + RESOLVE_CACHE_TTL_MS) as u64))
                    } else {
                        old(self).cache.holds(key)
                    })
            }),
            *final(self) == (HeadRegistry { cache: final(self).cache, ..*old(self) }),
    {
        let sk = route(rtype, bits, owner, name);
        if found_bits == bits && !is_replica(sk, eligible, &self.self_id) {
            self.cache.put(rtype, *owner, name, head, now);
        }
    }

    /// Plans the answer to a request.
    pub fn serve(
        &self,
        req: &RegistryReq,
        submission: &Option<HeadSubmission>,
        readable: bool,
        shedding: bool,
    ) -> (plan: ServePlan)
        requires
            routed_by(*req) matches Some(bits) ==> bits < 64,
        ensures
            planned(*req, *submission, readable, shedding, plan),
    {
        plan_serve(req, submission, readable, shedding)
    }

    /// The nodes to catch up from before serving a shard as its writer: the other holders, in
    /// an epoch in which that was not done yet; nobody otherwise.
    pub fn ensure_current(&self, sk: ShardKey, eligible: &[[u8; 32]], now: u64) -> (from: Option<
        Vec<[u8; 32]>,
    >)
        ensures
            ({
                let eff = epoch_in_effect(now) as u64;
                match from {
                    Some(ids) => {
                        &&& written_by(sk, eligible@, eff, self.self_id)
                        &&& eff > self.caught_up.at(sk)
                        &&& ids@ == crate::headreg::election::others(
                            replica_set(sk.rtype, sk.shard, eligible@),
                            self.self_id,
                        )
                    },
                    None => !written_by(sk, eligible@, eff, self.self_id) || eff
                        <= self.caught_up.at(sk),
                }
            }),
    {
        let eff: u64 = effective_epoch(now);
        if !is_writer(sk, eligible, eff, &self.self_id) || eff <= self.caught_up.get(&sk) {
            return None;
        }
        Some(peers_of(sk, eligible, &self.self_id))
    }

    /// Notes that this node has caught up as the writer of a shard.
    pub fn current(&mut self, sk: ShardKey, now: u64)
        ensures
            forall|k: ShardKey| #[trigger]
                final(self).caught_up.at(k) == (if k == sk {
                    epoch_in_effect(now) as u64
                } else {
                    old(self).caught_up.at(k)
                }),
            *final(self) == (HeadRegistry { caught_up: final(self).caught_up, ..*old(self) }),
    {
        self.caught_up.set(sk, effective_epoch(now));
    }

    /// The nodes that a shard's state is pushed to: its other holders.
    pub fn replicate(&self, sk: ShardKey, eligible: &[[u8; 32]]) -> (ids: Vec<[u8; 32]>)
        ensures
            ids@ == crate::headreg::election::others(
                replica_set(sk.rtype, sk.shard, eligible@),
                self.self_id,
            ),
    {
        peers_of(sk, eligible, &self.self_id)
    }

    /// Notes a write that is to be pushed.
    pub fn touch(&mut self, sk: ShardKey)
        requires
            old(self).dirty.at(sk) < u64::MAX,
        ensures
            forall|k: ShardKey| #[trigger]
                final(self).dirty.at(k) == (if k == sk {
                    (old(self).dirty.at(sk) + 1) as u64
                } else {
                    old(self).dirty.at(k)
                }),
            *final(self) == (HeadRegistry { dirty: final(self).dirty, ..*old(self) }),
    {
        let n: u64 = self.dirty.get(&sk);
        self.dirty.set(sk, n + 1);
    }

    /// Whether the shard was written since its count of writes was `seen`, so that what was
    /// pushed is already old.
    pub fn rewritten(&self, sk: &ShardKey, seen: u64) -> (yes: bool)
        ensures
            yes == (self.dirty.at(*sk) != seen),
    {
        self.dirty.get(sk) != seen
    }

    /// One tick of following the census: whether held state is to be handed on.
    pub fn migrate_round(&mut self, eligible: &[[u8; 32]]) -> (migrate: bool)
        ensures
            exists|digest: [u8; 32]|
                {
                    &&& digest@ == crate::digest::blake3_digest(
                        crate::manifest::concat_ids(sorted_ids(eligible@)),
                    )
                    &&& (final(self).census.last, migrate) == #[trigger] watched_census(
                        old(self).census.last,
                        digest,
                    )
                },
            *final(self) == (HeadRegistry { census: final(self).census, ..*old(self) }),
    {
        let digest = census_digest(eligible);
        self.census.observe(digest)
    }

    /// One tick of following the shard count.
    pub fn reshard_round(&mut self, current: u32, recorded: Option<u32>) -> (steps: Vec<
        ReshardStep,
    >)
        requires
            old(self).wf(),
        ensures
            final(self).wf(),
            (final(self).resharding.draining, steps@) == ticked(
                old(self).resharding.draining,
                current,
                recorded,
            ),
            *final(self) == (HeadRegistry { resharding: final(self).resharding, ..*old(self) }),
    {
        self.resharding.reshard_round(current, recorded)
    }

    /// The held shards whose heads a node lists and counts: of the kind, or of all, at the
    /// live shard count, those that it writes.
    pub fn listed(&self, rtype: Option<u8>, bits: u32, eligible: &[[u8; 32]], now: u64) -> (list:
        Vec<ShardKey>)
        requires
            self.wf(),
        ensures
            list@.no_duplicates(),
            forall|sk: ShardKey| #[trigger]
                list@.contains(sk) <==> self.held@.contains(sk) && sk.bits == bits && (rtype is Some
                    ==> rtype == Some(sk.rtype)) && written_by(
                    sk,
                    eligible@,
                    epoch_in_effect(now) as u64,
                    self.self_id,
                ),
    {
        let held = self.held.shards(rtype, bits);
        let eff: u64 = effective_epoch(now);
        let list = listed_shards(held.as_slice(), eligible, eff, &self.self_id);
        proof {
            let pred = |sk: ShardKey| written_by(sk, eligible@, eff, self.self_id);
            lemma_filter_distinct(held@, pred);
            assert(list@ == held@.filter(pred));
            assert forall|sk: ShardKey| #[trigger] list@.contains(sk) <==> held@.contains(sk)
                && pred(sk) by {
                lemma_filter_member(held@, pred, sk);
            }
        }
        list
    }

    /// The heads of a program shard, as they are shown.
    pub fn rows(entries: &[HeadEntry]) -> (rows: Vec<(String, String, String, u64)>)
        ensures
            rows@.len() == entries@.len(),
            forall|i: int|
                0 <= i < entries@.len() ==> {
                    &&& (#[trigger] rows@[i]).0@ == hex_text(entries@[i].owner@)
                    &&& rows@[i].1@ == entries@[i].name@
                    &&& rows@[i].2@ == hex_text(entries@[i].cid@)
                    &&& rows@[i].3 == entries@[i].version
                },
    {
        let mut rows: Vec<(String, String, String, u64)> = Vec::new();
        let mut i: usize = 0;
        while i < entries.len()
            invariant
                i <= entries@.len(),
                rows@.len() == i,
                forall|j: int|
                    0 <= j < i ==> {
                        &&& (#[trigger] rows@[j]).0@ == hex_text(entries@[j].owner@)
                        &&& rows@[j].1@ == entries@[j].name@
                        &&& rows@[j].2@ == hex_text(entries@[j].cid@)
                        &&& rows@[j].3 == entries@[j].version
                    },
            decreases entries@.len() - i,
        {
            let e = &entries[i];
            rows.push(
                (
                    hex_encode(e.owner.as_slice()),
                    e.name.clone(),
                    hex_encode(e.cid.as_slice()),
                    e.version,
                ),
            );
            i = i + 1;
        }
        rows
    }
}

/// Filtering keeps an item exactly where it was there and the test lets it by.
pub proof fn lemma_filter_member(
    s: Seq<ShardKey>,
    pred: spec_fn(ShardKey) -> bool,
    x: ShardKey,
)
    ensures
        s.filter(pred).contains(x) <==> s.contains(x) && pred(x),
    decreases s.len(),
{
    reveal(Seq::filter);
    if s.len() > 0 {
        let front = s.drop_last();
        lemma_filter_member(front, pred, x);
        let f = front.filter(pred);
        if front.contains(x) {
            let i = choose|i: int| 0 <= i < front.len() && front[i] == x;
            assert(s[i] == x);
        }
        if s.contains(x) {
            let i = choose|i: int| 0 <= i < s.len() && s[i] == x;
            if i < front.len() {
                assert(front[i] == x);
            }
        }
        if s.last() == x {
            assert(s[s.len() - 1] == x);
        }
        let g = s.filter(pred);
        if pred(s.last()) {
            assert(g == f.push(s.last()));
            if f.contains(x) {
                let i = choose|i: int| 0 <= i < f.len() && f[i] == x;
                assert(g[i] == x);
            }
            if g.contains(x) {
                let i = choose|i: int| 0 <= i < g.len() && g[i] == x;
                if i < f.len() {
                    assert(f[i] == x);
                }
            }
            if s.last() == x {
                assert(g[f.len() as int] == x);
            }
        }
    }
}

proof fn lemma_filter_distinct(s: Seq<ShardKey>, pred: spec_fn(ShardKey) -> bool)
    requires
        s.no_duplicates(),
    ensures
        s.filter(pred).no_duplicates(),
    decreases s.len(),
{
    reveal(Seq::filter);
    if s.len() > 0 {
        let front = s.drop_last();
        lemma_filter_distinct(front, pred);
        let f = front.filter(pred);
        let g = s.filter(pred);
        if pred(s.last()) {
            assert(g == f.push(s.last()));
            lemma_filter_member(front, pred, s.last());
            if front.contains(s.last()) {
                let i = choose|i: int| 0 <= i < front.len() && front[i] == s.last();
                assert(s[i] == s[s.len() - 1]);
            }
            assert forall|a: int, b: int|
                0 <= a < g.len() && 0 <= b < g.len() && a != b implies g[a] != g[b] by {
                if a < f.len() {
                    assert(f.contains(f[a]));
                }
                if b < f.len() {
                    assert(f.contains(f[b]));
                }
            }
        }
    }
}

/// Whoever is in the census may be elected, and this node always, once.
pub proof fn law_every_live_node_may_be_elected(
    self_id: [u8; 32],
    census: Seq<[u8; 32]>,
    id: [u8; 32],
)
    ensures
        electorate(self_id, census).contains(id) <==> id == self_id || census.contains(id),
        electorate(self_id, census)[0] == self_id,
        forall|i: int|
            0 < i < electorate(self_id, census).len() ==> #[trigger] electorate(self_id, census)[i]
                != self_id,
{
    let rest = crate::headreg::election::others(census, self_id);
    let all = electorate(self_id, census);
    crate::headreg::election::law_only_self_is_left_out(census, id, self_id);
    if rest.contains(id) {
        let k = choose|k: int| 0 <= k < rest.len() && rest[k] == id;
        assert(all[k + 1] == id);
    }
    if all.contains(id) && id != self_id {
        let k = choose|k: int| 0 <= k < all.len() && all[k] == id;
        assert(rest[k - 1] == id);
    }
    assert(all[0] == self_id);
    assert forall|i: int| 0 < i < all.len() implies #[trigger] all[i] != self_id by {
        crate::headreg::election::law_only_self_is_left_out(census, self_id, self_id);
        assert(all[i] == rest[i - 1]);
        assert(rest.contains(rest[i - 1]));
    }
}

/// What calls about a name come to. What was found at the live shard count is remembered, where
/// this node holds no copy; what was found at another is not; and registering a name of one's own
/// forgets it.
pub proof fn law_found_heads_are_remembered(
    reg: &mut HeadRegistry,
    rtype: u8,
    owner: [u8; 32],
    name: &str,
    bits: u32,
    found_bits: u32,
    head: Head,
    eligible: &[[u8; 32]],
    at: u64,
    now: u64,
    again: Option<Head>,
)
    requires
        bits < 64,
        at + 3_000 <= u64::MAX,
        call_ensures(
            HeadRegistry::resolved,
            (reg, rtype, &owner, name, bits, found_bits, head, eligible, at),
            (),
        ),
        call_ensures(
            HeadRegistry::remembered,
            (final(reg), rtype, &owner, name, bits, eligible, now),
            again,
        ),
    ensures
        ({
            let holders = crate::headreg::election::replica_set(
                rtype,
                crate::headreg::route::shard_key(rtype, bits, owner, name@).shard,
                eligible@,
            );
            &&& holders.contains(old(reg).self_id) ==> again is None
            &&& !holders.contains(old(reg).self_id) && found_bits == bits && now < at + 3_000
                ==> again == Some(head)
            &&& !holders.contains(old(reg).self_id) && found_bits == bits && now >= at + 3_000
                ==> again is None
        }),
        final(reg).held == old(reg).held,
        final(reg).self_id == old(reg).self_id,
{
}

/// A writer catches a shard up once an epoch, from all its other holders; who is not the writer
/// does not.
pub proof fn law_writers_catch_up_once_an_epoch(
    reg: &mut HeadRegistry,
    sk: ShardKey,
    eligible: &[[u8; 32]],
    at: u64,
    now: u64,
    from: Option<Vec<[u8; 32]>>,
)
    requires
        call_ensures(HeadRegistry::current, (reg, sk, at), ()),
        call_ensures(HeadRegistry::ensure_current, (final(reg), sk, eligible, now), from),
        0 <= epoch_in_effect(now) <= u64::MAX,
        0 <= epoch_in_effect(at) <= u64::MAX,
    ensures
        epoch_in_effect(now) <= epoch_in_effect(at) ==> from is None,
        epoch_in_effect(now) > epoch_in_effect(at) ==> (from is Some <==> written_by(
            sk,
            eligible@,
            epoch_in_effect(now) as u64,
            old(reg).self_id,
        )),
        from matches Some(ids) ==> forall|id: [u8; 32]| #[trigger]
            ids@.contains(id) <==> id != old(reg).self_id
                && crate::headreg::election::replica_set(sk.rtype, sk.shard, eligible@).contains(
                id,
            ),
{
    if let Some(ids) = from {
        let holders = crate::headreg::election::replica_set(sk.rtype, sk.shard, eligible@);
        assert forall|id: [u8; 32]| #[trigger] ids@.contains(id) <==> id != old(reg).self_id
            && holders.contains(id) by {
            crate::headreg::election::law_only_self_is_left_out(holders, id, old(reg).self_id);
        }
    }
}

/// A shard that is written while its state is being pushed is pushed again.
pub proof fn law_writes_are_noticed(
    reg: &mut HeadRegistry,
    sk: ShardKey,
    other: ShardKey,
    before: bool,
    after: bool,
    elsewhere: bool,
)
    requires
        old(reg).dirty.at(sk) < u64::MAX,
        other != sk,
        call_ensures(HeadRegistry::rewritten, (old(reg), &sk, old(reg).dirty.at(sk)), before),
        call_ensures(HeadRegistry::touch, (reg, sk), ()),
        call_ensures(HeadRegistry::rewritten, (final(reg), &sk, old(reg).dirty.at(sk)), after),
        call_ensures(
            HeadRegistry::rewritten,
            (final(reg), &other, old(reg).dirty.at(other)),
            elsewhere,
        ),
    ensures
        !before,
        after,
        !elsewhere,
{
}

/// A name of one's own is registered here where this node writes its shard, and with the writer
/// otherwise; and a shard is listed exactly where it is held, of the count and the type asked for,
/// and written here.
pub proof fn law_names_are_registered_with_their_writer(
    reg: HeadRegistry,
    rtype: u8,
    name: &str,
    bits: u32,
    eligible: &[[u8; 32]],
    now: u64,
    r: WriteRoute,
    only: Option<u8>,
    list: Vec<ShardKey>,
    sk: ShardKey,
)
    requires
        bits < 64,
        call_ensures(HeadRegistry::register, (&reg, rtype, name, bits, eligible, now), r),
        call_ensures(HeadRegistry::listed, (&reg, only, bits, eligible, now), list),
    ensures
        ({
            let key = crate::headreg::route::shard_key(rtype, bits, reg.self_id, name@);
            let eff = epoch_in_effect(now) as u64;
            let writer = crate::headreg::election::writer_among(
                crate::headreg::election::replica_set(rtype, key.shard, eligible@),
                eff,
                reg.self_id,
            );
            &&& writer == reg.self_id ==> r == WriteRoute::Local(key)
            &&& writer != reg.self_id ==> r == (WriteRoute::Forward { sk: key, writer })
        }),
        list@.contains(sk) ==> reg.held@.contains(sk) && sk.bits == bits && (only is None || only
            == Some(sk.rtype)),
        reg.held@.contains(sk) && sk.bits == bits && (only is None || only == Some(sk.rtype))
            && crate::headreg::election::writer_among(
            crate::headreg::election::replica_set(sk.rtype, sk.shard, eligible@),
            epoch_in_effect(now) as u64,
            reg.self_id,
        ) == reg.self_id ==> list@.contains(sk),
        list@.no_duplicates(),
{
}

/// A state is replicated to all other holders of its shard.
pub proof fn law_states_go_to_all_other_holders(
    reg: HeadRegistry,
    sk: ShardKey,
    eligible: &[[u8; 32]],
    ids: Vec<[u8; 32]>,
    id: [u8; 32],
)
    requires
        call_ensures(HeadRegistry::replicate, (&reg, sk, eligible), ids),
    ensures
        ids@.contains(id) <==> id != reg.self_id && crate::headreg::election::replica_set(
            sk.rtype,
            sk.shard,
            eligible@,
        ).contains(id),
{
    crate::headreg::election::law_only_self_is_left_out(
        crate::headreg::election::replica_set(sk.rtype, sk.shard, eligible@),
        id,
        reg.self_id,
    );
}

/// A request waits for a registry whose count of nodes has not settled, for twenty seconds at most.
pub proof fn law_unsettled_registries_are_waited_for(reg: HeadRegistry, waited_ms: u64, wait: bool)
    requires
        call_ensures(HeadRegistry::wait_ready, (&reg, waited_ms), wait),
    ensures
        wait <==> !reg.settling.ready && waited_ms < 20_000,
{
}

} // verus!
