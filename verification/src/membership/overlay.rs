//! The views of one node: warm links, backup addresses, tombstones, members, and what
//! is still to be gossiped.

use crate::bytes::NodeId;
use crate::membership::member::{Member, PeerAddr};
use crate::random::{choose_one, random_below, shuffle};
use crate::table::Table;
use vstd::prelude::*;

verus! {

/// How often one change is gossiped before it is retired.
pub const GOSSIP_REPEATS: u8 = 6;

/// Sizes and times that govern membership. Times are in milliseconds.
#[derive(Clone, Copy, Debug)]
pub struct Config {
    pub active_size: usize,
    pub passive_size: usize,
    /// Walk length of a forwarded join.
    pub arwl: u8,
    /// Remaining walk length at which the joiner is also kept as a backup.
    pub prwl: u8,
    pub probe_interval_ms: u64,
    pub probe_timeout_ms: u64,
    /// Direct probe failures in a row before the indirect probe.
    pub probe_failures: u32,
    /// How many members are asked to probe on this node's behalf.
    pub indirect_probes: usize,
    /// How long a member stays suspect before it counts as dead.
    pub suspect_timeout_ms: u64,
    pub shuffle_interval_ms: u64,
    pub shuffle_sample: usize,
    /// How long tombstones stay visible, and after how much silence a member is
    /// forgotten.
    pub dead_retention_ms: u64,
    /// How long full isolation is borne before the endpoint is taken to be wedged.
    pub wedge_rebind_ms: u64,
}

impl Default for Config {
    fn default() -> (cfg: Config)
        ensures
            cfg == (Config {
                active_size: 5,
                passive_size: 30,
                arwl: 6,
                prwl: 3,
                probe_interval_ms: 5_000,
                probe_timeout_ms: 3_000,
                probe_failures: 2,
                indirect_probes: 3,
                suspect_timeout_ms: 6_000,
                shuffle_interval_ms: 30_000,
                shuffle_sample: 8,
                dead_retention_ms: 600_000,
                wedge_rebind_ms: 120_000,
            }),
    {
        Config {
            active_size: 5,
            passive_size: 30,
            arwl: 6,
            prwl: 3,
            probe_interval_ms: 5_000,
            probe_timeout_ms: 3_000,
            probe_failures: 2,
            indirect_probes: 3,
            suspect_timeout_ms: 6_000,
            shuffle_interval_ms: 30_000,
            shuffle_sample: 8,
            dead_retention_ms: 600_000,
            wedge_rebind_ms: 120_000,
        }
    }
}

/// What is known of one link.
#[derive(Debug)]
pub struct PeerState {
    pub addr: PeerAddr,
    pub alive: bool,
    pub rtt_us: Option<u64>,
    pub skew_ms: Option<u64>,
    pub last_seen_unix: Option<u64>,
    pub consecutive_failures: u32,
}

impl Clone for PeerState {
    fn clone(&self) -> (copy: PeerState)
        ensures
            copy == *self,
    {
        PeerState {
            addr: self.addr.clone(),
            alive: self.alive,
            rtt_us: self.rtt_us,
            skew_ms: self.skew_ms,
            last_seen_unix: self.last_seen_unix,
            consecutive_failures: self.consecutive_failures,
        }
    }
}

impl PeerState {
    /// A link of which nothing is known yet.
    pub open spec fn unprobed(addr: PeerAddr) -> PeerState {
        PeerState {
            addr,
            alive: false,
            rtt_us: None,
            skew_ms: None,
            last_seen_unix: None,
            consecutive_failures: 0,
        }
    }

    /// A link of which nothing is known yet.
    pub fn new(addr: PeerAddr) -> (state: PeerState)
        ensures
            state == PeerState::unprobed(addr),
    {
        PeerState {
            addr,
            alive: false,
            rtt_us: None,
            skew_ms: None,
            last_seen_unix: None,
            consecutive_failures: 0,
        }
    }
}

/// A link that died, and when.
#[derive(Debug)]
pub struct Tombstone {
    pub state: PeerState,
    pub died_ms: u64,
}

/// The views of one node.
#[derive(Debug)]
pub struct Views {
    pub active: Table<PeerState>,
    pub passive: Vec<PeerAddr>,
    pub dead: Table<Tombstone>,
    pub members: Table<Member>,
    /// Remaining retransmissions of each change.
    pub dirty: Table<u8>,
}

/// The views as mathematical values.
#[verifier::ext_equal]
pub struct Overlay {
    pub active: Map<NodeId, PeerState>,
    pub passive: Seq<PeerAddr>,
    pub dead: Map<NodeId, Tombstone>,
    pub members: Map<NodeId, Member>,
    pub dirty: Map<NodeId, u8>,
}

impl View for Views {
    type V = Overlay;

    open spec fn view(&self) -> Overlay {
        Overlay {
            active: self.active@,
            passive: self.passive@,
            dead: self.dead@,
            members: self.members@,
            dirty: self.dirty@,
        }
    }
}

/// Some backup address belongs to `id`.
pub open spec fn lists_peer(passive: Seq<PeerAddr>, id: NodeId) -> bool {
    exists|i: int| 0 <= i < passive.len() && (#[trigger] passive[i]).id == id
}

/// The backup addresses without those of `id`, in order.
pub open spec fn without_peer(passive: Seq<PeerAddr>, id: NodeId) -> Seq<PeerAddr>
    decreases passive.len(),
{
    if passive.len() == 0 {
        passive
    } else if passive.last().id == id {
        without_peer(passive.drop_last(), id)
    } else {
        without_peer(passive.drop_last(), id).push(passive.last())
    }
}

/// The backup addresses with the one at `slot` replaced by the last, which leaves the end.
pub open spec fn swap_removed(passive: Seq<PeerAddr>, slot: int) -> Seq<PeerAddr> {
    passive.update(slot, passive.last()).drop_last()
}

/// The backup addresses after `peer` was offered: unchanged where it is listed already;
/// a full list first gives up the address at `slot`.
pub open spec fn passive_pushed(
    passive: Seq<PeerAddr>,
    peer: PeerAddr,
    cap: nat,
    slot: int,
) -> Seq<PeerAddr> {
    if lists_peer(passive, peer.id) {
        passive
    } else if passive.len() >= cap {
        swap_removed(passive, slot).push(peer)
    } else {
        passive.push(peer)
    }
}

/// Whether some backup address belongs to `id`.
pub fn passive_lists(passive: &Vec<PeerAddr>, id: &NodeId) -> (listed: bool)
    ensures
        listed == lists_peer(passive@, *id),
{
    let mut i: usize = 0;
    while i < passive.len()
        invariant
            i <= passive@.len(),
            forall|j: int| 0 <= j < i ==> (#[trigger] passive@[j]).id != *id,
        decreases passive@.len() - i,
    {
        if passive[i].id.same(id) {
            assert(passive@[i as int].id == *id);
            return true;
        }
        i = i + 1;
    }
    false
}

/// Offers `peer` as a backup. Where the list is full, the address at `slot` leaves.
pub fn push_passive_at(passive: &mut Vec<PeerAddr>, peer: PeerAddr, cap: usize, slot: usize)
    requires
        !lists_peer(old(passive)@, peer.id) && old(passive)@.len() >= cap ==> slot < old(passive)@.len(),
    ensures
        final(passive)@ == passive_pushed(old(passive)@, peer, cap as nat, slot as int),
{
    if passive_lists(passive, &peer.id) {
        return;
    }
    if passive.len() >= cap {
        passive.swap_remove(slot);
        assert(passive@ =~= swap_removed(old(passive)@, slot as int));
    }
    passive.push(peer);
}

/// Offers `peer` as a backup. Where the list is full, a random address leaves.
pub fn push_passive(passive: &mut Vec<PeerAddr>, peer: PeerAddr, cap: usize)
    requires
        cap > 0 || old(passive)@.len() > 0,
    ensures
        exists|slot: int|
            #![trigger passive_pushed(old(passive)@, peer, cap as nat, slot)]
            0 <= slot && (old(passive)@.len() > 0 ==> slot < old(passive)@.len()) && final(passive)@
                == passive_pushed(old(passive)@, peer, cap as nat, slot),
{
    let slot: usize = if passive.len() > 0 {
        random_below(passive.len())
    } else {
        0
    };
    push_passive_at(passive, peer, cap, slot);
}

/// Copies a list of addresses.
pub fn clone_addrs(addrs: &Vec<PeerAddr>) -> (copy: Vec<PeerAddr>)
    ensures
        copy@ == addrs@,
{
    let mut out: Vec<PeerAddr> = Vec::new();
    let mut i: usize = 0;
    while i < addrs.len()
        invariant
            i <= addrs@.len(),
            out@ == addrs@.take(i as int),
        decreases addrs@.len() - i,
    {
        out.push(addrs[i].clone());
        i = i + 1;
        assert(out@ =~= addrs@.take(i as int));
    }
    assert(out@ =~= addrs@);
    out
}

/// Drops the backup addresses of `id`.
pub fn drop_peer(passive: &mut Vec<PeerAddr>, id: &NodeId)
    ensures
        final(passive)@ == without_peer(old(passive)@, *id),
{
    let mut kept: Vec<PeerAddr> = Vec::new();
    let mut i: usize = 0;
    assert(passive@.take(0) =~= Seq::<PeerAddr>::empty());
    while i < passive.len()
        invariant
            i <= passive@.len(),
            passive@ == old(passive)@,
            kept@ == without_peer(passive@.take(i as int), *id),
        decreases passive@.len() - i,
    {
        if !passive[i].id.same(id) {
            kept.push(passive[i].clone());
        }
        proof {
            let next = passive@.take(i + 1);
            assert(next.drop_last() =~= passive@.take(i as int));
            assert(next.last() == passive@[i as int]);
        }
        i = i + 1;
    }
    assert(passive@.take(i as int) =~= passive@);
    *passive = kept;
}

/// The views after `peer` became a warm link, and the address that had to leave for it.
/// A node never links to itself. A peer that was linked only has its address renewed. A
/// full view first gives up `victim`, which becomes a backup, in place of the backup at
/// `slot` where those are full too. The peer leaves tombstones and backups.
pub open spec fn activated(
    o: Overlay,
    me: NodeId,
    cfg: Config,
    peer: PeerAddr,
    victim: NodeId,
    slot: int,
) -> (Overlay, Option<PeerAddr>) {
    let dead = o.dead.remove(peer.id);
    let passive = without_peer(o.passive, peer.id);
    if peer.id == me {
        (o, None)
    } else if o.active.contains_key(peer.id) {
        let active = o.active.insert(peer.id, PeerState { addr: peer, ..o.active[peer.id] });
        (Overlay { active, passive, dead, ..o }, None)
    } else if must_evict(o, cfg) {
        let gone = o.active[victim].addr;
        let active = o.active.remove(victim).insert(peer.id, PeerState::unprobed(peer));
        let passive = passive_pushed(passive, gone, cfg.passive_size as nat, slot);
        (Overlay { active, passive, dead, ..o }, Some(gone))
    } else {
        let active = o.active.insert(peer.id, PeerState::unprobed(peer));
        (Overlay { active, passive, dead, ..o }, None)
    }
}

/// The active view is full and holds a link that can leave.
pub open spec fn must_evict(o: Overlay, cfg: Config) -> bool {
    o.active.dom().len() >= cfg.active_size && o.active.dom().len() > 0
}

/// Linking to `peer` evicts a link.
pub open spec fn evicts(o: Overlay, me: NodeId, cfg: Config, peer: PeerAddr) -> bool {
    peer.id != me && !o.active.contains_key(peer.id) && must_evict(o, cfg)
}

/// `victim` and `slot` are draws that linking to `peer` can make.
pub open spec fn eviction_draw(
    o: Overlay,
    me: NodeId,
    cfg: Config,
    peer: PeerAddr,
    victim: NodeId,
    slot: int,
) -> bool {
    let passive = without_peer(o.passive, peer.id);
    evicts(o, me, cfg, peer) ==> o.active.contains_key(victim) && 0 <= slot && (passive.len() > 0
        ==> slot < passive.len())
}

/// An evicted link finds a place among the backups.
pub open spec fn eviction_fits(o: Overlay, me: NodeId, cfg: Config, peer: PeerAddr) -> bool {
    evicts(o, me, cfg, peer) ==> cfg.passive_size > 0 || without_peer(o.passive, peer.id).len() > 0
}

/// The views after `peer` was offered as a backup: neither self nor a warm link is kept
/// as one.
pub open spec fn sidelined(
    o: Overlay,
    me: NodeId,
    cfg: Config,
    peer: PeerAddr,
    slot: int,
) -> Overlay {
    if peer.id == me || o.active.contains_key(peer.id) {
        o
    } else {
        Overlay {
            passive: passive_pushed(o.passive, peer, cfg.passive_size as nat, slot),
            ..o
        }
    }
}

/// `slot` is a draw that offering a backup can make.
pub open spec fn slot_draw(o: Overlay, slot: int) -> bool {
    0 <= slot && (o.passive.len() > 0 ==> slot < o.passive.len())
}

/// A backup that is offered finds a place, where one is sought for it.
pub open spec fn offer_fits(o: Overlay, me: NodeId, cfg: Config, peer: PeerAddr) -> bool {
    peer.id == me || o.active.contains_key(peer.id) || cfg.passive_size > 0 || o.passive.len() > 0
}

/// Where no backup is of `id`, dropping those of `id` drops none.
pub proof fn lemma_without_absent(passive: Seq<PeerAddr>, id: NodeId)
    requires
        !lists_peer(passive, id),
    ensures
        without_peer(passive, id) == passive,
    decreases passive.len(),
{
    if passive.len() > 0 {
        let front = passive.drop_last();
        assert(passive[passive.len() - 1].id != id);
        assert(!lists_peer(front, id)) by {
            if lists_peer(front, id) {
                let i = choose|i: int| 0 <= i < front.len() && (#[trigger] front[i]).id == id;
                assert(passive[i].id == id);
            }
        }
        lemma_without_absent(front, id);
        assert(front.push(passive.last()) =~= passive);
    }
}

impl Views {
    /// Each table has distinct keys.
    pub open spec fn wf(&self) -> bool {
        self.active.wf() && self.dead.wf() && self.members.wf() && self.dirty.wf()
    }

    /// Views that know nobody.
    pub fn new() -> (views: Views)
        ensures
            views.wf(),
            views@ == (Overlay {
                active: Map::empty(),
                passive: Seq::empty(),
                dead: Map::empty(),
                members: Map::empty(),
                dirty: Map::empty(),
            }),
    {
        Views {
            active: Table::new(),
            passive: Vec::new(),
            dead: Table::new(),
            members: Table::new(),
            dirty: Table::new(),
        }
    }

    /// Links to `peer`; where the view is full, `victim` leaves, and where the backups are
    /// full too, the one at `slot`. Hands out the address that had to leave.
    pub fn add_active_choosing(
        &mut self,
        me: &NodeId,
        cfg: &Config,
        peer: PeerAddr,
        victim: &NodeId,
        slot: usize,
    ) -> (evicted: Option<PeerAddr>)
        requires
            old(self).wf(),
            eviction_draw(old(self)@, *me, *cfg, peer, *victim, slot as int),
            eviction_fits(old(self)@, *me, *cfg, peer),
        ensures
            final(self).wf(),
            (final(self)@, evicted) == activated(
                old(self)@,
                *me,
                *cfg,
                peer,
                *victim,
                slot as int,
            ),
    {
        let id = peer.id;
        if id.same(me) {
            return None;
        }
        let _ = self.dead.remove(&id);
        drop_peer(&mut self.passive, &id);
        let known: Option<PeerState> = match self.active.get(&id) {
            Some(state) => Some(state.clone()),
            None => None,
        };
        match known {
            Some(state) => {
                self.active.insert(
                    id,
                    PeerState {
                        addr: peer,
                        alive: state.alive,
                        rtt_us: state.rtt_us,
                        skew_ms: state.skew_ms,
                        last_seen_unix: state.last_seen_unix,
                        consecutive_failures: state.consecutive_failures,
                    },
                );
                None
            },
            None => {
                let mut evicted: Option<PeerAddr> = None;
                if self.active.len() >= cfg.active_size && self.active.len() > 0 {
                    if let Some(state) = self.active.remove(victim) {
                        let gone = state.addr.clone();
                        push_passive_at(&mut self.passive, state.addr, cfg.passive_size, slot);
                        evicted = Some(gone);
                    }
                }
                self.active.insert(id, PeerState::new(peer));
                evicted
            },
        }
    }

    /// Links to `peer`; where a view is full, a random entry leaves.
    pub fn add_active(&mut self, me: &NodeId, cfg: &Config, peer: PeerAddr) -> (evicted: Option<
        PeerAddr,
    >)
        requires
            old(self).wf(),
            eviction_fits(old(self)@, *me, *cfg, peer),
        ensures
            final(self).wf(),
            exists|victim: NodeId, slot: int|
                #![trigger activated(old(self)@, *me, *cfg, peer, victim, slot)]
                eviction_draw(old(self)@, *me, *cfg, peer, victim, slot) && (
                final(self)@, evicted) == activated(old(self)@, *me, *cfg, peer, victim, slot),
    {
        let keys = self.active.keys();
        let victim: NodeId = match choose_one(keys.as_slice()) {
            Some(id) => {
                assert(self.active@.dom().contains(*id));
                *id
            },
            None => *me,
        };
        let mut rest = clone_addrs(&self.passive);
        drop_peer(&mut rest, &peer.id);
        let slot: usize = if rest.len() > 0 {
            random_below(rest.len())
        } else {
            0
        };
        self.add_active_choosing(me, cfg, peer, &victim, slot)
    }

    /// Offers `peer` as a backup; where the backups are full, the one at `slot` leaves.
    pub fn add_passive_at(&mut self, me: &NodeId, cfg: &Config, peer: PeerAddr, slot: usize)
        requires
            old(self).wf(),
            slot_draw(old(self)@, slot as int),
            offer_fits(old(self)@, *me, *cfg, peer),
        ensures
            final(self).wf(),
            final(self)@ == sidelined(old(self)@, *me, *cfg, peer, slot as int),
    {
        if peer.id.same(me) {
            return;
        }
        if self.active.contains(&peer.id) {
            return;
        }
        push_passive_at(&mut self.passive, peer, cfg.passive_size, slot);
    }

    /// Offers `peer` as a backup; where the backups are full, a random one leaves.
    pub fn add_passive(&mut self, me: &NodeId, cfg: &Config, peer: PeerAddr)
        requires
            old(self).wf(),
            offer_fits(old(self)@, *me, *cfg, peer),
        ensures
            final(self).wf(),
            exists|slot: int|
                #![trigger sidelined(old(self)@, *me, *cfg, peer, slot)]
                slot_draw(old(self)@, slot) && final(self)@ == sidelined(
                    old(self)@,
                    *me,
                    *cfg,
                    peer,
                    slot,
                ),
    {
        let slot: usize = if self.passive.len() > 0 {
            random_below(self.passive.len())
        } else {
            0
        };
        self.add_passive_at(me, cfg, peer, slot);
    }

    /// Takes a random backup out of the list.
    pub fn draw_passive(&mut self) -> (candidate: Option<PeerAddr>)
        requires
            old(self).wf(),
        ensures
            final(self).wf(),
            final(self)@ == (Overlay { passive: final(self)@.passive, ..old(self)@ }),
            match candidate {
                Some(c) => old(self)@.passive.to_multiset() == final(self)@.passive.to_multiset().insert(c),
                None => old(self)@.passive.len() == 0 && final(self)@.passive.len() == 0,
            },
    {
        shuffle(&mut self.passive);
        let ghost mixed = self.passive@;
        let candidate = self.passive.pop();
        proof {
            if mixed.len() > 0 {
                assert(mixed =~= mixed.drop_last().push(mixed.last()));
                vstd::seq_lib::to_multiset_build(mixed.drop_last(), mixed.last());
            }
        }
        candidate
    }
}

} // verus!
