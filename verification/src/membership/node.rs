//! The membership of one node: its views, its own incarnation, and the clocks by which
//! it limits itself.

use crate::bytes::NodeId;
use crate::membership::census::{counted, lists_exactly, live};
use crate::membership::handler::readable;
use crate::membership::snapshot::{shown_dead, shows_exactly, unexpired, Snapshot};
use crate::membership::lifecycle::{elapsed, swim_dead, Now};
use crate::membership::member::{
    delta_worthy, merge_one, merged, Member, MemberEntry, MemberState, PeerAddr,
};
use crate::membership::overlay::{
    clone_addrs, drop_peer, eviction_fits, offer_fits, sidelined, slot_draw, Config, Overlay, PeerState, Views,
    GOSSIP_REPEATS,
};
use vstd::prelude::*;

verus! {

/// Least time between two seed dials of an isolated node.
pub const RECOVER_INTERVAL_MS: u64 = 15_000;

/// Least time between two gossip rounds that news sets off.
pub const EPIDEMIC_DEBOUNCE_MS: u64 = 1_000;

/// How many links one gossip round goes to.
pub const EPIDEMIC_FANOUT: usize = 3;

/// The membership of one node.
#[derive(Debug)]
pub struct Membership {
    /// This node, at its current address.
    pub me: PeerAddr,
    pub cfg: Config,
    pub views: Views,
    /// The seeds, kept so that a node that lost everyone can start over.
    pub bootstrap: Vec<PeerAddr>,
    pub last_recover_ms: u64,
    /// When full isolation began; zero while not isolated.
    pub isolated_since_ms: u64,
    pub last_epidemic_ms: u64,
    /// Raised only to refute a suspicion of this node.
    pub self_incarnation: u64,
}

/// What a node holds while it takes in reports.
#[verifier::ext_equal]
pub struct Intake {
    pub o: Overlay,
    pub incarnation: u64,
    /// A report held this node for suspect or dead.
    pub refuted: bool,
    /// A report was worth gossiping on.
    pub news: bool,
}

/// The incarnation that outdoes an accusation at `theirs`.
pub open spec fn outdone(theirs: u64, ours: u64) -> u64 {
    let top = if theirs > ours {
        theirs
    } else {
        ours
    };
    if top == u64::MAX {
        u64::MAX
    } else {
        (top + 1) as u64
    }
}

/// Taking in one report. A report about self is never merged; an accusation is refuted.
pub open spec fn took_in(st: Intake, me: NodeId, e: MemberEntry, now: u64) -> Intake {
    if e.id == me {
        if e.claimed() != MemberState::Alive {
            Intake { incarnation: outdone(e.incarnation, st.incarnation), refuted: true, ..st }
        } else {
            st
        }
    } else {
        let news = delta_worthy(st.o.members, e);
        Intake {
            o: Overlay {
                members: merged(st.o.members, e, now),
                dirty: if news {
                    st.o.dirty.insert(e.id, GOSSIP_REPEATS)
                } else {
                    st.o.dirty
                },
                ..st.o
            },
            news: st.news || news,
            ..st
        }
    }
}

/// Taking in reports one after the other.
pub open spec fn took_in_all(st: Intake, me: NodeId, entries: Seq<MemberEntry>, now: u64) -> Intake
    decreases entries.len(),
{
    if entries.len() == 0 {
        st
    } else {
        took_in(took_in_all(st, me, entries.drop_last(), now), me, entries.last(), now)
    }
}

/// The record that a node keeps of itself.
pub open spec fn self_record(me: PeerAddr, incarnation: u64, now: u64) -> Member {
    Member {
        addr: me,
        last_heard_ms: now,
        incarnation,
        state: MemberState::Alive,
        suspect_since_ms: None,
    }
}

/// The views with the node's own record renewed.
pub open spec fn reasserted(o: Overlay, me: PeerAddr, incarnation: u64, now: u64) -> Overlay {
    Overlay { members: o.members.insert(me.id, self_record(me, incarnation, now)), ..o }
}

/// What a node holds after reports: on refuting, its own record is renewed at the raised
/// incarnation and queued for gossip.
pub open spec fn absorbed(
    o: Overlay,
    incarnation: u64,
    me: PeerAddr,
    entries: Seq<MemberEntry>,
    now: u64,
) -> Intake {
    let st = took_in_all(
        Intake { o, incarnation, refuted: false, news: false },
        me.id,
        entries,
        now,
    );
    if st.refuted {
        let fresh = reasserted(st.o, me, st.incarnation, now);
        Intake {
            o: Overlay { dirty: fresh.dirty.insert(me.id, GOSSIP_REPEATS), ..fresh },
            ..st
        }
    } else {
        st
    }
}

impl Membership {
    /// The views are well formed.
    pub open spec fn wf(&self) -> bool {
        self.views.wf()
    }

    /// Linking to `peer` leaves the link that it evicts a place among the backups.
    pub open spec fn link_fits(&self, peer: PeerAddr) -> bool {
        eviction_fits(self.views@, self.me.id, self.cfg, peer)
    }

    /// There is a place for `peer` among the backups, where one is sought for it.
    pub open spec fn backup_fits(&self, peer: PeerAddr) -> bool {
        offer_fits(self.views@, self.me.id, self.cfg, peer)
    }

    /// There is a place among the backups for each of `peers`, where one is sought for it.
    pub open spec fn backups_fit(&self, peers: Seq<Option<PeerAddr>>) -> bool {
        forall|i: int|
            0 <= i < peers.len() ==> (#[trigger] peers[i] matches Some(p) ==> self.backup_fits(p))
    }

    /// Everything but the views is unchanged from `before`.
    pub open spec fn same_but_views(&self, before: Membership) -> bool {
        &&& self.me == before.me
        &&& self.cfg == before.cfg
        &&& self.bootstrap == before.bootstrap
        &&& self.last_recover_ms == before.last_recover_ms
        &&& self.isolated_since_ms == before.isolated_since_ms
        &&& self.last_epidemic_ms == before.last_epidemic_ms
        &&& self.self_incarnation == before.self_incarnation
    }

    /// A node that knows nobody.
    pub fn new(me: PeerAddr, cfg: Config) -> (node: Membership)
        ensures
            node.wf(),
            node.me == me,
            node.cfg == cfg,
            node.views@ == (Overlay {
                active: Map::empty(),
                passive: Seq::empty(),
                dead: Map::empty(),
                members: Map::empty(),
                dirty: Map::empty(),
            }),
            node.bootstrap@ == Seq::<PeerAddr>::empty(),
            node.last_recover_ms == 0,
            node.isolated_since_ms == 0,
            node.last_epidemic_ms == 0,
            node.self_incarnation == 0,
    {
        Membership {
            me,
            cfg,
            views: Views::new(),
            bootstrap: Vec::new(),
            last_recover_ms: 0,
            isolated_since_ms: 0,
            last_epidemic_ms: 0,
            self_incarnation: 0,
        }
    }

    /// Renews the node's own record, so that no peer ages it out.
    pub fn refresh_self(&mut self, now: u64)
        requires
            old(self).wf(),
        ensures
            final(self).wf(),
            final(self).same_but_views(*old(self)),
            final(self).views@ == reasserted(
                old(self).views@,
                old(self).me,
                old(self).self_incarnation,
                now,
            ),
    {
        let record = Member {
            addr: self.me.clone(),
            last_heard_ms: now,
            incarnation: self.self_incarnation,
            state: MemberState::Alive,
            suspect_since_ms: None,
        };
        self.views.members.insert(self.me.id, record);
    }

    /// Takes in reports about members. Says whether to gossip at once: there was news, and
    /// the last such round is long enough ago.
    pub fn merge_members(&mut self, entries: &[MemberEntry], now: u64) -> (wake: bool)
        requires
            old(self).wf(),
        ensures
            final(self).wf(),
            final(self).me == old(self).me,
            final(self).cfg == old(self).cfg,
            final(self).bootstrap == old(self).bootstrap,
            final(self).last_recover_ms == old(self).last_recover_ms,
            final(self).isolated_since_ms == old(self).isolated_since_ms,
            ({
                let st = absorbed(
                    old(self).views@,
                    old(self).self_incarnation,
                    old(self).me,
                    entries@,
                    now,
                );
                &&& final(self).views@ == st.o
                &&& final(self).self_incarnation == st.incarnation
                &&& wake == ((st.news || st.refuted) && elapsed(now, old(self).last_epidemic_ms)
                    >= EPIDEMIC_DEBOUNCE_MS)
                &&& final(self).last_epidemic_ms == (if wake {
                    now
                } else {
                    old(self).last_epidemic_ms
                })
            }),
    {
        let mut refute = false;
        let mut news = false;
        let ghost start = Intake {
            o: self.views@,
            incarnation: self.self_incarnation,
            refuted: false,
            news: false,
        };
        let mut i: usize = 0;
        assert(entries@.take(0) =~= Seq::<MemberEntry>::empty());
        while i < entries.len()
            invariant
                self.wf(),
                i <= entries@.len(),
                self.me == old(self).me,
                self.cfg == old(self).cfg,
                self.bootstrap == old(self).bootstrap,
                self.last_recover_ms == old(self).last_recover_ms,
                self.isolated_since_ms == old(self).isolated_since_ms,
                self.last_epidemic_ms == old(self).last_epidemic_ms,
                (Intake {
                    o: self.views@,
                    incarnation: self.self_incarnation,
                    refuted: refute,
                    news,
                }) == took_in_all(start, self.me.id, entries@.take(i as int), now),
            decreases entries@.len() - i,
        {
            let e = &entries[i];
            proof {
                assert(entries@.take(i + 1).drop_last() =~= entries@.take(i as int));
                assert(entries@.take(i + 1).last() == *e);
            }
            if e.id.same(&self.me.id) {
                if MemberState::from_u8(e.state) != MemberState::Alive {
                    let top: u64 = if e.incarnation > self.self_incarnation {
                        e.incarnation
                    } else {
                        self.self_incarnation
                    };
                    self.self_incarnation = top.saturating_add(1);
                    refute = true;
                }
            } else if merge_one(&mut self.views.members, e, now) {
                self.views.dirty.insert(e.id, GOSSIP_REPEATS);
                news = true;
            }
            i = i + 1;
        }
        assert(entries@.take(i as int) =~= entries@);
        if refute {
            self.refresh_self(now);
            self.views.dirty.insert(self.me.id, GOSSIP_REPEATS);
        }
        if news || refute {
            if now.saturating_sub(self.last_epidemic_ms) >= EPIDEMIC_DEBOUNCE_MS {
                self.last_epidemic_ms = now;
                return true;
            }
        }
        false
    }

    /// The peer `id` was heard from.
    pub fn note_heard(&mut self, id: &NodeId, now: u64)
        requires
            old(self).wf(),
        ensures
            final(self).wf(),
            final(self).same_but_views(*old(self)),
            final(self).views@ == crate::membership::lifecycle::heard(
                old(self).views@,
                old(self).me.id,
                *id,
                now,
            ),
    {
        self.views.note_heard(&self.me.id, id, now);
    }

    /// Forgets members that were silent for the retention time.
    pub fn prune_members(&mut self, now: u64)
        requires
            old(self).wf(),
        ensures
            final(self).wf(),
            final(self).same_but_views(*old(self)),
            final(self).views@ == crate::membership::lifecycle::pruned(
                old(self).views@,
                old(self).me.id,
                now,
                old(self).cfg.dead_retention_ms,
            ),
    {
        self.views.prune_members(&self.me.id, now, self.cfg.dead_retention_ms);
    }

    /// The set that elections run over: self, and every member that is not dead and not
    /// silent for the retention time.
    pub fn census(&self, now: u64) -> (listing: Vec<(NodeId, PeerAddr)>)
        requires
            self.wf(),
        ensures
            lists_exactly(
                listing@,
                self.me,
                self.views@.members,
                |id: NodeId, m: Member| counted(m, now, self.cfg.dead_retention_ms),
            ),
    {
        self.views.census(&self.me, now, self.cfg.dead_retention_ms)
    }

    /// The set that placement runs over: self, and every member that is alive, not silent
    /// for the retention time, and not buried here.
    pub fn liveness_census(&self, now: u64) -> (listing: Vec<(NodeId, PeerAddr)>)
        requires
            self.wf(),
        ensures
            lists_exactly(
                listing@,
                self.me,
                self.views@.members,
                |id: NodeId, m: Member|
                    live(m, now, self.cfg.dead_retention_ms) && !self.views@.dead.contains_key(id),
            ),
    {
        self.views.liveness_census(&self.me, now, self.cfg.dead_retention_ms)
    }

    /// The links and tombstones to show to operators.
    pub fn snapshot(&mut self, now: Now) -> (shot: Snapshot)
        requires
            old(self).wf(),
        ensures
            final(self).wf(),
            final(self).same_but_views(*old(self)),
            final(self).views@ == (Overlay {
                dead: unexpired(
                    old(self).views@.dead,
                    now.mono_ms,
                    old(self).cfg.dead_retention_ms,
                ),
                ..old(self).views@
            }),
            shows_exactly(
                shot.active@,
                |id: NodeId, state: PeerState|
                    final(self).views@.active.contains_key(id) && state == final(self).views@.active[id] && !swim_dead(final(self).views@, id),
            ),
            shows_exactly(
                shot.dead@,
                |id: NodeId, state: PeerState| shown_dead(final(self).views@, id, state),
            ),
            shot.passive_count == old(self).views@.passive.len(),
    {
        self.views.snapshot(now.mono_ms, self.cfg.dead_retention_ms)
    }

    /// Where the member `id` can be dialled.
    pub fn member_addr(&self, id: &NodeId) -> (addr: Option<PeerAddr>)
        requires
            self.wf(),
        ensures
            addr == (if *id == self.me.id {
                Some(self.me)
            } else if self.views@.members.contains_key(*id) {
                Some(self.views@.members[*id].addr)
            } else {
                None
            }),
    {
        self.views.member_addr(&self.me, id)
    }

    /// Whether linking to `peer` leaves the link that it evicts a place among the backups.
    pub fn can_link(&self, peer: &PeerAddr) -> (fits: bool)
        requires
            self.wf(),
        ensures
            fits == self.link_fits(*peer),
    {
        if peer.id.same(&self.me.id) || self.views.active.contains(&peer.id) {
            return true;
        }
        let links: usize = self.views.active.len();
        if links < self.cfg.active_size || links == 0 || self.cfg.passive_size > 0 {
            return true;
        }
        let mut rest = clone_addrs(&self.views.passive);
        drop_peer(&mut rest, &peer.id);
        rest.len() > 0
    }

    /// Whether there is a place for `peer` among the backups, where one is sought for it.
    pub fn can_back_up(&self, peer: &PeerAddr) -> (fits: bool)
        requires
            self.wf(),
        ensures
            fits == self.backup_fits(*peer),
    {
        peer.id.same(&self.me.id) || self.views.active.contains(&peer.id) || self.cfg.passive_size
            > 0 || self.views.passive.len() > 0
    }

    /// Whether there is a place among the backups for each of `peers`, where one is sought for
    /// it.
    pub fn can_back_up_all(&self, peers: &Vec<Option<PeerAddr>>) -> (fit: bool)
        requires
            self.wf(),
        ensures
            fit == self.backups_fit(peers@),
    {
        let mut i: usize = 0;
        while i < peers.len()
            invariant
                self.wf(),
                i <= peers@.len(),
                forall|j: int|
                    0 <= j < i ==> (#[trigger] peers@[j] matches Some(p) ==> self.backup_fits(p)),
            decreases peers@.len() - i,
        {
            if let Some(peer) = &peers[i] {
                if !self.can_back_up(peer) {
                    assert(peers@[i as int] matches Some(p) && !self.backup_fits(p));
                    return false;
                }
            }
            i = i + 1;
        }
        true
    }

    /// Offers candidates as backups, one after the other; self is never one.
    pub fn seed(&mut self, peers: &Vec<PeerAddr>)
        requires
            old(self).wf(),
            old(self).backups_fit(all_readable(peers@)),
        ensures
            final(self).wf(),
            final(self).same_but_views(*old(self)),
            exists|slots: Seq<int>|
                offered(
                    old(self).views@,
                    old(self).me.id,
                    old(self).cfg,
                    all_readable(peers@),
                    slots,
                    final(self).views@,
                ),
    {
        let list = readable(peers);
        self.offer_all(&list);
    }

    /// Offers the addresses that could be read as backups, one after the other.
    pub fn offer_all(&mut self, peers: &Vec<Option<PeerAddr>>)
        requires
            old(self).wf(),
            old(self).backups_fit(peers@),
        ensures
            final(self).wf(),
            final(self).same_but_views(*old(self)),
            exists|slots: Seq<int>|
                offered(
                    old(self).views@,
                    old(self).me.id,
                    old(self).cfg,
                    peers@,
                    slots,
                    final(self).views@,
                ),
    {
        let ghost mut slots: Seq<int> = Seq::empty();
        let mut i: usize = 0;
        assert(peers@.take(0) =~= Seq::<Option<PeerAddr>>::empty());
        while i < peers.len()
            invariant
                self.wf(),
                self.backups_fit(peers@),
                self.same_but_views(*old(self)),
                i <= peers@.len(),
                slots.len() == i,
                offered(
                    old(self).views@,
                    self.me.id,
                    self.cfg,
                    peers@.take(i as int),
                    slots,
                    self.views@,
                ),
            decreases peers@.len() - i,
        {
            let ghost mid = self.views@;
            let ghost mut slot: int = 0;
            if let Some(peer) = &peers[i] {
                self.views.add_passive(&self.me.id, &self.cfg, peer.clone());
                proof {
                    slot = choose|slot: int|
                        #![trigger sidelined(mid, self.me.id, self.cfg, *peer, slot)]
                        slot_draw(mid, slot) && self.views@ == sidelined(
                            mid,
                            self.me.id,
                            self.cfg,
                            *peer,
                            slot,
                        );
                }
            }
            proof {
                let next = peers@.take(i + 1);
                let before = slots;
                slots = slots.push(slot);
                assert(next.drop_last() =~= peers@.take(i as int));
                assert(next.last() == peers@[i as int]);
                assert(slots.drop_last() =~= before);
                assert(slots.last() == slot);
                assert(offered_step(mid, self.me.id, self.cfg, peers@[i as int], slot, self.views@));
                assert(offered(
                    old(self).views@,
                    self.me.id,
                    self.cfg,
                    next.drop_last(),
                    slots.drop_last(),
                    mid,
                ));
            }
            i = i + 1;
        }
        assert(peers@.take(i as int) =~= peers@);
    }
}

/// A list of addresses that could all be read.
pub open spec fn all_readable(peers: Seq<PeerAddr>) -> Seq<Option<PeerAddr>> {
    peers.map_values(|p: PeerAddr| Some(p))
}

/// Offering one address, where it could be read, leads from `o` to `next` on the draw
/// `slot`.
pub open spec fn offered_step(
    o: Overlay,
    me: NodeId,
    cfg: Config,
    peer: Option<PeerAddr>,
    slot: int,
    next: Overlay,
) -> bool {
    match peer {
        Some(p) => slot_draw(o, slot) && next == sidelined(o, me, cfg, p, slot),
        None => next == o,
    }
}

/// Offering the addresses one after the other leads from `o` to `next` on the draws
/// `slots`.
pub open spec fn offered(
    o: Overlay,
    me: NodeId,
    cfg: Config,
    peers: Seq<Option<PeerAddr>>,
    slots: Seq<int>,
    next: Overlay,
) -> bool
    decreases peers.len(),
{
    if peers.len() == 0 {
        next == o && slots.len() == 0
    } else {
        slots.len() == peers.len() && exists|mid: Overlay|
            offered(o, me, cfg, peers.drop_last(), slots.drop_last(), mid) && #[trigger] offered_step(
                mid,
                me,
                cfg,
                peers.last(),
                slots.last(),
                next,
            )
    }
}

} // verus!
