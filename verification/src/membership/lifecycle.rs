//! SWIM life and death of members and links.

use crate::bytes::NodeId;
use crate::membership::member::{Member, MemberState, PeerAddr};
use crate::membership::overlay::{Overlay, PeerState, Tombstone, Views, GOSSIP_REPEATS};
use crate::table::{lemma_entry_has_row, lemma_row_is_entry};
use vstd::prelude::*;

verus! {

/// A reading of the node's clocks, in milliseconds: time since the Unix epoch, and time
/// on a clock that never steps back.
#[derive(Clone, Copy, Debug)]
pub struct Now {
    pub wall_ms: u64,
    pub mono_ms: u64,
}

/// The time from `since` to `now`, zero where the clock has stepped back.
pub open spec fn elapsed(now: u64, since: u64) -> int {
    if now >= since {
        now - since
    } else {
        0
    }
}

/// The member was suspect for as long as a suspicion may last.
pub open spec fn overdue(m: Member, now: u64, timeout: u64) -> bool {
    m.state == MemberState::Suspect && (m.suspect_since_ms matches Some(since) && elapsed(
        now,
        since,
    ) >= timeout)
}

/// `id` is a member known to be dead.
pub open spec fn swim_dead(o: Overlay, id: NodeId) -> bool {
    o.members.contains_key(id) && o.members[id].state == MemberState::Dead
}

/// The views with the liveness of the known member `id` set at its own incarnation and
/// the change queued for gossip.
pub open spec fn relabelled(o: Overlay, id: NodeId, state: MemberState, now: u64) -> Overlay {
    let m = o.members[id];
    Overlay {
        members: o.members.insert(id, m.with_liveness(m.incarnation, state, now)),
        dirty: o.dirty.insert(id, GOSSIP_REPEATS),
        ..o
    }
}

/// The views after `id` came under suspicion: only a member thought alive does.
pub open spec fn suspected(o: Overlay, id: NodeId, now: u64) -> Overlay {
    if o.members.contains_key(id) && o.members[id].state == MemberState::Alive {
        relabelled(o, id, MemberState::Suspect, now)
    } else {
        o
    }
}

/// The views after `id` was declared dead at its own incarnation.
pub open spec fn declared_dead(o: Overlay, id: NodeId, now: u64) -> Overlay {
    if o.members.contains_key(id) {
        relabelled(o, id, MemberState::Dead, now)
    } else {
        o
    }
}

/// The tombstone of a link.
pub open spec fn tombstone(state: PeerState, died_ms: u64) -> Tombstone {
    Tombstone { state: PeerState { alive: false, ..state }, died_ms }
}

/// The views with the link to `id`, where there is one, turned into a tombstone.
pub open spec fn buried(o: Overlay, id: NodeId, died_ms: u64) -> Overlay {
    if o.active.contains_key(id) {
        Overlay {
            active: o.active.remove(id),
            dead: o.dead.insert(id, tombstone(o.active[id], died_ms)),
            ..o
        }
    } else {
        o
    }
}

/// The link to `id` leads to a member known to be dead.
pub open spec fn corpse(o: Overlay, id: NodeId) -> bool {
    o.active.contains_key(id) && swim_dead(o, id)
}

/// The views with every link to a dead member turned into a tombstone.
pub open spec fn cleared(o: Overlay, died_ms: u64) -> Overlay {
    Overlay {
        active: Map::new(
            |id: NodeId| o.active.contains_key(id) && !corpse(o, id),
            |id: NodeId| o.active[id],
        ),
        dead: Map::new(
            |id: NodeId| o.dead.contains_key(id) || corpse(o, id),
            |id: NodeId|
                if corpse(o, id) {
                    tombstone(o.active[id], died_ms)
                } else {
                    o.dead[id]
                },
        ),
        ..o
    }
}

/// A probe's answer.
#[derive(Clone, Copy, Debug)]
pub struct ProbeReport {
    pub rtt_us: u64,
    pub skew_ms: u64,
    /// Seconds since the Unix epoch, where the clock has them.
    pub seen_unix: Option<u64>,
}

/// What a member becomes when it answers a probe at `addr`: proof of life lifts a
/// suspicion, but a death is left for the member itself to refute.
pub open spec fn answered_member(m: Member, addr: PeerAddr, now: u64) -> Member {
    let heard = Member { last_heard_ms: now, addr, ..m };
    if m.state == MemberState::Suspect {
        heard.with_liveness(m.incarnation, MemberState::Alive, now)
    } else {
        heard
    }
}

/// The views after the peer `id` answered a probe at `addr`.
pub open spec fn answered(
    o: Overlay,
    id: NodeId,
    addr: PeerAddr,
    report: ProbeReport,
    now: u64,
) -> Overlay {
    let active = if o.active.contains_key(id) {
        o.active.insert(
            id,
            PeerState {
                addr: o.active[id].addr,
                alive: true,
                rtt_us: Some(report.rtt_us),
                skew_ms: Some(report.skew_ms),
                last_seen_unix: report.seen_unix,
                consecutive_failures: 0,
            },
        )
    } else {
        o.active
    };
    if o.members.contains_key(id) {
        Overlay {
            active,
            members: o.members.insert(id, answered_member(o.members[id], addr, now)),
            ..o
        }
    } else {
        Overlay {
            active,
            members: o.members.insert(id, Member::fresh(addr, now)),
            dirty: o.dirty.insert(id, GOSSIP_REPEATS),
            ..o
        }
    }
}

/// The views after a probe of `id` went unanswered.
pub open spec fn unanswered(o: Overlay, id: NodeId) -> Overlay {
    if o.active.contains_key(id) {
        let state = o.active[id];
        Overlay {
            active: o.active.insert(
                id,
                PeerState {
                    consecutive_failures: (state.consecutive_failures + 1) as u32,
                    ..state
                },
            ),
            ..o
        }
    } else {
        o
    }
}

/// The views after `id` was heard from: a known member is fresher, and one that is only
/// known as a link becomes a member. Its liveness is for gossip to decide.
pub open spec fn heard(o: Overlay, me: NodeId, id: NodeId, now: u64) -> Overlay {
    if id == me {
        o
    } else if o.members.contains_key(id) {
        Overlay {
            members: o.members.insert(id, Member { last_heard_ms: now, ..o.members[id] }),
            ..o
        }
    } else if o.active.contains_key(id) {
        Overlay {
            members: o.members.insert(id, Member::fresh(o.active[id].addr, now)),
            dirty: o.dirty.insert(id, GOSSIP_REPEATS),
            ..o
        }
    } else {
        o
    }
}

/// The views after others reached `id` though this node could not.
pub open spec fn vouched(o: Overlay, me: NodeId, id: NodeId, now: u64) -> Overlay {
    let reset = if o.active.contains_key(id) {
        Overlay {
            active: o.active.insert(id, PeerState { consecutive_failures: 0, ..o.active[id] }),
            ..o
        }
    } else {
        o
    };
    heard(reset, me, id, now)
}

/// The views without members that were silent for `retention`; self always stays.
pub open spec fn pruned(o: Overlay, me: NodeId, now: u64, retention: u64) -> Overlay {
    Overlay {
        members: Map::new(
            |id: NodeId|
                o.members.contains_key(id) && (id == me || elapsed(now, o.members[id].last_heard_ms)
                    < retention),
            |id: NodeId| o.members[id],
        ),
        ..o
    }
}

impl Views {
    /// A copy of the member `id`.
    fn member(&self, id: &NodeId) -> (m: Option<Member>)
        requires
            self.wf(),
        ensures
            match m {
                Some(m) => self@.members.contains_key(*id) && m == self@.members[*id],
                None => !self@.members.contains_key(*id),
            },
    {
        match self.members.get(id) {
            Some(m) => Some(m.clone()),
            None => None,
        }
    }

    /// A copy of the link to `id`.
    fn link(&self, id: &NodeId) -> (state: Option<PeerState>)
        requires
            self.wf(),
        ensures
            match state {
                Some(s) => self@.active.contains_key(*id) && s == self@.active[*id],
                None => !self@.active.contains_key(*id),
            },
    {
        match self.active.get(id) {
            Some(s) => Some(s.clone()),
            None => None,
        }
    }

    /// Puts `id` under suspicion after direct and indirect probes failed.
    pub fn suspect(&mut self, id: &NodeId, now: u64)
        requires
            old(self).wf(),
        ensures
            final(self).wf(),
            final(self)@ == suspected(old(self)@, *id, now),
    {
        if let Some(m) = self.member(id) {
            if m.state == MemberState::Alive {
                let mut next = m;
                let inc: u64 = next.incarnation;
                next.set_liveness(inc, MemberState::Suspect, now);
                self.members.insert(*id, next);
                self.dirty.insert(*id, GOSSIP_REPEATS);
            }
        }
    }

    /// The members whose suspicion has lasted `timeout`.
    pub fn overdue_suspects(&self, now: u64, timeout: u64) -> (ids: Vec<NodeId>)
        requires
            self.wf(),
        ensures
            ids@.no_duplicates(),
            forall|id: NodeId| #[trigger]
                ids@.contains(id) <==> self@.members.contains_key(id) && overdue(
                    self@.members[id],
                    now,
                    timeout,
                ),
    {
        let mut ids: Vec<NodeId> = Vec::new();
        let ghost rows = self.members.rows();
        proof {
            self.members.lemma_rows();
        }
        let mut i: usize = 0;
        let n: usize = self.members.len();
        while i < n
            invariant
                self.wf(),
                n == rows.len(),
                rows == self.members.rows(),
                crate::table::distinct_keys(rows),
                self@.members == crate::table::rows_map(rows),
                i <= n,
                ids@.no_duplicates(),
                forall|id: NodeId| #[trigger]
                    ids@.contains(id) <==> exists|k: int|
                        0 <= k < i && (#[trigger] rows[k]).0 == id && overdue(
                            rows[k].1,
                            now,
                            timeout,
                        ),
            decreases n - i,
        {
            let row = self.members.row(i);
            let is_overdue = match row.1.state {
                MemberState::Suspect => match row.1.suspect_since_ms {
                    Some(since) => now.saturating_sub(since) >= timeout,
                    None => false,
                },
                _ => false,
            };
            let ghost before = ids@;
            if is_overdue {
                ids.push(row.0);
            }
            proof {
                let id_i = rows[i as int].0;
                assert(is_overdue == overdue(rows[i as int].1, now, timeout));
                if before.contains(id_i) {
                    let k = choose|k: int|
                        0 <= k < i && (#[trigger] rows[k]).0 == id_i && overdue(
                            rows[k].1,
                            now,
                            timeout,
                        );
                    assert(rows[k].0 == rows[i as int].0);
                }
                assert forall|id: NodeId| #[trigger] ids@.contains(id) <==> exists|k: int|
                    0 <= k < i + 1 && (#[trigger] rows[k]).0 == id && overdue(
                        rows[k].1,
                        now,
                        timeout,
                    ) by {
                    if before.contains(id) {
                        let p = choose|p: int| 0 <= p < before.len() && before[p] == id;
                        assert(ids@[p] == id);
                        assert(ids@.contains(id));
                    }
                    if is_overdue && id == id_i {
                        assert(ids@[before.len() as int] == id);
                    }
                    if ids@.contains(id) && !before.contains(id) {
                        let p = choose|p: int| 0 <= p < ids@.len() && ids@[p] == id;
                        if p < before.len() {
                            assert(before[p] == id);
                        }
                        assert(rows[i as int].0 == id);
                    }
                }
            }
            i = i + 1;
        }
        proof {
            assert forall|id: NodeId| #[trigger] ids@.contains(id) <==> self@.members.contains_key(id)
                && overdue(self@.members[id], now, timeout) by {
                if ids@.contains(id) {
                    let k = choose|k: int|
                        0 <= k < i && (#[trigger] rows[k]).0 == id && overdue(
                            rows[k].1,
                            now,
                            timeout,
                        );
                    lemma_row_is_entry(rows, k);
                }
                if self@.members.contains_key(id) && overdue(self@.members[id], now, timeout) {
                    let k = lemma_entry_has_row(rows, id);
                    assert(rows[k].0 == id);
                }
            }
        }
        ids
    }

    /// Turns the link to `id`, where there is one, into a tombstone.
    fn bury(&mut self, id: &NodeId, died_ms: u64) -> (was_link: bool)
        requires
            old(self).wf(),
        ensures
            final(self).wf(),
            final(self)@ == buried(old(self)@, *id, died_ms),
            was_link == old(self)@.active.contains_key(*id),
    {
        match self.active.remove(id) {
            Some(state) => {
                let mut gone = state;
                gone.alive = false;
                self.dead.insert(*id, Tombstone { state: gone, died_ms });
                true
            },
            None => {
                assert(self@ =~= old(self)@);
                false
            },
        }
    }

    /// Declares `id` dead. Where it was a warm link, the link becomes a tombstone and a
    /// random backup is handed out to take its place.
    pub fn mark_dead(&mut self, id: &NodeId, now: Now) -> (candidate: Option<PeerAddr>)
        requires
            old(self).wf(),
        ensures
            final(self).wf(),
            final(self)@ == (Overlay {
                passive: final(self)@.passive,
                ..buried(declared_dead(old(self)@, *id, now.wall_ms), *id, now.mono_ms)
            }),
            match candidate {
                Some(c) => old(self)@.active.contains_key(*id) && old(self)@.passive.to_multiset()
                    == final(self)@.passive.to_multiset().insert(c),
                None => final(self)@.passive == old(self)@.passive && (old(self)@.active.contains_key(*id) ==> old(self)@.passive.len() == 0),
            },
    {
        if let Some(m) = self.member(id) {
            let mut next = m;
            let inc: u64 = next.incarnation;
            next.set_liveness(inc, MemberState::Dead, now.wall_ms);
            self.members.insert(*id, next);
            self.dirty.insert(*id, GOSSIP_REPEATS);
        }
        if self.bury(id, now.mono_ms) {
            let candidate = self.draw_passive();
            proof {
                if candidate is None {
                    assert(self@.passive =~= old(self)@.passive);
                }
            }
            candidate
        } else {
            None
        }
    }

    /// Turns every link to a member known to be dead into a tombstone.
    pub fn clear_dead_links(&mut self, died_ms: u64)
        requires
            old(self).wf(),
        ensures
            final(self).wf(),
            final(self)@ == cleared(old(self)@, died_ms),
    {
        let keys = self.active.keys();
        let ghost o = old(self)@;
        let mut i: usize = 0;
        while i < keys.len()
            invariant
                self.wf(),
                i <= keys@.len(),
                keys@.no_duplicates(),
                keys@.to_set() == o.active.dom(),
                self@.members == o.members,
                self@.passive == o.passive,
                self@.dirty == o.dirty,
                forall|id: NodeId| #[trigger]
                    self@.active.contains_key(id) <==> o.active.contains_key(id) && !(corpse(o, id)
                        && keys@.take(i as int).contains(id)),
                forall|id: NodeId|
                    self@.active.contains_key(id) ==> #[trigger] self@.active[id] == o.active[id],
                forall|id: NodeId| #[trigger]
                    self@.dead.contains_key(id) <==> o.dead.contains_key(id) || (corpse(o, id)
                        && keys@.take(i as int).contains(id)),
                forall|id: NodeId|
                    self@.dead.contains_key(id) ==> #[trigger] self@.dead[id] == (if corpse(o, id)
                        && keys@.take(i as int).contains(id) {
                        tombstone(o.active[id], died_ms)
                    } else {
                        o.dead[id]
                    }),
            decreases keys@.len() - i,
        {
            let id = keys[i];
            let ghost done = keys@.take(i as int);
            let ghost next = keys@.take(i + 1);
            proof {
                assert(next =~= done.push(id));
                assert forall|k: NodeId| #[trigger] next.contains(k) <==> done.contains(k) || k == id by {
                    if done.contains(k) {
                        let p = choose|p: int| 0 <= p < done.len() && done[p] == k;
                        assert(next[p] == k);
                    }
                    if k == id {
                        assert(next[i as int] == k);
                    }
                }
                assert(keys@.contains(id));
                assert(keys@.to_set().contains(id));
                if done.contains(id) {
                    let p = choose|p: int| 0 <= p < done.len() && done[p] == id;
                    assert(keys@[p] == keys@[i as int]);
                }
            }
            let is_dead = match self.members.get(&id) {
                Some(m) => m.state == MemberState::Dead,
                None => false,
            };
            if is_dead {
                self.bury(&id, died_ms);
            }
            i = i + 1;
        }
        proof {
            assert(keys@.take(i as int) =~= keys@);
            assert forall|id: NodeId| corpse(o, id) implies #[trigger] keys@.contains(id) by {
                assert(keys@.to_set().contains(id));
            }
            let want = cleared(o, died_ms);
            assert(self@.active =~= want.active);
            assert(self@.dead =~= want.dead);
            assert(self@ =~= want);
        }
    }

    /// The peer `id` answered a probe at `addr`.
    pub fn probe_answered(&mut self, id: &NodeId, addr: &PeerAddr, report: ProbeReport, now: u64)
        requires
            old(self).wf(),
        ensures
            final(self).wf(),
            final(self)@ == answered(old(self)@, *id, *addr, report, now),
    {
        if let Some(state) = self.link(id) {
            self.active.insert(
                *id,
                PeerState {
                    addr: state.addr,
                    alive: true,
                    rtt_us: Some(report.rtt_us),
                    skew_ms: Some(report.skew_ms),
                    last_seen_unix: report.seen_unix,
                    consecutive_failures: 0,
                },
            );
        }
        match self.member(id) {
            Some(m) => {
                let mut next = m;
                next.last_heard_ms = now;
                next.addr = addr.clone();
                if next.state == MemberState::Suspect {
                    let inc: u64 = next.incarnation;
                    next.set_liveness(inc, MemberState::Alive, now);
                }
                self.members.insert(*id, next);
            },
            None => {
                self.members.insert(*id, Member::alive(addr.clone(), now));
                self.dirty.insert(*id, GOSSIP_REPEATS);
            },
        }
    }

    /// A probe of `id` and its retry went unanswered. Says whether the peer has now failed
    /// often enough in a row to have others probe it.
    pub fn probe_unanswered(&mut self, id: &NodeId, threshold: u32) -> (escalate: bool)
        requires
            old(self).wf(),
            old(self)@.active.contains_key(*id) ==> old(self)@.active[*id].consecutive_failures
                < u32::MAX,
        ensures
            final(self).wf(),
            final(self)@ == unanswered(old(self)@, *id),
            escalate == (old(self)@.active.contains_key(*id) && old(self)@.active[*id].consecutive_failures + 1 >= threshold),
    {
        match self.link(id) {
            Some(state) => {
                let failures: u32 = state.consecutive_failures + 1;
                let mut next = state;
                next.consecutive_failures = failures;
                self.active.insert(*id, next);
                failures >= threshold
            },
            None => false,
        }
    }

    /// The peer `id` was heard from.
    pub fn note_heard(&mut self, me: &NodeId, id: &NodeId, now: u64)
        requires
            old(self).wf(),
        ensures
            final(self).wf(),
            final(self)@ == heard(old(self)@, *me, *id, now),
    {
        if id.same(me) {
            return;
        }
        match self.member(id) {
            Some(m) => {
                let mut next = m;
                next.last_heard_ms = now;
                self.members.insert(*id, next);
            },
            None => {
                if let Some(state) = self.link(id) {
                    self.members.insert(*id, Member::alive(state.addr, now));
                    self.dirty.insert(*id, GOSSIP_REPEATS);
                }
            },
        }
    }

    /// What an indirect probe of `id` decides: others reached it, or it comes under
    /// suspicion.
    pub fn probe_escalated(&mut self, me: &NodeId, id: &NodeId, reached: bool, now: u64)
        requires
            old(self).wf(),
        ensures
            final(self).wf(),
            final(self)@ == (if reached {
                vouched(old(self)@, *me, *id, now)
            } else {
                suspected(old(self)@, *id, now)
            }),
    {
        if reached {
            if let Some(state) = self.link(id) {
                let mut next = state;
                next.consecutive_failures = 0;
                self.active.insert(*id, next);
            }
            self.note_heard(me, id, now);
        } else {
            self.suspect(id, now);
        }
    }
}

} // verus!
