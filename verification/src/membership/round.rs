//! The periodic work of a node: burying what died, filling the active view, getting out
//! of isolation, probing links, gossiping news, and mixing backups.

use crate::bytes::NodeId;
use crate::membership::census::{are_helpers, can_help, member_addrs, picks_helpers};
use crate::membership::handler::Message;
use crate::membership::lifecycle::{
    answered, buried, cleared, declared_dead, elapsed, overdue, suspected, unanswered, vouched,
    Now, ProbeReport,
};
use crate::membership::member::PeerAddr;
use crate::membership::node::{Membership, RECOVER_INTERVAL_MS};
use crate::membership::overlay::Overlay;
use crate::random::choose_one;
use vstd::prelude::*;

verus! {

/// Where a probe round stands.
#[derive(Debug)]
pub enum Stage {
    /// Suspects that are overdue, still to be declared dead.
    Bury(Vec<NodeId>),
    /// Filling the active view from the backups.
    Fill,
    /// Looking whether anybody is left.
    Isolation,
    /// Isolated; a seed was perhaps dialled.
    Wedge,
    AwaitRebind,
    /// Links still to be probed.
    Probe(Vec<(NodeId, PeerAddr)>),
    AwaitProbe(NodeId, PeerAddr, Vec<(NodeId, PeerAddr)>),
    AwaitHelp(NodeId, Vec<(NodeId, PeerAddr)>),
    Finished,
}

/// What happened since the last step.
#[derive(Debug)]
pub enum Event {
    /// Nothing that the round waits for; go on.
    Go,
    /// The endpoint was rebound, or could not be.
    Rebound(bool),
    /// The probe and its retry: what was answered, if anything.
    Probed(Option<ProbeReport>),
    /// Whether some helper reached the target.
    Helped(bool),
}

/// What to do on the network before the next step.
#[derive(Debug)]
pub enum Task {
    /// Nothing; take the next step.
    Continue,
    /// Ask this backup for a link.
    Promote(PeerAddr),
    /// Join the network through this seed.
    Join(PeerAddr),
    /// Rebind the endpoint.
    Rebind,
    /// Probe this link, with one retry.
    Probe(PeerAddr),
    /// Ask the helpers to probe the target.
    AskHelpers { helpers: Vec<PeerAddr>, request: Message },
    /// The round is over.
    Finish,
}

/// `targets` are the links of `o`, each once, at its address.
pub open spec fn are_targets(o: Overlay, targets: Seq<(NodeId, PeerAddr)>) -> bool {
    &&& forall|i: int, j: int|
        0 <= i < targets.len() && 0 <= j < targets.len() && (#[trigger] targets[i]).0 == (
        #[trigger] targets[j]).0 ==> i == j
    &&& forall|id: NodeId, a: PeerAddr| #[trigger]
        targets.contains((id, a)) <==> o.active.contains_key(id) && o.active[id].addr == a
}

/// Declaring `id` dead leads from `before` to `after`. Where it was a link, a backup is
/// drawn to take its place, unless there is none.
pub open spec fn laid_to_rest(
    before: Membership,
    id: NodeId,
    now: Now,
    after: Membership,
    candidate: Option<PeerAddr>,
) -> bool {
    let o = before.views@;
    &&& after.same_but_views(before)
    &&& after.views@ == (Overlay {
        passive: after.views@.passive,
        ..buried(declared_dead(o, id, now.wall_ms), id, now.mono_ms)
    })
    &&& match candidate {
        Some(c) => o.active.contains_key(id) && o.passive.to_multiset()
            == after.views@.passive.to_multiset().insert(c),
        None => after.views@.passive == o.passive && (o.active.contains_key(id) ==> o.passive.len()
            == 0),
    }
}

/// There is room for a link and a backup to fill it.
pub open spec fn can_fill(node: Membership) -> bool {
    node.views@.active.dom().len() < node.cfg.active_size && node.views@.passive.len() > 0
}

/// Drawing the backup `c` leads from `before` to `after`.
pub open spec fn drew(before: Membership, c: PeerAddr, after: Membership) -> bool {
    &&& after.same_but_views(before)
    &&& after.views@ == (Overlay { passive: after.views@.passive, ..before.views@ })
    &&& before.views@.passive.to_multiset() == after.views@.passive.to_multiset().insert(c)
}

/// A seed may be dialled again.
pub open spec fn may_recover(node: Membership, now: u64) -> bool {
    elapsed(now, node.last_recover_ms) >= RECOVER_INTERVAL_MS
}

/// `a` is a seed other than the node itself.
pub open spec fn is_seed(node: Membership, a: PeerAddr) -> bool {
    node.bootstrap@.contains(a) && a.id != node.me.id
}

/// Recovery from isolation: at most once per interval, one random seed is dialled.
pub open spec fn recovered(
    before: Membership,
    now: u64,
    after: Membership,
    seed: Option<PeerAddr>,
) -> bool {
    &&& after == (Membership {
        last_recover_ms: if may_recover(before, now) {
            now
        } else {
            before.last_recover_ms
        },
        ..before
    })
    &&& match seed {
        Some(a) => may_recover(before, now) && is_seed(before, a),
        None => may_recover(before, now) ==> forall|a: PeerAddr| !#[trigger] is_seed(before, a),
    }
}

/// Isolation has outlasted the time in which dialling seeds should have ended it.
pub open spec fn wedged(node: Membership, now: u64) -> bool {
    node.bootstrap@.len() > 0 && node.isolated_since_ms != 0 && elapsed(
        now,
        node.isolated_since_ms,
    ) >= node.cfg.wedge_rebind_ms
}

/// The watchdog: the first isolated round starts its clock, and each time the clock has
/// run out it is started anew and the endpoint is to be rebound. A node without seeds is
/// left alone.
pub open spec fn watched(before: Membership, now: u64) -> Membership {
    if before.bootstrap@.len() > 0 && (before.isolated_since_ms == 0 || wedged(before, now)) {
        Membership { isolated_since_ms: now, ..before }
    } else {
        before
    }
}

/// What one step of a probe round comes to.
pub open spec fn stepped(
    before: Membership,
    stage: Stage,
    event: Event,
    now: Now,
    after: Membership,
    next: Stage,
    task: Task,
) -> bool {
    match (stage, event) {
        (Stage::Bury(ids), Event::Go) => if ids@.len() == 0 {
            &&& after.same_but_views(before)
            &&& after.views@ == cleared(before.views@, now.mono_ms)
            &&& next == Stage::Fill
            &&& task == Task::Continue
        } else {
            &&& next matches Stage::Bury(rest) && rest@ == ids@.skip(1)
            &&& match task {
                Task::Promote(c) => laid_to_rest(before, ids@[0], now, after, Some(c)),
                Task::Continue => laid_to_rest(before, ids@[0], now, after, None),
                _ => false,
            }
        },
        (Stage::Fill, Event::Go) => if can_fill(before) {
            &&& next == Stage::Fill
            &&& task matches Task::Promote(c) && drew(before, c, after)
        } else {
            &&& after == before
            &&& next == Stage::Isolation
            &&& task == Task::Continue
        },
        (Stage::Isolation, Event::Go) => if before.views@.active.dom().len() == 0 {
            &&& next == Stage::Wedge
            &&& match task {
                Task::Join(seed) => recovered(before, now.wall_ms, after, Some(seed)),
                Task::Continue => recovered(before, now.wall_ms, after, None),
                _ => false,
            }
        } else {
            &&& after == (Membership { isolated_since_ms: 0, ..before })
            &&& next matches Stage::Probe(targets) && are_targets(before.views@, targets@)
            &&& task == Task::Continue
        },
        (Stage::Wedge, Event::Go) => {
            &&& after == watched(before, now.wall_ms)
            &&& if wedged(before, now.wall_ms) {
                next == Stage::AwaitRebind && task == Task::Rebind
            } else {
                &&& next matches Stage::Probe(targets) && are_targets(before.views@, targets@)
                &&& task == Task::Continue
            }
        },
        (Stage::AwaitRebind, Event::Rebound(ok)) => {
            &&& after == (if ok {
                Membership { last_recover_ms: 0, ..before }
            } else {
                before
            })
            &&& next matches Stage::Probe(targets) && are_targets(before.views@, targets@)
            &&& task == Task::Continue
        },
        (Stage::Probe(targets), Event::Go) => {
            &&& after == before
            &&& if targets@.len() == 0 {
                next == Stage::Finished && task == Task::Finish
            } else {
                &&& next matches Stage::AwaitProbe(id, addr, rest) && (id, addr) == targets@[0]
                    && rest@ == targets@.skip(1)
                &&& task == Task::Probe(targets@[0].1)
            }
        },
        (Stage::AwaitProbe(id, addr, rest), Event::Probed(Some(report))) => {
            &&& after.same_but_views(before)
            &&& after.views@ == answered(before.views@, id, addr, report, now.wall_ms)
            &&& next == Stage::Probe(rest)
            &&& task == Task::Continue
        },
        (Stage::AwaitProbe(id, addr, rest), Event::Probed(None)) => {
            let counted = unanswered(before.views@, id);
            let escalate = before.views@.active.contains_key(id)
                && counted.active[id].consecutive_failures >= before.cfg.probe_failures;
            &&& after.same_but_views(before)
            &&& if !escalate {
                &&& after.views@ == counted
                &&& next == Stage::Probe(rest)
                &&& task == Task::Continue
            } else {
                match task {
                    Task::AskHelpers { helpers, request } => {
                        &&& after.views@ == counted
                        &&& next == Stage::AwaitHelp(id, rest)
                        &&& request == (Message::PingReq {
                            target_id: id,
                            target_addr: Some(addr),
                        })
                        &&& helpers@.len() > 0
                        &&& are_helpers(
                            before.views@,
                            before.me.id,
                            id,
                            before.cfg.indirect_probes as nat,
                            helpers@,
                        )
                    },
                    Task::Continue => {
                        &&& after.views@ == suspected(counted, id, now.wall_ms)
                        &&& next == Stage::Probe(rest)
                        &&& before.cfg.indirect_probes == 0 || forall|h: NodeId| !#[trigger]
                            can_help(before.views@, before.me.id, id, h)
                    },
                    _ => false,
                }
            }
        },
        (Stage::AwaitHelp(id, rest), Event::Helped(reached)) => {
            &&& after.same_but_views(before)
            &&& after.views@ == (if reached {
                vouched(before.views@, before.me.id, id, now.wall_ms)
            } else {
                suspected(before.views@, id, now.wall_ms)
            })
            &&& next == Stage::Probe(rest)
            &&& task == Task::Continue
        },
        (Stage::Finished, _) => after == before && next == stage && task == Task::Finish,
        _ => after == before && next == stage && task == Task::Continue,
    }
}

/// The count of failures in a row can still go up for the link that is being probed.
pub open spec fn countable(node: Membership, stage: Stage) -> bool {
    match stage {
        Stage::AwaitProbe(id, _, _) => node.views@.active.contains_key(id)
            ==> node.views@.active[id].consecutive_failures < u32::MAX,
        _ => true,
    }
}

impl Membership {
    /// The links, each once, at its address.
    pub fn probe_targets(&self) -> (targets: Vec<(NodeId, PeerAddr)>)
        requires
            self.wf(),
        ensures
            are_targets(self.views@, targets@),
    {
        let ghost rows = self.views.active.rows();
        proof {
            self.views.active.lemma_rows();
        }
        let mut out: Vec<(NodeId, PeerAddr)> = Vec::new();
        let n: usize = self.views.active.len();
        let mut i: usize = 0;
        while i < n
            invariant
                self.wf(),
                n == rows.len(),
                rows == self.views.active.rows(),
                i <= n,
                out@.len() == i,
                forall|k: int| 0 <= k < i ==> #[trigger] out@[k] == (rows[k].0, rows[k].1.addr),
            decreases n - i,
        {
            let row = self.views.active.row(i);
            out.push((row.0, row.1.addr.clone()));
            i = i + 1;
        }
        proof {
            assert forall|a: int, b: int|
                0 <= a < out@.len() && 0 <= b < out@.len() && (#[trigger] out@[a]).0 == (
                #[trigger] out@[b]).0 implies a == b by {
                assert(rows[a].0 == rows[b].0);
            }
            assert forall|id: NodeId, a: PeerAddr| #[trigger] out@.contains((id, a)) <==> (
            self.views@.active.contains_key(id) && self.views@.active[id].addr == a) by {
                if out@.contains((id, a)) {
                    let k = choose|k: int| 0 <= k < out@.len() && out@[k] == (id, a);
                    crate::table::lemma_row_is_entry(rows, k);
                }
                if self.views@.active.contains_key(id) && self.views@.active[id].addr == a {
                    let k = crate::table::lemma_entry_has_row(rows, id);
                    assert(out@[k] == (id, a));
                }
            }
        }
        out
    }

    /// Declares `id` dead, and draws a backup to take the place of its link.
    pub fn mark_dead(&mut self, id: &NodeId, now: Now) -> (candidate: Option<PeerAddr>)
        requires
            old(self).wf(),
        ensures
            final(self).wf(),
            laid_to_rest(*old(self), *id, now, *final(self), candidate),
    {
        self.views.mark_dead(id, now)
    }

    /// Draws a backup while there is room for a link.
    pub fn next_candidate(&mut self) -> (candidate: Option<PeerAddr>)
        requires
            old(self).wf(),
        ensures
            final(self).wf(),
            match candidate {
                Some(c) => can_fill(*old(self)) && drew(*old(self), c, *final(self)),
                None => !can_fill(*old(self)) && *final(self) == *old(self),
            },
    {
        if self.views.active.len() >= self.cfg.active_size || self.views.passive.len() == 0 {
            return None;
        }
        self.views.draw_passive()
    }

    /// Picks a seed to dial, at most once per interval.
    pub fn recover_isolated(&mut self, now: u64) -> (seed: Option<PeerAddr>)
        requires
            old(self).wf(),
        ensures
            final(self).wf(),
            recovered(*old(self), now, *final(self), seed),
    {
        if now.saturating_sub(self.last_recover_ms) < RECOVER_INTERVAL_MS {
            return None;
        }
        self.last_recover_ms = now;
        let mut seeds: Vec<PeerAddr> = Vec::new();
        let mut i: usize = 0;
        while i < self.bootstrap.len()
            invariant
                i <= self.bootstrap@.len(),
                forall|a: PeerAddr| #[trigger]
                    seeds@.contains(a) <==> a.id != self.me.id && exists|k: int|
                        0 <= k < i && #[trigger] self.bootstrap@[k] == a,
            decreases self.bootstrap@.len() - i,
        {
            let ghost before = seeds@;
            let own = self.bootstrap[i].id.same(&self.me.id);
            if !own {
                seeds.push(self.bootstrap[i].clone());
            }
            proof {
                let here = self.bootstrap@[i as int];
                assert forall|a: PeerAddr| #[trigger] seeds@.contains(a) <==> a.id != self.me.id
                    && exists|k: int| 0 <= k < i + 1 && #[trigger] self.bootstrap@[k] == a by {
                    if before.contains(a) {
                        let p = choose|p: int| 0 <= p < before.len() && before[p] == a;
                        assert(seeds@[p] == a);
                        let k = choose|k: int| 0 <= k < i && #[trigger] self.bootstrap@[k] == a;
                        assert(self.bootstrap@[k] == a);
                    }
                    if seeds@.contains(a) && !before.contains(a) {
                        let p = choose|p: int| 0 <= p < seeds@.len() && seeds@[p] == a;
                        if p < before.len() {
                            assert(before[p] == a);
                        }
                        assert(self.bootstrap@[i as int] == a);
                    }
                    if a.id != self.me.id && exists|k: int|
                        0 <= k < i + 1 && #[trigger] self.bootstrap@[k] == a {
                        let k = choose|k: int| 0 <= k < i + 1 && #[trigger] self.bootstrap@[k] == a;
                        if k < i {
                            assert(before.contains(a));
                        } else {
                            assert(seeds@[before.len() as int] == a);
                        }
                    }
                }
            }
            i = i + 1;
        }
        let seed: Option<PeerAddr> = match choose_one(seeds.as_slice()) {
            Some(a) => Some(a.clone()),
            None => None,
        };
        proof {
            if seed is Some {
                let a = seed->0;
                let k = choose|k: int| 0 <= k < i && #[trigger] self.bootstrap@[k] == a;
                assert(self.bootstrap@.contains(a));
            } else {
                assert forall|a: PeerAddr| !#[trigger] is_seed(*old(self), a) by {
                    if is_seed(*old(self), a) {
                        let k = choose|k: int|
                            0 <= k < self.bootstrap@.len() && self.bootstrap@[k] == a;
                        assert(self.bootstrap@[k] == a);
                        assert(seeds@.contains(a));
                    }
                }
            }
        }
        seed
    }

    /// The watchdog of an isolated node: says whether to rebind the endpoint.
    pub fn maybe_rebind_wedged(&mut self, now: u64) -> (rebind: bool)
        requires
            old(self).wf(),
        ensures
            final(self).wf(),
            *final(self) == watched(*old(self), now),
            rebind == wedged(*old(self), now),
    {
        if self.bootstrap.len() == 0 {
            return false;
        }
        if self.isolated_since_ms == 0 {
            self.isolated_since_ms = now;
            return false;
        }
        if now.saturating_sub(self.isolated_since_ms) < self.cfg.wedge_rebind_ms {
            return false;
        }
        self.isolated_since_ms = now;
        true
    }

    /// Starts a probe round: the suspects that are overdue are declared dead first.
    pub fn begin_round(&self, now: u64) -> (stage: Stage)
        requires
            self.wf(),
        ensures
            stage matches Stage::Bury(ids) && ids@.no_duplicates() && forall|id: NodeId| #[trigger]
                ids@.contains(id) <==> self.views@.members.contains_key(id) && overdue(
                    self.views@.members[id],
                    now,
                    self.cfg.suspect_timeout_ms,
                ),
    {
        Stage::Bury(self.views.overdue_suspects(now, self.cfg.suspect_timeout_ms))
    }

    /// Takes one step of a probe round.
    pub fn step(&mut self, stage: Stage, event: Event, now: Now) -> (out: (Stage, Task))
        requires
            old(self).wf(),
            countable(*old(self), stage),
        ensures
            final(self).wf(),
            stepped(*old(self), stage, event, now, *final(self), out.0, out.1),
    {
        match (stage, event) {
            (Stage::Bury(ids), Event::Go) => {
                if ids.len() == 0 {
                    self.views.clear_dead_links(now.mono_ms);
                    (Stage::Fill, Task::Continue)
                } else {
                    let mut rest = ids;
                    let id = rest.remove(0);
                    assert(rest@ =~= ids@.skip(1));
                    match self.mark_dead(&id, now) {
                        Some(c) => (Stage::Bury(rest), Task::Promote(c)),
                        None => (Stage::Bury(rest), Task::Continue),
                    }
                }
            },
            (Stage::Fill, Event::Go) => {
                match self.next_candidate() {
                    Some(c) => (Stage::Fill, Task::Promote(c)),
                    None => (Stage::Isolation, Task::Continue),
                }
            },
            (Stage::Isolation, Event::Go) => {
                if self.views.active.len() == 0 {
                    match self.recover_isolated(now.wall_ms) {
                        Some(seed) => (Stage::Wedge, Task::Join(seed)),
                        None => (Stage::Wedge, Task::Continue),
                    }
                } else {
                    self.isolated_since_ms = 0;
                    (Stage::Probe(self.probe_targets()), Task::Continue)
                }
            },
            (Stage::Wedge, Event::Go) => {
                if self.maybe_rebind_wedged(now.wall_ms) {
                    (Stage::AwaitRebind, Task::Rebind)
                } else {
                    (Stage::Probe(self.probe_targets()), Task::Continue)
                }
            },
            (Stage::AwaitRebind, Event::Rebound(ok)) => {
                if ok {
                    self.last_recover_ms = 0;
                }
                (Stage::Probe(self.probe_targets()), Task::Continue)
            },
            (Stage::Probe(targets), Event::Go) => {
                if targets.len() == 0 {
                    (Stage::Finished, Task::Finish)
                } else {
                    let mut rest = targets;
                    let (id, addr) = rest.remove(0);
                    assert(rest@ =~= targets@.skip(1));
                    let ask = addr.clone();
                    (Stage::AwaitProbe(id, addr, rest), Task::Probe(ask))
                }
            },
            (Stage::AwaitProbe(id, addr, rest), Event::Probed(Some(report))) => {
                self.views.probe_answered(&id, &addr, report, now.wall_ms);
                (Stage::Probe(rest), Task::Continue)
            },
            (Stage::AwaitProbe(id, addr, rest), Event::Probed(None)) => {
                if !self.views.probe_unanswered(&id, self.cfg.probe_failures) {
                    return (Stage::Probe(rest), Task::Continue);
                }
                let helpers = if self.cfg.indirect_probes == 0 {
                    Vec::new()
                } else {
                    self.views.probe_helpers(&self.me.id, &id, self.cfg.indirect_probes)
                };
                proof {
                    if self.cfg.indirect_probes > 0 {
                        let k = self.cfg.indirect_probes as nat;
                        let ids = choose|ids: Seq<NodeId>| #[trigger]
                            picks_helpers(self.views@, self.me.id, id, k, ids) && helpers@
                                == member_addrs(self.views@, ids);
                        assert(helpers@ =~= member_addrs(old(self).views@, ids));
                        assert forall|h: NodeId| #[trigger]
                            can_help(old(self).views@, self.me.id, id, h) implies can_help(
                            self.views@,
                            self.me.id,
                            id,
                            h,
                        ) by {}
                        assert forall|i: int| 0 <= i < ids.len() implies can_help(
                            old(self).views@,
                            self.me.id,
                            id,
                            #[trigger] ids[i],
                        ) by {
                            assert(can_help(self.views@, self.me.id, id, ids[i]));
                        }
                        assert(picks_helpers(old(self).views@, self.me.id, id, k, ids));
                    }
                }
                if helpers.len() == 0 {
                    self.views.probe_escalated(&self.me.id, &id, false, now.wall_ms);
                    (Stage::Probe(rest), Task::Continue)
                } else {
                    let request = Message::PingReq { target_id: id, target_addr: Some(addr) };
                    (Stage::AwaitHelp(id, rest), Task::AskHelpers { helpers, request })
                }
            },
            (Stage::AwaitHelp(id, rest), Event::Helped(reached)) => {
                self.views.probe_escalated(&self.me.id, &id, reached, now.wall_ms);
                (Stage::Probe(rest), Task::Continue)
            },
            (Stage::Finished, _) => (Stage::Finished, Task::Finish),
            (other, _) => (other, Task::Continue),
        }
    }
}

} // verus!
