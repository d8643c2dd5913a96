//! What operators are shown of links and tombstones.

use crate::bytes::NodeId;
use crate::membership::lifecycle::{elapsed, swim_dead};
use crate::membership::member::MemberState;
use crate::membership::overlay::{Overlay, PeerState, Tombstone, Views};
use crate::table::{lemma_entry_has_row, lemma_row_is_entry};
use vstd::prelude::*;

verus! {

/// Links and tombstones as shown to operators.
#[derive(Debug)]
pub struct Snapshot {
    pub active: Vec<(NodeId, PeerState)>,
    pub dead: Vec<(NodeId, PeerState)>,
    pub passive_count: usize,
}

/// The tombstones that are still to be shown.
pub open spec fn unexpired(dead: Map<NodeId, Tombstone>, now: u64, retention: u64) -> Map<
    NodeId,
    Tombstone,
> {
    Map::new(
        |id: NodeId| dead.contains_key(id) && elapsed(now, dead[id].died_ms) < retention,
        |id: NodeId| dead[id],
    )
}

/// How the dead node `id` is shown: by its tombstone, else by its member record.
pub open spec fn shown_dead(o: Overlay, id: NodeId, state: PeerState) -> bool {
    if o.dead.contains_key(id) {
        state == o.dead[id].state
    } else {
        swim_dead(o, id) && state == PeerState::unprobed(o.members[id].addr)
    }
}

/// `rows` shows each node once, and exactly those that `shown` holds of.
pub open spec fn shows_exactly(
    rows: Seq<(NodeId, PeerState)>,
    shown: spec_fn(NodeId, PeerState) -> bool,
) -> bool {
    &&& crate::table::distinct_keys(rows)
    &&& forall|id: NodeId, state: PeerState| #[trigger]
        rows.contains((id, state)) <==> shown(id, state)
}

proof fn lemma_push_shown(
    before: Seq<(NodeId, PeerState)>,
    row: (NodeId, PeerState),
    x: (NodeId, PeerState),
)
    ensures
        before.push(row).contains(x) <==> before.contains(x) || x == row,
{
    let after = before.push(row);
    if before.contains(x) {
        let p = choose|p: int| 0 <= p < before.len() && before[p] == x;
        assert(after[p] == x);
    }
    if x == row {
        assert(after[before.len() as int] == x);
    }
    if after.contains(x) && x != row {
        let p = choose|p: int| 0 <= p < after.len() && after[p] == x;
        assert(before[p] == x);
    }
}

impl Views {
    /// Drops tombstones older than `retention`.
    pub fn expire_tombstones(&mut self, now: u64, retention: u64)
        requires
            old(self).wf(),
        ensures
            final(self).wf(),
            final(self)@ == (Overlay {
                dead: unexpired(old(self)@.dead, now, retention),
                ..old(self)@
            }),
    {
        let keys = self.dead.keys();
        let ghost o = old(self)@;
        let mut i: usize = 0;
        while i < keys.len()
            invariant
                self.wf(),
                i <= keys@.len(),
                keys@.to_set() == o.dead.dom(),
                self@ == (Overlay { dead: self@.dead, ..o }),
                forall|id: NodeId| #[trigger]
                    self@.dead.contains_key(id) <==> o.dead.contains_key(id) && (elapsed(
                        now,
                        o.dead[id].died_ms,
                    ) < retention || !keys@.take(i as int).contains(id)),
                forall|id: NodeId|
                    self@.dead.contains_key(id) ==> #[trigger] self@.dead[id] == o.dead[id],
            decreases keys@.len() - i,
        {
            let id = keys[i];
            let ghost done = keys@.take(i as int);
            let ghost next = keys@.take(i + 1);
            proof {
                assert(next =~= done.push(id));
                assert forall|k: NodeId| #[trigger] next.contains(k) <==> done.contains(k) || k == id by {
                    if done.contains(k) {
                        let p = choose|p: int| 0 <= p < done.len() && done[p] == k;
                        assert(next[p] == k);
                    }
                    if k == id {
                        assert(next[i as int] == k);
                    }
                }
                assert(keys@.contains(id));
                assert(keys@.to_set().contains(id));
                assert(o.dead.contains_key(id));
            }
            let expired = match self.dead.get(&id) {
                Some(t) => now.saturating_sub(t.died_ms) >= retention,
                None => false,
            };
            if expired {
                let _ = self.dead.remove(&id);
            }
            i = i + 1;
        }
        proof {
            assert(keys@.take(i as int) =~= keys@);
            assert forall|id: NodeId| o.dead.contains_key(id) implies #[trigger] keys@.contains(id) by {
                assert(keys@.to_set().contains(id));
            }
            assert(self@.dead =~= unexpired(o.dead, now, retention));
        }
    }

    /// Whether `id` is a member known to be dead.
    pub fn is_swim_dead(&self, id: &NodeId) -> (dead: bool)
        requires
            self.wf(),
        ensures
            dead == swim_dead(self@, *id),
    {
        match self.members.get(id) {
            Some(m) => m.state == MemberState::Dead,
            None => false,
        }
    }

    /// The links and tombstones to show. A link to a member known to be dead is not shown
    /// as a link; a member known to be dead is shown as dead even without a tombstone.
    /// Tombstones older than `retention` are dropped first.
    pub fn snapshot(&mut self, now: u64, retention: u64) -> (shot: Snapshot)
        requires
            old(self).wf(),
        ensures
            final(self).wf(),
            final(self)@ == (Overlay {
                dead: unexpired(old(self)@.dead, now, retention),
                ..old(self)@
            }),
            shows_exactly(
                shot.active@,
                |id: NodeId, state: PeerState|
                    final(self)@.active.contains_key(id) && state == final(self)@.active[id]
                        && !swim_dead(final(self)@, id),
            ),
            shows_exactly(
                shot.dead@,
                |id: NodeId, state: PeerState| shown_dead(final(self)@, id, state),
            ),
            shot.passive_count == old(self)@.passive.len(),
    {
        self.expire_tombstones(now, retention);
        let active = self.shown_links();
        let dead = self.shown_tombstones();
        Snapshot { active, dead, passive_count: self.passive.len() }
    }

    fn shown_links(&self) -> (rows: Vec<(NodeId, PeerState)>)
        requires
            self.wf(),
        ensures
            shows_exactly(
                rows@,
                |id: NodeId, state: PeerState|
                    self@.active.contains_key(id) && state == self@.active[id] && !swim_dead(
                        self@,
                        id,
                    ),
            ),
    {
        let ghost table = self.active.rows();
        proof {
            self.active.lemma_rows();
        }
        let mut out: Vec<(NodeId, PeerState)> = Vec::new();
        let n: usize = self.active.len();
        let mut i: usize = 0;
        while i < n
            invariant
                self.wf(),
                n == table.len(),
                table == self.active.rows(),
                crate::table::distinct_keys(table),
                i <= n,
                crate::table::distinct_keys(out@),
                forall|id: NodeId, state: PeerState| #[trigger]
                    out@.contains((id, state)) <==> !swim_dead(self@, id) && exists|k: int|
                        0 <= k < i && #[trigger] table[k] == (id, state),
            decreases n - i,
        {
            let row = self.active.row(i);
            let ghost before = out@;
            let dead = self.is_swim_dead(&row.0);
            if !dead {
                out.push((row.0, row.1.clone()));
            }
            proof {
                let here = table[i as int];
                assert forall|a: int, b: int|
                    #![trigger out@[a], out@[b]]
                    0 <= a < out@.len() && 0 <= b < out@.len() && out@[a].0 == out@[b].0 implies a
                    == b by {
                    if a < before.len() && b < before.len() {
                        assert(before[a].0 == before[b].0);
                    } else if a < before.len() || b < before.len() {
                        let c = if a < before.len() { a } else { b };
                        assert(before.contains((before[c].0, before[c].1)));
                        let k = choose|k: int|
                            0 <= k < i && #[trigger] table[k] == (before[c].0, before[c].1);
                        assert(table[k].0 == table[i as int].0);
                    }
                }
                assert forall|id: NodeId, state: PeerState| #[trigger]
                    out@.contains((id, state)) <==> !swim_dead(self@, id) && exists|k: int|
                    0 <= k < i + 1 && #[trigger] table[k] == (id, state) by {
                    let x = (id, state);
                    if !dead {
                        lemma_push_shown(before, here, x);
                    }
                    if before.contains(x) {
                        let k = choose|k: int| 0 <= k < i && #[trigger] table[k] == x;
                        assert(table[k] == x);
                    }
                    if x == here {
                        assert(table[i as int] == x);
                    }
                    if exists|k: int| 0 <= k < i + 1 && #[trigger] table[k] == x {
                        let k = choose|k: int| 0 <= k < i + 1 && #[trigger] table[k] == x;
                        if k < i && !swim_dead(self@, id) {
                            assert(before.contains((id, state)));
                        }
                    }
                }
            }
            i = i + 1;
        }
        proof {
            assert forall|id: NodeId, state: PeerState| #[trigger] out@.contains((id, state)) <==> (
            self@.active.contains_key(id) && state == self@.active[id] && !swim_dead(self@, id)) by {
                if out@.contains((id, state)) {
                    let k = choose|k: int| 0 <= k < i && #[trigger] table[k] == (id, state);
                    lemma_row_is_entry(table, k);
                }
                if self@.active.contains_key(id) && state == self@.active[id] {
                    let k = lemma_entry_has_row(table, id);
                    assert(table[k] == (id, state));
                }
            }
        }
        out
    }

    fn shown_tombstones(&self) -> (rows: Vec<(NodeId, PeerState)>)
        requires
            self.wf(),
        ensures
            shows_exactly(
                rows@,
                |id: NodeId, state: PeerState| shown_dead(self@, id, state),
            ),
    {
        let ghost table = self.dead.rows();
        let ghost mtable = self.members.rows();
        proof {
            self.dead.lemma_rows();
            self.members.lemma_rows();
        }
        let mut out: Vec<(NodeId, PeerState)> = Vec::new();
        let n: usize = self.dead.len();
        let mut i: usize = 0;
        while i < n
            invariant
                self.wf(),
                n == table.len(),
                table == self.dead.rows(),
                i <= n,
                out@.len() == i,
                forall|k: int|
                    0 <= k < i ==> #[trigger] out@[k] == (table[k].0, table[k].1.state),
            decreases n - i,
        {
            let row = self.dead.row(i);
            out.push((row.0, row.1.state.clone()));
            i = i + 1;
        }
        proof {
            assert forall|a: int, b: int|
                #![trigger out@[a], out@[b]]
                0 <= a < out@.len() && 0 <= b < out@.len() && out@[a].0 == out@[b].0 implies a == b by {
                assert(table[a].0 == table[b].0);
            }
            assert forall|id: NodeId, state: PeerState| #[trigger] out@.contains((id, state)) <==> (
            self@.dead.contains_key(id) && state == self@.dead[id].state) by {
                if out@.contains((id, state)) {
                    let k = choose|k: int| 0 <= k < out@.len() && out@[k] == (id, state);
                    lemma_row_is_entry(table, k);
                }
                if self@.dead.contains_key(id) && state == self@.dead[id].state {
                    let k = lemma_entry_has_row(table, id);
                    assert(out@[k] == (id, state));
                }
            }
        }
        let m: usize = self.members.len();
        let mut j: usize = 0;
        while j < m
            invariant
                self.wf(),
                m == mtable.len(),
                mtable == self.members.rows(),
                crate::table::distinct_keys(mtable),
                self@.members == crate::table::rows_map(mtable),
                j <= m,
                crate::table::distinct_keys(out@),
                forall|id: NodeId, state: PeerState| #[trigger]
                    out@.contains((id, state)) <==> (self@.dead.contains_key(id) && state
                        == self@.dead[id].state) || (!self@.dead.contains_key(id) && swim_dead(
                        self@,
                        id,
                    ) && state == PeerState::unprobed(self@.members[id].addr) && exists|k: int|
                        0 <= k < j && (#[trigger] mtable[k]).0 == id),
            decreases m - j,
        {
            let row = self.members.row(j);
            let ghost before = out@;
            let ghost here = mtable[j as int];
            proof {
                lemma_row_is_entry(mtable, j as int);
            }
            let add = row.1.state == MemberState::Dead && !self.dead.contains(&row.0);
            if add {
                out.push((row.0, PeerState::new(row.1.addr.clone())));
            }
            proof {
                assert(add == (swim_dead(self@, here.0) && !self@.dead.contains_key(here.0)));
                let new_row = (here.0, PeerState::unprobed(here.1.addr));
                assert forall|a: int, b: int|
                    #![trigger out@[a], out@[b]]
                    0 <= a < out@.len() && 0 <= b < out@.len() && out@[a].0 == out@[b].0 implies a
                    == b by {
                    if a < before.len() && b < before.len() {
                        assert(before[a].0 == before[b].0);
                    } else if a < before.len() || b < before.len() {
                        let c = if a < before.len() { a } else { b };
                        assert(before.contains((before[c].0, before[c].1)));
                        let k = choose|k: int| 0 <= k < j && (#[trigger] mtable[k]).0 == before[c].0;
                        assert(mtable[k].0 == mtable[j as int].0);
                    }
                }
                assert forall|id: NodeId, state: PeerState| #[trigger]
                    out@.contains((id, state)) <==> (self@.dead.contains_key(id) && state
                    == self@.dead[id].state) || (!self@.dead.contains_key(id) && swim_dead(
                    self@,
                    id,
                ) && state == PeerState::unprobed(self@.members[id].addr) && exists|k: int|
                    0 <= k < j + 1 && (#[trigger] mtable[k]).0 == id) by {
                    let x = (id, state);
                    if add {
                        lemma_push_shown(before, new_row, x);
                    }
                    if id == here.0 {
                        assert(mtable[j as int].0 == id);
                    }
                    if before.contains((id, state)) && !self@.dead.contains_key(id) {
                        let k = choose|k: int| 0 <= k < j && (#[trigger] mtable[k]).0 == id;
                        assert(mtable[k].0 == id);
                    }
                    if exists|k: int| 0 <= k < j + 1 && (#[trigger] mtable[k]).0 == id {
                        let k = choose|k: int| 0 <= k < j + 1 && (#[trigger] mtable[k]).0 == id;
                        if k < j {
                            assert(exists|k: int| 0 <= k < j && (#[trigger] mtable[k]).0 == id);
                        }
                    }
                }
            }
            j = j + 1;
        }
        proof {
            assert forall|id: NodeId, state: PeerState| #[trigger] out@.contains((id, state))
                <==> shown_dead(self@, id, state) by {
                if swim_dead(self@, id) {
                    let k = lemma_entry_has_row(mtable, id);
                    assert(mtable[k].0 == id);
                }
            }
        }
        out
    }
}

} // verus!
