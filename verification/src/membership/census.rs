//! Who counts as a member: the censuses that elections and placement run over, and the
//! digest by which two nodes see that theirs agree.

use crate::bytes::NodeId;
use crate::membership::lifecycle::{elapsed, pruned};
use crate::membership::member::{entry_of, member_entry, Member, MemberEntry, MemberState, PeerAddr};
use crate::membership::overlay::{Overlay, Views};
use crate::random::{lemma_same_items, shuffle};
use crate::table::{kept, lemma_kept, lemma_kept_names, lemma_kept_step, names_of};
use vstd::prelude::*;

verus! {

/// The member belongs to the election census: not dead, and not silent for `retention`.
pub open spec fn counted(m: Member, now: u64, retention: u64) -> bool {
    m.state != MemberState::Dead && elapsed(now, m.last_heard_ms) < retention
}

/// The member belongs to the liveness census: alive, and not silent for `retention`.
pub open spec fn live(m: Member, now: u64, retention: u64) -> bool {
    m.state == MemberState::Alive && elapsed(now, m.last_heard_ms) < retention
}

/// `listing` names each node once, self first, and beside self exactly the members that
/// `keep` holds of, each at its own address.
pub open spec fn lists_exactly(
    listing: Seq<(NodeId, PeerAddr)>,
    me: PeerAddr,
    members: Map<NodeId, Member>,
    keep: spec_fn(NodeId, Member) -> bool,
) -> bool {
    &&& listing.len() > 0
    &&& listing[0] == (me.id, me)
    &&& forall|i: int, j: int|
        0 <= i < listing.len() && 0 <= j < listing.len() && (#[trigger] listing[i]).0 == (
        #[trigger] listing[j]).0 ==> i == j
    &&& forall|id: NodeId, addr: PeerAddr| #[trigger]
        listing.contains((id, addr)) <==> (id, addr) == (me.id, me) || (id != me.id
            && members.contains_key(id) && keep(id, members[id]) && addr == members[id].addr)
}

/// A row of the member table as a census row.
pub open spec fn census_row(row: (NodeId, Member)) -> (NodeId, PeerAddr) {
    (row.0, row.1.addr)
}

proof fn lemma_listing(
    rows: Seq<(NodeId, Member)>,
    keep: spec_fn(NodeId, Member) -> bool,
    me: PeerAddr,
    listing: Seq<(NodeId, PeerAddr)>,
)
    requires
        crate::table::distinct_keys(rows),
        listing == seq![(me.id, me)] + kept(
            rows,
            |id: NodeId, m: Member| id != me.id && keep(id, m),
        ).map_values(|row: (NodeId, Member)| census_row(row)),
    ensures
        lists_exactly(listing, me, crate::table::rows_map(rows), keep),
{
    let other = |id: NodeId, m: Member| id != me.id && keep(id, m);
    let k = kept(rows, other);
    let members = crate::table::rows_map(rows);
    lemma_kept(rows, other);
    assert forall|i: int| 0 <= i < k.len() implies listing[i + 1] == census_row(#[trigger] k[i])
        && k[i].0 != me.id by {
        assert(k.contains(k[i]));
    }
    assert forall|i: int, j: int|
        0 <= i < listing.len() && 0 <= j < listing.len() && (#[trigger] listing[i]).0 == (
        #[trigger] listing[j]).0 implies i == j by {
        if i > 0 && j > 0 {
            assert(listing[i] == census_row(k[i - 1]));
            assert(listing[j] == census_row(k[j - 1]));
        } else if i > 0 {
            assert(listing[i] == census_row(k[i - 1]));
        } else if j > 0 {
            assert(listing[j] == census_row(k[j - 1]));
        }
    }
    assert forall|id: NodeId, addr: PeerAddr| #[trigger] listing.contains((id, addr)) <==> (
    id, addr) == (me.id, me) || (id != me.id && members.contains_key(id) && keep(id, members[id])
        && addr == members[id].addr) by {
        if listing.contains((id, addr)) {
            let i = choose|i: int| 0 <= i < listing.len() && listing[i] == (id, addr);
            if i > 0 {
                assert(listing[i] == census_row(k[i - 1]));
                assert(k.contains(k[i - 1]));
            }
        }
        if (id, addr) == (me.id, me) {
            assert(listing[0] == (id, addr));
        }
        if id != me.id && members.contains_key(id) && keep(id, members[id]) && addr
            == members[id].addr {
            assert(k.contains((id, members[id])));
            let i = choose|i: int| 0 <= i < k.len() && k[i] == (id, members[id]);
            assert(listing[i + 1] == census_row(k[i]));
        }
    }
}

/// `id` is a member, thought alive, that can probe `target` for `me`.
pub open spec fn can_help(o: Overlay, me: NodeId, target: NodeId, id: NodeId) -> bool {
    o.members.contains_key(id) && id != me && id != target && o.members[id].state
        == MemberState::Alive
}

/// `ids` are different members that can probe `target` for `me`: `k` of them, or all where
/// there are fewer.
pub open spec fn picks_helpers(
    o: Overlay,
    me: NodeId,
    target: NodeId,
    k: nat,
    ids: Seq<NodeId>,
) -> bool {
    &&& ids.no_duplicates()
    &&& forall|i: int| 0 <= i < ids.len() ==> can_help(o, me, target, #[trigger] ids[i])
    &&& ids.len() <= k
    &&& ids.len() < k ==> forall|id: NodeId| #[trigger]
        can_help(o, me, target, id) ==> ids.contains(id)
}

/// Where members are dialled.
pub open spec fn member_addrs(o: Overlay, ids: Seq<NodeId>) -> Seq<PeerAddr> {
    ids.map_values(|id: NodeId| o.members[id].addr)
}

/// `helpers` are the addresses of different members that can probe `target` for `me`: of `k`
/// of them, or of all where there are fewer.
pub open spec fn are_helpers(
    o: Overlay,
    me: NodeId,
    target: NodeId,
    k: nat,
    helpers: Seq<PeerAddr>,
) -> bool {
    exists|ids: Seq<NodeId>| #[trigger]
        picks_helpers(o, me, target, k, ids) && helpers == member_addrs(o, ids)
}

impl Views {
    /// The election census: self, and every member that is not dead and not silent for
    /// `retention`. A suspect still counts.
    pub fn census(&self, me: &PeerAddr, now: u64, retention: u64) -> (listing: Vec<
        (NodeId, PeerAddr),
    >)
        requires
            self.wf(),
        ensures
            lists_exactly(
                listing@,
                *me,
                self@.members,
                |id: NodeId, m: Member| counted(m, now, retention),
            ),
    {
        let ghost rows = self.members.rows();
        let ghost keep = |id: NodeId, m: Member| counted(m, now, retention);
        let ghost other = |id: NodeId, m: Member| id != me.id && keep(id, m);
        proof {
            self.members.lemma_rows();
        }
        let mut out: Vec<(NodeId, PeerAddr)> = Vec::new();
        out.push((me.id, me.clone()));
        let n: usize = self.members.len();
        let mut i: usize = 0;
        assert(out@ =~= seq![(me.id, *me)] + kept(rows.take(0), other).map_values(
            |row: (NodeId, Member)| census_row(row),
        ));
        while i < n
            invariant
                n == rows.len(),
                rows == self.members.rows(),
                i <= n,
                keep == (|id: NodeId, m: Member| counted(m, now, retention)),
                other == (|id: NodeId, m: Member| id != me.id && keep(id, m)),
                out@ == seq![(me.id, *me)] + kept(rows.take(i as int), other).map_values(
                    |row: (NodeId, Member)| census_row(row),
                ),
            decreases n - i,
        {
            let row = self.members.row(i);
            proof {
                lemma_kept_step(rows, other, i as int);
            }
            if !row.0.same(&me.id) {
                if row.1.state != MemberState::Dead && now.saturating_sub(row.1.last_heard_ms)
                    < retention {
                    out.push((row.0, row.1.addr.clone()));
                }
            }
            i = i + 1;
            assert(out@ =~= seq![(me.id, *me)] + kept(rows.take(i as int), other).map_values(
                |row: (NodeId, Member)| census_row(row),
            ));
        }
        proof {
            assert(rows.take(n as int) =~= rows);
            lemma_listing(rows, keep, *me, out@);
        }
        out
    }

    /// The liveness census: self, and every member that is alive, not silent for
    /// `retention`, and not buried here.
    pub fn liveness_census(&self, me: &PeerAddr, now: u64, retention: u64) -> (listing: Vec<
        (NodeId, PeerAddr),
    >)
        requires
            self.wf(),
        ensures
            lists_exactly(
                listing@,
                *me,
                self@.members,
                |id: NodeId, m: Member|
                    live(m, now, retention) && !self@.dead.contains_key(id),
            ),
    {
        let ghost rows = self.members.rows();
        let ghost keep = |id: NodeId, m: Member|
            live(m, now, retention) && !self@.dead.contains_key(id);
        let ghost other = |id: NodeId, m: Member| id != me.id && keep(id, m);
        proof {
            self.members.lemma_rows();
        }
        let mut out: Vec<(NodeId, PeerAddr)> = Vec::new();
        out.push((me.id, me.clone()));
        let n: usize = self.members.len();
        let mut i: usize = 0;
        assert(out@ =~= seq![(me.id, *me)] + kept(rows.take(0), other).map_values(
            |row: (NodeId, Member)| census_row(row),
        ));
        while i < n
            invariant
                self.wf(),
                n == rows.len(),
                rows == self.members.rows(),
                i <= n,
                keep == (|id: NodeId, m: Member|
                    live(m, now, retention) && !self@.dead.contains_key(id)),
                other == (|id: NodeId, m: Member| id != me.id && keep(id, m)),
                out@ == seq![(me.id, *me)] + kept(rows.take(i as int), other).map_values(
                    |row: (NodeId, Member)| census_row(row),
                ),
            decreases n - i,
        {
            let row = self.members.row(i);
            proof {
                lemma_kept_step(rows, other, i as int);
            }
            if !(row.0.same(&me.id) || self.dead.contains(&row.0) || row.1.state
                != MemberState::Alive) {
                if now.saturating_sub(row.1.last_heard_ms) < retention {
                    out.push((row.0, row.1.addr.clone()));
                }
            }
            i = i + 1;
            assert(out@ =~= seq![(me.id, *me)] + kept(rows.take(i as int), other).map_values(
                |row: (NodeId, Member)| census_row(row),
            ));
        }
        proof {
            assert(rows.take(n as int) =~= rows);
            lemma_listing(rows, keep, *me, out@);
        }
        out
    }

    /// Where the member `id` can be dialled.
    pub fn member_addr(&self, me: &PeerAddr, id: &NodeId) -> (addr: Option<PeerAddr>)
        requires
            self.wf(),
        ensures
            addr == (if *id == me.id {
                Some(*me)
            } else if self@.members.contains_key(*id) {
                Some(self@.members[*id].addr)
            } else {
                None
            }),
    {
        if id.same(&me.id) {
            return Some(me.clone());
        }
        match self.members.get(id) {
            Some(m) => Some(m.addr.clone()),
            None => None,
        }
    }

    /// The whole member set in wire form.
    pub fn member_entries(&self) -> (entries: Vec<MemberEntry>)
        requires
            self.wf(),
        ensures
            entries@.len() == self@.members.dom().len(),
            forall|e: MemberEntry| #[trigger]
                entries@.contains(e) <==> self@.members.contains_key(e.id) && e == entry_of(
                    e.id,
                    self@.members[e.id],
                ),
    {
        let ghost rows = self.members.rows();
        proof {
            self.members.lemma_rows();
        }
        let mut out: Vec<MemberEntry> = Vec::new();
        let n: usize = self.members.len();
        let mut i: usize = 0;
        while i < n
            invariant
                n == rows.len(),
                rows == self.members.rows(),
                i <= n,
                out@.len() == i,
                forall|k: int| 0 <= k < i ==> #[trigger] out@[k] == entry_of(rows[k].0, rows[k].1),
            decreases n - i,
        {
            let row = self.members.row(i);
            out.push(member_entry(row.0, &row.1));
            i = i + 1;
        }
        proof {
            assert forall|e: MemberEntry| #[trigger] out@.contains(e) <==> self@.members.contains_key(
                e.id,
            ) && e == entry_of(e.id, self@.members[e.id]) by {
                if out@.contains(e) {
                    let k = choose|k: int| 0 <= k < out@.len() && out@[k] == e;
                    crate::table::lemma_row_is_entry(rows, k);
                }
                if self@.members.contains_key(e.id) && e == entry_of(e.id, self@.members[e.id]) {
                    let k = crate::table::lemma_entry_has_row(rows, e.id);
                    assert(out@[k] == e);
                }
            }
        }
        out
    }

    /// Forgets members that were silent for `retention`.
    pub fn prune_members(&mut self, me: &NodeId, now: u64, retention: u64)
        requires
            old(self).wf(),
        ensures
            final(self).wf(),
            final(self)@ == pruned(old(self)@, *me, now, retention),
    {
        let keys = self.members.keys();
        let ghost o = old(self)@;
        let ghost stays = |id: NodeId|
            id == *me || elapsed(now, o.members[id].last_heard_ms) < retention;
        let mut i: usize = 0;
        while i < keys.len()
            invariant
                self.wf(),
                i <= keys@.len(),
                keys@.to_set() == o.members.dom(),
                self@ == (Overlay { members: self@.members, ..o }),
                stays == (|id: NodeId|
                    id == *me || elapsed(now, o.members[id].last_heard_ms) < retention),
                forall|id: NodeId| #[trigger]
                    self@.members.contains_key(id) <==> o.members.contains_key(id) && (stays(id)
                        || !keys@.take(i as int).contains(id)),
                forall|id: NodeId|
                    self@.members.contains_key(id) ==> #[trigger] self@.members[id]
                        == o.members[id],
            decreases keys@.len() - i,
        {
            let id = keys[i];
            let ghost done = keys@.take(i as int);
            let ghost next = keys@.take(i + 1);
            proof {
                assert(next =~= done.push(id));
                assert forall|k: NodeId| #[trigger] next.contains(k) <==> done.contains(k) || k == id by {
                    if done.contains(k) {
                        let p = choose|p: int| 0 <= p < done.len() && done[p] == k;
                        assert(next[p] == k);
                    }
                    if k == id {
                        assert(next[i as int] == k);
                    }
                }
                assert(keys@.contains(id));
                assert(keys@.to_set().contains(id));
                assert(o.members.contains_key(id));
            }
            let forget = match self.members.get(&id) {
                Some(m) => !id.same(me) && now.saturating_sub(m.last_heard_ms) >= retention,
                None => false,
            };
            if forget {
                let _ = self.members.remove(&id);
            }
            i = i + 1;
        }
        proof {
            assert(keys@.take(i as int) =~= keys@);
            assert forall|id: NodeId| o.members.contains_key(id) implies #[trigger] keys@.contains(id) by {
                assert(keys@.to_set().contains(id));
            }
            let want = pruned(o, *me, now, retention);
            assert(self@.members =~= want.members);
            assert(self@ =~= want);
        }
    }

    /// Up to `k` random members, thought alive, that can probe `target` for this node.
    pub fn probe_helpers(&self, me: &NodeId, target: &NodeId, k: usize) -> (helpers: Vec<PeerAddr>)
        requires
            self.wf(),
        ensures
            are_helpers(self@, *me, *target, k as nat, helpers@),
    {
        let ghost rows = self.members.rows();
        let ghost keep = |id: NodeId, m: Member|
            id != *me && id != *target && m.state == MemberState::Alive;
        proof {
            self.members.lemma_rows();
            lemma_kept_names(rows, keep);
        }
        let mut pool: Vec<NodeId> = Vec::new();
        let n: usize = self.members.len();
        let mut i: usize = 0;
        assert(pool@ =~= names_of(kept(rows.take(0), keep)));
        while i < n
            invariant
                n == rows.len(),
                rows == self.members.rows(),
                i <= n,
                keep == (|id: NodeId, m: Member|
                    id != *me && id != *target && m.state == MemberState::Alive),
                pool@ == names_of(kept(rows.take(i as int), keep)),
            decreases n - i,
        {
            let row = self.members.row(i);
            proof {
                lemma_kept_step(rows, keep, i as int);
            }
            if !row.0.same(me) && !row.0.same(target) && row.1.state == MemberState::Alive {
                pool.push(row.0);
            }
            i = i + 1;
            assert(pool@ =~= names_of(kept(rows.take(i as int), keep)));
        }
        let ghost all = pool@;
        shuffle(&mut pool);
        let ghost mixed = pool@;
        pool.truncate(k);
        proof {
            assert(rows.take(n as int) =~= rows);
            lemma_same_items(mixed, all);
            all.lemma_multiset_has_no_duplicates();
            mixed.lemma_multiset_has_no_duplicates_conv();
            assert(pool@ =~= mixed.take(pool@.len() as int));
            assert forall|i: int| 0 <= i < pool@.len() implies can_help(
                self@,
                *me,
                *target,
                #[trigger] pool@[i],
            ) by {
                assert(mixed.contains(mixed[i]));
                assert(all.contains(pool@[i]));
            }
            if pool@.len() < k {
                assert(pool@ =~= mixed);
                assert forall|id: NodeId| #[trigger] can_help(self@, *me, *target, id) implies pool@.contains(
                id) by {
                    assert(all.contains(id));
                }
            }
        }
        let mut helpers: Vec<PeerAddr> = Vec::new();
        let mut i: usize = 0;
        while i < pool.len()
            invariant
                self.wf(),
                i <= pool@.len(),
                picks_helpers(self@, *me, *target, k as nat, pool@),
                helpers@ == member_addrs(self@, pool@.take(i as int)),
            decreases pool@.len() - i,
        {
            assert(can_help(self@, *me, *target, pool@[i as int]));
            if let Some(m) = self.members.get(&pool[i]) {
                helpers.push(m.addr.clone());
            }
            i = i + 1;
            assert(helpers@ =~= member_addrs(self@, pool@.take(i as int)));
        }
        assert(pool@.take(i as int) =~= pool@);
        helpers
    }
}

} // verus!
