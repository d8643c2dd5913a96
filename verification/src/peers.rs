//! The table of peers that operators are shown.

use crate::bytes::NodeId;
use crate::control::report::PeerStatus;
use crate::membership::overlay::PeerState;
use crate::membership::snapshot::Snapshot;
use crate::order::{lex_less, lex_lt};
use crate::text::{hex_encode, hex_text};
use vstd::prelude::*;

verus! {

/// Which row comes first: those that answer, then by identity.
pub open spec fn row_before(a: (NodeId, PeerState), b: (NodeId, PeerState)) -> bool {
    ||| a.1.alive && !b.1.alive
    ||| a.1.alive == b.1.alive && lex_lt(a.0.0@, b.0.0@)
}

/// No row comes before one that stands earlier.
pub open spec fn rows_ordered(rows: Seq<(NodeId, PeerState)>) -> bool {
    forall|i: int, j: int|
        0 <= i < j < rows.len() ==> !row_before(#[trigger] rows[j], #[trigger] rows[i])
}

proof fn lemma_between(
    a: (NodeId, PeerState),
    b: (NodeId, PeerState),
    c: (NodeId, PeerState),
)
    requires
        row_before(a, c),
    ensures
        row_before(a, b) || row_before(b, c),
{
    if a.1.alive == b.1.alive && b.1.alive == c.1.alive && a.0.0@ != b.0.0@ && b.0.0@ != c.0.0@ {
        crate::order::lemma_lex_total(a.0.0@, b.0.0@);
        crate::order::lemma_lex_total(b.0.0@, c.0.0@);
        if lex_lt(b.0.0@, a.0.0@) && lex_lt(c.0.0@, b.0.0@) {
            crate::order::lemma_lex_transitive(c.0.0@, b.0.0@, a.0.0@);
            crate::order::lemma_lex_asymmetric(a.0.0@, c.0.0@);
        }
    }
}

fn comes_before(a: &(NodeId, PeerState), b: &(NodeId, PeerState)) -> (yes: bool)
    ensures
        yes == row_before(*a, *b),
{
    if a.1.alive != b.1.alive {
        a.1.alive
    } else {
        lex_less(a.0.0.as_slice(), b.0.0.as_slice())
    }
}

fn place(rows: &mut Vec<(NodeId, PeerState)>, row: (NodeId, PeerState))
    requires
        rows_ordered(old(rows)@),
    ensures
        rows_ordered(final(rows)@),
        final(rows)@.to_multiset() == old(rows)@.to_multiset().insert(row),
{
    let ghost before = rows@;
    let mut at: usize = rows.len();
    while at > 0 && comes_before(&row, &rows[at - 1])
        invariant
            rows@ == before,
            at <= rows@.len(),
            forall|j: int| at <= j < rows@.len() ==> row_before(row, #[trigger] rows@[j]),
        decreases at,
    {
        at = at - 1;
    }
    proof {
        assert forall|i: int| 0 <= i < at implies !row_before(row, #[trigger] before[i]) by {
            if row_before(row, before[i]) {
                if i < at - 1 {
                    lemma_between(row, before[at - 1], before[i]);
                }
            }
        }
        broadcast use vstd::seq_lib::to_multiset_insert;

        let after = before.insert(at as int, row);
        assert forall|i: int, j: int| 0 <= i < j < after.len() implies !row_before(
            #[trigger] after[j],
            #[trigger] after[i],
        ) by {
            if i == at {
                assert(after[j] == before[j - 1]);
                if row_before(before[j - 1], row) {
                    assert(row_before(row, before[j - 1]));
                    lemma_asymmetric(row, before[j - 1]);
                }
            } else if j == at {
                assert(after[i] == before[i]);
            } else {
                let p = if i < at {
                    i
                } else {
                    i - 1
                };
                let q = if j < at {
                    j
                } else {
                    j - 1
                };
                assert(after[i] == before[p]);
                assert(after[j] == before[q]);
            }
        }
    }
    rows.insert(at, row);
}

proof fn lemma_asymmetric(a: (NodeId, PeerState), b: (NodeId, PeerState))
    requires
        row_before(a, b),
    ensures
        !row_before(b, a),
{
    if a.1.alive == b.1.alive {
        crate::order::lemma_lex_asymmetric(a.0.0@, b.0.0@);
    }
}

/// The links and the tombstones in the order in which they are shown.
pub fn order_peers(snap: &Snapshot) -> (rows: Vec<(NodeId, PeerState)>)
    ensures
        rows_ordered(rows@),
        rows@.to_multiset() == (snap.active@ + snap.dead@).to_multiset(),
{
    let mut rows: Vec<(NodeId, PeerState)> = Vec::new();
    let ghost all = snap.active@ + snap.dead@;
    let mut i: usize = 0;
    assert(all.take(0) =~= rows@);
    while i < snap.active.len()
        invariant
            i <= snap.active@.len(),
            all == snap.active@ + snap.dead@,
            rows_ordered(rows@),
            rows@.to_multiset() == all.take(i as int).to_multiset(),
        decreases snap.active@.len() - i,
    {
        let row = (snap.active[i].0, snap.active[i].1.clone());
        proof {
            broadcast use vstd::seq_lib::to_multiset_build;

            assert(all.take(i + 1) =~= all.take(i as int).push(row));
        }
        place(&mut rows, row);
        i = i + 1;
    }
    let mut j: usize = 0;
    while j < snap.dead.len()
        invariant
            j <= snap.dead@.len(),
            all == snap.active@ + snap.dead@,
            rows_ordered(rows@),
            rows@.to_multiset() == all.take(snap.active@.len() + j).to_multiset(),
        decreases snap.dead@.len() - j,
    {
        let row = (snap.dead[j].0, snap.dead[j].1.clone());
        proof {
            broadcast use vstd::seq_lib::to_multiset_build;

            assert(all.take(snap.active@.len() + j + 1) =~= all.take(
                snap.active@.len() + j,
            ).push(row));
        }
        place(&mut rows, row);
        j = j + 1;
    }
    assert(all.take(snap.active@.len() + j) =~= all);
    rows
}

/// How a row is shown.
pub open spec fn shown_as(row: (NodeId, PeerState), p: PeerStatus) -> bool {
    &&& p.id@ == hex_text(row.0.0@)
    &&& p.addrs == row.1.addr.text
    &&& p.alive == row.1.alive
    &&& p.rtt_us == row.1.rtt_us
    &&& p.skew_ms == row.1.skew_ms
    &&& p.last_seen_unix == row.1.last_seen_unix
    &&& p.consecutive_failures == row.1.consecutive_failures
}

/// Shows a row.
pub fn peer_status(id: &NodeId, state: &PeerState) -> (p: PeerStatus)
    ensures
        shown_as((*id, *state), p),
{
    PeerStatus {
        id: hex_encode(id.0.as_slice()),
        addrs: state.addr.text.clone(),
        alive: state.alive,
        rtt_us: state.rtt_us,
        skew_ms: state.skew_ms,
        last_seen_unix: state.last_seen_unix,
        consecutive_failures: state.consecutive_failures,
    }
}

/// The table shows all links and tombstones, ordered.
pub open spec fn is_table(table: Seq<PeerStatus>, rows: Seq<(NodeId, PeerState)>) -> bool {
    &&& rows_ordered(rows)
    &&& table.len() == rows.len()
    &&& forall|i: int| 0 <= i < rows.len() ==> shown_as(#[trigger] rows[i], table[i])
}

/// The table of peers: one row for each link and each tombstone.
pub fn peer_table(snap: &Snapshot) -> (table: Vec<PeerStatus>)
    ensures
        exists|rows: Seq<(NodeId, PeerState)>| #[trigger]
            is_table(table@, rows) && rows.to_multiset() == (snap.active@
                + snap.dead@).to_multiset(),
{
    let rows = order_peers(snap);
    let mut table: Vec<PeerStatus> = Vec::new();
    let mut i: usize = 0;
    while i < rows.len()
        invariant
            i <= rows@.len(),
            table@.len() == i,
            forall|k: int| 0 <= k < i ==> shown_as(#[trigger] rows@[k], table@[k]),
        decreases rows@.len() - i,
    {
        let row = peer_status(&rows[i].0, &rows[i].1);
        table.push(row);
        i = i + 1;
    }
    assert(is_table(table@, rows@));
    table
}

/// How many of the shown peers answer.
pub open spec fn answering(table: Seq<PeerStatus>) -> nat {
    table.filter(|p: PeerStatus| p.alive).len()
}

/// Counts the peers that answer.
pub fn alive_count(table: &[PeerStatus]) -> (n: usize)
    ensures
        n == answering(table@),
{
    let mut n: usize = 0;
    let mut i: usize = 0;
    let ghost keep = |p: PeerStatus| p.alive;
    assert(table@.take(0) =~= Seq::<PeerStatus>::empty());
    proof {
        reveal(Seq::filter);
    }
    while i < table.len()
        invariant
            i <= table@.len(),
            n <= i,
            keep == (|p: PeerStatus| p.alive),
            n == table@.take(i as int).filter(keep).len(),
        decreases table@.len() - i,
    {
        proof {
            reveal(Seq::filter);
            let next = table@.take(i + 1);
            assert(next.drop_last() =~= table@.take(i as int));
            assert(next.last() == table@[i as int]);
        }
        if table[i].alive {
            n = n + 1;
        }
        i = i + 1;
    }
    assert(table@.take(i as int) =~= table@);
    n
}

/// Peers that answer are shown before those that do not, and within each group in the order of
/// their identities.
pub proof fn law_answering_peers_come_first(rows: Seq<(NodeId, PeerState)>, i: int, j: int)
    requires
        rows_ordered(rows),
        0 <= i < j < rows.len(),
    ensures
        rows[j].1.alive ==> rows[i].1.alive,
        rows[i].1.alive == rows[j].1.alive ==> !lex_lt(rows[j].0.0@, rows[i].0.0@),
{
    assert(!row_before(rows[j], rows[i]));
}

/// Every peer that answers counts, and no other.
pub proof fn law_answering_peers_count(table: Seq<PeerStatus>, p: PeerStatus)
    ensures
        answering(Seq::empty()) == 0,
        p.alive ==> answering(table.push(p)) == answering(table) + 1,
        !p.alive ==> answering(table.push(p)) == answering(table),
{
    let keep = |q: PeerStatus| q.alive;
    reveal(Seq::filter);
    assert(table.push(p).drop_last() =~= table);
    assert(table.push(p).last() == p);
}

/// The table shows every link and every tombstone, once each, those that answer first.
pub proof fn law_the_table_shows_all_peers(
    snap: Snapshot,
    table: Vec<PeerStatus>,
    i: int,
    j: int,
)
    requires
        call_ensures(peer_table, (&snap,), table),
    ensures
        table@.len() == snap.active@.len() + snap.dead@.len(),
        0 <= i < j < table@.len() && table@[j].alive ==> table@[i].alive,
        0 <= i < table@.len() ==> exists|k: int|
            {
                &&& 0 <= k < (snap.active@ + snap.dead@).len()
                &&& table@[i].id@ == hex_text((#[trigger] (snap.active@ + snap.dead@)[k]).0.0@)
                &&& table@[i].alive == (snap.active@ + snap.dead@)[k].1.alive
                &&& table@[i].rtt_us == (snap.active@ + snap.dead@)[k].1.rtt_us
                &&& table@[i].consecutive_failures == (snap.active@
                    + snap.dead@)[k].1.consecutive_failures
            },
{
    let all = snap.active@ + snap.dead@;
    let rows = choose|rows: Seq<(NodeId, PeerState)>| #[trigger]
        is_table(table@, rows) && rows.to_multiset() == all.to_multiset();
    broadcast use vstd::seq_lib::group_to_multiset_ensures;

    assert(rows.len() == all.len()) by {
        assert(rows.to_multiset().len() == all.to_multiset().len());
    }
    if 0 <= i < j < table@.len() {
        law_answering_peers_come_first(rows, i, j);
        assert(shown_as(rows[i], table@[i]));
        assert(shown_as(rows[j], table@[j]));
    }
    if 0 <= i < table@.len() {
        assert(shown_as(rows[i], table@[i]));
        assert(rows.contains(rows[i]));
        assert(rows.to_multiset().count(rows[i]) > 0);
        assert(all.contains(rows[i]));
        let k = choose|k: int| 0 <= k < all.len() && all[k] == rows[i];
        assert(all[k] == rows[i]);
    }
}

} // verus!
