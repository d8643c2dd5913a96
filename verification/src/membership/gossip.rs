//! What is gossiped: deltas, samples of links, and the digest by which two nodes see
//! that their censuses agree.

use crate::bytes::{
    lemma_array_ext, lemma_le_digits_len, lemma_le_injective, push_all, push_u64, Cid, NodeId,
};
use crate::membership::member::{entry_of, member_entry, Member, MemberEntry, MemberState, PeerAddr};
use crate::membership::overlay::{Overlay, PeerState, Views};
use crate::order::{
    lemma_lex_asymmetric, lemma_lex_irreflexive, lemma_lex_total, lemma_lex_transitive, lex_less,
};
use crate::random::{lemma_same_items, shuffle};
use crate::table::{kept, lemma_kept, lemma_kept_names, lemma_kept_step, names_of};
use vstd::prelude::*;

verus! {

/// What the digest covers of one member.
#[derive(Clone, Copy, Debug)]
pub struct DigestRow {
    pub id: [u8; 32],
    pub incarnation: u64,
    pub state: u8,
}

/// What the digest covers of the member `id`.
pub open spec fn digest_row(id: NodeId, m: Member) -> DigestRow {
    DigestRow { id: id.0, incarnation: m.incarnation, state: m.state.level() }
}

/// Each row comes strictly before the next in the byte order of identifiers.
pub open spec fn rows_sorted(rows: Seq<DigestRow>) -> bool {
    forall|i: int, j: int|
        0 <= i < j < rows.len() ==> crate::order::lex_lt(
            (#[trigger] rows[i]).id@,
            (#[trigger] rows[j]).id@,
        )
}

/// The row covers a member that is not dead.
pub open spec fn covers(members: Map<NodeId, Member>, row: DigestRow) -> bool {
    let id = NodeId(row.id);
    members.contains_key(id) && members[id].state != MemberState::Dead && row == digest_row(
        id,
        members[id],
    )
}

/// `rows` are the members that are not dead, in order.
pub open spec fn census_rows(rows: Seq<DigestRow>, members: Map<NodeId, Member>) -> bool {
    &&& rows_sorted(rows)
    &&& forall|row: DigestRow| #[trigger] rows.contains(row) <==> covers(members, row)
}

/// The bytes of one row.
pub open spec fn row_bytes(row: DigestRow) -> Seq<u8> {
    row.id@ + crate::bytes::le_digits(row.incarnation as nat, 8) + seq![row.state]
}

/// The bytes that the digest is taken over.
pub open spec fn rows_bytes(rows: Seq<DigestRow>) -> Seq<u8>
    decreases rows.len(),
{
    if rows.len() == 0 {
        Seq::empty()
    } else {
        rows_bytes(rows.drop_last()) + row_bytes(rows.last())
    }
}

/// Two member sets have the same census: the same members that are not dead, each at the
/// same incarnation and in the same state.
pub open spec fn same_census(a: Map<NodeId, Member>, b: Map<NodeId, Member>) -> bool {
    forall|row: DigestRow| #[trigger] covers(a, row) <==> covers(b, row)
}

proof fn lemma_sorted_rows_unique(a: Seq<DigestRow>, b: Seq<DigestRow>)
    requires
        rows_sorted(a),
        rows_sorted(b),
        forall|row: DigestRow|
            #![trigger a.contains(row)]
            #![trigger b.contains(row)]
            a.contains(row) <==> b.contains(row),
    ensures
        a == b,
    decreases a.len(),
{
    if a.len() == 0 {
        if b.len() > 0 {
            assert(b.contains(b[0]));
        }
        assert(a =~= b);
    } else if b.len() == 0 {
        assert(a.contains(a[0]));
    } else {
        let x = a.last();
        let y = b.last();
        assert(a.contains(x));
        assert(b.contains(y));
        if x != y {
            let i = choose|i: int| 0 <= i < b.len() && b[i] == x;
            let j = choose|j: int| 0 <= j < a.len() && a[j] == y;
            assert(crate::order::lex_lt(b[i].id@, b[b.len() - 1].id@));
            assert(crate::order::lex_lt(a[j].id@, a[a.len() - 1].id@));
            lemma_lex_asymmetric(x.id@, y.id@);
        }
        let fa = a.drop_last();
        let fb = b.drop_last();
        assert forall|z: DigestRow|
            #![trigger fa.contains(z)]
            #![trigger fb.contains(z)]
            fa.contains(z) <==> fb.contains(z) by {
            lemma_front_rows(a, z);
            lemma_front_rows(b, z);
            assert(a.contains(z) <==> b.contains(z));
        }
        lemma_sorted_rows_unique(fa, fb);
        assert(a =~= fa.push(x));
        assert(b =~= fb.push(y));
    }
}

proof fn lemma_front_rows(a: Seq<DigestRow>, z: DigestRow)
    requires
        rows_sorted(a),
        a.len() > 0,
    ensures
        a.drop_last().contains(z) <==> a.contains(z) && z != a.last(),
{
    let front = a.drop_last();
    if front.contains(z) {
        let i = choose|i: int| 0 <= i < front.len() && front[i] == z;
        assert(a[i] == z);
        assert(crate::order::lex_lt(a[i].id@, a[a.len() - 1].id@));
        lemma_lex_irreflexive(z.id@);
    }
    if a.contains(z) && z != a.last() {
        let i = choose|i: int| 0 <= i < a.len() && a[i] == z;
        assert(front[i] == z);
    }
}

proof fn lemma_row_bytes(row: DigestRow)
    ensures
        row_bytes(row).len() == 41,
        row_bytes(row).take(32) == row.id@,
        row_bytes(row).subrange(32, 40) == crate::bytes::le_digits(row.incarnation as nat, 8),
        row_bytes(row)[40] == row.state,
{
    lemma_le_digits_len(row.incarnation as nat, 8);
    assert(row_bytes(row).take(32) =~= row.id@);
    assert(row_bytes(row).subrange(32, 40) =~= crate::bytes::le_digits(
        row.incarnation as nat,
        8,
    ));
}

proof fn lemma_rows_bytes_len(rows: Seq<DigestRow>)
    ensures
        rows_bytes(rows).len() == 41 * rows.len(),
    decreases rows.len(),
{
    if rows.len() > 0 {
        lemma_rows_bytes_len(rows.drop_last());
        lemma_row_bytes(rows.last());
    }
}

proof fn lemma_rows_bytes_injective(a: Seq<DigestRow>, b: Seq<DigestRow>)
    requires
        rows_bytes(a) == rows_bytes(b),
    ensures
        a == b,
    decreases a.len(),
{
    lemma_rows_bytes_len(a);
    lemma_rows_bytes_len(b);
    if a.len() == 0 {
        assert(a =~= b);
    } else {
        let fa = rows_bytes(a.drop_last());
        let fb = rows_bytes(b.drop_last());
        let x = a.last();
        let y = b.last();
        lemma_rows_bytes_len(a.drop_last());
        lemma_rows_bytes_len(b.drop_last());
        lemma_row_bytes(x);
        lemma_row_bytes(y);
        assert(rows_bytes(a).take(fa.len() as int) =~= fa);
        assert(rows_bytes(b).take(fb.len() as int) =~= fb);
        assert(rows_bytes(a).skip(fa.len() as int) =~= row_bytes(x));
        assert(rows_bytes(b).skip(fb.len() as int) =~= row_bytes(y));
        lemma_rows_bytes_injective(a.drop_last(), b.drop_last());
        lemma_array_ext(x.id, y.id);
        assert(crate::bytes::bound256(8) == 0x1_0000_0000_0000_0000) by {
            reveal_with_fuel(crate::bytes::bound256, 9);
        }
        lemma_le_injective(x.incarnation as nat, y.incarnation as nat, 8);
        assert(x == y);
        assert(a =~= a.drop_last().push(x));
        assert(b =~= b.drop_last().push(y));
    }
}

/// Nodes with the same census take their digests over the same bytes, whatever freshness
/// or dead members they hold beside it; and nodes with different censuses take them over
/// different bytes.
pub proof fn law_digest_reflects_the_census(
    a: Map<NodeId, Member>,
    rows_a: Seq<DigestRow>,
    b: Map<NodeId, Member>,
    rows_b: Seq<DigestRow>,
)
    requires
        census_rows(rows_a, a),
        census_rows(rows_b, b),
    ensures
        same_census(a, b) <==> rows_bytes(rows_a) == rows_bytes(rows_b),
{
    if same_census(a, b) {
        assert forall|row: DigestRow|
            #![trigger rows_a.contains(row)]
            #![trigger rows_b.contains(row)]
            rows_a.contains(row) <==> rows_b.contains(row) by {
            assert(covers(a, row) <==> covers(b, row));
        }
        lemma_sorted_rows_unique(rows_a, rows_b);
    }
    if rows_bytes(rows_a) == rows_bytes(rows_b) {
        lemma_rows_bytes_injective(rows_a, rows_b);
        assert forall|row: DigestRow| #[trigger] covers(a, row) <==> covers(b, row) by {
            assert(rows_a.contains(row) <==> rows_b.contains(row));
        }
    }
}

/// Puts a row in its place.
fn insert_row(rows: &mut Vec<DigestRow>, row: DigestRow)
    requires
        rows_sorted(old(rows)@),
        forall|k: int| 0 <= k < old(rows)@.len() ==> (#[trigger] old(rows)@[k]).id != row.id,
    ensures
        rows_sorted(final(rows)@),
        forall|r: DigestRow| #[trigger]
            final(rows)@.contains(r) <==> old(rows)@.contains(r) || r == row,
{
    let mut at: usize = 0;
    while at < rows.len() && lex_less(rows[at].id.as_slice(), row.id.as_slice())
        invariant
            at <= rows@.len(),
            rows@ == old(rows)@,
            forall|k: int|
                0 <= k < at ==> crate::order::lex_lt((#[trigger] rows@[k]).id@, row.id@),
        ensures
            at <= rows@.len(),
            rows@ == old(rows)@,
            forall|k: int|
                0 <= k < at ==> crate::order::lex_lt((#[trigger] rows@[k]).id@, row.id@),
            at < rows@.len() ==> !crate::order::lex_lt(rows@[at as int].id@, row.id@),
        decreases rows@.len() - at,
    {
        at = at + 1;
    }
    let ghost before = rows@;
    proof {
        assert forall|k: int| at <= k < before.len() implies crate::order::lex_lt(
            row.id@,
            (#[trigger] before[k]).id@,
        ) by {
            let here = before[at as int].id@;
            if here == row.id@ {
                lemma_array_ext(before[at as int].id, row.id);
            }
            lemma_lex_total(here, row.id@);
            if k > at {
                lemma_lex_transitive(row.id@, here, before[k].id@);
            }
        }
    }
    rows.insert(at, row);
    proof {
        let after = rows@;
        assert forall|i: int, j: int| 0 <= i < j < after.len() implies crate::order::lex_lt(
            (#[trigger] after[i]).id@,
            (#[trigger] after[j]).id@,
        ) by {
            let bi = if i < at { i } else { i - 1 };
            let bj = if j < at { j } else { j - 1 };
            if i != at {
                assert(after[i] == before[bi]);
            }
            if j != at {
                assert(after[j] == before[bj]);
            }
        }
        assert forall|r: DigestRow| #[trigger] after.contains(r) <==> before.contains(r) || r == row by {
            if after.contains(r) {
                let i = choose|i: int| 0 <= i < after.len() && after[i] == r;
                if i != at {
                    let bi = if i < at { i } else { i - 1 };
                    assert(before[bi] == r);
                }
            }
            if before.contains(r) {
                let i = choose|i: int| 0 <= i < before.len() && before[i] == r;
                let ai = if i < at { i } else { i + 1 };
                assert(after[ai] == r);
            }
            if r == row {
                assert(after[at as int] == r);
            }
        }
    }
}

/// The retransmission counters after one round: each goes down by one, and what was sent
/// for the last time is retired.
pub open spec fn counted_down(dirty: Map<NodeId, u8>) -> Map<NodeId, u8> {
    Map::new(
        |id: NodeId| dirty.contains_key(id) && dirty[id] > 1,
        |id: NodeId| (dirty[id] - 1) as u8,
    )
}

impl Views {
    /// A hash of the census: which members are not dead, at which incarnation and in which
    /// state. Freshness does not enter it.
    pub fn members_digest(&self) -> (digest: [u8; 32])
        requires
            self.wf(),
        ensures
            exists|rows: Seq<DigestRow>| #[trigger]
                census_rows(rows, self@.members) && digest@ == crate::digest::blake3_digest(
                    rows_bytes(rows),
                ),
    {
        let ghost table = self.members.rows();
        let ghost keep = |id: NodeId, m: Member| m.state != MemberState::Dead;
        proof {
            self.members.lemma_rows();
            lemma_kept(table, keep);
        }
        let mut rows: Vec<DigestRow> = Vec::new();
        let n: usize = self.members.len();
        let mut i: usize = 0;
        while i < n
            invariant
                n == table.len(),
                table == self.members.rows(),
                crate::table::distinct_keys(table),
                i <= n,
                keep == (|id: NodeId, m: Member| m.state != MemberState::Dead),
                rows_sorted(rows@),
                forall|r: DigestRow| #[trigger]
                    rows@.contains(r) <==> exists|k: int|
                        0 <= k < i && keep((#[trigger] table[k]).0, table[k].1) && r == digest_row(
                            table[k].0,
                            table[k].1,
                        ),
            decreases n - i,
        {
            let row = self.members.row(i);
            let ghost before = rows@;
            if row.1.state != MemberState::Dead {
                let r = DigestRow {
                    id: row.0.0,
                    incarnation: row.1.incarnation,
                    state: row.1.state.to_u8(),
                };
                proof {
                    assert forall|k: int| 0 <= k < rows@.len() implies (#[trigger] rows@[k]).id
                        != r.id by {
                        assert(rows@.contains(rows@[k]));
                        let j = choose|j: int|
                            0 <= j < i && keep((#[trigger] table[j]).0, table[j].1) && rows@[k]
                                == digest_row(table[j].0, table[j].1);
                        if rows@[k].id == r.id {
                            assert(table[j].0 == table[i as int].0);
                        }
                    }
                }
                insert_row(&mut rows, r);
                assert(r == digest_row(table[i as int].0, table[i as int].1));
            }
            proof {
                assert forall|r: DigestRow| #[trigger] rows@.contains(r) <==> exists|k: int|
                    0 <= k < i + 1 && keep((#[trigger] table[k]).0, table[k].1) && r == digest_row(
                        table[k].0,
                        table[k].1,
                    ) by {
                    if before.contains(r) {
                        let k = choose|k: int|
                            0 <= k < i && keep((#[trigger] table[k]).0, table[k].1) && r
                                == digest_row(table[k].0, table[k].1);
                        assert(keep(table[k].0, table[k].1));
                    }
                    if rows@.contains(r) && !before.contains(r) {
                        assert(keep(table[i as int].0, table[i as int].1));
                    }
                    if exists|k: int|
                        0 <= k < i + 1 && keep((#[trigger] table[k]).0, table[k].1) && r
                            == digest_row(table[k].0, table[k].1) {
                        let k = choose|k: int|
                            0 <= k < i + 1 && keep((#[trigger] table[k]).0, table[k].1) && r
                                == digest_row(table[k].0, table[k].1);
                        if k < i {
                            assert(before.contains(r));
                        }
                    }
                }
            }
            i = i + 1;
        }
        proof {
            assert forall|r: DigestRow| #[trigger] rows@.contains(r) <==> covers(self@.members, r) by {
                if rows@.contains(r) {
                    let k = choose|k: int|
                        0 <= k < i && keep((#[trigger] table[k]).0, table[k].1) && r == digest_row(
                            table[k].0,
                            table[k].1,
                        );
                    crate::table::lemma_row_is_entry(table, k);
                }
                if covers(self@.members, r) {
                    let k = crate::table::lemma_entry_has_row(table, NodeId(r.id));
                    assert(keep(table[k].0, table[k].1));
                }
            }
        }
        let mut buf: Vec<u8> = Vec::new();
        let mut j: usize = 0;
        assert(rows@.take(0) =~= Seq::<DigestRow>::empty());
        while j < rows.len()
            invariant
                j <= rows@.len(),
                buf@ == rows_bytes(rows@.take(j as int)),
            decreases rows@.len() - j,
        {
            let row = rows[j];
            push_all(&mut buf, row.id.as_slice());
            push_u64(&mut buf, row.incarnation);
            buf.push(row.state);
            proof {
                let next = rows@.take(j + 1);
                assert(next.drop_last() =~= rows@.take(j as int));
                assert(next.last() == row);
                assert(buf@ =~= rows_bytes(rows@.take(j as int)) + row_bytes(row));
            }
            j = j + 1;
        }
        assert(rows@.take(j as int) =~= rows@);
        assert(census_rows(rows@, self@.members));
        Cid::of(buf.as_slice()).0
    }

    /// The changes still to be gossiped, each counted as sent once more. Nothing where
    /// nothing changed.
    pub fn take_delta(&mut self) -> (delta: Vec<MemberEntry>)
        requires
            old(self).wf(),
        ensures
            final(self).wf(),
            final(self)@ == (Overlay { dirty: counted_down(old(self)@.dirty), ..old(self)@ }),
            forall|e: MemberEntry| #[trigger]
                delta@.contains(e) <==> old(self)@.dirty.contains_key(e.id) && old(
                    self)@.members.contains_key(e.id) && e == entry_of(
                    e.id,
                    old(self)@.members[e.id],
                ),
            delta@.len() == old(self)@.dirty.dom().intersect(old(self)@.members.dom()).len(),
    {
        let keys = self.dirty.keys();
        let ghost o = old(self)@;
        let mut delta: Vec<MemberEntry> = Vec::new();
        let ghost mut named: Seq<NodeId> = Seq::empty();
        let mut i: usize = 0;
        while i < keys.len()
            invariant
                self.wf(),
                i <= keys@.len(),
                keys@.no_duplicates(),
                keys@.to_set() == o.dirty.dom(),
                self@ == (Overlay { dirty: self@.dirty, ..o }),
                forall|id: NodeId| #[trigger]
                    self@.dirty.contains_key(id) <==> o.dirty.contains_key(id) && (o.dirty[id] > 1
                        || !keys@.take(i as int).contains(id)),
                forall|id: NodeId|
                    self@.dirty.contains_key(id) ==> #[trigger] self@.dirty[id] == (if keys@.take(
                        i as int,
                    ).contains(id) {
                        (o.dirty[id] - 1) as u8
                    } else {
                        o.dirty[id]
                    }),
                forall|e: MemberEntry| #[trigger]
                    delta@.contains(e) <==> keys@.take(i as int).contains(e.id)
                        && o.members.contains_key(e.id) && e == entry_of(e.id, o.members[e.id]),
                named.no_duplicates(),
                named.len() == delta@.len(),
                forall|id: NodeId| #[trigger]
                    named.contains(id) <==> keys@.take(i as int).contains(id)
                        && o.members.contains_key(id),
            decreases keys@.len() - i,
        {
            let id = keys[i];
            let ghost done = keys@.take(i as int);
            let ghost next = keys@.take(i + 1);
            proof {
                assert(next =~= done.push(id));
                assert forall|k: NodeId| #[trigger] next.contains(k) <==> done.contains(k) || k == id by {
                    if done.contains(k) {
                        let p = choose|p: int| 0 <= p < done.len() && done[p] == k;
                        assert(next[p] == k);
                    }
                    if k == id {
                        assert(next[i as int] == k);
                    }
                }
                assert(keys@.contains(id));
                assert(keys@.to_set().contains(id));
                assert(o.dirty.contains_key(id));
                if done.contains(id) {
                    let p = choose|p: int| 0 <= p < done.len() && done[p] == id;
                    assert(keys@[p] == keys@[i as int]);
                }
            }
            let ghost before = delta@;
            if let Some(m) = self.members.get(&id) {
                delta.push(member_entry(id, m));
            }
            proof {
                assert forall|e: MemberEntry| #[trigger] delta@.contains(e) <==> next.contains(e.id)
                    && o.members.contains_key(e.id) && e == entry_of(e.id, o.members[e.id]) by {
                    if before.contains(e) {
                        let p = choose|p: int| 0 <= p < before.len() && before[p] == e;
                        assert(delta@[p] == e);
                    }
                    if delta@.contains(e) && !before.contains(e) {
                        let p = choose|p: int| 0 <= p < delta@.len() && delta@[p] == e;
                        if p < before.len() {
                            assert(before[p] == e);
                        }
                    }
                    if o.members.contains_key(id) && e == entry_of(id, o.members[id]) {
                        assert(delta@[before.len() as int] == e);
                    }
                }
            }
            proof {
                if o.members.contains_key(id) {
                    let more = named.push(id);
                    assert forall|k: NodeId| #[trigger] more.contains(k) <==> next.contains(k)
                        && o.members.contains_key(k) by {
                        if named.contains(k) {
                            let p = choose|p: int| 0 <= p < named.len() && named[p] == k;
                            assert(more[p] == k);
                        }
                        if k == id {
                            assert(more[named.len() as int] == k);
                        }
                        if more.contains(k) && k != id {
                            let p = choose|p: int| 0 <= p < more.len() && more[p] == k;
                            assert(named[p] == k);
                        }
                    }
                    assert forall|a: int, b: int|
                        0 <= a < more.len() && 0 <= b < more.len() && a != b implies more[a]
                        != more[b] by {
                        if a < named.len() && b < named.len() {
                            assert(named[a] != named[b]);
                        } else if a < named.len() {
                            assert(named.contains(named[a]));
                        } else if b < named.len() {
                            assert(named.contains(named[b]));
                        }
                    }
                    named = more;
                }
            }
            let left: u8 = match self.dirty.get(&id) {
                Some(c) => c.saturating_sub(1),
                None => 0,
            };
            if left == 0 {
                let _ = self.dirty.remove(&id);
            } else {
                self.dirty.insert(id, left);
            }
            i = i + 1;
        }
        proof {
            assert(keys@.take(i as int) =~= keys@);
            assert forall|id: NodeId| #[trigger] keys@.contains(id) <==> o.dirty.contains_key(id) by {
                assert(keys@.to_set().contains(id) <==> o.dirty.dom().contains(id));
            }
            assert(self@.dirty =~= counted_down(o.dirty));
            named.unique_seq_to_set();
            assert(named.to_set() =~= o.dirty.dom().intersect(o.members.dom()));
        }
        delta
    }

    /// The addresses of the links, in no particular order.
    pub fn link_addrs(&self) -> (addrs: Vec<PeerAddr>)
        requires
            self.wf(),
        ensures
            lists_links(self@.active, None, addrs@),
            addrs@.len() == self@.active.dom().len(),
            forall|a: PeerAddr| #[trigger]
                addrs@.contains(a) <==> exists|id: NodeId| #[trigger]
                    self@.active.contains_key(id) && self@.active[id].addr == a,
    {
        self.link_addrs_but(None)
    }

    /// The addresses of the links, without those that lead to `but`.
    pub fn link_addrs_but(&self, but: Option<NodeId>) -> (addrs: Vec<PeerAddr>)
        requires
            self.wf(),
        ensures
            lists_links(self@.active, but, addrs@),
            but is None ==> addrs@.len() == self@.active.dom().len(),
            addrs@.len() <= self@.active.dom().len(),
            forall|a: PeerAddr| #[trigger]
                addrs@.contains(a) <==> but != Some(a.id) && exists|id: NodeId| #[trigger]
                    self@.active.contains_key(id) && self@.active[id].addr == a,
    {
        let ghost rows = self.active.rows();
        let ghost keep = |id: NodeId, p: PeerState| but != Some(p.addr.id);
        proof {
            self.active.lemma_rows();
            lemma_kept_names(rows, keep);
        }
        let mut out: Vec<PeerAddr> = Vec::new();
        let n: usize = self.active.len();
        let mut i: usize = 0;
        assert(out@ =~= kept(rows.take(0), keep).map_values(
            |row: (NodeId, PeerState)| row.1.addr,
        ));
        while i < n
            invariant
                n == rows.len(),
                rows == self.active.rows(),
                i <= n,
                keep == (|id: NodeId, p: PeerState| but != Some(p.addr.id)),
                out@ == kept(rows.take(i as int), keep).map_values(
                    |row: (NodeId, PeerState)| row.1.addr,
                ),
            decreases n - i,
        {
            let row = self.active.row(i);
            proof {
                lemma_kept_step(rows, keep, i as int);
            }
            let skip = match &but {
                Some(id) => row.1.addr.id.same(id),
                None => false,
            };
            if !skip {
                out.push(row.1.addr.clone());
            }
            i = i + 1;
            assert(out@ =~= kept(rows.take(i as int), keep).map_values(
                |row: (NodeId, PeerState)| row.1.addr,
            ));
        }
        proof {
            assert(rows.take(n as int) =~= rows);
            let ids = names_of(kept(rows, keep));
            assert(names_links(self@.active, but, ids));
            assert(out@ =~= link_addrs_of(self@.active, ids));
            lemma_lists_links(self@.active, but, out@);
        }
        out
    }
}

/// `ids` names each link that does not lead to `but`, once.
pub open spec fn names_links(
    active: Map<NodeId, PeerState>,
    but: Option<NodeId>,
    ids: Seq<NodeId>,
) -> bool {
    ids.no_duplicates() && forall|id: NodeId| #[trigger]
        ids.contains(id) <==> active.contains_key(id) && but != Some(active[id].addr.id)
}

/// The addresses of links, in the order of their names.
pub open spec fn link_addrs_of(active: Map<NodeId, PeerState>, ids: Seq<NodeId>) -> Seq<PeerAddr> {
    ids.map_values(|id: NodeId| active[id].addr)
}

/// `addrs` holds the address of each link that does not lead to `but`, once for each link.
pub open spec fn lists_links(
    active: Map<NodeId, PeerState>,
    but: Option<NodeId>,
    addrs: Seq<PeerAddr>,
) -> bool {
    exists|ids: Seq<NodeId>| #[trigger]
        names_links(active, but, ids) && addrs == link_addrs_of(active, ids)
}

/// What such a list contains, and how long it is.
pub proof fn lemma_lists_links(
    active: Map<NodeId, PeerState>,
    but: Option<NodeId>,
    addrs: Seq<PeerAddr>,
)
    requires
        active.dom().finite(),
        lists_links(active, but, addrs),
    ensures
        but is None ==> addrs.len() == active.dom().len(),
        addrs.len() <= active.dom().len(),
        forall|a: PeerAddr| #[trigger]
            addrs.contains(a) <==> but != Some(a.id) && exists|id: NodeId| #[trigger]
                active.contains_key(id) && active[id].addr == a,
{
    let ids = choose|ids: Seq<NodeId>| #[trigger]
        names_links(active, but, ids) && addrs == link_addrs_of(active, ids);
    ids.unique_seq_to_set();
    assert(ids.to_set().subset_of(active.dom())) by {
        assert forall|id: NodeId| ids.to_set().contains(id) implies active.dom().contains(id) by {
            assert(ids.contains(id));
        }
    }
    vstd::set_lib::lemma_len_subset(ids.to_set(), active.dom());
    if but is None {
        assert(ids.to_set() =~= active.dom()) by {
            assert forall|id: NodeId| active.dom().contains(id) implies ids.to_set().contains(id) by {
                assert(ids.contains(id));
            }
        }
    }
    assert forall|a: PeerAddr| #[trigger] addrs.contains(a) <==> but != Some(a.id)
        && exists|id: NodeId| #[trigger] active.contains_key(id) && active[id].addr == a by {
        if addrs.contains(a) {
            let i = choose|i: int| 0 <= i < addrs.len() && addrs[i] == a;
            assert(ids.contains(ids[i]));
            assert(active.contains_key(ids[i]));
        }
        if but != Some(a.id) && exists|id: NodeId| #[trigger]
            active.contains_key(id) && active[id].addr == a {
            let id = choose|id: NodeId| #[trigger]
                active.contains_key(id) && active[id].addr == a;
            assert(ids.contains(id));
            let i = choose|i: int| 0 <= i < ids.len() && ids[i] == id;
            assert(addrs[i] == a);
        }
    }
}

/// `some` is a sample of `pool`, of at most `k` items: it is as long as can be, and no item
/// stands in it more often than in the pool.
pub open spec fn sampled(pool: Seq<PeerAddr>, k: nat, some: Seq<PeerAddr>) -> bool {
    &&& some.len() == (if pool.len() < k {
        pool.len()
    } else {
        k
    })
    &&& some.to_multiset().subset_of(pool.to_multiset())
}

/// Up to `k` random items of a pool.
pub fn sample(pool: Vec<PeerAddr>, k: usize) -> (some: Vec<PeerAddr>)
    ensures
        sampled(pool@, k as nat, some@),
        forall|a: PeerAddr| #[trigger] some@.contains(a) ==> pool@.contains(a),
        some@.len() < k ==> forall|a: PeerAddr| #[trigger] pool@.contains(a) ==> some@.contains(a),
{
    let mut mixed = pool;
    shuffle(&mut mixed);
    let ghost all = mixed@;
    mixed.truncate(k);
    proof {
        let n = mixed@.len() as int;
        lemma_same_items(all, pool@);
        assert(all =~= all.take(n) + all.skip(n));
        assert(mixed@ =~= all.take(n));
        vstd::seq_lib::lemma_multiset_commutative(all.take(n), all.skip(n));
        if n < k {
            assert(mixed@ =~= all);
        }
        assert forall|a: PeerAddr| #[trigger] mixed@.contains(a) implies pool@.contains(a) by {
            let i = choose|i: int| 0 <= i < mixed@.len() && mixed@[i] == a;
            assert(all[i] == a);
            assert(all.contains(a));
        }
    }
    mixed
}

} // verus!
