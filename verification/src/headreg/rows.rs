//! Listings of heads: one node's, and the union over all nodes.

use crate::bytes::{push_all, same32, Cid};
use crate::digest::blake3_digest;
use crate::headreg::cache::{Head, NameKey};
use crate::headreg::election::{effective_epoch, epoch_in_effect, replica_set, writer_among,
    writer_of};
use crate::headreg::registry::HeadRegistry;
use crate::headreg::shard::{shard_count, HeadEntry, ShardKey, RT_DBROOT, RT_PROGRAM};
use crate::parse::same_text;
use crate::text::{exactly32, hex_encode, hex_text};
use vstd::arithmetic::power2::pow2;
use vstd::prelude::*;
use vstd::string::*;

verus! {

/// A head as nodes list it to each other.
#[derive(Debug)]
pub struct HeadRowWire {
    pub rtype: u8,
    pub owner: [u8; 32],
    pub name: String,
    pub cid: [u8; 32],
    pub version: u64,
}

impl Clone for HeadRowWire {
    fn clone(&self) -> (copy: HeadRowWire)
        ensures
            copy == *self,
    {
        HeadRowWire {
            rtype: self.rtype,
            owner: self.owner,
            name: self.name.clone(),
            cid: self.cid,
            version: self.version,
        }
    }
}

impl HeadRowWire {
    /// What the row is of.
    pub open spec fn key(self) -> NameKey {
        NameKey { rtype: self.rtype, owner: self.owner, name: self.name@ }
    }

    /// What it says.
    pub open spec fn head(self) -> Head {
        (self.cid, self.version)
    }
}

/// A head as it is shown.
#[derive(Debug)]
pub struct HeadRow {
    pub owner: String,
    pub name: String,
    pub cid: String,
    pub version: u64,
}

/// Heads by kind.
#[derive(Debug)]
pub struct RegistryEntries {
    pub programs: Vec<HeadRow>,
    pub dbroots: Vec<HeadRow>,
    pub manifests: Vec<HeadRow>,
    /// How many nodes had a part in the listing.
    pub contributors: usize,
}

/// What a node's part of the registry looks like.
#[derive(Clone, Copy, Debug, PartialEq, Eq, Structural)]
pub struct RegistryStatus {
    pub epoch: u64,
    pub eligible: usize,
    pub writer_shards: usize,
    pub shard_count: u64,
    pub program_heads: usize,
    pub dbroots: usize,
    pub manifests: usize,
}

/// One row taken in: it replaces what is there unless that is as new.
pub open spec fn absorbed_one(heads: Map<NameKey, Head>, row: HeadRowWire) -> Map<NameKey, Head> {
    if heads.dom().contains(row.key()) && heads[row.key()].1 >= row.version {
        heads
    } else {
        heads.insert(row.key(), row.head())
    }
}

/// Rows taken in, in order.
pub open spec fn absorbed(heads: Map<NameKey, Head>, rows: Seq<HeadRowWire>) -> Map<NameKey, Head>
    decreases rows.len(),
{
    if rows.len() == 0 {
        heads
    } else {
        absorbed_one(absorbed(heads, rows.drop_last()), rows.last())
    }
}

/// What rows say, each key once.
pub open spec fn listing(rows: Seq<HeadRowWire>) -> Map<NameKey, Head> {
    Map::new(
        |k: NameKey| exists|i: int| 0 <= i < rows.len() && (#[trigger] rows[i]).key() == k,
        |k: NameKey|
            rows[choose|i: int| 0 <= i < rows.len() && (#[trigger] rows[i]).key() == k].head(),
    )
}

/// No two rows are of the same key.
pub open spec fn distinct_keys(rows: Seq<HeadRowWire>) -> bool {
    forall|i: int, j: int|
        0 <= i < rows.len() && 0 <= j < rows.len() && i != j ==> (#[trigger] rows[i]).key() != (
        #[trigger] rows[j]).key()
}

/// The union of listings, each key at its newest version.
#[derive(Debug)]
pub struct Gathered {
    rows: Vec<HeadRowWire>,
}

impl View for Gathered {
    type V = Map<NameKey, Head>;

    closed spec fn view(&self) -> Map<NameKey, Head> {
        listing(self.rows@)
    }
}

impl Gathered {
    /// Each key stands in one row.
    pub closed spec fn wf(&self) -> bool {
        distinct_keys(self.rows@)
    }

    /// Nothing gathered.
    pub fn new() -> (g: Gathered)
        ensures
            g.wf(),
            g@ == Map::<NameKey, Head>::empty(),
    {
        let g = Gathered { rows: Vec::new() };
        assert(g@ =~= Map::<NameKey, Head>::empty());
        g
    }

    /// The rows, in no particular order.
    pub fn into_rows(self) -> (rows: Vec<HeadRowWire>)
        requires
            self.wf(),
        ensures
            distinct_keys(rows@),
            listing(rows@) == self@,
    {
        self.rows
    }

    fn find(&self, row: &HeadRowWire) -> (at: Option<usize>)
        ensures
            match at {
                Some(i) => i < self.rows@.len() && self.rows@[i as int].key() == row.key(),
                None => forall|i: int|
                    0 <= i < self.rows@.len() ==> (#[trigger] self.rows@[i]).key() != row.key(),
            },
    {
        let mut i: usize = 0;
        while i < self.rows.len()
            invariant
                i <= self.rows@.len(),
                forall|j: int| 0 <= j < i ==> (#[trigger] self.rows@[j]).key() != row.key(),
            decreases self.rows@.len() - i,
        {
            let r = &self.rows[i];
            if r.rtype == row.rtype && same32(&r.owner, &row.owner) && same_text(
                r.name.as_str(),
                row.name.as_str(),
            ) {
                assert(r.key() =~= row.key());
                return Some(i);
            }
            i = i + 1;
        }
        None
    }

    /// Takes in one row.
    fn absorb_one(&mut self, row: HeadRowWire)
        requires
            old(self).wf(),
        ensures
            final(self).wf(),
            final(self)@ == absorbed_one(old(self)@, row),
    {
        let ghost before = self.rows@;
        match self.find(&row) {
            Some(i) => {
                proof {
                    lemma_listing_at(before, i as int);
                }
                if self.rows[i].version >= row.version {
                    return ;
                }
                let ghost r = row;
                self.rows.set(i, row);
                proof {
                    let after = self.rows@;
                    assert(after =~= before.update(i as int, r));
                    assert forall|a: int, b: int|
                        0 <= a < after.len() && 0 <= b < after.len() && a != b implies (
                    #[trigger] after[a]).key() != (#[trigger] after[b]).key() by {
                        assert(after[a].key() == before[a].key());
                        assert(after[b].key() == before[b].key());
                        assert(before[a].key() != before[b].key());
                    }
                    let l = absorbed_one(listing(before), r);
                    assert forall|k: NameKey| listing(after).dom().contains(k)
                        <==> l.dom().contains(k) by {
                        if listing(after).dom().contains(k) {
                            let j = choose|j: int|
                                0 <= j < after.len() && (#[trigger] after[j]).key() == k;
                            assert(before[j].key() == k);
                        }
                        if listing(before).dom().contains(k) {
                            let j = choose|j: int|
                                0 <= j < before.len() && (#[trigger] before[j]).key() == k;
                            assert(after[j].key() == k);
                        }
                    }
                    assert forall|k: NameKey| listing(after).dom().contains(k) implies listing(
                        after,
                    )[k] == l[k] by {
                        let j = choose|j: int|
                            0 <= j < after.len() && (#[trigger] after[j]).key() == k;
                        lemma_listing_at(after, j);
                        lemma_listing_at(before, j);
                        if j != i {
                            assert(before[j].key() != before[i as int].key());
                        }
                    }
                    assert(listing(after) =~= l);
                }
            },
            None => {
                let ghost r = row;
                self.rows.push(row);
                proof {
                    let after = self.rows@;
                    let n = before.len() as int;
                    assert(after[n] == r);
                    assert(!listing(before).dom().contains(r.key()));
                    let l = absorbed_one(listing(before), r);
                    assert forall|k: NameKey| listing(after).dom().contains(k)
                        <==> l.dom().contains(k) by {
                        if listing(after).dom().contains(k) {
                            let j = choose|j: int|
                                0 <= j < after.len() && (#[trigger] after[j]).key() == k;
                            if j < n {
                                assert(before[j].key() == k);
                            }
                        }
                        if listing(before).dom().contains(k) {
                            let j = choose|j: int|
                                0 <= j < before.len() && (#[trigger] before[j]).key() == k;
                            assert(after[j].key() == k);
                        }
                        if k == r.key() {
                            assert(after[n].key() == k);
                        }
                    }
                    assert forall|a: int, b: int|
                        0 <= a < after.len() && 0 <= b < after.len() && a != b implies (
                    #[trigger] after[a]).key() != (#[trigger] after[b]).key() by {
                        if a < n {
                            assert(after[a] == before[a]);
                        }
                        if b < n {
                            assert(after[b] == before[b]);
                        }
                    }
                    assert forall|k: NameKey| listing(after).dom().contains(k) implies listing(
                        after,
                    )[k] == l[k] by {
                        let j = choose|j: int|
                            0 <= j < after.len() && (#[trigger] after[j]).key() == k;
                        lemma_listing_at(after, j);
                        if j < n {
                            assert(before[j].key() == k);
                            lemma_listing_at(before, j);
                        }
                    }
                    assert(listing(after) =~= l);
                }
            },
        }
    }

    /// Takes in a node's listing.
    pub fn absorb(&mut self, rows: Vec<HeadRowWire>)
        requires
            old(self).wf(),
        ensures
            final(self).wf(),
            final(self)@ == absorbed(old(self)@, rows@),
    {
        let ghost all = rows@;
        let ghost start = self@;
        let ghost mut done: int = 0;
        assert(all.take(0) =~= Seq::<HeadRowWire>::empty());
        for row in it: rows
            invariant
                it.seq() == all,
                done == it.index(),
                self.wf(),
                self@ == absorbed(start, all.take(done)),
        {
            proof {
                let next = all.take(done + 1);
                assert(next.drop_last() =~= all.take(done));
                assert(next.last() == row);
            }
            self.absorb_one(row);
            proof {
                done = done + 1;
            }
        }
        assert(all.take(done) =~= all);
    }
}

proof fn lemma_listing_at(rows: Seq<HeadRowWire>, i: int)
    requires
        distinct_keys(rows),
        0 <= i < rows.len(),
    ensures
        listing(rows).dom().contains(rows[i].key()),
        listing(rows)[rows[i].key()] == rows[i].head(),
{
    let k = rows[i].key();
    let j = choose|j: int| 0 <= j < rows.len() && (#[trigger] rows[j]).key() == k;
    assert(rows[j].key() == k);
    if i != j {
        assert(rows[i].key() != rows[j].key());
    }
}

/// A row of `rows` that says `head` of the key.
pub open spec fn says(rows: Seq<HeadRowWire>, key: NameKey, head: Head) -> bool {
    exists|i: int|
        0 <= i < rows.len() && (#[trigger] rows[i]).key() == key && rows[i].head() == head
}

/// The newest version wins, whatever the order: the union has exactly the keys that were
/// listed, and of each a head that was listed for it and that no listed head of it is newer
/// than.
pub proof fn law_newest_version_wins(rows: Seq<HeadRowWire>, key: NameKey)
    ensures
        absorbed(Map::empty(), rows).dom().contains(key) <==> exists|i: int|
            0 <= i < rows.len() && (#[trigger] rows[i]).key() == key,
        absorbed(Map::empty(), rows).dom().contains(key) ==> says(
            rows,
            key,
            absorbed(Map::empty(), rows)[key],
        ),
        forall|i: int|
            0 <= i < rows.len() && (#[trigger] rows[i]).key() == key ==> rows[i].version
                <= absorbed(Map::empty(), rows)[key].1,
    decreases rows.len(),
{
    if rows.len() > 0 {
        let front = rows.drop_last();
        let n = rows.len() - 1;
        law_newest_version_wins(front, key);
        let m = absorbed(Map::empty(), front);
        let all = absorbed(Map::empty(), rows);
        if m.dom().contains(key) {
            let h = m[key];
            let i = choose|i: int|
                0 <= i < front.len() && (#[trigger] front[i]).key() == key && front[i].head()
                    == h;
            assert(rows[i] == front[i]);
            assert(says(rows, key, h));
        }
        if rows[n].key() == key {
            assert(says(rows, key, rows[n].head()));
        }
        assert forall|i: int|
            0 <= i < rows.len() && (#[trigger] rows[i]).key() == key implies rows[i].version
            <= all[key].1 by {
            if i < n {
                assert(front[i].key() == key);
            }
        }
        if exists|i: int| 0 <= i < rows.len() && (#[trigger] rows[i]).key() == key {
            let i = choose|i: int| 0 <= i < rows.len() && (#[trigger] rows[i]).key() == key;
            if i < n {
                assert(front[i].key() == key);
            }
        }
    }
}

/// Taking in a row a second time changes nothing.
pub proof fn law_absorbing_again_changes_nothing(heads: Map<NameKey, Head>, row: HeadRowWire)
    ensures
        absorbed_one(absorbed_one(heads, row), row) == absorbed_one(heads, row),
{
}

/// Taking in rows loses no key and lowers no version.
pub proof fn law_absorbing_never_loses(
    heads: Map<NameKey, Head>,
    rows: Seq<HeadRowWire>,
    key: NameKey,
)
    requires
        heads.dom().contains(key),
    ensures
        absorbed(heads, rows).dom().contains(key),
        absorbed(heads, rows)[key].1 >= heads[key].1,
    decreases rows.len(),
{
    if rows.len() > 0 {
        law_absorbing_never_loses(heads, rows.drop_last(), key);
    }
}

/// Which listing a kind belongs to: programs, database roots, and everything else with the
/// manifests.
pub open spec fn bucket_of(rtype: u8) -> int {
    if rtype == RT_PROGRAM {
        0
    } else if rtype == RT_DBROOT {
        1
    } else {
        2
    }
}

/// The rows of one listing, in order.
pub open spec fn in_bucket(rows: Seq<HeadRowWire>, bucket: int) -> Seq<HeadRowWire>
    decreases rows.len(),
{
    if rows.len() == 0 {
        rows
    } else if bucket_of(rows.last().rtype) == bucket {
        in_bucket(rows.drop_last(), bucket).push(rows.last())
    } else {
        in_bucket(rows.drop_last(), bucket)
    }
}

/// Whether a shown row shows a listed one.
pub open spec fn shows(shown: HeadRow, row: HeadRowWire) -> bool {
    &&& shown.owner@ == hex_text(row.owner@)
    &&& shown.name@ == row.name@
    &&& shown.cid@ == hex_text(row.cid@)
    &&& shown.version == row.version
}

/// Whether shown rows show listed ones, one for one.
pub open spec fn shows_all(shown: Seq<HeadRow>, rows: Seq<HeadRowWire>) -> bool {
    shown.len() == rows.len() && forall|i: int|
        0 <= i < rows.len() ==> shows(#[trigger] shown[i], rows[i])
}

/// Groups rows by kind, for showing.
pub fn group_rows(rows: Vec<HeadRowWire>, contributors: usize) -> (entries: RegistryEntries)
    ensures
        shows_all(entries.programs@, in_bucket(rows@, 0)),
        shows_all(entries.dbroots@, in_bucket(rows@, 1)),
        shows_all(entries.manifests@, in_bucket(rows@, 2)),
        entries.contributors == contributors,
{
    let mut programs: Vec<HeadRow> = Vec::new();
    let mut dbroots: Vec<HeadRow> = Vec::new();
    let mut manifests: Vec<HeadRow> = Vec::new();
    let ghost all = rows@;
    let ghost mut done: int = 0;
    assert(all.take(0) =~= Seq::<HeadRowWire>::empty());
    for row in it: rows
        invariant
            it.seq() == all,
            done == it.index(),
            shows_all(programs@, in_bucket(all.take(done), 0)),
            shows_all(dbroots@, in_bucket(all.take(done), 1)),
            shows_all(manifests@, in_bucket(all.take(done), 2)),
    {
        proof {
            let next = all.take(done + 1);
            assert(next.drop_last() =~= all.take(done));
            assert(next.last() == row);
        }
        let shown = HeadRow {
            owner: hex_encode(row.owner.as_slice()),
            name: row.name,
            cid: hex_encode(row.cid.as_slice()),
            version: row.version,
        };
        if row.rtype == RT_PROGRAM {
            programs.push(shown);
        } else if row.rtype == RT_DBROOT {
            dbroots.push(shown);
        } else {
            manifests.push(shown);
        }
        proof {
            done = done + 1;
        }
    }
    assert(all.take(done) =~= all);
    RegistryEntries { programs, dbroots, manifests, contributors }
}

/// Grouping loses no row: the three listings together are as long as the input.
pub proof fn law_grouping_loses_no_row(rows: Seq<HeadRowWire>)
    ensures
        in_bucket(rows, 0).len() + in_bucket(rows, 1).len() + in_bucket(rows, 2).len()
            == rows.len(),
    decreases rows.len(),
{
    if rows.len() > 0 {
        law_grouping_loses_no_row(rows.drop_last());
    }
}

/// A head out of a database row: one whose owner and content are not 32 bytes is skipped.
pub fn head_entry(owner: &[u8], name: &str, cid: &[u8], version: i64) -> (e: Option<HeadEntry>)
    ensures
        match e {
            Some(e) => {
                &&& e.owner@ == owner@
                &&& e.name@ == name@
                &&& e.cid@ == cid@
                &&& e.version == version as u64
            },
            None => owner@.len() != 32 || cid@.len() != 32,
        },
{
    match (exactly32(owner), exactly32(cid)) {
        (Some(owner), Some(cid)) => Some(
            HeadEntry {
                owner,
                name: String::from_str(name),
                cid,
                version: #[verifier::truncate] (version as u64),
            },
        ),
        _ => None,
    }
}

/// What the registry says of a head held in a shard of the kind `rtype`.
pub open spec fn wire_of(rtype: u8, e: HeadEntry, row: HeadRowWire) -> bool {
    &&& row.rtype == rtype
    &&& row.owner == e.owner
    &&& row.name@ == e.name@
    &&& row.cid == e.cid
    &&& row.version == e.version
}

/// The heads of one shard as a listing.
pub fn head_rows(rtype: u8, entries: &[HeadEntry]) -> (rows: Vec<HeadRowWire>)
    ensures
        rows@.len() == entries@.len(),
        forall|i: int|
            0 <= i < entries@.len() ==> wire_of(rtype, entries@[i], #[trigger] rows@[i]),
{
    let mut rows: Vec<HeadRowWire> = Vec::new();
    let mut i: usize = 0;
    while i < entries.len()
        invariant
            i <= entries@.len(),
            rows@.len() == i,
            forall|j: int| 0 <= j < i ==> wire_of(rtype, entries@[j], #[trigger] rows@[j]),
        decreases entries@.len() - i,
    {
        let e = &entries[i];
        rows.push(
            HeadRowWire {
                rtype,
                owner: e.owner,
                name: e.name.clone(),
                cid: e.cid,
                version: e.version,
            },
        );
        i = i + 1;
    }
    rows
}

/// Whether `self_id` is the writer of a shard in the epoch `eff`.
pub open spec fn written_by(
    sk: ShardKey,
    eligible: Seq<[u8; 32]>,
    eff: u64,
    self_id: [u8; 32],
) -> bool {
    writer_among(replica_set(sk.rtype, sk.shard, eligible), eff, self_id) == self_id
}

/// The shards of `held` that this node writes, in order.
pub open spec fn written(
    held: Seq<ShardKey>,
    eligible: Seq<[u8; 32]>,
    eff: u64,
    self_id: [u8; 32],
) -> Seq<ShardKey> {
    held.filter(|sk: ShardKey| written_by(sk, eligible, eff, self_id))
}

/// Whether this node is the writer of the shard.
pub fn is_writer(sk: ShardKey, eligible: &[[u8; 32]], eff: u64, self_id: &[u8; 32]) -> (yes: bool)
    ensures
        yes == written_by(sk, eligible@, eff, *self_id),
{
    same32(&writer_of(sk, eligible, eff, *self_id), self_id)
}

/// The held shards that a node lists: those that it writes.
pub fn listed_shards(held: &[ShardKey], eligible: &[[u8; 32]], eff: u64, self_id: &[u8; 32]) -> (
    list: Vec<ShardKey>)
    ensures
        list@ == written(held@, eligible@, eff, *self_id),
{
    let mut list: Vec<ShardKey> = Vec::new();
    let ghost pred = |sk: ShardKey| written_by(sk, eligible@, eff, *self_id);
    let mut i: usize = 0;
    proof {
        assert(held@.take(0) =~= Seq::<ShardKey>::empty());
        reveal(Seq::filter);
    }
    while i < held.len()
        invariant
            i <= held@.len(),
            pred == (|sk: ShardKey| written_by(sk, eligible@, eff, *self_id)),
            list@ == held@.take(i as int).filter(pred),
        decreases held@.len() - i,
    {
        proof {
            reveal(Seq::filter);
            let next = held@.take(i + 1);
            assert(next.drop_last() =~= held@.take(i as int));
            assert(next.last() == held@[i as int]);
        }
        if is_writer(held[i], eligible, eff, self_id) {
            list.push(held[i]);
        }
        i = i + 1;
    }
    assert(held@.take(i as int) =~= held@);
    list
}

/// How many heads a node's written shards of one listing hold.
pub open spec fn heads_in(
    counts: Seq<(ShardKey, usize)>,
    bucket: int,
    eligible: Seq<[u8; 32]>,
    eff: u64,
    self_id: [u8; 32],
) -> nat
    decreases counts.len(),
{
    if counts.len() == 0 {
        0
    } else {
        let (sk, n) = counts.last();
        heads_in(counts.drop_last(), bucket, eligible, eff, self_id) + (if bucket_of(sk.rtype)
            == bucket && written_by(sk, eligible, eff, self_id) {
            n as nat
        } else {
            0
        })
    }
}

/// How many program shards a node writes.
pub open spec fn program_shards(
    counts: Seq<(ShardKey, usize)>,
    eligible: Seq<[u8; 32]>,
    eff: u64,
    self_id: [u8; 32],
) -> nat
    decreases counts.len(),
{
    if counts.len() == 0 {
        0
    } else {
        program_shards(counts.drop_last(), eligible, eff, self_id) + (if bucket_of(
            counts.last().0.rtype,
        ) == 0 && written_by(counts.last().0, eligible, eff, self_id) {
            1nat
        } else {
            0
        })
    }
}

/// All heads of the held shards together.
pub open spec fn total_heads(counts: Seq<(ShardKey, usize)>) -> nat
    decreases counts.len(),
{
    if counts.len() == 0 {
        0
    } else {
        total_heads(counts.drop_last()) + counts.last().1 as nat
    }
}

proof fn lemma_heads_bounded(
    counts: Seq<(ShardKey, usize)>,
    i: int,
    eligible: Seq<[u8; 32]>,
    eff: u64,
    self_id: [u8; 32],
)
    requires
        0 <= i <= counts.len(),
    ensures
        heads_in(counts.take(i), 0, eligible, eff, self_id) <= total_heads(counts),
        heads_in(counts.take(i), 1, eligible, eff, self_id) <= total_heads(counts),
        heads_in(counts.take(i), 2, eligible, eff, self_id) <= total_heads(counts),
        program_shards(counts.take(i), eligible, eff, self_id) <= i,
    decreases counts.len(),
{
    if counts.len() > 0 {
        let front = counts.drop_last();
        if i < counts.len() {
            lemma_heads_bounded(front, i, eligible, eff, self_id);
            assert(front.take(i) =~= counts.take(i));
        } else {
            lemma_heads_bounded(front, i - 1, eligible, eff, self_id);
            assert(front.take(i - 1) =~= front);
            assert(counts.take(i) =~= counts);
        }
    } else {
        assert(counts.take(i) =~= counts);
    }
}

/// Roots one after another.
pub open spec fn joined_roots(shards: Seq<(usize, [u8; 32])>) -> Seq<u8>
    decreases shards.len(),
{
    if shards.len() == 0 {
        Seq::empty()
    } else {
        joined_roots(shards.drop_last()) + shards.last().1@
    }
}

/// The heads of shards together.
pub open spec fn joined_count(shards: Seq<(usize, [u8; 32])>) -> nat
    decreases shards.len(),
{
    if shards.len() == 0 {
        0
    } else {
        joined_count(shards.drop_last()) + shards.last().0 as nat
    }
}

proof fn lemma_joined_count_grows(shards: Seq<(usize, [u8; 32])>, i: int)
    requires
        0 <= i <= shards.len(),
    ensures
        joined_count(shards.take(i)) <= joined_count(shards),
    decreases shards.len(),
{
    if i == shards.len() {
        assert(shards.take(i) =~= shards);
    } else {
        lemma_joined_count_grows(shards.drop_last(), i);
        assert(shards.drop_last().take(i) =~= shards.take(i));
    }
}

/// What is gathered once the listings of those that answered are taken in, too.
pub open spec fn absorbed_answers(
    heads: Map<NameKey, Head>,
    answers: Seq<Option<Vec<HeadRowWire>>>,
) -> Map<NameKey, Head>
    decreases answers.len(),
{
    if answers.len() == 0 {
        heads
    } else {
        let front = absorbed_answers(heads, answers.drop_last());
        match answers.last() {
            Some(rows) => absorbed(front, rows@),
            None => front,
        }
    }
}

/// How many answered.
pub open spec fn answered(answers: Seq<Option<Vec<HeadRowWire>>>) -> nat
    decreases answers.len(),
{
    if answers.len() == 0 {
        0
    } else {
        answered(answers.drop_last()) + (if answers.last() is Some {
            1nat
        } else {
            0
        })
    }
}

/// The entries show the rows, which are the union of all listings.
pub open spec fn shows_union(
    entries: RegistryEntries,
    rows: Seq<HeadRowWire>,
    own: Seq<HeadRowWire>,
    answers: Seq<Option<Vec<HeadRowWire>>>,
) -> bool {
    &&& listing(rows) == absorbed_answers(absorbed(Map::empty(), own), answers)
    &&& shows_all(entries.programs@, in_bucket(rows, 0))
    &&& shows_all(entries.dbroots@, in_bucket(rows, 1))
    &&& shows_all(entries.manifests@, in_bucket(rows, 2))
}

impl HeadRegistry {
    /// The status of this node's part: of each shard it holds at the live shard count, `counts`
    /// says how many heads are in it.
    pub fn status(
        &self,
        counts: &[(ShardKey, usize)],
        eligible: &[[u8; 32]],
        now: u64,
        bits: u32,
    ) -> (s: RegistryStatus)
        requires
            bits < 64,
            total_heads(counts@) <= usize::MAX,
        ensures
            s.epoch == epoch_in_effect(now),
            s.eligible == eligible@.len(),
            s.shard_count == pow2(bits as nat),
            s.writer_shards == program_shards(counts@, eligible@, s.epoch, self.self_id),
            s.program_heads == heads_in(counts@, 0, eligible@, s.epoch, self.self_id),
            s.dbroots == heads_in(counts@, 1, eligible@, s.epoch, self.self_id),
            s.manifests == heads_in(counts@, 2, eligible@, s.epoch, self.self_id),
    {
        let epoch: u64 = effective_epoch(now);
        let mut writer_shards: usize = 0;
        let mut program_heads: usize = 0;
        let mut dbroots: usize = 0;
        let mut manifests: usize = 0;
        let mut i: usize = 0;
        assert(counts@.take(0) =~= Seq::<(ShardKey, usize)>::empty());
        while i < counts.len()
            invariant
                i <= counts@.len(),
                total_heads(counts@) <= usize::MAX,
                writer_shards == program_shards(counts@.take(i as int), eligible@, epoch, self.self_id),
                program_heads == heads_in(counts@.take(i as int), 0, eligible@, epoch, self.self_id),
                dbroots == heads_in(counts@.take(i as int), 1, eligible@, epoch, self.self_id),
                manifests == heads_in(counts@.take(i as int), 2, eligible@, epoch, self.self_id),
            decreases counts@.len() - i,
        {
            proof {
                let next = counts@.take(i + 1);
                assert(next.drop_last() =~= counts@.take(i as int));
                assert(next.last() == counts@[i as int]);
                lemma_heads_bounded(counts@, i + 1, eligible@, epoch, self.self_id);
            }
            let (sk, n) = counts[i];
            if is_writer(sk, eligible, epoch, &self.self_id) {
                if sk.rtype == RT_PROGRAM {
                    writer_shards = writer_shards + 1;
                    program_heads = program_heads + n;
                } else if sk.rtype == RT_DBROOT {
                    dbroots = dbroots + n;
                } else {
                    manifests = manifests + n;
                }
            }
            i = i + 1;
        }
        assert(counts@.take(i as int) =~= counts@);
        RegistryStatus {
            epoch,
            eligible: eligible.len(),
            writer_shards,
            shard_count: shard_count(bits),
            program_heads,
            dbroots,
            manifests,
        }
    }

    /// How many heads there are and one hash over all roots, given the size and the root of each
    /// program shard that this node writes.
    pub fn summary(shards: &[(usize, [u8; 32])]) -> (s: (usize, String))
        requires
            joined_count(shards@) <= usize::MAX,
        ensures
            s.0 == joined_count(shards@),
            s.1@ == hex_text(blake3_digest(joined_roots(shards@))),
    {
        let mut count: usize = 0;
        let mut combined: Vec<u8> = Vec::new();
        let mut i: usize = 0;
        assert(shards@.take(0) =~= Seq::<(usize, [u8; 32])>::empty());
        while i < shards.len()
            invariant
                i <= shards@.len(),
                joined_count(shards@) <= usize::MAX,
                count == joined_count(shards@.take(i as int)),
                combined@ == joined_roots(shards@.take(i as int)),
            decreases shards@.len() - i,
        {
            proof {
                let next = shards@.take(i + 1);
                assert(next.drop_last() =~= shards@.take(i as int));
                assert(next.last() == shards@[i as int]);
                lemma_joined_count_grows(shards@, i + 1);
            }
            let (n, root) = shards[i];
            count = count + n;
            push_all(&mut combined, root.as_slice());
            i = i + 1;
        }
        assert(shards@.take(i as int) =~= shards@);
        (count, hex_encode(Cid::of(combined.as_slice()).0.as_slice()))
    }

    /// The heads of this node alone, for showing.
    pub fn entries(rows: Vec<HeadRowWire>) -> (entries: RegistryEntries)
        ensures
            shows_all(entries.programs@, in_bucket(rows@, 0)),
            shows_all(entries.dbroots@, in_bucket(rows@, 1)),
            shows_all(entries.manifests@, in_bucket(rows@, 2)),
            entries.contributors == 1,
    {
        group_rows(rows, 1)
    }

    /// The heads of this node and of all that answered, each at its newest version, for
    /// showing. A node that did not answer has no part in it.
    pub fn entries_global(own: Vec<HeadRowWire>, answers: Vec<Option<Vec<HeadRowWire>>>) -> (entries:
        RegistryEntries)
        requires
            answers@.len() < usize::MAX,
        ensures
            exists|rows: Seq<HeadRowWire>| #[trigger]
                distinct_keys(rows) && shows_union(entries, rows, own@, answers@),
            entries.contributors == 1 + answered(answers@),
    {
        let ghost all = answers@;
        let ghost first = own@;
        let mut g = Gathered::new();
        g.absorb(own);
        let mut contributors: usize = 1;
        let ghost mut done: int = 0;
        assert(all.take(0) =~= Seq::<Option<Vec<HeadRowWire>>>::empty());
        for answer in it: answers
            invariant
                it.seq() == all,
                done == it.index(),
                all.len() < usize::MAX,
                g.wf(),
                g@ == absorbed_answers(absorbed(Map::empty(), first), all.take(done)),
                contributors == 1 + answered(all.take(done)),
                contributors <= 1 + done,
                done <= all.len(),
        {
            proof {
                let next = all.take(done + 1);
                assert(next.drop_last() =~= all.take(done));
                assert(next.last() == answer);
            }
            if let Some(rows) = answer {
                contributors = contributors + 1;
                g.absorb(rows);
            }
            proof {
                done = done + 1;
            }
        }
        assert(all.take(done) =~= all);
        let rows = g.into_rows();
        let ghost listed = rows@;
        let entries = group_rows(rows, contributors);
        assert(distinct_keys(listed) && shows_union(entries, listed, first, all));
        entries
    }
}

/// A row replaces what is known of its name exactly where nothing is, or where its version is the
/// higher; and it touches no other name.
pub proof fn law_a_row_replaces_an_older_one(
    heads: Map<NameKey, Head>,
    row: HeadRowWire,
    other: NameKey,
)
    requires
        other != row.key(),
    ensures
        ({
            let after = absorbed_one(heads, row);
            let known = heads.dom().contains(row.key());
            &&& row.key().rtype == row.rtype
            &&& row.key().owner == row.owner
            &&& row.key().name == row.name@
            &&& after.dom().contains(row.key())
            &&& !known || row.version > heads[row.key()].1 ==> after[row.key()] == (
                row.cid,
                row.version,
            )
            &&& known && row.version <= heads[row.key()].1 ==> after[row.key()] == heads[row.key()]
            &&& after.dom().contains(other) <==> heads.dom().contains(other)
            &&& heads.dom().contains(other) ==> after[other] == heads[other]
        }),
{
}

/// Rows are taken in one after the other, and so are answers; an answer that did not come adds
/// nothing, and is not counted.
pub proof fn law_answers_are_taken_in_turn(
    heads: Map<NameKey, Head>,
    rows: Seq<HeadRowWire>,
    row: HeadRowWire,
    answers: Seq<Option<Vec<HeadRowWire>>>,
    answer: Vec<HeadRowWire>,
)
    ensures
        absorbed(heads, Seq::empty()) == heads,
        absorbed(heads, rows.push(row)) == absorbed_one(absorbed(heads, rows), row),
        absorbed_answers(heads, Seq::empty()) == heads,
        absorbed_answers(heads, answers.push(Some(answer))) == absorbed(
            absorbed_answers(heads, answers),
            answer@,
        ),
        absorbed_answers(heads, answers.push(None)) == absorbed_answers(heads, answers),
        answered(Seq::empty()) == 0,
        answered(answers.push(Some(answer))) == answered(answers) + 1,
        answered(answers.push(None)) == answered(answers),
{
    assert(rows.push(row).drop_last() =~= rows);
    assert(answers.push(Some(answer)).drop_last() =~= answers);
    assert(answers.push(None).drop_last() =~= answers);
}

/// A row is shown in the group of its type and in no other, in order: programs, database roots,
/// and everything else.
pub proof fn law_rows_are_grouped_by_type(rows: Seq<HeadRowWire>, row: HeadRowWire, group: int)
    ensures
        in_bucket(Seq::empty(), group).len() == 0,
        ({
            let its = if row.rtype == 0 {
                0int
            } else if row.rtype == 1 {
                1
            } else {
                2
            };
            &&& group == its ==> in_bucket(rows.push(row), group) == in_bucket(rows, group).push(row)
            &&& group != its ==> in_bucket(rows.push(row), group) == in_bucket(rows, group)
        }),
{
    assert(rows.push(row).drop_last() =~= rows);
}

/// The shards that a node lists are those it holds and writes, and the heads it counts are those
/// of these shards, by type; so that every shard is counted by one node.
pub proof fn law_the_writer_counts(
    counts: Seq<(ShardKey, usize)>,
    sk: ShardKey,
    n: usize,
    group: int,
    eligible: Seq<[u8; 32]>,
    eff: u64,
    self_id: [u8; 32],
)
    ensures
        ({
            let its = if sk.rtype == 0 {
                0int
            } else if sk.rtype == 1 {
                1
            } else {
                2
            };
            let mine = writer_among(replica_set(sk.rtype, sk.shard, eligible), eff, self_id)
                == self_id;
            let more = counts.push((sk, n));
            &&& heads_in(Seq::empty(), group, eligible, eff, self_id) == 0
            &&& program_shards(Seq::empty(), eligible, eff, self_id) == 0
            &&& total_heads(Seq::empty()) == 0
            &&& mine && group == its ==> heads_in(more, group, eligible, eff, self_id) == heads_in(
                counts,
                group,
                eligible,
                eff,
                self_id,
            ) + n
            &&& !mine || group != its ==> heads_in(more, group, eligible, eff, self_id) == heads_in(
                counts,
                group,
                eligible,
                eff,
                self_id,
            )
            &&& mine && sk.rtype == 0 ==> program_shards(more, eligible, eff, self_id)
                == program_shards(counts, eligible, eff, self_id) + 1
            &&& !mine || sk.rtype != 0 ==> program_shards(more, eligible, eff, self_id)
                == program_shards(counts, eligible, eff, self_id)
            &&& total_heads(more) == total_heads(counts) + n
            &&& written_by(sk, eligible, eff, self_id) <==> mine
        }),
{
    assert(counts.push((sk, n)).drop_last() =~= counts);
}

/// A shard is listed exactly where it is held and written here.
pub proof fn law_written_shards_are_listed(
    held: Seq<ShardKey>,
    sk: ShardKey,
    eligible: Seq<[u8; 32]>,
    eff: u64,
    self_id: [u8; 32],
)
    ensures
        written(held, eligible, eff, self_id).contains(sk) <==> held.contains(sk) && writer_among(
            replica_set(sk.rtype, sk.shard, eligible),
            eff,
            self_id,
        ) == self_id,
{
    let keep = |k: ShardKey| written_by(k, eligible, eff, self_id);
    crate::headreg::registry::lemma_filter_member(held, keep, sk);
    assert(written(held, eligible, eff, self_id) == held.filter(keep));
    assert(keep(sk) <==> written_by(sk, eligible, eff, self_id));
}

/// A summary joins the roots of the shards in turn, and adds up their heads.
pub proof fn law_summaries_add_up(shards: Seq<(usize, [u8; 32])>, n: usize, root: [u8; 32])
    ensures
        joined_roots(Seq::empty()).len() == 0,
        joined_count(Seq::empty()) == 0,
        joined_roots(shards.push((n, root))) == joined_roots(shards) + root@,
        joined_count(shards.push((n, root))) == joined_count(shards) + n,
{
    assert(shards.push((n, root)).drop_last() =~= shards);
}

/// A stored row is read as the head it is, and left out only where its keys are not of 32 bytes;
/// and a head is sent as the row it is, under its type.
pub proof fn law_heads_are_sent_as_they_are(
    owner: &[u8],
    name: &str,
    cid: &[u8],
    version: i64,
    e: Option<HeadEntry>,
    rtype: u8,
    entries: &[HeadEntry],
    rows: Vec<HeadRowWire>,
    i: int,
)
    requires
        call_ensures(head_entry, (owner, name, cid, version), e),
        call_ensures(head_rows, (rtype, entries), rows),
        0 <= i < entries@.len(),
    ensures
        e is None ==> owner@.len() != 32 || cid@.len() != 32,
        e matches Some(h) ==> h.owner@ == owner@ && h.name@ == name@ && h.cid@ == cid@ && (version
            >= 0 ==> h.version == version),
        rows@.len() == entries@.len(),
        rows@[i].rtype == rtype && rows@[i].owner == entries@[i].owner && rows@[i].name@
            == entries@[i].name@ && rows@[i].cid == entries@[i].cid && rows@[i].version
            == entries@[i].version,
{
    assert(wire_of(rtype, entries@[i], rows@[i]));
}

/// What is listed of the whole network: every head that this node or anybody who answered knows,
/// once, in its newest version, and who contributed.
pub proof fn law_the_network_is_listed_once(
    own: Vec<HeadRowWire>,
    answers: Vec<Option<Vec<HeadRowWire>>>,
    entries: RegistryEntries,
)
    requires
        answers@.len() < usize::MAX,
        call_ensures(HeadRegistry::entries_global, (own, answers), entries),
    ensures
        answers@.len() == 0 ==> entries.contributors == 1,
        entries.contributors == 1 + answered(answers@),
        exists|rows: Seq<HeadRowWire>| #[trigger]
            distinct_keys(rows) && entries.programs@.len() + entries.dbroots@.len()
                + entries.manifests@.len() == rows.len() && listing(rows) == absorbed_answers(
                absorbed(Map::empty(), own@),
                answers@,
            ),
{
    let rows = choose|rows: Seq<HeadRowWire>| #[trigger]
        distinct_keys(rows) && shows_union(entries, rows, own@, answers@);
    law_grouping_loses_no_row(rows);
}

} // verus!
