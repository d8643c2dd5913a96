//! The index of the shards that this node has state for.

use crate::headreg::shard::ShardKey;
use vstd::prelude::*;

verus! {

/// A number in groups of seven bits, the lowest first, each but the last marked by the high
/// bit of its byte.
pub open spec fn varint(n: nat) -> Seq<u8>
    decreases n,
{
    if n < 128 {
        seq![n as u8]
    } else {
        seq![(n % 128 + 128) as u8] + varint(n / 128)
    }
}

/// The postcard forms of shards, one after the other.
pub open spec fn shards_bytes(list: Seq<(u8, u32, u64)>) -> Seq<u8>
    decreases list.len(),
{
    if list.len() == 0 {
        Seq::empty()
    } else {
        let (rtype, bits, shard) = list.last();
        shards_bytes(list.drop_last()) + seq![rtype] + varint(bits as nat) + varint(shard as nat)
    }
}

/// The postcard form of a list of shards: how many there are, then each of them.
pub open spec fn postcard_of_shards(list: Seq<(u8, u32, u64)>) -> Seq<u8> {
    varint(list.len()) + shards_bytes(list)
}

/// The list of shards that bytes are the postcard form of, where they are one.
pub uninterp spec fn shards_of_postcard(bytes: Seq<u8>) -> Option<Seq<(u8, u32, u64)>>;

/// `postcard::to_allocvec` on a list of shards never fails. It gives the number of shards and
/// each shard's numbers, the first as a byte and the others in groups of seven bits, and
/// `postcard::from_bytes` reads it back as that list.
#[verifier::external_body]
fn encode_shards(list: &Vec<(u8, u32, u64)>) -> (bytes: Option<Vec<u8>>)
    ensures
        match bytes {
            Some(b) => b@ == postcard_of_shards(list@) && shards_of_postcard(b@) == Some(list@),
            None => false,
        },
{
    postcard::to_allocvec(list).ok()
}

/// Where bytes are the postcard form of a list, that list was read.
pub open spec fn reads_back(bytes: Seq<u8>, list: Option<Vec<(u8, u32, u64)>>) -> bool {
    forall|l: Seq<(u8, u32, u64)>|
        bytes == #[trigger] postcard_of_shards(l) ==> (list matches Some(x) && x@ == l)
}

/// `postcard::from_bytes` to a list of shards. What comes out depends on the bytes alone, and
/// the postcard form of a list comes out as that list. Of other bytes no more is said: a longer
/// form of a number may be read too, and bytes behind the list are ignored.
#[verifier::external_body]
fn decode_shards(bytes: &[u8]) -> (list: Option<Vec<(u8, u32, u64)>>)
    ensures
        match list {
            Some(l) => shards_of_postcard(bytes@) == Some(l@),
            None => shards_of_postcard(bytes@) is None,
        },
        reads_back(bytes@, list),
{
    postcard::from_bytes::<Vec<(u8, u32, u64)>>(bytes).ok()
}

/// The index of the shards that this node has state for, each once.
#[derive(Debug)]
pub struct HeldIndex {
    keys: Vec<ShardKey>,
}

/// The shard that a triple stands for.
pub open spec fn key_of(t: (u8, u32, u64)) -> ShardKey {
    ShardKey { rtype: t.0, bits: t.1, shard: t.2 }
}

/// The triple that stands for a shard.
pub open spec fn triple_of(sk: ShardKey) -> (u8, u32, u64) {
    (sk.rtype, sk.bits, sk.shard)
}

/// The shards that a stored index stands for: those listed, or none where the bytes are not
/// a list.
pub open spec fn stored_shards(raw: Seq<u8>) -> Set<ShardKey> {
    match shards_of_postcard(raw) {
        Some(list) => Set::new(
            |sk: ShardKey| list.contains(triple_of(sk)),
        ),
        None => Set::empty(),
    }
}

impl View for HeldIndex {
    type V = Set<ShardKey>;

    closed spec fn view(&self) -> Set<ShardKey> {
        self.keys@.to_set()
    }
}

impl HeldIndex {
    /// No shard stands in the index twice.
    pub closed spec fn wf(&self) -> bool {
        self.keys@.no_duplicates()
    }

    /// An empty index.
    pub fn new() -> (index: HeldIndex)
        ensures
            index.wf(),
            index@ == Set::<ShardKey>::empty(),
    {
        let index = HeldIndex { keys: Vec::new() };
        assert(index@ =~= Set::<ShardKey>::empty());
        index
    }

    /// Whether the shard is held.
    pub fn contains(&self, sk: &ShardKey) -> (held: bool)
        ensures
            held == self@.contains(*sk),
    {
        let mut i: usize = 0;
        while i < self.keys.len()
            invariant
                i <= self.keys@.len(),
                forall|j: int| 0 <= j < i ==> self.keys@[j] != *sk,
            decreases self.keys@.len() - i,
        {
            if self.keys[i] == *sk {
                assert(self.keys@[i as int] == *sk);
                assert(self.keys@.contains(*sk));
                return true;
            }
            i = i + 1;
        }
        assert(!self.keys@.contains(*sk));
        false
    }

    /// Adds a shard. Says whether it was new, so that the index must be stored again.
    pub fn add(&mut self, sk: ShardKey) -> (new: bool)
        requires
            old(self).wf(),
        ensures
            final(self).wf(),
            final(self)@ == old(self)@.insert(sk),
            new == !old(self)@.contains(sk),
    {
        if self.contains(&sk) {
            assert(self@.insert(sk) =~= self@);
            return false;
        }
        let ghost before = self.keys@;
        self.keys.push(sk);
        proof {
            let after = self.keys@;
            assert forall|x: ShardKey| after.to_set().contains(x) <==> before.to_set().insert(
                sk,
            ).contains(x) by {
                if before.contains(x) {
                    let i = choose|i: int| 0 <= i < before.len() && before[i] == x;
                    assert(after[i] == x);
                }
                if x == sk {
                    assert(after[before.len() as int] == x);
                }
                if after.contains(x) && x != sk {
                    let i = choose|i: int| 0 <= i < after.len() && after[i] == x;
                    assert(before[i] == x);
                }
            }
            assert(after.to_set() =~= before.to_set().insert(sk));
            assert forall|i: int, j: int| 0 <= i < after.len() && 0 <= j < after.len() && i
                != j implies after[i] != after[j] by {
                if i < before.len() && j < before.len() {
                    assert(before[i] != before[j]);
                } else if i < before.len() {
                    assert(before.contains(before[i]));
                    assert(before.to_set().contains(before[i]));
                } else if j < before.len() {
                    assert(before.contains(before[j]));
                    assert(before.to_set().contains(before[j]));
                }
            }
        }
        true
    }

    /// The shards held at one shard count, of one kind or of all.
    pub fn shards(&self, rtype: Option<u8>, bits: u32) -> (list: Vec<ShardKey>)
        requires
            self.wf(),
        ensures
            list@.no_duplicates(),
            forall|sk: ShardKey| #[trigger]
                list@.contains(sk) <==> self@.contains(sk) && sk.bits == bits && (rtype is Some
                    ==> rtype == Some(sk.rtype)),
    {
        self.pick(rtype, bits, true)
    }

    /// The held shards for which being of the kind and shard count is `wanted`.
    fn pick(&self, rtype: Option<u8>, bits: u32, wanted: bool) -> (list: Vec<ShardKey>)
        requires
            self.wf(),
        ensures
            list@.no_duplicates(),
            forall|sk: ShardKey| #[trigger]
                list@.contains(sk) <==> self@.contains(sk) && wanted == (sk.bits == bits && (
                rtype is Some ==> rtype == Some(sk.rtype))),
    {
        let mut list: Vec<ShardKey> = Vec::new();
        let mut i: usize = 0;
        while i < self.keys.len()
            invariant
                self.wf(),
                i <= self.keys@.len(),
                list@.no_duplicates(),
                forall|sk: ShardKey| #[trigger]
                    list@.contains(sk) <==> self.keys@.take(i as int).contains(sk) && wanted == (
                    sk.bits == bits && (rtype is Some ==> rtype == Some(sk.rtype))),
            decreases self.keys@.len() - i,
        {
            let sk = self.keys[i];
            let kind = match rtype {
                Some(r) => r == sk.rtype,
                None => true,
            };
            let ghost before = list@;
            let ghost done = self.keys@.take(i as int);
            let ghost next = self.keys@.take(i + 1);
            let hit = sk.bits == bits && kind;
            if hit == wanted {
                list.push(sk);
            }
            proof {
                assert(next =~= done.push(sk));
                if done.contains(sk) {
                    let p = choose|p: int| 0 <= p < done.len() && done[p] == sk;
                    assert(self.keys@[p] == self.keys@[i as int]);
                }
                assert forall|x: ShardKey| #[trigger] list@.contains(x) <==> next.contains(x)
                    && wanted == (x.bits == bits && (rtype is Some ==> rtype == Some(x.rtype))) by {
                    if done.contains(x) {
                        let p = choose|p: int| 0 <= p < done.len() && done[p] == x;
                        assert(next[p] == x);
                    }
                    if x == sk {
                        assert(next[i as int] == x);
                    }
                    if next.contains(x) && x != sk {
                        let p = choose|p: int| 0 <= p < next.len() && next[p] == x;
                        assert(done[p] == x);
                    }
                    if before.contains(x) {
                        let p = choose|p: int| 0 <= p < before.len() && before[p] == x;
                        assert(list@[p] == x);
                    }
                    if list@.contains(x) && !before.contains(x) {
                        let p = choose|p: int| 0 <= p < list@.len() && list@[p] == x;
                        if p < before.len() {
                            assert(before[p] == x);
                        }
                        assert(x == sk);
                    }
                    if hit == wanted && x == sk {
                        assert(list@[before.len() as int] == x);
                    }
                }
                assert forall|a: int, b: int| 0 <= a < list@.len() && 0 <= b < list@.len() && a
                    != b implies list@[a] != list@[b] by {
                    if a < before.len() && b < before.len() {
                        assert(before[a] != before[b]);
                    } else if a < before.len() {
                        assert(before.contains(before[a]));
                    } else if b < before.len() {
                        assert(before.contains(before[b]));
                    }
                }
            }
            i = i + 1;
        }
        assert(self.keys@.take(i as int) =~= self.keys@);
        list
    }

    /// Drops every shard of one shard count. Says which were dropped.
    pub fn forget_generation(&mut self, bits: u32) -> (dropped: Vec<ShardKey>)
        requires
            old(self).wf(),
        ensures
            final(self).wf(),
            forall|sk: ShardKey| #[trigger]
                final(self)@.contains(sk) <==> old(self)@.contains(sk) && sk.bits != bits,
            dropped@.no_duplicates(),
            forall|sk: ShardKey| #[trigger]
                dropped@.contains(sk) <==> old(self)@.contains(sk) && sk.bits == bits,
    {
        let dropped = self.shards(None, bits);
        let kept = self.pick(None, bits, false);
        self.keys = kept;
        dropped
    }

    /// Reads a stored index; bytes that are no index stand for an empty one.
    pub fn load(raw: &[u8]) -> (index: HeldIndex)
        ensures
            index.wf(),
            index@ == stored_shards(raw@),
    {
        let mut index = HeldIndex::new();
        match decode_shards(raw) {
            None => {},
            Some(list) => {
                let mut i: usize = 0;
                assert(list@.take(0) =~= Seq::<(u8, u32, u64)>::empty());
                while i < list.len()
                    invariant
                        i <= list@.len(),
                        index.wf(),
                        forall|sk: ShardKey| #[trigger]
                            index@.contains(sk) <==> list@.take(i as int).contains(triple_of(sk)),
                    decreases list@.len() - i,
                {
                    let (rtype, bits, shard) = list[i];
                    let ghost done = list@.take(i as int);
                    let ghost next = list@.take(i + 1);
                    let ghost before = index@;
                    let added = ShardKey { rtype, bits, shard };
                    let _ = index.add(added);
                    proof {
                        assert(next =~= done.push(list@[i as int]));
                        assert forall|sk: ShardKey| #[trigger] index@.contains(sk)
                            <==> next.contains(triple_of(sk)) by {
                            let t = triple_of(sk);
                            assert(before.contains(sk) <==> done.contains(t));
                            if done.contains(t) {
                                let p = choose|p: int| 0 <= p < done.len() && done[p] == t;
                                assert(next[p] == t);
                            }
                            if sk == added {
                                assert(next[i as int] == t);
                            }
                            if next.contains(t) && sk != added {
                                let p = choose|p: int| 0 <= p < next.len() && next[p] == t;
                                assert(p < i) by {
                                    if p == i {
                                        assert(key_of(t) == sk);
                                        assert(key_of(list@[i as int]) == added);
                                    }
                                }
                                assert(done[p] == t);
                            }
                        }
                    }
                    i = i + 1;
                }
                assert(list@.take(i as int) =~= list@);
            },
        }
        assert(index@ =~= stored_shards(raw@));
        index
    }

    /// Whether the index must be rebuilt by probing every shard: none was ever stored.
    pub fn backfill_needed(raw: &[u8]) -> (yes: bool)
        ensures
            yes == (raw@.len() == 0),
    {
        raw.len() == 0
    }

    /// The index of the shards that probing found.
    pub fn backfill(found: &[ShardKey]) -> (index: HeldIndex)
        ensures
            index.wf(),
            index@ == found@.to_set(),
    {
        let mut index = HeldIndex::new();
        let mut i: usize = 0;
        assert(found@.take(0).to_set() =~= Set::<ShardKey>::empty());
        while i < found.len()
            invariant
                i <= found@.len(),
                index.wf(),
                index@ == found@.take(i as int).to_set(),
            decreases found@.len() - i,
        {
            let _ = index.add(found[i]);
            proof {
                let done = found@.take(i as int);
                let next = found@.take(i + 1);
                assert(next =~= done.push(found@[i as int]));
                assert forall|sk: ShardKey| index@.contains(sk) <==> next.to_set().contains(
                    sk,
                ) by {
                    if done.contains(sk) {
                        let p = choose|p: int| 0 <= p < done.len() && done[p] == sk;
                        assert(next[p] == sk);
                    }
                    if sk == found@[i as int] {
                        assert(next[i as int] == sk);
                    }
                    if next.contains(sk) && sk != found@[i as int] {
                        let p = choose|p: int| 0 <= p < next.len() && next[p] == sk;
                        assert(done[p] == sk);
                    }
                }
                assert(index@ =~= next.to_set());
            }
            i = i + 1;
        }
        assert(found@.take(i as int) =~= found@);
        index
    }

    /// The index in the form in which it is stored.
    pub fn encode(&self) -> (raw: Vec<u8>)
        requires
            self.wf(),
        ensures
            stored_shards(raw@) == self@,
            exists|list: Seq<(u8, u32, u64)>|
                raw@ == #[trigger] postcard_of_shards(list) && list.no_duplicates() && forall|
                    sk: ShardKey,
                | #[trigger] list.contains(triple_of(sk)) <==> self@.contains(sk),
    {
        let mut list: Vec<(u8, u32, u64)> = Vec::new();
        let mut i: usize = 0;
        while i < self.keys.len()
            invariant
                i <= self.keys@.len(),
                list@.len() == i,
                forall|j: int| 0 <= j < i ==> #[trigger] list@[j] == triple_of(self.keys@[j]),
            decreases self.keys@.len() - i,
        {
            let sk = self.keys[i];
            list.push((sk.rtype, sk.bits, sk.shard));
            i = i + 1;
        }
        proof {
            assert forall|sk: ShardKey| list@.contains(triple_of(sk)) <==> self@.contains(sk) by {
                if list@.contains(triple_of(sk)) {
                    let j = choose|j: int| 0 <= j < list@.len() && list@[j] == triple_of(sk);
                    assert(triple_of(self.keys@[j]) == triple_of(sk));
                    assert(self.keys@[j] == sk);
                    assert(self.keys@.contains(sk));
                }
                if self@.contains(sk) {
                    let j = choose|j: int| 0 <= j < self.keys@.len() && self.keys@[j] == sk;
                    assert(list@[j] == triple_of(sk));
                }
            }
        }
        assert(list@.no_duplicates()) by {
            assert forall|a: int, b: int| 0 <= a < list@.len() && 0 <= b < list@.len() && a
                != b implies list@[a] != list@[b] by {
                assert(self.keys@[a] != self.keys@[b]);
                assert(key_of(list@[a]) == self.keys@[a] && key_of(list@[b]) == self.keys@[b]);
            }
        }
        match encode_shards(&list) {
            Some(b) => {
                assert(stored_shards(b@) =~= self@);
                b
            },
            None => Vec::new(),
        }
    }
}

/// What calls on the index come to: a shard that was added is held, and new exactly where it was
/// not; the shards of a count that is forgotten are dropped, all of them and no others.
pub proof fn law_shards_are_held_until_forgotten(
    index: &mut HeldIndex,
    later: &mut HeldIndex,
    sk: ShardKey,
    new: bool,
    held: bool,
    bits: u32,
    dropped: Vec<ShardKey>,
    still: bool,
    other: ShardKey,
)
    requires
        call_ensures(HeldIndex::add, (index, sk), new),
        call_ensures(HeldIndex::contains, (final(index), &sk), held),
        old(later)@ == final(index)@,
        call_ensures(HeldIndex::forget_generation, (later, bits), dropped),
        call_ensures(HeldIndex::contains, (final(later), &sk), still),
        other != sk,
    ensures
        held,
        new <==> !old(index)@.contains(sk),
        final(index)@.contains(other) <==> old(index)@.contains(other),
        still <==> sk.bits != bits,
        dropped@.contains(sk) <==> sk.bits == bits,
        final(later)@.contains(other) <==> old(index)@.contains(other) && other.bits != bits,
{
}

/// What is listed of the index: the shards of the count asked for, and of the type where one is.
pub proof fn law_shards_are_listed_by_count_and_type(
    index: HeldIndex,
    rtype: u8,
    bits: u32,
    some: Vec<ShardKey>,
    all: Vec<ShardKey>,
    sk: ShardKey,
)
    requires
        call_ensures(HeldIndex::shards, (&index, Some(rtype), bits), some),
        call_ensures(HeldIndex::shards, (&index, None, bits), all),
    ensures
        all@.contains(sk) <==> index@.contains(sk) && sk.bits == bits,
        some@.contains(sk) <==> all@.contains(sk) && sk.rtype == rtype,
        all@.no_duplicates(),
        some@.no_duplicates(),
{
}

/// An index that was written reads back, and one is rebuilt from the shards that are found exactly
/// where nothing was written.
pub proof fn law_the_index_reads_back(
    index: HeldIndex,
    raw: Vec<u8>,
    stored: &[u8],
    back: HeldIndex,
    needed: bool,
    found: &[ShardKey],
    built: HeldIndex,
    sk: ShardKey,
)
    requires
        call_ensures(HeldIndex::encode, (&index,), raw),
        call_ensures(HeldIndex::load, (stored,), back),
        call_ensures(HeldIndex::backfill_needed, (stored,), needed),
        call_ensures(HeldIndex::backfill, (found,), built),
    ensures
        stored@ == raw@ ==> back@ == index@,
        needed <==> stored@.len() == 0,
        built@.contains(sk) <==> found@.contains(sk),
{
}

} // verus!
