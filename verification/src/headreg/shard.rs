//! Shards: where a name lives, under which count, and where it moves when the count changes.

use crate::bytes::{push_all, read_le, Cid};
use crate::digest::blake3_digest;
use crate::text::{decimal, lemma_decimal_injective, lemma_decimal_prefix, push_decimal};
use std::collections::HashMap;
use vstd::arithmetic::power2::{lemma_pow2_adds, lemma_pow2_pos, lemma2_to64, pow2};
use vstd::prelude::*;
use vstd::string::*;
use vstd::utf8::encode_utf8;

verus! {

/// Program heads.
pub const RT_PROGRAM: u8 = 0;

/// Database roots.
pub const RT_DBROOT: u8 = 1;

/// Durability manifests.
pub const RT_MANIFEST: u8 = 2;

/// The shard-count exponent where governance sets none.
pub const DEFAULT_SHARD_BITS: u32 = 8;

/// The largest shard-count exponent.
pub const MAX_SHARD_BITS: u32 = 12;

/// One shard of one kind, at one shard count.
#[derive(Clone, Copy, Debug, PartialEq, Eq, Structural)]
pub struct ShardKey {
    pub rtype: u8,
    /// The shard-count exponent that the shard belongs to.
    pub bits: u32,
    pub shard: u64,
}

/// A head: what a name of an owner stands for.
#[derive(Debug)]
pub struct HeadEntry {
    pub owner: [u8; 32],
    pub name: String,
    pub cid: [u8; 32],
    pub version: u64,
}

impl Clone for HeadEntry {
    fn clone(&self) -> (copy: HeadEntry)
        ensures
            copy == *self,
    {
        HeadEntry {
            owner: self.owner,
            name: self.name.clone(),
            cid: self.cid,
            version: self.version,
        }
    }
}

/// The number that the first eight bytes of a key's hash spell, least significant first.
pub open spec fn key_number(owner: [u8; 32], name: Seq<char>) -> nat {
    crate::bytes::le_value(blake3_digest(owner@ + encode_utf8(name)).take(8))
}

/// The shard of a key at `2^bits` shards: the low `bits` bits of its number.
pub open spec fn shard_at(owner: [u8; 32], name: Seq<char>, bits: u32) -> nat {
    key_number(owner, name) % pow2(bits as nat)
}

/// The number of shards at the exponent `bits`.
pub fn shard_count(bits: u32) -> (count: u64)
    requires
        bits < 64,
    ensures
        count == pow2(bits as nat),
{
    let shift: u64 = bits as u64;
    proof {
        lemma_pow2_fits(bits);
        vstd::bits::lemma_u64_shl_is_mul(1, shift);
    }
    1u64 << shift
}

proof fn lemma_pow2_fits(bits: u32)
    requires
        bits < 64,
    ensures
        0 < pow2(bits as nat) <= 0x8000_0000_0000_0000,
{
    lemma_pow2_pos(bits as nat);
    lemma2_to64();
    if bits < 63 {
        vstd::arithmetic::power2::lemma_pow2_strictly_increases(bits as nat, 63);
    }
    assert(pow2(63) == 0x8000_0000_0000_0000) by {
        lemma_pow2_adds(31, 32);
    }
}

/// The shard of the key (`owner`, `name`) at the exponent `bits`. Every read and write of a
/// key is routed by this and nothing else.
pub fn shard_of(owner: &[u8; 32], name: &str, bits: u32) -> (shard: u64)
    requires
        bits < 64,
    ensures
        shard == shard_at(*owner, name@, bits),
{
    let mut key: Vec<u8> = Vec::new();
    push_all(&mut key, owner.as_slice());
    push_all(&mut key, name.as_bytes());
    assert(key@ =~= owner@ + encode_utf8(name@));
    let h = Cid::of(key.as_slice()).0;
    let mut head: Vec<u8> = Vec::new();
    let mut i: usize = 0;
    while i < 8
        invariant
            i <= 8,
            head@ == h@.take(i as int),
        decreases 8 - i,
    {
        head.push(h[i]);
        i = i + 1;
        assert(head@ =~= h@.take(i as int));
    }
    let full: u64 = read_le(head.as_slice());
    let count: u64 = shard_count(bits);
    proof {
        lemma_pow2_fits(bits);
    }
    full % count
}

/// A key's shard is one of those that there are.
pub proof fn law_shards_are_in_range(owner: [u8; 32], name: Seq<char>, bits: u32)
    ensures
        shard_at(owner, name, bits) < pow2(bits as nat),
{
    lemma_pow2_pos(bits as nat);
}

/// Doubling the shard count sends the keys of a shard only to the shard of the same number
/// and to the one that is as far behind it as there were shards.
pub proof fn law_growth_splits_locally(owner: [u8; 32], name: Seq<char>, bits: u32)
    requires
        bits < u32::MAX,
    ensures
        shard_at(owner, name, (bits + 1) as u32) % pow2(bits as nat) == shard_at(owner, name, bits),
        shard_at(owner, name, (bits + 1) as u32) == shard_at(owner, name, bits) || shard_at(
            owner,
            name,
            (bits + 1) as u32,
        ) == shard_at(owner, name, bits) + pow2(bits as nat),
{
    let x = key_number(owner, name) as int;
    let p = pow2(bits as nat) as int;
    lemma_pow2_pos(bits as nat);
    lemma_pow2_adds(bits as nat, 1);
    lemma2_to64();
    assert(pow2((bits + 1) as nat) == 2 * p);
    vstd::arithmetic::div_mod::lemma_mod_mod(x, p, 2);
    let child = x % (2 * p);
    assert(child % p == x % p) by {
        assert(p * 2 == 2 * p);
    }
    vstd::arithmetic::div_mod::lemma_fundamental_div_mod(child, p);
    assert(0 <= child < 2 * p) by {
        vstd::arithmetic::div_mod::lemma_mod_bound(x, 2 * p);
    }
    assert(child / p == 0 || child / p == 1) by (nonlinear_arith)
        requires
            0 <= child < 2 * p,
            p > 0,
    ;
    assert(p * (child / p) == 0 || p * (child / p) == p) by (nonlinear_arith)
        requires
            child / p == 0 || child / p == 1,
    ;
}

/// The exponent that a governed value stands for: itself, held to what is allowed, or the
/// default where it is unset.
pub open spec fn governed_bits(governed: Option<i64>) -> u32 {
    match governed {
        None => DEFAULT_SHARD_BITS,
        Some(v) => if v < 1 {
            1
        } else if v > MAX_SHARD_BITS {
            MAX_SHARD_BITS
        } else {
            v as u32
        },
    }
}

/// The live shard-count exponent.
pub fn resolve_shard_bits(governed: Option<i64>) -> (bits: u32)
    ensures
        bits == governed_bits(governed),
        1 <= bits <= MAX_SHARD_BITS,
{
    match governed {
        None => DEFAULT_SHARD_BITS,
        Some(v) => if v < 1 {
            1
        } else if v > 12 {
            MAX_SHARD_BITS
        } else {
            v as u32
        },
    }
}

/// The entries that go to `shard` at the exponent `bits`, in order.
pub open spec fn bucket(entries: Seq<HeadEntry>, bits: u32, shard: u64) -> Seq<HeadEntry>
    decreases entries.len(),
{
    if entries.len() == 0 {
        entries
    } else {
        let front = bucket(entries.drop_last(), bits, shard);
        let e = entries.last();
        if shard_at(e.owner, e.name@, bits) == shard {
            front.push(e)
        } else {
            front
        }
    }
}

/// Groups entries by their shard at the exponent `new_bits`.
pub fn rebucket_entries(entries: &[HeadEntry], new_bits: u32) -> (grouped: HashMap<
    u64,
    Vec<HeadEntry>,
>)
    requires
        new_bits < 64,
    ensures
        forall|shard: u64| #[trigger]
            grouped@.contains_key(shard) <==> bucket(entries@, new_bits, shard).len() > 0,
        forall|shard: u64| #[trigger]
            grouped@.contains_key(shard) ==> grouped@[shard]@ == bucket(
                entries@,
                new_bits,
                shard,
            ),
{
    broadcast use vstd::std_specs::hash::group_hash_axioms;

    let mut grouped: HashMap<u64, Vec<HeadEntry>> = HashMap::new();
    let mut i: usize = 0;
    assert(entries@.take(0) =~= Seq::<HeadEntry>::empty());
    while i < entries.len()
        invariant
            i <= entries@.len(),
            new_bits < 64,
            forall|shard: u64| #[trigger]
                grouped@.contains_key(shard) <==> bucket(
                    entries@.take(i as int),
                    new_bits,
                    shard,
                ).len() > 0,
            forall|shard: u64| #[trigger]
                grouped@.contains_key(shard) ==> grouped@[shard]@ == bucket(
                    entries@.take(i as int),
                    new_bits,
                    shard,
                ),
        decreases entries@.len() - i,
    {
        let e = &entries[i];
        let shard: u64 = shard_of(&e.owner, e.name.as_str(), new_bits);
        let mut group: Vec<HeadEntry> = match grouped.remove(&shard) {
            Some(group) => group,
            None => Vec::new(),
        };
        let ghost before = entries@.take(i as int);
        assert(group@ =~= bucket(before, new_bits, shard));
        group.push(e.clone());
        grouped.insert(shard, group);
        proof {
            let next = entries@.take(i + 1);
            assert(next.drop_last() =~= before);
            assert(next.last() == *e);
            assert(bucket(next, new_bits, shard) =~= bucket(before, new_bits, shard).push(*e));
        }
        i = i + 1;
    }
    assert(entries@.take(i as int) =~= entries@);
    grouped
}

/// How many entries are in the buckets of the first `n` shards together.
pub open spec fn bucketed(entries: Seq<HeadEntry>, bits: u32, n: nat) -> nat
    decreases n,
{
    if n == 0 {
        0
    } else {
        bucketed(entries, bits, (n - 1) as nat) + bucket(entries, bits, (n - 1) as u64).len()
    }
}

proof fn lemma_bucketed_step(entries: Seq<HeadEntry>, bits: u32, n: nat)
    requires
        entries.len() > 0,
        n <= u64::MAX,
    ensures
        bucketed(entries, bits, n) == bucketed(entries.drop_last(), bits, n) + (if shard_at(
            entries.last().owner,
            entries.last().name@,
            bits,
        ) < n {
            1nat
        } else {
            0nat
        }),
    decreases n,
{
    if n > 0 {
        lemma_bucketed_step(entries, bits, (n - 1) as nat);
    }
}

proof fn lemma_bucketed_empty(bits: u32, n: nat)
    ensures
        bucketed(Seq::empty(), bits, n) == 0,
    decreases n,
{
    if n > 0 {
        lemma_bucketed_empty(bits, (n - 1) as nat);
    }
}

/// Regrouping loses nothing and doubles nothing: the buckets of all shards together hold as
/// many entries as there are, and each entry stands in the bucket of its own shard.
pub proof fn law_rebucketing_partitions(entries: Seq<HeadEntry>, bits: u32)
    requires
        bits < 64,
    ensures
        bucketed(entries, bits, pow2(bits as nat)) == entries.len(),
        forall|i: int|
            0 <= i < entries.len() ==> bucket(
                entries,
                bits,
                shard_at((#[trigger] entries[i]).owner, entries[i].name@, bits) as u64,
            ).contains(entries[i]),
    decreases entries.len(),
{
    lemma_pow2_fits(bits);
    let n = pow2(bits as nat);
    if entries.len() == 0 {
        assert(entries =~= Seq::<HeadEntry>::empty());
        lemma_bucketed_empty(bits, n);
    } else {
        let front = entries.drop_last();
        let e = entries.last();
        law_rebucketing_partitions(front, bits);
        lemma_bucketed_step(entries, bits, n);
        law_shards_are_in_range(e.owner, e.name@, bits);
        assert forall|i: int| 0 <= i < entries.len() implies bucket(
            entries,
            bits,
            shard_at((#[trigger] entries[i]).owner, entries[i].name@, bits) as u64,
        ).contains(entries[i]) by {
            let x = entries[i];
            let shard = shard_at(x.owner, x.name@, bits) as u64;
            law_shards_are_in_range(x.owner, x.name@, bits);
            let fb = bucket(front, bits, shard);
            let b = bucket(entries, bits, shard);
            if i < front.len() {
                assert(front[i] == x);
                let k = choose|k: int| 0 <= k < fb.len() && fb[k] == x;
                assert(b[k] == x);
            } else {
                assert(b[fb.len() as int] == x);
            }
        }
    }
}

/// The text that names a shard: a word, then the three numbers, parted by `sep`.
pub open spec fn shard_label(word: Seq<char>, sep: char, sk: ShardKey) -> Seq<char> {
    word + (decimal(sk.rtype as nat) + seq![sep] + (decimal(sk.bits as nat) + seq![sep] + decimal(
        sk.shard as nat,
    )))
}

fn label(word: &str, sep: char, sk: &ShardKey) -> (text: String)
    ensures
        text@ == shard_label(word@, sep, *sk),
{
    let mut s = String::from_str(word);
    push_decimal(&mut s, sk.rtype as u64);
    s.push(sep);
    push_decimal(&mut s, sk.bits as u64);
    s.push(sep);
    push_decimal(&mut s, sk.shard);
    assert(s@ =~= shard_label(word@, sep, *sk));
    s
}

/// The namespace of a shard's database: `reg_<rtype>_<bits>_<shard>`. It holds no slash, for
/// it also names a file.
pub fn ns_of(sk: ShardKey) -> (ns: String)
    ensures
        ns@ == shard_label("reg_"@, '_', sk),
{
    label("reg_", '_', &sk)
}

/// The key under which the pushing of a shard is queued at most once.
pub fn push_job_key(sk: ShardKey) -> (key: String)
    ensures
        key@ == shard_label("pushstate:"@, ':', sk),
{
    label("pushstate:", ':', &sk)
}

/// How often the pushing of a shard is tried to be queued before that is given up.
pub const PUSH_TRIES: u32 = 25;

/// How long to wait before the pushing of a shard that was written meanwhile is queued again,
/// in milliseconds.
pub const PUSH_AGAIN_MS: u64 = 200;

/// How long to wait before the pushing of a shard is tried to be queued, after so many tries of
/// which the last one was taken or not. Nothing once it was taken, or tried often enough.
pub fn push_retry(tries: u32, submitted: bool, delay_ms: u64) -> (next: Option<u64>)
    ensures
        next == (if submitted || tries >= PUSH_TRIES {
            None
        } else {
            Some(delay_ms)
        }),
{
    if submitted || tries >= PUSH_TRIES {
        None
    } else {
        Some(delay_ms)
    }
}

/// Different shards have different names: no two kinds, shard counts or shards share one.
pub proof fn law_shard_names_are_distinct(word: Seq<char>, sep: char, a: ShardKey, b: ShardKey)
    requires
        !('0' <= sep <= '9'),
        shard_label(word, sep, a) == shard_label(word, sep, b),
    ensures
        a == b,
{
    let ra = decimal(a.bits as nat) + seq![sep] + decimal(a.shard as nat);
    let rb = decimal(b.bits as nat) + seq![sep] + decimal(b.shard as nat);
    let ta = decimal(a.rtype as nat) + seq![sep] + ra;
    let tb = decimal(b.rtype as nat) + seq![sep] + rb;
    assert(shard_label(word, sep, a).skip(word.len() as int) =~= ta);
    assert(shard_label(word, sep, b).skip(word.len() as int) =~= tb);
    lemma_decimal_prefix(a.rtype as nat, b.rtype as nat, sep, ra, rb);
    lemma_decimal_prefix(
        a.bits as nat,
        b.bits as nat,
        sep,
        decimal(a.shard as nat),
        decimal(b.shard as nat),
    );
    lemma_decimal_injective(a.shard as nat, b.shard as nat);
}

/// The shard count is what governance says, kept from 1 to 12, and 8 where it says nothing.
pub proof fn law_governed_counts_are_kept_in_range(v: i64)
    ensures
        governed_bits(None) == 8,
        1 <= governed_bits(Some(v)) <= 12,
        1 <= v <= 12 ==> governed_bits(Some(v)) == v,
        v < 1 ==> governed_bits(Some(v)) == 1,
        v > 12 ==> governed_bits(Some(v)) == 12,
{
}

/// Grouping puts an entry into the bucket of its own shard and into no other, in order.
pub proof fn law_entries_go_to_their_own_bucket(
    entries: Seq<HeadEntry>,
    e: HeadEntry,
    bits: u32,
    shard: u64,
)
    ensures
        bucket(Seq::empty(), bits, shard).len() == 0,
        shard_at(e.owner, e.name@, bits) == shard ==> bucket(entries.push(e), bits, shard)
            == bucket(entries, bits, shard).push(e),
        shard_at(e.owner, e.name@, bits) != shard ==> bucket(entries.push(e), bits, shard)
            == bucket(entries, bits, shard),
{
    assert(entries.push(e).drop_last() =~= entries);
}

/// Where a name belongs depends on its owner and its whole text: on the first eight bytes, the
/// lowest first, of a digest over the one and the other.
pub proof fn law_names_are_spread_by_owner_and_text(owner: [u8; 32], name: Seq<char>)
    ensures
        exists|m: Seq<u8>|
            {
                let d = #[trigger] blake3_digest(m);
                &&& key_number(owner, name) == crate::bytes::le_value(d.subrange(0, 8))
                &&& m.subrange(0, 32) == owner@
                &&& m.subrange(32, m.len() as int) == encode_utf8(name)
            },
{
    let m = owner@ + encode_utf8(name);
    let d = blake3_digest(m);
    assert(m.subrange(0, 32) =~= owner@);
    assert(m.subrange(32, m.len() as int) =~= encode_utf8(name));
    assert(d.take(8) == d.subrange(0, 8));
}

/// A push that was not taken is tried again after its delay, 25 times, and no more once it was.
pub proof fn law_pushes_are_tried_again(
    tries: u32,
    submitted: bool,
    delay_ms: u64,
    next: Option<u64>,
    bits: u32,
    count: u64,
)
    requires
        bits < 64,
        call_ensures(push_retry, (tries, submitted, delay_ms), next),
        call_ensures(shard_count, (bits,), count),
    ensures
        next is Some <==> !submitted && tries < 25,
        next is Some ==> next->0 == delay_ms,
        count == pow2(bits as nat),
{
}

} // verus!
