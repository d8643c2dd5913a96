//! Identifiers and the fixed-width encodings that every protocol hash is taken over.

use vstd::prelude::*;

verus! {

/// Identity of a node: its public key.
#[derive(Clone, Copy, Debug, Hash)]
pub struct NodeId(pub [u8; 32]);

/// Address of content: the hash of its bytes.
#[derive(Clone, Copy, Debug, Hash)]
pub struct Cid(pub [u8; 32]);

/// Two 32-byte arrays with the same bytes are the same array.
pub broadcast proof fn lemma_array_ext(a: [u8; 32], b: [u8; 32])
    requires
        #[trigger] a@ == #[trigger] b@,
    ensures
        a == b,
{
    assert forall|i: int| 0 <= i < 32 implies a[i] == b[i] by {
        assert(a@[i] == b@[i]);
    }
    assert(a =~= b);
}

/// Compares two 32-byte arrays.
pub fn same32(a: &[u8; 32], b: &[u8; 32]) -> (same: bool)
    ensures
        same == (*a == *b),
{
    let mut i: usize = 0;
    while i < 32
        invariant
            i <= 32,
            forall|j: int| 0 <= j < i ==> a@[j] == b@[j],
        decreases 32 - i,
    {
        if a[i] != b[i] {
            assert(a@[i as int] != b@[i as int]);
            return false;
        }
        i = i + 1;
    }
    proof {
        assert(a@ =~= b@);
        lemma_array_ext(*a, *b);
    }
    true
}

impl NodeId {
    /// Whether both identifiers name one node.
    pub fn same(&self, other: &NodeId) -> (same: bool)
        ensures
            same == (*self == *other),
    {
        same32(&self.0, &other.0)
    }
}

impl Cid {
    /// Whether both addresses name one content.
    pub fn same(&self, other: &Cid) -> (same: bool)
        ensures
            same == (*self == *other),
    {
        same32(&self.0, &other.0)
    }
}

/// The `width` low-order base-256 digits of `x`, least significant first.
pub open spec fn le_digits(x: nat, width: nat) -> Seq<u8>
    decreases width,
{
    if width == 0 {
        Seq::empty()
    } else {
        seq![(x % 256) as u8] + le_digits(x / 256, (width - 1) as nat)
    }
}

/// The number that base-256 digits spell, least significant first.
pub open spec fn le_value(s: Seq<u8>) -> nat
    decreases s.len(),
{
    if s.len() == 0 {
        0
    } else {
        s[0] as nat + 256 * le_value(s.skip(1))
    }
}

/// Appends `src` to `dst`.
pub fn push_all(dst: &mut Vec<u8>, src: &[u8])
    ensures
        final(dst)@ == old(dst)@ + src@,
{
    let mut i: usize = 0;
    while i < src.len()
        invariant
            i <= src.len(),
            dst@ == old(dst)@ + src@.take(i as int),
        decreases src.len() - i,
    {
        dst.push(src[i]);
        assert(src@.take(i + 1) == src@.take(i as int).push(src@[i as int]));
        i = i + 1;
    }
    assert(src@.take(src@.len() as int) == src@);
}

/// Appends the eight little-endian bytes of `x`.
pub fn push_u64(dst: &mut Vec<u8>, x: u64)
    ensures
        final(dst)@ == old(dst)@ + le_digits(x as nat, 8),
{
    push_le(dst, x, 8);
}

/// Appends the four little-endian bytes of `x`.
pub fn push_u32(dst: &mut Vec<u8>, x: u32)
    ensures
        final(dst)@ == old(dst)@ + le_digits(x as nat, 4),
{
    push_le(dst, x as u64, 4);
}

fn push_le(dst: &mut Vec<u8>, x: u64, width: usize)
    ensures
        final(dst)@ == old(dst)@ + le_digits(x as nat, width as nat),
    decreases width,
{
    if width > 0 {
        dst.push((x % 256) as u8);
        push_le(dst, x / 256, width - 1);
        assert(dst@ =~= old(dst)@ + le_digits(x as nat, width as nat));
    }
}

/// Reads little-endian bytes, at most eight of them, as a number.
pub fn read_le(s: &[u8]) -> (x: u64)
    requires
        s@.len() <= 8,
    ensures
        x as nat == le_value(s@),
{
    let n: usize = s.len();
    let mut i: usize = n;
    let mut x: u64 = 0;
    proof {
        assert(s@.skip(n as int) =~= Seq::<u8>::empty());
    }
    while i > 0
        invariant
            i <= n,
            n == s@.len(),
            n <= 8,
            x as nat == le_value(s@.skip(i as int)),
            (x as nat) < bound256((n - i) as nat),
        decreases i,
    {
        proof {
            let rest = s@.skip(i - 1);
            assert(rest.skip(1) =~= s@.skip(i as int));
            assert(rest[0] == s@[i - 1]);
            lemma_bound256((n - i) as nat);
        }
        x = s[i - 1] as u64 + 256 * x;
        i = i - 1;
    }
    assert(s@.skip(0) =~= s@);
    x
}

/// 256 to the power `n`.
pub open spec fn bound256(n: nat) -> nat
    decreases n,
{
    if n == 0 {
        1
    } else {
        256 * bound256((n - 1) as nat)
    }
}

proof fn lemma_bound256(n: nat)
    requires
        n < 8,
    ensures
        bound256(n + 1) == 256 * bound256(n),
        bound256(n) <= 0x100_0000_0000_0000,
{
    reveal_with_fuel(bound256, 9);
}

/// Digits have the requested width.
pub proof fn lemma_le_digits_len(x: nat, width: nat)
    ensures
        le_digits(x, width).len() == width,
    decreases width,
{
    if width > 0 {
        lemma_le_digits_len(x / 256, (width - 1) as nat);
    }
}

/// Reading the digits of a number that fits gives the number back.
pub proof fn lemma_le_round_trip(x: nat, width: nat)
    requires
        x < bound256(width),
    ensures
        le_value(le_digits(x, width)) == x,
    decreases width,
{
    if width > 0 {
        let tail = le_digits(x / 256, (width - 1) as nat);
        assert(x / 256 < bound256((width - 1) as nat));
        lemma_le_round_trip(x / 256, (width - 1) as nat);
        assert(le_digits(x, width).skip(1) =~= tail);
        assert(x % 256 == (x % 256) as u8 as nat);
    }
}

/// Numbers that fit and have the same digits are equal.
pub proof fn lemma_le_injective(x: nat, y: nat, width: nat)
    requires
        x < bound256(width),
        y < bound256(width),
        le_digits(x, width) == le_digits(y, width),
    ensures
        x == y,
{
    lemma_le_round_trip(x, width);
    lemma_le_round_trip(y, width);
}

/// A number is written with its lowest byte first, in as many bytes as it is given, and read back
/// in the same way.
pub proof fn law_the_lowest_byte_comes_first(x: nat, width: nat, s: Seq<u8>)
    ensures
        le_digits(x, width).len() == width,
        width > 0 ==> le_digits(x, width)[0] == x % 256 && le_digits(x, width).skip(1) == le_digits(
            x / 256,
            (width - 1) as nat,
        ),
        le_value(Seq::empty()) == 0,
        s.len() > 0 ==> le_value(s) == s[0] + 256 * le_value(s.skip(1)),
{
    lemma_le_digits_len(x, width);
    if width > 0 {
        assert(le_digits(x, width).skip(1) =~= le_digits(x / 256, (width - 1) as nat));
    }
}

} // verus!
