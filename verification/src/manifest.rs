//! A node's signed claim about what it holds.
//!
//! The held addresses are kept in canonical order, so the same holdings always have
//! the same bytes and comparing two heads compares two sets.

use crate::bytes::{lemma_le_digits_len, lemma_le_injective, push_all, push_u64, same32, Cid};
use crate::digest::blake3_digest;
use crate::idset::{canonical, canonicalize, is_canonical};
use vstd::prelude::*;

verus! {

/// A node's holdings claim.
#[derive(Clone, Debug)]
pub struct HoldingsManifest {
    /// The claiming node.
    pub node: [u8; 32],
    /// Raised on every publication.
    pub version: u64,
    /// The held addresses, in canonical order.
    pub cids: Vec<[u8; 32]>,
    /// Signature by `node` over the claim.
    pub sig: Vec<u8>,
}

/// The bytes of the listed identifiers, one after the other.
pub open spec fn concat_ids(ids: Seq<[u8; 32]>) -> Seq<u8>
    decreases ids.len(),
{
    if ids.len() == 0 {
        Seq::empty()
    } else {
        concat_ids(ids.drop_last()) + ids.last()@
    }
}

/// The bytes that a manifest's signature covers.
pub open spec fn claim_bytes(node: [u8; 32], version: u64, cids: Seq<[u8; 32]>) -> Seq<u8> {
    node@ + crate::bytes::le_digits(version as nat, 8) + concat_ids(cids)
}

/// Appends the bytes of the listed identifiers.
fn push_ids(out: &mut Vec<u8>, ids: &[[u8; 32]])
    ensures
        final(out)@ == old(out)@ + concat_ids(ids@),
{
    let ghost head = out@;
    let mut i: usize = 0;
    assert(ids@.take(0) =~= Seq::<[u8; 32]>::empty());
    assert(head + Seq::<u8>::empty() =~= head);
    while i < ids.len()
        invariant
            i <= ids@.len(),
            out@ == head + concat_ids(ids@.take(i as int)),
        decreases ids@.len() - i,
    {
        push_all(out, ids[i].as_slice());
        proof {
            let next = ids@.take(i + 1);
            assert(next.drop_last() =~= ids@.take(i as int));
            assert(next.last() == ids@[i as int]);
            assert(out@ =~= head + concat_ids(next));
        }
        i = i + 1;
    }
    assert(ids@.take(i as int) =~= ids@);
}

/// Writes out the bytes that a manifest's signature covers.
pub fn signing_bytes(node: &[u8; 32], version: u64, cids: &[[u8; 32]]) -> (bytes: Vec<u8>)
    ensures
        bytes@ == claim_bytes(*node, version, cids@),
{
    let mut buf: Vec<u8> = Vec::new();
    push_all(&mut buf, node.as_slice());
    push_u64(&mut buf, version);
    assert(buf@ =~= node@ + crate::bytes::le_digits(version as nat, 8));
    push_ids(&mut buf, cids);
    buf
}

proof fn lemma_concat_len(ids: Seq<[u8; 32]>)
    ensures
        concat_ids(ids).len() == 32 * ids.len(),
    decreases ids.len(),
{
    if ids.len() > 0 {
        lemma_concat_len(ids.drop_last());
    }
}

proof fn lemma_concat_injective(a: Seq<[u8; 32]>, b: Seq<[u8; 32]>)
    requires
        concat_ids(a) == concat_ids(b),
    ensures
        a == b,
    decreases a.len(),
{
    lemma_concat_len(a);
    lemma_concat_len(b);
    if a.len() == 0 {
        assert(a =~= b);
    } else {
        let fa = concat_ids(a.drop_last());
        let fb = concat_ids(b.drop_last());
        lemma_concat_len(a.drop_last());
        lemma_concat_len(b.drop_last());
        assert(concat_ids(a).take(fa.len() as int) =~= fa);
        assert(concat_ids(b).take(fb.len() as int) =~= fb);
        assert(concat_ids(a).skip(fa.len() as int) =~= a.last()@);
        assert(concat_ids(b).skip(fb.len() as int) =~= b.last()@);
        lemma_concat_injective(a.drop_last(), b.drop_last());
        crate::bytes::lemma_array_ext(a.last(), b.last());
        assert(a =~= a.drop_last().push(a.last()));
        assert(b =~= b.drop_last().push(b.last()));
    }
}

/// A signature binds the whole claim: manifests whose signed bytes agree make the same
/// claim, so no address can be added and no version replayed under it.
pub proof fn law_signature_binds_the_claim(
    node_a: [u8; 32],
    version_a: u64,
    cids_a: Seq<[u8; 32]>,
    node_b: [u8; 32],
    version_b: u64,
    cids_b: Seq<[u8; 32]>,
)
    requires
        claim_bytes(node_a, version_a, cids_a) == claim_bytes(node_b, version_b, cids_b),
    ensures
        node_a == node_b,
        version_a == version_b,
        cids_a == cids_b,
{
    let a = claim_bytes(node_a, version_a, cids_a);
    let b = claim_bytes(node_b, version_b, cids_b);
    let va = crate::bytes::le_digits(version_a as nat, 8);
    let vb = crate::bytes::le_digits(version_b as nat, 8);
    lemma_le_digits_len(version_a as nat, 8);
    lemma_le_digits_len(version_b as nat, 8);
    assert(a.take(32) =~= node_a@);
    assert(b.take(32) =~= node_b@);
    assert(a.subrange(32, 40) =~= va);
    assert(b.subrange(32, 40) =~= vb);
    assert(a.skip(40) =~= concat_ids(cids_a));
    assert(b.skip(40) =~= concat_ids(cids_b));
    crate::bytes::lemma_array_ext(node_a, node_b);
    assert(crate::bytes::bound256(8) == 0x1_0000_0000_0000_0000) by {
        reveal_with_fuel(crate::bytes::bound256, 9);
    }
    lemma_le_injective(version_a as nat, version_b as nat, 8);
    lemma_concat_injective(cids_a, cids_b);
}

/// What the signature check of a manifest is asked: the signature, and the bytes that
/// it must cover.
#[derive(Clone, Debug)]
pub struct SignatureQuery {
    pub sig: [u8; 64],
    pub message: Vec<u8>,
}

/// Copies 64 bytes into an array; none where there are not 64.
pub fn exactly64(bytes: &[u8]) -> (array: Option<[u8; 64]>)
    ensures
        array is Some <==> bytes@.len() == 64,
        array matches Some(a) ==> a@ == bytes@,
{
    if bytes.len() != 64 {
        return None;
    }
    let mut out: [u8; 64] = [0u8;64];
    let mut i: usize = 0;
    while i < 64
        invariant
            i <= 64,
            bytes@.len() == 64,
            forall|j: int| 0 <= j < i ==> out@[j] == bytes@[j],
        decreases 64 - i,
    {
        out[i] = bytes[i];
        i = i + 1;
    }
    assert(out@ =~= bytes@);
    Some(out)
}

impl HoldingsManifest {
    /// The claim is fit to have its signature checked.
    pub open spec fn well_shaped(&self) -> bool {
        canonical(self.cids@) && self.sig@.len() == 64
    }

    /// What to ask of the signature check. A claim that is not canonical, or whose
    /// signature is not 64 bytes, fails without asking.
    pub fn query(&self) -> (query: Option<SignatureQuery>)
        ensures
            query is Some <==> self.well_shaped(),
            query matches Some(q) ==> q.sig@ == self.sig@ && q.message@ == claim_bytes(
                self.node,
                self.version,
                self.cids@,
            ),
    {
        if !is_canonical(self.cids.as_slice()) {
            return None;
        }
        match exactly64(self.sig.as_slice()) {
            None => None,
            Some(sig) => Some(
                SignatureQuery {
                    sig,
                    message: signing_bytes(&self.node, self.version, self.cids.as_slice()),
                },
            ),
        }
    }

    /// Whether the claim is sound, given what the check of [`HoldingsManifest::query`]
    /// against the key of `node` answered.
    pub fn verify(&self, signature_valid: bool) -> (sound: bool)
        ensures
            sound == (self.well_shaped() && signature_valid),
    {
        self.query().is_some() && signature_valid
    }

    /// Whether the manifest may stand for `peer`: sound, and the peer's own.
    pub fn accept_from(&self, peer: &[u8; 32], signature_valid: bool) -> (accepted: bool)
        ensures
            accepted == (self.node == *peer && self.well_shaped() && signature_valid),
    {
        same32(&self.node, peer) && self.verify(signature_valid)
    }
}

/// `c` lists what `cids` lists, in canonical order.
pub open spec fn orders(c: Seq<[u8; 32]>, cids: Seq<[u8; 32]>) -> bool {
    canonical(c) && forall|x: [u8; 32]| #[trigger] c.contains(x) <==> cids.contains(x)
}

/// The hash that stands for a set of addresses in canonical order.
pub open spec fn set_digest(c: Seq<[u8; 32]>) -> Seq<u8> {
    blake3_digest(concat_ids(c))
}

/// Holdings that are the same set have the same hash, however they were listed.
pub proof fn law_same_holdings_same_digest(
    cids_a: Seq<[u8; 32]>,
    a: Seq<[u8; 32]>,
    cids_b: Seq<[u8; 32]>,
    b: Seq<[u8; 32]>,
)
    requires
        orders(a, cids_a),
        orders(b, cids_b),
        forall|x: [u8; 32]| #[trigger] cids_a.contains(x) <==> cids_b.contains(x),
    ensures
        set_digest(a) == set_digest(b),
{
    assert forall|x: [u8; 32]| #[trigger] a.contains(x) <==> b.contains(x) by {
        assert(a.contains(x) <==> cids_a.contains(x));
        assert(b.contains(x) <==> cids_b.contains(x));
    }
    crate::idset::law_canonical_form_is_unique(a, b);
}

/// Holdings that differ are hashed from different bytes.
pub proof fn law_different_holdings_differ_in_bytes(a: Seq<[u8; 32]>, b: Seq<[u8; 32]>)
    requires
        a != b,
    ensures
        concat_ids(a) != concat_ids(b),
{
    if concat_ids(a) == concat_ids(b) {
        lemma_concat_injective(a, b);
    }
}

/// A manifest that awaits its signature.
#[derive(Clone, Debug)]
pub struct Unsigned {
    pub version: u64,
    pub cids: Vec<[u8; 32]>,
    /// The hash that stands for the set.
    pub digest: [u8; 32],
    /// The bytes to sign.
    pub message: Vec<u8>,
}

/// What was last published, so that an unchanged holdings set stays silent.
#[derive(Clone, Copy, Debug)]
pub struct ManifestStore {
    /// The version of the last publication and the hash of its set.
    pub last: Option<(u64, [u8; 32])>,
}

impl ManifestStore {
    /// The version that the next publication carries.
    pub open spec fn next_version(&self) -> int {
        match self.last {
            Some((v, _)) => v + 1,
            None => 1,
        }
    }

    /// A set with this hash was the last to be published.
    pub open spec fn announced(&self, digest: Seq<u8>) -> bool {
        self.last matches Some((_, d)) && d@ == digest
    }

    /// Nothing published yet.
    pub fn new() -> (store: ManifestStore)
        ensures
            store.last is None,
    {
        ManifestStore { last: None }
    }

    /// Prepares `cids` as the holdings of `node`: duplicates dropped, in canonical
    /// order, under the next version. Nothing where the set is the one last published.
    pub fn prepare(&self, node: &[u8; 32], cids: &Vec<[u8; 32]>) -> (unsigned: Option<Unsigned>)
        requires
            self.next_version() <= u64::MAX,
        ensures
            match unsigned {
                Some(u) => {
                    &&& u.version == self.next_version()
                    &&& orders(u.cids@, cids@)
                    &&& u.digest@ == set_digest(u.cids@)
                    &&& u.message@ == claim_bytes(*node, u.version, u.cids@)
                    &&& !self.announced(set_digest(u.cids@))
                },
                None => exists|c: Seq<[u8; 32]>| #[trigger]
                    orders(c, cids@) && self.announced(set_digest(c)),
            },
    {
        let raw = canonicalize(cids);
        assert(orders(raw@, cids@));
        let version: u64 = match self.last {
            Some((v, _)) => v + 1,
            None => 1,
        };
        let mut set: Vec<u8> = Vec::new();
        push_ids(&mut set, raw.as_slice());
        assert(set@ =~= concat_ids(raw@));
        let digest = Cid::of(set.as_slice()).0;
        let unchanged = match &self.last {
            Some((_, d)) => same32(d, &digest),
            None => false,
        };
        if unchanged {
            return None;
        }
        proof {
            if self.announced(digest@) {
                let last = self.last->0;
                crate::bytes::lemma_array_ext(last.1, digest);
            }
        }
        let message = signing_bytes(node, version, raw.as_slice());
        Some(Unsigned { version, cids: raw, digest, message })
    }

    /// Records that `version` went out with the set that hashes to `digest`.
    pub fn published(&mut self, version: u64, digest: [u8; 32])
        ensures
            final(self).last == Some((version, digest)),
    {
        self.last = Some((version, digest));
    }
}

/// Puts the signature on a prepared manifest.
pub fn seal(unsigned: Unsigned, node: &[u8; 32], sig: &[u8; 64]) -> (manifest: HoldingsManifest)
    ensures
        manifest.node == *node,
        manifest.version == unsigned.version,
        manifest.cids == unsigned.cids,
        manifest.sig@ == sig@,
{
    let mut bytes: Vec<u8> = Vec::new();
    push_all(&mut bytes, sig.as_slice());
    assert(bytes@ =~= sig@);
    HoldingsManifest { node: *node, version: unsigned.version, cids: unsigned.cids, sig: bytes }
}

/// A published manifest is accepted by every peer that finds the signature good.
pub proof fn law_published_manifests_are_accepted(
    manifest: HoldingsManifest,
    unsigned: Unsigned,
    sig: [u8; 64],
)
    requires
        canonical(unsigned.cids@),
        manifest.cids == unsigned.cids,
        manifest.sig@ == sig@,
    ensures
        manifest.well_shaped(),
{
}

/// Manifests are numbered from one on, each one above the last; and holdings count as announced
/// exactly where they are those of the last manifest.
pub proof fn law_versions_go_up_by_one(store: ManifestStore, last: (u64, [u8; 32]), digest: Seq<u8>)
    ensures
        store.last is None ==> store.next_version() == 1 && !store.announced(digest),
        store.last == Some(last) ==> store.next_version() == last.0 + 1 && (store.announced(digest)
            <==> last.1@ == digest),
{
}

/// The bytes of a list of holdings are those of each in turn.
pub proof fn law_holdings_are_written_in_turn(ids: Seq<[u8; 32]>, id: [u8; 32])
    ensures
        concat_ids(Seq::empty()).len() == 0,
        concat_ids(ids.push(id)) == concat_ids(ids) + id@,
{
    assert(ids.push(id).drop_last() =~= ids);
}

/// What calls on a manifest come to: one is accepted from its own node only, and only where its
/// signature holds and its content stands in order; and holdings are announced again only where
/// they have changed.
pub proof fn law_manifests_are_their_nodes(
    manifest: HoldingsManifest,
    peer: [u8; 32],
    signature_valid: bool,
    sound: bool,
    accepted: bool,
)
    requires
        call_ensures(HoldingsManifest::verify, (&manifest, signature_valid), sound),
        call_ensures(HoldingsManifest::accept_from, (&manifest, &peer, signature_valid), accepted),
    ensures
        accepted <==> sound && manifest.node == peer,
        sound ==> signature_valid && manifest.sig@.len() == 64 && canonical(manifest.cids@),
        signature_valid && manifest.sig@.len() == 64 && canonical(manifest.cids@) ==> sound,
{
}

} // verus!
