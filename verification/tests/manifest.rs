use ed25519_dalek::{Signature, Signer, SigningKey, Verifier, VerifyingKey};
use std::collections::BTreeSet;
use zeph::idset::{canonicalize, is_canonical};
use zeph::manifest::{seal, signing_bytes, HoldingsManifest, ManifestStore};

fn identity(n: u8) -> SigningKey {
    SigningKey::from_bytes(&[n; 32])
}

fn manifest_for(id: &SigningKey, version: u64, cids: &[[u8; 32]]) -> HoldingsManifest {
    let node = id.verifying_key().to_bytes();
    HoldingsManifest {
        node,
        version,
        cids: cids.to_vec(),
        sig: id
            .sign(&signing_bytes(&node, version, cids))
            .to_bytes()
            .to_vec(),
    }
}

fn copy(m: &HoldingsManifest) -> HoldingsManifest {
    HoldingsManifest {
        node: m.node,
        version: m.version,
        cids: m.cids.clone(),
        sig: m.sig.clone(),
    }
}

/// Checks the signature that the manifest asks about, and then the manifest.
fn verify(m: &HoldingsManifest) -> bool {
    let valid = match m.query() {
        Some(q) => VerifyingKey::from_bytes(&m.node)
            .map(|k| {
                k.verify(&q.message, &Signature::from_bytes(&q.sig))
                    .is_ok()
            })
            .unwrap_or(false),
        None => false,
    };
    m.verify(valid)
}

#[test]
fn a_signed_manifest_verifies_and_a_tampered_one_does_not() {
    let id = identity(1);
    let cids = [[1u8; 32], [2u8; 32], [3u8; 32]];
    let m = manifest_for(&id, 1, &cids);
    assert!(verify(&m));

    let mut forged = copy(&m);
    forged.cids.push([4u8; 32]);
    assert!(!verify(&forged));

    let mut rolled = copy(&m);
    rolled.version = 99;
    assert!(!verify(&rolled));

    let other = identity(2);
    let mut swapped = copy(&m);
    swapped.sig = manifest_for(&other, 1, &cids).sig;
    assert!(!verify(&swapped));
}

#[test]
fn an_uncanonical_manifest_is_rejected() {
    let id = identity(1);
    let unsorted = [[2u8; 32], [1u8; 32]];
    assert!(
        !verify(&manifest_for(&id, 1, &unsorted)),
        "unsorted cids must not verify"
    );
    let duped = [[1u8; 32], [1u8; 32]];
    assert!(
        !verify(&manifest_for(&id, 1, &duped)),
        "duplicate cids must not verify"
    );
    let sorted = [[1u8; 32], [2u8; 32]];
    assert!(verify(&manifest_for(&id, 1, &sorted)));
}

#[test]
fn identical_holdings_serialize_identically() {
    let a = identity(1);
    let b = identity(2);
    let cids = [[7u8; 32], [9u8; 32]];
    let ma = manifest_for(&a, 1, &cids);
    let mb = manifest_for(&b, 1, &cids);
    assert_eq!(
        postcard::to_allocvec(&ma.cids).unwrap(),
        postcard::to_allocvec(&mb.cids).unwrap()
    );
}

#[test]
fn the_intersection_is_what_partitions_repair_work() {
    let dead: BTreeSet<[u8; 32]> = [[1u8; 32], [2u8; 32], [3u8; 32], [4u8; 32]]
        .into_iter()
        .collect();
    let mine: BTreeSet<[u8; 32]> = [[3u8; 32], [4u8; 32], [5u8; 32]].into_iter().collect();
    let shared: Vec<_> = dead.intersection(&mine).copied().collect();
    assert_eq!(shared, vec![[3u8; 32], [4u8; 32]]);
    assert!(!shared.contains(&[1u8; 32]));
}

#[test]
fn a_signature_of_the_wrong_length_is_no_signature() {
    let mut m = manifest_for(&identity(1), 1, &[[1u8; 32]]);
    m.sig.push(0);
    assert!(m.query().is_none());
    assert!(!m.verify(true));
}

#[test]
fn a_manifest_is_believed_of_its_own_node_alone() {
    let m = manifest_for(&identity(1), 1, &[[1u8; 32]]);
    assert!(m.accept_from(&m.node, true));
    assert!(!m.accept_from(&[9; 32], true));
    assert!(!m.accept_from(&m.node, false));
}

#[test]
fn the_signed_bytes_hold_node_version_and_addresses() {
    let bytes = signing_bytes(&[1; 32], 0x0102, &[[2; 32], [3; 32]]);
    let tail = &bytes[bytes.len() - 64..];
    assert_eq!(&tail[..32], &[2; 32]);
    assert_eq!(&tail[32..], &[3; 32]);
    assert_ne!(bytes, signing_bytes(&[1; 32], 0x0103, &[[2; 32], [3; 32]]));
}

#[test]
fn holdings_are_put_in_order_and_published_once() {
    let mut store = ManifestStore::new();
    let held = vec![[3u8; 32], [1; 32], [3; 32]];
    let unsigned = store.prepare(&[9; 32], &held).expect("something to publish");
    assert_eq!(unsigned.cids, vec![[1u8; 32], [3; 32]]);
    assert!(is_canonical(&unsigned.cids));
    let (version, digest) = (unsigned.version, unsigned.digest);
    let m = seal(unsigned, &[9; 32], &[7; 64]);
    assert_eq!((m.node, m.version, m.sig), ([9; 32], version, vec![7; 64]));
    store.published(version, digest);
    assert_eq!(store.last, Some((version, digest)));
    assert!(store.prepare(&[9; 32], &vec![[1; 32], [3; 32], [1; 32]]).is_none());
    let next = store.prepare(&[9; 32], &vec![[1; 32], [3; 32], [4; 32]]);
    assert!(next.unwrap().version > version);
}

#[test]
fn holdings_of_the_same_size_are_published_when_they_changed() {
    let mut store = ManifestStore::new();
    let first = store.prepare(&[9; 32], &vec![[1; 32], [2; 32]]).unwrap();
    assert_eq!(first.version, 1);
    store.published(first.version, first.digest);
    let second = store.prepare(&[9; 32], &vec![[1; 32], [3; 32]]).unwrap();
    assert_eq!((second.version, second.cids), (2, vec![[1u8; 32], [3; 32]]));
    assert_ne!(second.digest, first.digest);
}

#[test]
fn the_canonical_form_is_the_same_for_every_listing() {
    let a = canonicalize(&vec![[5; 32], [1; 32], [5; 32], [2; 32]]);
    let b = canonicalize(&vec![[2; 32], [5; 32], [1; 32]]);
    assert_eq!(a, b);
    assert_eq!(a, vec![[1u8; 32], [2; 32], [5; 32]]);
    assert!(!is_canonical(&[[1; 32], [1; 32]]));
}
