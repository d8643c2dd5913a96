//! Random draws. Nothing is promised of a draw but what holds of every outcome.

use vstd::prelude::*;

verus! {

/// `rand::Rng::gen_range` on the thread's generator: some index below `n`.
#[verifier::external_body]
pub(crate) fn random_below(n: usize) -> (index: usize)
    requires
        n > 0,
    ensures
        index < n,
{
    rand::Rng::gen_range(&mut rand::thread_rng(), 0..n)
}

/// `rand::Rng::gen_ratio` on the thread's generator: true in `numerator` of
/// `denominator` draws, so never where that is none and always where it is all.
#[verifier::external_body]
pub(crate) fn random_ratio(numerator: u32, denominator: u32) -> (hit: bool)
    requires
        0 < denominator,
        numerator <= denominator,
    ensures
        numerator == 0 ==> !hit,
        numerator == denominator ==> hit,
{
    rand::Rng::gen_ratio(&mut rand::thread_rng(), numerator, denominator)
}

/// `rand::seq::SliceRandom::choose` on the thread's generator: one of the items,
/// none where there are none.
#[verifier::external_body]
pub(crate) fn choose_one<T>(items: &[T]) -> (item: Option<&T>)
    ensures
        match item {
            Some(x) => items@.contains(*x),
            None => items@.len() == 0,
        },
{
    rand::seq::SliceRandom::choose(items, &mut rand::thread_rng())
}

/// `rand::seq::SliceRandom::shuffle` on the thread's generator: the same items in
/// some order.
#[verifier::external_body]
pub(crate) fn shuffle<T>(items: &mut Vec<T>)
    ensures
        final(items)@.len() == old(items)@.len(),
        final(items)@.to_multiset() == old(items)@.to_multiset(),
{
    rand::seq::SliceRandom::shuffle(items.as_mut_slice(), &mut rand::thread_rng())
}

/// Sequences with the same items, however ordered, contain the same.
pub(crate) proof fn lemma_same_items<T>(a: Seq<T>, b: Seq<T>)
    requires
        a.to_multiset() == b.to_multiset(),
    ensures
        a.len() == b.len(),
        forall|x: T| #[trigger] a.contains(x) <==> b.contains(x),
{
    a.to_multiset_ensures();
    b.to_multiset_ensures();
    assert forall|x: T| #[trigger] a.contains(x) <==> b.contains(x) by {
        assert(a.contains(x) <==> a.to_multiset().count(x) > 0);
        assert(b.contains(x) <==> b.to_multiset().count(x) > 0);
    }
}

/// `rand::RngCore::fill_bytes` of the operating system's generator: 32 bytes, of which nothing
/// is promised.
#[verifier::external_body]
pub(crate) fn random_bytes32() -> (bytes: [u8; 32]) {
    let mut bytes = [0u8; 32];
    rand::RngCore::fill_bytes(&mut rand::rngs::OsRng, &mut bytes);
    bytes
}

} // verus!
