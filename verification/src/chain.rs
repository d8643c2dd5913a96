//! Chains that nodes publish and pull: when to fetch one, and when to adopt it.

use vstd::prelude::*;

verus! {

/// What is known of a chain that was fetched or stored.
#[derive(Clone, Copy, Debug, PartialEq, Eq, Structural)]
pub struct ChainHead {
    /// Its genesis is the one this node goes by.
    pub same_genesis: bool,
    /// Every step follows from the one before it.
    pub valid: bool,
    /// How many steps it has.
    pub seq: u64,
}

/// The version under which a chain of `seq` steps is announced.
pub open spec fn announced(seq: u64) -> int {
    seq + 1
}

/// The version under which a chain of `seq` steps is announced.
pub fn announce_version(seq: u64) -> (version: u64)
    requires
        seq < u64::MAX,
    ensures
        version == announced(seq),
{
    seq + 1
}

/// Whether an announced version is of a chain that is longer than the local one, of `local`
/// steps. Any chain is longer than none.
pub open spec fn is_longer(version: u64, local: Option<u64>) -> bool {
    match local {
        Some(local_seq) => version > local_seq + 1,
        None => true,
    }
}

/// Whether a chain announced under `version` is worth fetching.
pub fn worth_fetching(version: u64, local: Option<u64>) -> (fetch: bool)
    requires
        local matches Some(local_seq) ==> local_seq < u64::MAX,
    ensures
        fetch == is_longer(version, local),
{
    match local {
        Some(local_seq) => version > local_seq + 1,
        None => true,
    }
}

/// A chain is fetched exactly if it is longer than the local one, or there is none.
pub proof fn law_only_longer_chains_are_fetched(remote_seq: u64, local: Option<u64>)
    requires
        remote_seq < u64::MAX,
    ensures
        is_longer(announced(remote_seq) as u64, local) <==> (local matches Some(local_seq)
            ==> remote_seq > local_seq),
{
}

/// Every step is announced under a higher version than the ones before it, from the first on,
/// and none under zero.
pub proof fn law_every_change_supersedes(a: u64, b: u64)
    requires
        a < b,
    ensures
        0 < announced(a) < announced(b),
{
}

/// Whether a fetched chain replaces the local one.
pub open spec fn replaces(fetched: ChainHead, local_seq: u64) -> bool {
    fetched.same_genesis && fetched.valid && fetched.seq > local_seq
}

/// Whether a fetched chain is adopted: of the same genesis, valid, and longer.
pub fn adopts(fetched: &ChainHead, local_seq: u64) -> (adopt: bool)
    ensures
        adopt == replaces(*fetched, local_seq),
{
    fetched.same_genesis && fetched.valid && fetched.seq > local_seq
}

/// The length of the local chain after a number of chains were fetched, in order.
pub open spec fn adopted_seq(local_seq: u64, fetched: Seq<ChainHead>) -> u64
    decreases fetched.len(),
{
    if fetched.len() == 0 {
        local_seq
    } else {
        let before = adopted_seq(local_seq, fetched.drop_last());
        if replaces(fetched.last(), before) {
            fetched.last().seq
        } else {
            before
        }
    }
}

/// A node ends up with the longest valid chain of its genesis: with one that is no shorter
/// than its own and than any such chain it fetched, and that is one of these.
pub proof fn law_longest_valid_chain_wins(local_seq: u64, fetched: Seq<ChainHead>)
    ensures
        adopted_seq(local_seq, fetched) >= local_seq,
        forall|i: int|
            0 <= i < fetched.len() && (#[trigger] fetched[i]).same_genesis && fetched[i].valid
                ==> adopted_seq(local_seq, fetched) >= fetched[i].seq,
        adopted_seq(local_seq, fetched) == local_seq || exists|i: int|
            0 <= i < fetched.len() && (#[trigger] fetched[i]).same_genesis && fetched[i].valid
                && fetched[i].seq == adopted_seq(local_seq, fetched),
    decreases fetched.len(),
{
    if fetched.len() > 0 {
        let front = fetched.drop_last();
        law_longest_valid_chain_wins(local_seq, front);
        let before = adopted_seq(local_seq, front);
        assert forall|i: int|
            0 <= i < fetched.len() && (#[trigger] fetched[i]).same_genesis
                && fetched[i].valid implies adopted_seq(local_seq, fetched) >= fetched[i].seq by {
            if i < front.len() {
                assert(front[i] == fetched[i]);
            }
        }
        if !replaces(fetched.last(), before) && before != local_seq {
            let i = choose|i: int|
                0 <= i < front.len() && (#[trigger] front[i]).same_genesis && front[i].valid
                    && front[i].seq == before;
            assert(fetched[i] == front[i]);
        }
        if replaces(fetched.last(), before) {
            assert(fetched[fetched.len() - 1] == fetched.last());
        }
    }
}

/// A chain of another genesis, or one that does not hold together, changes nothing.
pub proof fn law_foreign_chains_are_ignored(local_seq: u64, fetched: Seq<ChainHead>, bad: ChainHead)
    requires
        !bad.same_genesis || !bad.valid,
    ensures
        adopted_seq(local_seq, fetched.push(bad)) == adopted_seq(local_seq, fetched),
{
    assert(fetched.push(bad).drop_last() =~= fetched);
}

/// A chain is announced under the number of its links with the genesis, and fetched where no chain
/// is held or where that number is above that of the chain held.
pub proof fn law_versions_count_links(seq: u64, version: u64, local: u64)
    ensures
        announced(seq) == seq + 1,
        is_longer(version, None),
        is_longer(version, Some(local)) <==> version > announced(local),
{
}

/// A chain is adopted exactly where it is of this genesis, holds together and is longer; and worth
/// fetching exactly where what is announced of it is longer than the one held.
pub proof fn law_longer_chains_are_adopted(
    fetched: ChainHead,
    local_seq: u64,
    adopt: bool,
    seq: u64,
    version: u64,
    fetch: bool,
)
    requires
        seq < u64::MAX,
        local_seq < u64::MAX,
        call_ensures(adopts, (&fetched, local_seq), adopt),
        call_ensures(announce_version, (seq,), version),
        call_ensures(worth_fetching, (version, Some(local_seq)), fetch),
    ensures
        adopt <==> fetched.same_genesis && fetched.valid && fetched.seq > local_seq,
        version == seq + 1,
        fetch <==> seq > local_seq,
{
}

} // verus!
