//! The board of verification requests: whom it is pushed to, and how long a producer waits.

use crate::bytes::NodeId;
use crate::membership::member::PeerAddr;
use vstd::prelude::*;

verus! {

/// How long a verifier rests between two jobs, in milliseconds.
pub const COOLDOWN_MS: u64 = 3_000;

/// How many nodes the board is pushed to at a time.
pub const FANOUT: usize = 3;

/// How long a producer waits for a certificate, in milliseconds.
pub const VERIFY_TIMEOUT_MS: u64 = 30_000;

/// How long it waits between two looks, in milliseconds.
pub const POLL_MS: u64 = 500;

/// The entries of other nodes, in order.
pub open spec fn not_self(census: Seq<(NodeId, PeerAddr)>, me: NodeId) -> Seq<(NodeId, PeerAddr)>
    decreases census.len(),
{
    if census.len() == 0 {
        census
    } else if census.last().0 == me {
        not_self(census.drop_last(), me)
    } else {
        not_self(census.drop_last(), me).push(census.last())
    }
}

/// The nodes that the board is pushed to: the first three live members other than this node.
pub open spec fn pushed_to(census: Seq<(NodeId, PeerAddr)>, me: NodeId) -> Seq<(NodeId, PeerAddr)> {
    let others = not_self(census, me);
    if others.len() <= FANOUT {
        others
    } else {
        others.take(FANOUT as int)
    }
}

proof fn lemma_not_self_prefix(census: Seq<(NodeId, PeerAddr)>, me: NodeId, i: int)
    requires
        0 <= i <= census.len(),
    ensures
        not_self(census.take(i), me).len() <= not_self(census, me).len(),
        not_self(census, me).take(not_self(census.take(i), me).len() as int) == not_self(
            census.take(i),
            me,
        ),
    decreases census.len(),
{
    if i == census.len() {
        assert(census.take(i) =~= census);
        assert(not_self(census, me).take(not_self(census, me).len() as int) =~= not_self(census, me));
    } else {
        let front = census.drop_last();
        lemma_not_self_prefix(front, me, i);
        assert(front.take(i) =~= census.take(i));
        let n = not_self(census.take(i), me).len() as int;
        assert(not_self(census, me).take(n) =~= not_self(front, me).take(n));
    }
}

/// The service of one node.
#[derive(Clone, Copy, Debug)]
pub struct BoardService {
    pub me: NodeId,
}

impl BoardService {
    /// The service of the node `me`.
    pub fn new(me: NodeId) -> (service: BoardService)
        ensures
            service.me == me,
    {
        BoardService { me }
    }

    /// The nodes that the board is pushed to, out of the live members.
    pub fn fanout_peers(&self, census: &[(NodeId, PeerAddr)]) -> (peers: Vec<(NodeId, PeerAddr)>)
        ensures
            peers@ == pushed_to(census@, self.me),
    {
        let mut peers: Vec<(NodeId, PeerAddr)> = Vec::new();
        let mut i: usize = 0;
        assert(census@.take(0) =~= Seq::<(NodeId, PeerAddr)>::empty());
        while i < census.len() && peers.len() < FANOUT
            invariant
                i <= census@.len(),
                peers@.len() <= FANOUT,
                peers@ == not_self(census@.take(i as int), self.me),
            decreases census@.len() - i,
        {
            proof {
                let next = census@.take(i + 1);
                assert(next.drop_last() =~= census@.take(i as int));
                assert(next.last() == census@[i as int]);
            }
            if !census[i].0.same(&self.me) {
                peers.push((census[i].0, census[i].1.clone()));
            }
            i = i + 1;
        }
        proof {
            lemma_not_self_prefix(census@, self.me, i as int);
            if i == census@.len() {
                assert(census@.take(i as int) =~= census@);
            }
            let others = not_self(census@, self.me);
            assert(others.len() <= FANOUT ==> others =~= others.take(others.len() as int));
        }
        peers
    }

    /// Whether a round of gossip is worth sending: there is somebody to send to, and something
    /// on the board.
    pub fn gossips(peers: usize, requests: usize, verdicts: usize) -> (send: bool)
        ensures
            send == (peers > 0 && (requests > 0 || verdicts > 0)),
    {
        peers > 0 && !(requests == 0 && verdicts == 0)
    }
}

/// What a producer that waits for a certificate does next.
#[derive(Clone, Copy, Debug, PartialEq, Eq, Structural)]
pub enum Poll {
    /// The claim is verified.
    Verified,
    /// It was not, in time.
    TimedOut,
    /// Look again after this many milliseconds.
    Wait(u64),
}

/// A look at the board after `waited_ms`: a certificate counts whenever it is seen, and the
/// wait is over after half a minute.
pub fn poll(collected: bool, waited_ms: u64) -> (p: Poll)
    ensures
        p == (if collected {
            Poll::Verified
        } else if waited_ms >= VERIFY_TIMEOUT_MS {
            Poll::TimedOut
        } else {
            Poll::Wait(POLL_MS)
        }),
{
    if collected {
        Poll::Verified
    } else if waited_ms >= VERIFY_TIMEOUT_MS {
        Poll::TimedOut
    } else {
        Poll::Wait(POLL_MS)
    }
}

/// The board is pushed to the first three others of the census, or to all others where there are
/// fewer, in order, and never to this node.
pub proof fn law_the_board_goes_to_three_others(
    census: Seq<(NodeId, PeerAddr)>,
    row: (NodeId, PeerAddr),
    me: NodeId,
)
    ensures
        pushed_to(Seq::empty(), me).len() == 0,
        row.0 == me ==> pushed_to(census.push(row), me) == pushed_to(census, me),
        row.0 != me && pushed_to(census, me).len() < 3 ==> pushed_to(census.push(row), me)
            == pushed_to(census, me).push(row),
        row.0 != me && pushed_to(census, me).len() >= 3 ==> pushed_to(census.push(row), me)
            == pushed_to(census, me),
        pushed_to(census, me).len() <= 3,
{
    assert(census.push(row).drop_last() =~= census);
    assert(not_self(Seq::empty(), me) =~= Seq::empty());
    let was = not_self(census, me);
    if row.0 != me {
        assert(not_self(census.push(row), me) == was.push(row));
        if was.len() >= 3 {
            assert(was.push(row).take(3) =~= was.take(3));
            assert(was.len() == 3 ==> was.take(3) =~= was);
        }
    }
}

/// The board is gossiped where there is somebody to tell and something to say. A certificate counts
/// whenever it is seen; without one a producer looks again every half second, for half a minute.
pub proof fn law_certificates_are_waited_for(
    peers: usize,
    requests: usize,
    verdicts: usize,
    send: bool,
    collected: bool,
    waited_ms: u64,
    p: Poll,
)
    requires
        call_ensures(BoardService::gossips, (peers, requests, verdicts), send),
        call_ensures(poll, (collected, waited_ms), p),
    ensures
        send <==> peers > 0 && requests + verdicts > 0,
        p == Poll::Verified <==> collected,
        p == Poll::TimedOut <==> !collected && waited_ms >= 30_000,
        p is Wait ==> p == Poll::Wait(500),
{
}

} // verus!
