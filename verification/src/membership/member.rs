//! One member of the converged set, and the merge that makes the set converge.

use crate::bytes::NodeId;
use crate::table::Table;
use vstd::prelude::*;

verus! {

/// Where a node can be dialled: its identity and the text form of its address.
#[derive(Debug)]
pub struct PeerAddr {
    pub id: NodeId,
    pub text: String,
}

impl Clone for PeerAddr {
    fn clone(&self) -> (copy: PeerAddr)
        ensures
            copy == *self,
    {
        PeerAddr { id: self.id, text: self.text.clone() }
    }
}

impl PeerAddr {
    /// The identity at this address.
    pub fn node_id(&self) -> (id: NodeId)
        ensures
            id == self.id,
    {
        self.id
    }
}

/// SWIM liveness of a member, ordered by how dead it is.
#[derive(Clone, Copy, Debug, PartialEq, Eq, Structural)]
pub enum MemberState {
    Alive,
    Suspect,
    Dead,
}

impl MemberState {
    /// How dead the state is.
    pub open spec fn level(self) -> u8 {
        match self {
            MemberState::Alive => 0,
            MemberState::Suspect => 1,
            MemberState::Dead => 2,
        }
    }

    /// The state that a byte on the wire stands for; an unknown byte is `Alive`.
    pub open spec fn of_byte(v: u8) -> MemberState {
        if v == 1 {
            MemberState::Suspect
        } else if v == 2 {
            MemberState::Dead
        } else {
            MemberState::Alive
        }
    }

    /// The merge rank: at one incarnation the higher rank wins.
    pub fn rank(self) -> (rank: u8)
        ensures
            rank == self.level(),
    {
        match self {
            MemberState::Alive => 0,
            MemberState::Suspect => 1,
            MemberState::Dead => 2,
        }
    }

    /// The byte on the wire.
    pub fn to_u8(self) -> (byte: u8)
        ensures
            byte == self.level(),
    {
        self.rank()
    }

    /// The state that a byte on the wire stands for.
    pub fn from_u8(v: u8) -> (state: MemberState)
        ensures
            state == MemberState::of_byte(v),
    {
        match v {
            1 => MemberState::Suspect,
            2 => MemberState::Dead,
            _ => MemberState::Alive,
        }
    }

    /// A state survives its wire byte.
    pub proof fn law_byte_round_trip(self)
        ensures
            MemberState::of_byte(self.level()) == self,
    {
    }
}

/// A converged member: a dialable address and what is known of its liveness.
#[derive(Debug)]
pub struct Member {
    pub addr: PeerAddr,
    /// Last positive evidence of life, in milliseconds since the Unix epoch.
    pub last_heard_ms: u64,
    /// Only the member itself raises it, to refute a suspicion.
    pub incarnation: u64,
    pub state: MemberState,
    /// When this node first saw the member as `Suspect`; never gossiped.
    pub suspect_since_ms: Option<u64>,
}

impl Clone for Member {
    fn clone(&self) -> (copy: Member)
        ensures
            copy == *self,
    {
        Member {
            addr: self.addr.clone(),
            last_heard_ms: self.last_heard_ms,
            incarnation: self.incarnation,
            state: self.state,
            suspect_since_ms: self.suspect_since_ms,
        }
    }
}

impl Member {
    /// A member just seen alive, at incarnation zero.
    pub open spec fn fresh(addr: PeerAddr, last_heard_ms: u64) -> Member {
        Member {
            addr,
            last_heard_ms,
            incarnation: 0,
            state: MemberState::Alive,
            suspect_since_ms: None,
        }
    }

    /// The member with a new liveness. Entering `Suspect` starts the local suspicion
    /// clock at `now`, staying in it keeps the clock, leaving it clears the clock.
    pub open spec fn with_liveness(self, incarnation: u64, state: MemberState, now: u64) -> Member {
        Member {
            incarnation,
            state,
            suspect_since_ms: if state == MemberState::Suspect {
                match self.suspect_since_ms {
                    Some(since) => Some(since),
                    None => Some(now),
                }
            } else {
                None
            },
            ..self
        }
    }

    /// A member just seen alive.
    pub fn alive(addr: PeerAddr, last_heard_ms: u64) -> (member: Member)
        ensures
            member == Member::fresh(addr, last_heard_ms),
    {
        Member {
            addr,
            last_heard_ms,
            incarnation: 0,
            state: MemberState::Alive,
            suspect_since_ms: None,
        }
    }

    /// Applies a liveness and keeps the suspicion clock.
    pub fn set_liveness(&mut self, incarnation: u64, state: MemberState, now: u64)
        ensures
            *final(self) == old(self).with_liveness(incarnation, state, now),
    {
        self.incarnation = incarnation;
        self.state = state;
        self.suspect_since_ms = match state {
            MemberState::Suspect => match self.suspect_since_ms {
                Some(since) => Some(since),
                None => Some(now),
            },
            _ => None,
        };
    }
}

/// A member as it travels between nodes. `addr` is absent where its text names no
/// dialable address.
#[derive(Debug)]
pub struct MemberEntry {
    pub id: NodeId,
    pub addr: Option<PeerAddr>,
    pub last_heard_ms: u64,
    pub incarnation: u64,
    pub state: u8,
}

/// The wire form of a member.
pub open spec fn entry_of(id: NodeId, m: Member) -> MemberEntry {
    MemberEntry {
        id,
        addr: Some(m.addr),
        last_heard_ms: m.last_heard_ms,
        incarnation: m.incarnation,
        state: m.state.level(),
    }
}

/// Puts a member into its wire form.
pub fn member_entry(id: NodeId, m: &Member) -> (entry: MemberEntry)
    ensures
        entry == entry_of(id, *m),
{
    MemberEntry {
        id,
        addr: Some(m.addr.clone()),
        last_heard_ms: m.last_heard_ms,
        incarnation: m.incarnation,
        state: m.state.to_u8(),
    }
}

/// Liveness (`inc`, `rank`) takes over from (`inc2`, `rank2`): a higher incarnation
/// outright, at the same one the deader state.
pub open spec fn liveness_wins(inc: u64, rank: u8, inc2: u64, rank2: u8) -> bool {
    inc > inc2 || (inc == inc2 && rank > rank2)
}

impl MemberEntry {
    /// The state that the entry claims.
    pub open spec fn claimed(self) -> MemberState {
        MemberState::of_byte(self.state)
    }

    /// The entry's liveness takes over from that of `m`.
    pub open spec fn overrides(self, m: Member) -> bool {
        liveness_wins(self.incarnation, self.claimed().level(), m.incarnation, m.state.level())
    }
}

/// What `m` becomes on hearing `e`, whose address is `addr`: liveness and freshness
/// merge apart from each other.
pub open spec fn merged_member(m: Member, e: MemberEntry, addr: PeerAddr, now: u64) -> Member {
    let lively = if e.overrides(m) {
        m.with_liveness(e.incarnation, e.claimed(), now)
    } else {
        m
    };
    if e.last_heard_ms > m.last_heard_ms {
        Member { last_heard_ms: e.last_heard_ms, addr, ..lively }
    } else {
        lively
    }
}

/// What an unknown member becomes on hearing `e`, whose address is `addr`.
pub open spec fn learned_member(e: MemberEntry, addr: PeerAddr, now: u64) -> Member {
    Member {
        addr,
        last_heard_ms: e.last_heard_ms,
        incarnation: e.incarnation,
        state: e.claimed(),
        suspect_since_ms: if e.claimed() == MemberState::Suspect {
            Some(now)
        } else {
            None
        },
    }
}

/// The member set after hearing `e`. An entry without a dialable address is ignored.
pub open spec fn merged(members: Map<NodeId, Member>, e: MemberEntry, now: u64) -> Map<
    NodeId,
    Member,
> {
    match e.addr {
        None => members,
        Some(addr) => if members.contains_key(e.id) {
            members.insert(e.id, merged_member(members[e.id], e, addr, now))
        } else {
            members.insert(e.id, learned_member(e, addr, now))
        },
    }
}

/// Hearing `e` tells the set something worth gossiping: a member it did not know, or
/// a liveness that takes over. Freshness alone is not.
pub open spec fn delta_worthy(members: Map<NodeId, Member>, e: MemberEntry) -> bool {
    e.addr is Some && (members.contains_key(e.id) ==> e.overrides(members[e.id]))
}

/// Merges one entry, and says whether it is worth gossiping on.
pub fn merge_one(members: &mut Table<Member>, e: &MemberEntry, now: u64) -> (delta: bool)
    requires
        old(members).wf(),
    ensures
        final(members).wf(),
        final(members)@ == merged(old(members)@, *e, now),
        delta == delta_worthy(old(members)@, *e),
{
    let addr = match &e.addr {
        None => {
            return false;
        },
        Some(addr) => addr.clone(),
    };
    let in_state = MemberState::from_u8(e.state);
    let known: Option<Member> = match members.get(&e.id) {
        Some(m) => Some(m.clone()),
        None => None,
    };
    match known {
        Some(m) => {
            let mut next = m.clone();
            let incoming_wins = e.incarnation > m.incarnation || (e.incarnation == m.incarnation
                && in_state.rank() > m.state.rank());
            if incoming_wins {
                next.set_liveness(e.incarnation, in_state, now);
            }
            if e.last_heard_ms > next.last_heard_ms {
                next.last_heard_ms = e.last_heard_ms;
                next.addr = addr;
            }
            members.insert(e.id, next);
            incoming_wins
        },
        None => {
            let since: Option<u64> = match in_state {
                MemberState::Suspect => Some(now),
                _ => None,
            };
            let m = Member {
                addr,
                last_heard_ms: e.last_heard_ms,
                incarnation: e.incarnation,
                state: in_state,
                suspect_since_ms: since,
            };
            members.insert(e.id, m);
            true
        },
    }
}

/// The member set after hearing all of `entries` in turn.
pub open spec fn merged_all(members: Map<NodeId, Member>, entries: Seq<MemberEntry>, now: u64) -> Map<
    NodeId,
    Member,
>
    decreases entries.len(),
{
    if entries.len() == 0 {
        members
    } else {
        merged(merged_all(members, entries.drop_last(), now), entries.last(), now)
    }
}

/// Merges a whole entry set.
pub fn merge_entries(members: &mut Table<Member>, entries: &[MemberEntry], now: u64)
    requires
        old(members).wf(),
    ensures
        final(members).wf(),
        final(members)@ == merged_all(old(members)@, entries@, now),
{
    let mut i: usize = 0;
    assert(entries@.take(0) =~= Seq::<MemberEntry>::empty());
    while i < entries.len()
        invariant
            i <= entries@.len(),
            members.wf(),
            members@ == merged_all(old(members)@, entries@.take(i as int), now),
        decreases entries@.len() - i,
    {
        merge_one(members, &entries[i], now);
        assert(entries@.take(i + 1).drop_last() =~= entries@.take(i as int));
        i = i + 1;
    }
    assert(entries@.take(i as int) =~= entries@);
}

} // verus!
