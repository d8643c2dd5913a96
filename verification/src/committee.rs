//! The chain of committees: who assembles it, and when it rolls over.

use crate::bytes::same32;
use crate::membership::overlay::PeerState;
use crate::bytes::NodeId;
use crate::order::{lex_less, lex_lt};
use crate::parse::{parse_u64, u64_of};
use crate::text::{hex_encode, hex_text};
use vstd::prelude::*;

verus! {

/// How many members a committee has.
pub const COMMITTEE_N: usize = 5;

/// How many of them must endorse the next one.
pub const COMMITTEE_K: usize = 3;

/// How long an epoch is where nothing else is set, in milliseconds.
pub const DEFAULT_EPOCH_MS: u64 = 3_600_000;

/// The length of an epoch: the configured one where it is a number, else an hour.
pub fn epoch_ms(configured: Option<&str>) -> (ms: u64)
    ensures
        ms == (match configured {
            Some(text) => match u64_of(text@) {
                Some(n) => n,
                None => DEFAULT_EPOCH_MS,
            },
            None => DEFAULT_EPOCH_MS,
        }),
{
    match configured {
        Some(text) => match parse_u64(text) {
            Some(n) => n,
            None => DEFAULT_EPOCH_MS,
        },
        None => DEFAULT_EPOCH_MS,
    }
}

/// What a node knows of the chain of committees.
#[derive(Clone, Copy, Debug, PartialEq, Eq, Structural)]
pub enum ChainState {
    /// There is none yet.
    Absent,
    /// It does not hold together.
    Broken,
    /// The epoch of the committee in office.
    At(u64),
}

/// What a tick calls for.
#[derive(Clone, Copy, Debug)]
pub enum CommitteeStep {
    /// Too few nodes, or nothing to do.
    Idle,
    /// Fetch the chain of the assembler.
    Follow([u8; 32]),
    /// Start the chain at this epoch.
    Bootstrap(u64),
    /// Gather endorsements for this epoch's committee.
    RollOver(u64),
}

/// The nodes that may sit: this one, and the live neighbours.
pub open spec fn eligible_of(self_id: [u8; 32], active: Seq<(NodeId, PeerState)>) -> Seq<[u8; 32]>
    decreases active.len(),
{
    if active.len() == 0 {
        seq![self_id]
    } else if active.last().1.alive {
        eligible_of(self_id, active.drop_last()).push(active.last().0.0)
    } else {
        eligible_of(self_id, active.drop_last())
    }
}

/// A lowest node of a list.
pub open spec fn is_lowest(ids: Seq<[u8; 32]>, id: [u8; 32]) -> bool {
    ids.contains(id) && forall|i: int| 0 <= i < ids.len() ==> !lex_lt((#[trigger] ids[i])@, id@)
}

/// A node's part in the chain of committees.
#[derive(Clone, Copy, Debug)]
pub struct CommitteeChainStore {
    pub self_id: [u8; 32],
    pub epoch_ms: u64,
}

/// What a tick calls for, given the assembler.
pub open spec fn committee_step(
    self_id: [u8; 32],
    eligible: Seq<[u8; 32]>,
    assembler: [u8; 32],
    epoch: u64,
    chain: ChainState,
) -> CommitteeStep {
    if eligible.len() < 2 {
        CommitteeStep::Idle
    } else if assembler != self_id {
        CommitteeStep::Follow(assembler)
    } else {
        match chain {
            ChainState::Absent => CommitteeStep::Bootstrap(epoch),
            ChainState::Broken => CommitteeStep::Idle,
            ChainState::At(current) => if epoch <= current {
                CommitteeStep::Idle
            } else {
                CommitteeStep::RollOver(epoch)
            },
        }
    }
}

/// Whom to get an endorsement from.
#[derive(Clone, Copy, Debug)]
pub enum Endorser {
    /// This node signs itself.
    Own,
    /// The node to ask.
    Ask([u8; 32]),
}

/// The endorsers among the members of the committee in office: this node, and those that can
/// be reached.
pub open spec fn endorsers_of(
    self_id: [u8; 32],
    members: Seq<[u8; 32]>,
    reachable: Seq<[u8; 32]>,
) -> Seq<Endorser>
    decreases members.len(),
{
    if members.len() == 0 {
        Seq::empty()
    } else {
        let front = endorsers_of(self_id, members.drop_last(), reachable);
        let m = members.last();
        if m == self_id {
            front.push(Endorser::Own)
        } else if reachable.contains(m) {
            front.push(Endorser::Ask(m))
        } else {
            front
        }
    }
}

impl CommitteeChainStore {
    /// A node's part, with epochs of the given length.
    pub fn new(self_id: [u8; 32], epoch_ms: u64) -> (store: CommitteeChainStore)
        ensures
            store == (CommitteeChainStore { self_id, epoch_ms }),
    {
        CommitteeChainStore { self_id, epoch_ms }
    }

    /// The length of an epoch, in milliseconds.
    pub fn epoch_len_ms(&self) -> (ms: u64)
        ensures
            ms == self.epoch_ms,
    {
        self.epoch_ms
    }

    /// The nodes that may sit.
    pub fn eligible(&self, active: &[(NodeId, PeerState)]) -> (ids: Vec<[u8; 32]>)
        ensures
            ids@ == eligible_of(self.self_id, active@),
    {
        let mut ids: Vec<[u8; 32]> = Vec::new();
        ids.push(self.self_id);
        let mut i: usize = 0;
        assert(active@.take(0) =~= Seq::<(NodeId, PeerState)>::empty());
        assert(ids@ =~= eligible_of(self.self_id, active@.take(0)));
        while i < active.len()
            invariant
                i <= active@.len(),
                ids@ == eligible_of(self.self_id, active@.take(i as int)),
            decreases active@.len() - i,
        {
            proof {
                let next = active@.take(i + 1);
                assert(next.drop_last() =~= active@.take(i as int));
                assert(next.last() == active@[i as int]);
            }
            if active[i].1.alive {
                ids.push(active[i].0.0);
            }
            i = i + 1;
        }
        assert(active@.take(i as int) =~= active@);
        ids
    }

    /// The node that assembles the chain: the lowest.
    pub fn assembler(eligible: &[[u8; 32]]) -> (id: [u8; 32])
        requires
            eligible@.len() > 0,
        ensures
            is_lowest(eligible@, id),
    {
        let mut id = eligible[0];
        let mut i: usize = 1;
        proof {
            crate::order::lemma_lex_irreflexive(id@);
            assert(eligible@[0] == id);
        }
        while i < eligible.len()
            invariant
                1 <= i <= eligible@.len(),
                eligible@.contains(id),
                forall|j: int| 0 <= j < i ==> !lex_lt((#[trigger] eligible@[j])@, id@),
            decreases eligible@.len() - i,
        {
            if lex_less(eligible[i].as_slice(), id.as_slice()) {
                let ghost was = id;
                id = eligible[i];
                proof {
                    assert(eligible@[i as int] == id);
                    crate::order::lemma_lex_irreflexive(id@);
                    assert forall|j: int| 0 <= j < i + 1 implies !lex_lt(
                        (#[trigger] eligible@[j])@,
                        id@,
                    ) by {
                        if j < i && lex_lt(eligible@[j]@, id@) {
                            crate::order::lemma_lex_transitive(eligible@[j]@, id@, was@);
                        }
                    }
                }
            }
            i = i + 1;
        }
        id
    }

    /// One tick: who assembles the chain follows nobody, everyone else follows it.
    pub fn tick(&self, eligible: &[[u8; 32]], epoch: u64, chain: ChainState) -> (step:
        CommitteeStep)
        ensures
            eligible@.len() < 2 ==> step == CommitteeStep::Idle,
            eligible@.len() >= 2 ==> exists|assembler: [u8; 32]| #[trigger]
                is_lowest(eligible@, assembler) && step == committee_step(
                    self.self_id,
                    eligible@,
                    assembler,
                    epoch,
                    chain,
                ),
    {
        if eligible.len() < 2 {
            return CommitteeStep::Idle;
        }
        let assembler = Self::assembler(eligible);
        assert(is_lowest(eligible@, assembler));
        if !same32(&assembler, &self.self_id) {
            return CommitteeStep::Follow(assembler);
        }
        match chain {
            ChainState::Absent => CommitteeStep::Bootstrap(epoch),
            ChainState::Broken => CommitteeStep::Idle,
            ChainState::At(current) => if epoch <= current {
                CommitteeStep::Idle
            } else {
                CommitteeStep::RollOver(epoch)
            },
        }
    }

    /// Whether the chain fetched from the assembler, at the epoch `fetched`, is adopted: it is
    /// ahead of the local one, or there is none that holds together.
    pub fn adopts(local: ChainState, fetched: u64) -> (adopt: bool)
        ensures
            adopt == (match local {
                ChainState::At(current) => fetched > current,
                _ => true,
            }),
    {
        match local {
            ChainState::At(current) => fetched > current,
            _ => true,
        }
    }

    /// Whether a proposed committee is endorsed: it must be the one that this node selects for
    /// that epoch, with the same members and as many of them needed.
    pub fn endorse(
        mine: &[[u8; 32]],
        mine_k: usize,
        proposed: &[[u8; 32]],
        proposed_k: usize,
    ) -> (endorse: bool)
        ensures
            endorse == (mine@ == proposed@ && mine_k == proposed_k),
    {
        if mine_k != proposed_k || mine.len() != proposed.len() {
            return false;
        }
        let mut i: usize = 0;
        while i < mine.len()
            invariant
                i <= mine@.len(),
                mine@.len() == proposed@.len(),
                forall|j: int| 0 <= j < i ==> mine@[j] == proposed@[j],
            decreases mine@.len() - i,
        {
            if !same32(&mine[i], &proposed[i]) {
                assert(mine@[i as int] != proposed@[i as int]);
                return false;
            }
            i = i + 1;
        }
        assert(mine@ =~= proposed@);
        true
    }

    /// Whom to gather endorsements of the next committee from.
    pub fn endorsers(&self, members: &[[u8; 32]], reachable: &[[u8; 32]]) -> (list: Vec<Endorser>)
        ensures
            list@ == endorsers_of(self.self_id, members@, reachable@),
    {
        let mut list: Vec<Endorser> = Vec::new();
        let mut i: usize = 0;
        assert(members@.take(0) =~= Seq::<[u8; 32]>::empty());
        while i < members.len()
            invariant
                i <= members@.len(),
                list@ == endorsers_of(self.self_id, members@.take(i as int), reachable@),
            decreases members@.len() - i,
        {
            proof {
                let next = members@.take(i + 1);
                assert(next.drop_last() =~= members@.take(i as int));
                assert(next.last() == members@[i as int]);
            }
            if same32(&members[i], &self.self_id) {
                list.push(Endorser::Own);
            } else if crate::idset::lists(reachable, &members[i]) {
                list.push(Endorser::Ask(members[i]));
            }
            i = i + 1;
        }
        assert(members@.take(i as int) =~= members@);
        list
    }

    /// What is shown of the chain: its length with the genesis, the epoch and the size of the
    /// committee in office, its root, and the account it is kept under.
    pub fn status(
        chain: Option<(usize, Option<(u64, usize)>, [u8; 32])>,
        account: &[u8; 32],
    ) -> (s: (usize, u64, usize, String, String))
        requires
            chain matches Some(c) ==> c.0 < usize::MAX,
        ensures
            s.4@ == hex_text(account@),
            match chain {
                Some((checkpoints, current, root)) => {
                    &&& s.0 == checkpoints + 1
                    &&& s.3@ == hex_text(root@)
                    &&& match current {
                        Some((epoch, size)) => s.1 == epoch && s.2 == size,
                        None => s.1 == 0 && s.2 == 0,
                    }
                },
                None => s.0 == 0 && s.1 == 0 && s.2 == 0 && s.3@ == Seq::<char>::empty(),
            },
    {
        let account = hex_encode(account.as_slice());
        match chain {
            Some((checkpoints, current, root)) => {
                let (epoch, size) = match current {
                    Some((epoch, size)) => (epoch, size),
                    None => (0, 0),
                };
                (1 + checkpoints, epoch, size, hex_encode(root.as_slice()), account)
            },
            None => (0, 0, 0, String::new(), account),
        }
    }
}

/// Two nodes that see the same nodes have the same assembler, so at most one of them writes.
pub proof fn law_one_assembler(ids: Seq<[u8; 32]>, a: [u8; 32], b: [u8; 32])
    requires
        is_lowest(ids, a),
        is_lowest(ids, b),
    ensures
        a == b,
{
    let i = choose|i: int| 0 <= i < ids.len() && ids[i] == a;
    let j = choose|j: int| 0 <= j < ids.len() && ids[j] == b;
    assert(!lex_lt(ids[i]@, b@));
    assert(!lex_lt(ids[j]@, a@));
    if a@ != b@ {
        crate::order::lemma_lex_total(a@, b@);
    }
    crate::bytes::lemma_array_ext(a, b);
}

/// A committee chain never goes back: what is adopted or rolled to is of a later epoch.
pub proof fn law_committee_epochs_advance(
    self_id: [u8; 32],
    eligible: Seq<[u8; 32]>,
    assembler: [u8; 32],
    epoch: u64,
    current: u64,
)
    ensures
        committee_step(self_id, eligible, assembler, epoch, ChainState::At(current)) matches
            CommitteeStep::RollOver(next) ==> next > current,
        !(committee_step(self_id, eligible, assembler, epoch, ChainState::At(current)) is Bootstrap),
{
}

proof fn lemma_endorsers(
    self_id: [u8; 32],
    members: Seq<[u8; 32]>,
    reachable: Seq<[u8; 32]>,
    e: Endorser,
)
    ensures
        endorsers_of(self_id, members, reachable).contains(e) <==> (match e {
            Endorser::Own => members.contains(self_id),
            Endorser::Ask(m) => members.contains(m) && m != self_id && reachable.contains(m),
        }),
    decreases members.len(),
{
    if members.len() > 0 {
        let front = members.drop_last();
        let last = members.last();
        let a = endorsers_of(self_id, front, reachable);
        let b = endorsers_of(self_id, members, reachable);
        lemma_endorsers(self_id, front, reachable, e);
        let who = match e {
            Endorser::Own => self_id,
            Endorser::Ask(m) => m,
        };
        assert(members[members.len() - 1] == last);
        if front.contains(who) {
            let i = choose|i: int| 0 <= i < front.len() && front[i] == who;
            assert(members[i] == who);
        }
        if members.contains(who) && who != last {
            let i = choose|i: int| 0 <= i < members.len() && members[i] == who;
            assert(front[i] == who);
        }
        if a.contains(e) {
            let i = choose|i: int| 0 <= i < a.len() && a[i] == e;
            assert(b[i] == e);
        }
        if b.contains(e) && !a.contains(e) {
            let i = choose|i: int| 0 <= i < b.len() && b[i] == e;
            if i < a.len() {
                assert(a[i] == e);
            }
        }
        if b.len() > a.len() {
            assert(b[a.len() as int] == b.last());
        }
    }
}

/// Everybody who can endorse is turned to: every member of the committee in office that can be
/// reached is asked, this node signs itself where it is a member, nobody else is asked, and
/// nobody twice.
pub proof fn law_every_reachable_member_endorses(
    self_id: [u8; 32],
    members: Seq<[u8; 32]>,
    reachable: Seq<[u8; 32]>,
)
    ensures
        forall|m: [u8; 32]|
            members.contains(m) && m != self_id && reachable.contains(m) <==> #[trigger]
            endorsers_of(self_id, members, reachable).contains(Endorser::Ask(m)),
        members.contains(self_id) <==> endorsers_of(self_id, members, reachable).contains(
            Endorser::Own,
        ),
        members.no_duplicates() ==> endorsers_of(self_id, members, reachable).no_duplicates(),
    decreases members.len(),
{
    let b = endorsers_of(self_id, members, reachable);
    assert forall|m: [u8; 32]|
        members.contains(m) && m != self_id && reachable.contains(m) <==> #[trigger] b.contains(
            Endorser::Ask(m),
        ) by {
        lemma_endorsers(self_id, members, reachable, Endorser::Ask(m));
    }
    lemma_endorsers(self_id, members, reachable, Endorser::Own);
    if members.len() > 0 && members.no_duplicates() {
        let front = members.drop_last();
        let last = members.last();
        let a = endorsers_of(self_id, front, reachable);
        law_every_reachable_member_endorses(self_id, front, reachable);
        if b.len() > a.len() {
            lemma_endorsers(self_id, front, reachable, b.last());
            if front.contains(last) {
                let i = choose|i: int| 0 <= i < front.len() && front[i] == last;
                assert(members[i] == members[members.len() - 1]);
            }
            assert(!a.contains(b.last()));
            assert forall|i: int, j: int| 0 <= i < b.len() && 0 <= j < b.len() && i != j implies b[i]
                != b[j] by {
                if i < a.len() {
                    assert(a.contains(a[i]));
                }
                if j < a.len() {
                    assert(a.contains(a[j]));
                }
            }
        }
    }
}

/// Eligible are this node and every peer that answers, and nobody else.
pub proof fn law_who_answers_is_eligible(
    self_id: [u8; 32],
    active: Seq<(NodeId, PeerState)>,
    id: [u8; 32],
)
    ensures
        eligible_of(self_id, active).contains(id) <==> id == self_id || exists|i: int|
            0 <= i < active.len() && (#[trigger] active[i]).1.alive && active[i].0.0 == id,
        eligible_of(self_id, active).len() > 0,
        eligible_of(self_id, active)[0] == self_id,
        eligible_of(self_id, active).len() <= active.len() + 1,
    decreases active.len(),
{
    let all = eligible_of(self_id, active);
    if active.len() == 0 {
        assert(all[0] == self_id);
    } else {
        let rest = active.drop_last();
        let front = eligible_of(self_id, rest);
        law_who_answers_is_eligible(self_id, rest, id);
        if active.last().1.alive {
            assert(all[front.len() as int] == active.last().0.0);
        }
        if front.contains(id) {
            let k = choose|k: int| 0 <= k < front.len() && front[k] == id;
            assert(all[k] == id);
        }
        if all.contains(id) && !front.contains(id) {
            let k = choose|k: int| 0 <= k < all.len() && all[k] == id;
            if k < front.len() {
                assert(front[k] == id);
            }
            assert(active[active.len() - 1].0.0 == id);
        }
        if exists|i: int| 0 <= i < rest.len() && (#[trigger] rest[i]).1.alive && rest[i].0.0 == id {
            let i = choose|i: int|
                0 <= i < rest.len() && (#[trigger] rest[i]).1.alive && rest[i].0.0 == id;
            assert(active[i].1.alive);
        }
        if exists|i: int|
            0 <= i < active.len() && (#[trigger] active[i]).1.alive && active[i].0.0 == id {
            let i = choose|i: int|
                0 <= i < active.len() && (#[trigger] active[i]).1.alive && active[i].0.0 == id;
            if i < rest.len() {
                assert(rest[i].1.alive);
            }
        }
    }
}

/// A node alone does nothing. Among several, everyone follows the assembler but the assembler,
/// which starts a chain where there is none, and rolls one over exactly once its epoch is past.
pub proof fn law_the_assembler_keeps_the_chain(
    self_id: [u8; 32],
    eligible: Seq<[u8; 32]>,
    assembler: [u8; 32],
    epoch: u64,
    chain: ChainState,
)
    ensures
        ({
            let step = committee_step(self_id, eligible, assembler, epoch, chain);
            let alone = eligible.len() <= 1;
            &&& alone ==> step == CommitteeStep::Idle
            &&& !alone && assembler != self_id ==> step == CommitteeStep::Follow(assembler)
            &&& step is Follow ==> !alone && assembler != self_id
            &&& step is Bootstrap <==> !alone && assembler == self_id && chain is Absent
            &&& step is Bootstrap ==> step == CommitteeStep::Bootstrap(epoch)
            &&& step is RollOver <==> !alone && assembler == self_id && chain is At && epoch
                > chain->At_0
            &&& step is RollOver ==> step == CommitteeStep::RollOver(epoch)
        }),
{
}

/// What a call of `endorsers` gives: every other member that can be reached is asked, this node's
/// own endorsement is there exactly if it is a member, and nobody else is asked.
pub proof fn law_a_call_finds_every_endorser(
    store: CommitteeChainStore,
    members: &[[u8; 32]],
    reachable: &[[u8; 32]],
    list: Vec<Endorser>,
    id: [u8; 32],
)
    requires
        call_ensures(CommitteeChainStore::endorsers, (&store, members, reachable), list),
    ensures
        list@.contains(Endorser::Own) <==> members@.contains(store.self_id),
        list@.contains(Endorser::Ask(id)) <==> id != store.self_id && members@.contains(id)
            && reachable@.contains(id),
        list@.len() <= members@.len(),
{
    lemma_endorsers(store.self_id, members@, reachable@, Endorser::Own);
    lemma_endorsers(store.self_id, members@, reachable@, Endorser::Ask(id));
    lemma_endorsers_len(store.self_id, members@, reachable@);
}

/// The assembler is eligible and has the lowest identity; everybody else follows it, and it alone
/// begins a chain or rolls it over, to an epoch that is ahead of the chain's.
pub proof fn law_the_lowest_assembles(
    store: CommitteeChainStore,
    eligible: &[[u8; 32]],
    epoch: u64,
    chain: ChainState,
    lowest: [u8; 32],
    step: CommitteeStep,
)
    requires
        eligible@.len() >= 2,
        call_ensures(CommitteeChainStore::assembler, (eligible,), lowest),
        call_ensures(CommitteeChainStore::tick, (&store, eligible, epoch, chain), step),
    ensures
        eligible@.contains(lowest),
        forall|i: int| 0 <= i < eligible@.len() ==> !lex_lt((#[trigger] eligible@[i])@, lowest@),
        lowest != store.self_id ==> step == CommitteeStep::Follow(lowest),
        lowest == store.self_id ==> match chain {
            ChainState::Absent => step == CommitteeStep::Bootstrap(epoch),
            ChainState::Broken => step == CommitteeStep::Idle,
            ChainState::At(current) => if epoch > current {
                step == CommitteeStep::RollOver(epoch)
            } else {
                step == CommitteeStep::Idle
            },
        },
{
    let a = choose|a: [u8; 32]| #[trigger]
        is_lowest(eligible@, a) && step == committee_step(
            store.self_id,
            eligible@,
            a,
            epoch,
            chain,
        );
    law_one_assembler(eligible@, a, lowest);
}

/// A fetched chain is adopted where it is ahead, or where there is none that holds together; a
/// proposed committee is endorsed where it is the very one that this node selects.
pub proof fn law_only_progress_is_adopted(
    local: ChainState,
    fetched: u64,
    adopt: bool,
    mine: &[[u8; 32]],
    mine_k: usize,
    proposed: &[[u8; 32]],
    proposed_k: usize,
    endorse: bool,
)
    requires
        call_ensures(CommitteeChainStore::adopts, (local, fetched), adopt),
        call_ensures(CommitteeChainStore::endorse, (mine, mine_k, proposed, proposed_k), endorse),
    ensures
        adopt <==> local is Absent || local is Broken || fetched > local->At_0,
        endorse <==> mine_k == proposed_k && mine@.len() == proposed@.len() && forall|i: int|
            0 <= i < mine@.len() ==> mine@[i] == proposed@[i],
{
    if mine@.len() == proposed@.len() && forall|i: int|
        0 <= i < mine@.len() ==> mine@[i] == proposed@[i] {
        assert(mine@ =~= proposed@);
    }
}

/// Who is eligible: this node first, and every peer that answers.
pub proof fn law_a_call_finds_who_answers(
    store: CommitteeChainStore,
    active: &[(NodeId, PeerState)],
    ids: Vec<[u8; 32]>,
    i: int,
)
    requires
        call_ensures(CommitteeChainStore::eligible, (&store, active), ids),
    ensures
        ids@.len() > 0 && ids@[0] == store.self_id,
        0 <= i < active@.len() && active@[i].1.alive ==> ids@.contains(active@[i].0.0),
        0 <= i < ids@.len() && ids@[i] != store.self_id ==> exists|j: int|
            0 <= j < active@.len() && (#[trigger] active@[j]).1.alive && active@[j].0.0 == ids@[i],
{
    if 0 <= i < active@.len() {
        law_who_answers_is_eligible(store.self_id, active@, active@[i].0.0);
    }
    if 0 <= i < ids@.len() {
        law_who_answers_is_eligible(store.self_id, active@, ids@[i]);
        assert(ids@.contains(ids@[i]));
    }
    law_who_answers_is_eligible(store.self_id, active@, store.self_id);
}

/// An epoch lasts as long as configured, and an hour where nothing that can be read is.
pub proof fn law_epochs_last_an_hour(text: &str, n: u64, given: u64, none: u64)
    requires
        call_ensures(epoch_ms, (Some(text),), given),
        call_ensures(epoch_ms, (None,), none),
    ensures
        none == 60 * 60 * 1000,
        text@ == crate::text::decimal(n as nat) ==> given == n,
        u64_of(text@) is None ==> given == none,
{
    crate::parse::law_numbers_read_back(n as nat);
}

proof fn lemma_endorsers_len(self_id: [u8; 32], members: Seq<[u8; 32]>, reachable: Seq<[u8; 32]>)
    ensures
        endorsers_of(self_id, members, reachable).len() <= members.len(),
    decreases members.len(),
{
    if members.len() > 0 {
        lemma_endorsers_len(self_id, members.drop_last(), reachable);
    }
}

/// What is shown of a chain: its length with the genesis, and the committee in office; nothing where
/// there is no chain.
pub proof fn law_chains_are_shown_with_their_genesis(
    checkpoints: usize,
    epoch: u64,
    size: usize,
    root: [u8; 32],
    account: [u8; 32],
    shown: (usize, u64, usize, String, String),
    none: (usize, u64, usize, String, String),
)
    requires
        checkpoints < usize::MAX,
        call_ensures(
            CommitteeChainStore::status,
            (Some((checkpoints, Some((epoch, size)), root)), &account),
            shown,
        ),
        call_ensures(CommitteeChainStore::status, (None, &account), none),
    ensures
        shown.0 == checkpoints + 1,
        shown.1 == epoch,
        shown.2 == size,
        shown.3@ == hex_text(root@),
        shown.4@ == hex_text(account@),
        none.0 == 0 && none.1 == 0 && none.2 == 0 && none.3@.len() == 0,
        none.4@ == hex_text(account@),
{
}

} // verus!
