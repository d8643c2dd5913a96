//! Who governs, and how the chain of governance spreads.

use crate::bytes::same32;
use crate::chain::ChainHead;
use crate::idset::lists;
use crate::parse::same_text;
use crate::text::{hex_encode, hex_text};
use vstd::prelude::*;
use vstd::string::*;

verus! {

/// How often an unchanged chain is announced again, in milliseconds.
pub const ANNOUNCE_HEARTBEAT_MS: u64 = 600_000;

/// The governors, and how many of them must agree.
#[derive(Debug)]
pub struct GovernanceSet {
    pub members: Vec<[u8; 32]>,
    pub threshold: usize,
}

impl GovernanceSet {
    /// Whether the node governs.
    pub fn is_member(&self, id: &[u8; 32]) -> (yes: bool)
        ensures
            yes == self.members@.contains(*id),
    {
        lists(self.members.as_slice(), id)
    }
}

/// Why a node may not add its signature.
#[derive(Clone, Copy, Debug, PartialEq, Eq, Structural)]
pub enum CosignError {
    NotAGovernor,
}

impl CosignError {
    /// The text of the error.
    pub fn message(&self) -> (text: String)
        ensures
            text@ == "this node is not a governor"@,
    {
        String::from_str("this node is not a governor")
    }
}

/// Governors that were fetched from, with what the chain said when it was last announced.
#[derive(Clone, Copy, Debug)]
pub struct GovernanceChainStore {
    pub self_id: [u8; 32],
    /// The length that was last announced, and when.
    pub last_announce: Option<(u64, u64)>,
}

/// The governors that a node starts from.
pub open spec fn founders(self_id: [u8; 32], governors: Seq<[u8; 32]>, threshold: usize) -> (
    Seq<[u8; 32]>,
    usize,
) {
    if governors.len() == 0 {
        (seq![self_id], 1)
    } else {
        (
            governors,
            if threshold < 1 {
                1
            } else {
                threshold
            },
        )
    }
}

/// Appends each node that is not this one and not listed yet, in order.
pub open spec fn with_others(list: Seq<[u8; 32]>, more: Seq<[u8; 32]>, self_id: [u8; 32]) -> Seq<
    [u8; 32],
>
    decreases more.len(),
{
    if more.len() == 0 {
        list
    } else {
        let front = with_others(list, more.drop_last(), self_id);
        if more.last() != self_id && !front.contains(more.last()) {
            front.push(more.last())
        } else {
            front
        }
    }
}

fn add_others(list: &mut Vec<[u8; 32]>, more: &[[u8; 32]], self_id: &[u8; 32])
    ensures
        final(list)@ == with_others(old(list)@, more@, *self_id),
{
    let ghost start = list@;
    let mut i: usize = 0;
    assert(more@.take(0) =~= Seq::<[u8; 32]>::empty());
    while i < more.len()
        invariant
            i <= more@.len(),
            list@ == with_others(start, more@.take(i as int), *self_id),
        decreases more@.len() - i,
    {
        proof {
            let next = more@.take(i + 1);
            assert(next.drop_last() =~= more@.take(i as int));
            assert(next.last() == more@[i as int]);
        }
        if !same32(&more[i], self_id) && !lists(list.as_slice(), &more[i]) {
            list.push(more[i]);
        }
        i = i + 1;
    }
    assert(more@.take(i as int) =~= more@);
}

proof fn lemma_with_others(list: Seq<[u8; 32]>, more: Seq<[u8; 32]>, self_id: [u8; 32])
    requires
        list.no_duplicates(),
        !list.contains(self_id),
    ensures
        with_others(list, more, self_id).no_duplicates(),
        !with_others(list, more, self_id).contains(self_id),
        forall|id: [u8; 32]|
            #![trigger with_others(list, more, self_id).contains(id)]
            with_others(list, more, self_id).contains(id) <==> list.contains(id) || (
            more.contains(id) && id != self_id),
    decreases more.len(),
{
    if more.len() > 0 {
        let front = more.drop_last();
        lemma_with_others(list, front, self_id);
        let a = with_others(list, front, self_id);
        let b = with_others(list, more, self_id);
        let x = more.last();
        if x != self_id && !a.contains(x) {
            assert(b == a.push(x));
            assert forall|i: int, j: int| 0 <= i < b.len() && 0 <= j < b.len() && i != j implies b[i]
                != b[j] by {
                if i < a.len() {
                    assert(a.contains(a[i]));
                }
                if j < a.len() {
                    assert(a.contains(a[j]));
                }
            }
            assert forall|id: [u8; 32]| b.contains(id) <==> a.contains(id) || id == x by {
                if a.contains(id) {
                    let i = choose|i: int| 0 <= i < a.len() && a[i] == id;
                    assert(b[i] == id);
                }
                if id == x {
                    assert(b[a.len() as int] == id);
                }
                if b.contains(id) && id != x {
                    let i = choose|i: int| 0 <= i < b.len() && b[i] == id;
                    assert(a[i] == id);
                }
            }
        }
        assert forall|id: [u8; 32]| #[trigger] b.contains(id) <==> list.contains(id) || (
        more.contains(id) && id != self_id) by {
            assert(a.contains(id) <==> list.contains(id) || (front.contains(id) && id != self_id));
            if more.contains(id) {
                let i = choose|i: int| 0 <= i < more.len() && more[i] == id;
                if i < front.len() {
                    assert(front[i] == id);
                }
            }
            if front.contains(id) {
                let i = choose|i: int| 0 <= i < front.len() && front[i] == id;
                assert(more[i] == id);
            }
            if id == x {
                assert(more[more.len() - 1] == id);
            }
        }
    }
}

/// The nodes whose chain is pulled: the live members, then the governors.
pub open spec fn pull_order(self_id: [u8; 32], census: Seq<[u8; 32]>, governors: Seq<[u8; 32]>) -> Seq<
    [u8; 32],
> {
    with_others(with_others(Seq::empty(), census, self_id), governors, self_id)
}

/// Every live member and every governor is pulled from, once, and never this node: a governor
/// out of sight of the census is still heard.
pub proof fn law_every_governor_is_pulled(
    self_id: [u8; 32],
    census: Seq<[u8; 32]>,
    governors: Seq<[u8; 32]>,
)
    ensures
        pull_order(self_id, census, governors).no_duplicates(),
        forall|id: [u8; 32]| #[trigger]
            pull_order(self_id, census, governors).contains(id) <==> id != self_id && (
            census.contains(id) || governors.contains(id)),
{
    let none = Seq::<[u8; 32]>::empty();
    lemma_with_others(none, census, self_id);
    lemma_with_others(with_others(none, census, self_id), governors, self_id);
}

/// The name that the native registry program goes by.
pub open spec fn registry_name() -> Seq<char> {
    "app-registry"@
}

impl GovernanceChainStore {
    /// A node that has announced nothing yet.
    pub fn open(self_id: [u8; 32]) -> (store: GovernanceChainStore)
        ensures
            store.self_id == self_id,
            store.last_announce is None,
    {
        GovernanceChainStore { self_id, last_announce: None }
    }

    /// The governors that the chain starts from: the configured ones, or this node alone.
    pub fn genesis(&self, governors: &[[u8; 32]], threshold: usize) -> (set: GovernanceSet)
        ensures
            (set.members@, set.threshold) == founders(self.self_id, governors@, threshold),
    {
        let mut members: Vec<[u8; 32]> = Vec::new();
        if governors.len() == 0 {
            members.push(self.self_id);
            assert(members@ =~= seq![self.self_id]);
            return GovernanceSet { members, threshold: 1 };
        }
        let mut i: usize = 0;
        while i < governors.len()
            invariant
                i <= governors@.len(),
                members@ == governors@.take(i as int),
            decreases governors@.len() - i,
        {
            members.push(governors[i]);
            i = i + 1;
            assert(members@ =~= governors@.take(i as int));
        }
        assert(members@ =~= governors@);
        GovernanceSet {
            members,
            threshold: if threshold < 1 {
                1
            } else {
                threshold
            },
        }
    }

    /// Whether a node starts from the chain that it stored: one of its genesis that holds
    /// together. From the bare genesis otherwise.
    pub fn keeps_stored(stored: &Option<ChainHead>) -> (keep: bool)
        ensures
            keep == (*stored matches Some(c) && c.same_genesis && c.valid),
    {
        match stored {
            Some(c) => c.same_genesis && c.valid,
            None => false,
        }
    }

    /// The governors in office: those that the chain leads to, or those of the genesis where
    /// it does not hold together.
    pub fn current(derived: Option<GovernanceSet>, genesis: GovernanceSet) -> (set: GovernanceSet)
        ensures
            set == (match derived {
                Some(s) => s,
                None => genesis,
            }),
    {
        match derived {
            Some(s) => s,
            None => genesis,
        }
    }

    /// Whether this node governs.
    pub fn is_governor(&self, current: &GovernanceSet) -> (yes: bool)
        ensures
            yes == current.members@.contains(self.self_id),
    {
        current.is_member(&self.self_id)
    }

    /// The step that a proposal drafted on a chain of `seq` steps is for.
    pub fn draft(seq: u64) -> (next: u64)
        requires
            seq < u64::MAX,
        ensures
            next == seq + 1,
    {
        seq + 1
    }

    /// Whether this node's signature is to be added to an approval signed by `signers`: it
    /// must govern, and not have signed already.
    pub fn cosign(&self, current: &GovernanceSet, signers: &[[u8; 32]]) -> (r: Result<
        bool,
        CosignError,
    >)
        ensures
            match r {
                Ok(push) => current.members@.contains(self.self_id) && push
                    == !signers@.contains(self.self_id),
                Err(CosignError::NotAGovernor) => !current.members@.contains(self.self_id),
            },
    {
        if !current.is_member(&self.self_id) {
            return Err(CosignError::NotAGovernor);
        }
        Ok(!lists(signers, &self.self_id))
    }

    /// The content that a program name stands for: what governance set, or the native program
    /// for the name of the registry.
    pub fn resolve(set: Option<[u8; 32]>, name: &str, native: [u8; 32]) -> (cid: Option<[u8; 32]>)
        ensures
            cid == (match set {
                Some(c) => Some(c),
                None => if name@ == registry_name() {
                    Some(native)
                } else {
                    None
                },
            }),
    {
        match set {
            Some(c) => Some(c),
            None => if same_text(name, "app-registry") {
                Some(native)
            } else {
                None
            },
        }
    }

    /// The programs set by governance, as they are shown.
    pub fn rows(programs: Vec<(String, [u8; 32], u64)>) -> (rows: Vec<(String, String, u64)>)
        ensures
            rows@.len() == programs@.len(),
            forall|i: int|
                0 <= i < programs@.len() ==> (#[trigger] rows@[i]).0@ == programs@[i].0@
                    && rows@[i].1@ == hex_text(programs@[i].1@) && rows@[i].2 == programs@[i].2,
    {
        let ghost all = programs@;
        let mut rows: Vec<(String, String, u64)> = Vec::new();
        for p in it: programs
            invariant
                it.seq() == all,
                rows@.len() == it.index(),
                forall|i: int|
                    0 <= i < rows@.len() ==> (#[trigger] rows@[i]).0@ == all[i].0@ && rows@[i].1@
                        == hex_text(all[i].1@) && rows@[i].2 == all[i].2,
        {
            let (name, cid, version) = p;
            rows.push((name, hex_encode(cid.as_slice()), version));
        }
        rows
    }

    /// Whether a chain of `seq` steps is to be announced at `now`: it changed since, or the
    /// last time is ten minutes past.
    pub fn publish_due(&self, seq: u64, now: u64) -> (due: bool)
        ensures
            due == (match self.last_announce {
                Some((last, at)) => last != seq || crate::headreg::settle::passed(now, at)
                    >= ANNOUNCE_HEARTBEAT_MS,
                None => true,
            }),
    {
        match self.last_announce {
            Some((last, at)) => last != seq || now.saturating_sub(at) >= ANNOUNCE_HEARTBEAT_MS,
            None => true,
        }
    }

    /// Notes that a chain of `seq` steps was announced at `now`.
    pub fn published(&mut self, seq: u64, now: u64)
        ensures
            *final(self) == (GovernanceChainStore { last_announce: Some((seq, now)), ..*old(self) }),
    {
        self.last_announce = Some((seq, now));
    }

    /// The nodes to pull the chain from: every live member and every governor but this node,
    /// each once.
    pub fn pull_targets(&self, census: &[[u8; 32]], current: &GovernanceSet) -> (targets: Vec<
        [u8; 32],
    >)
        ensures
            targets@ == pull_order(self.self_id, census@, current.members@),
    {
        let mut targets: Vec<[u8; 32]> = Vec::new();
        add_others(&mut targets, census, &self.self_id);
        add_others(&mut targets, current.members.as_slice(), &self.self_id);
        targets
    }
}

/// The chain starts as it is configured: the configured governors, of whom as many must agree
/// as is configured, and at least one. Where none are configured this node governs alone.
pub proof fn law_founding_is_as_configured(
    self_id: [u8; 32],
    governors: Seq<[u8; 32]>,
    threshold: usize,
)
    ensures
        governors.len() > 0 ==> founders(self_id, governors, threshold).0 == governors,
        governors.len() > 0 && threshold >= 1 ==> founders(self_id, governors, threshold).1
            == threshold,
        founders(self_id, governors, threshold).1 >= 1,
        threshold <= 1 ==> founders(self_id, governors, threshold).1 == 1,
        governors.len() == 0 ==> {
            &&& founders(self_id, governors, threshold).0.len() == 1
            &&& founders(self_id, governors, threshold).0[0] == self_id
            &&& founders(self_id, governors, threshold).1 == 1
        },
{
}

/// What a call of `genesis` gives: the configured governors in order, deciding by the configured
/// threshold where that is at least one, and by one otherwise; or this node alone where none are
/// configured.
pub proof fn law_genesis_keeps_the_threshold(
    store: GovernanceChainStore,
    governors: &[[u8; 32]],
    threshold: usize,
    set: GovernanceSet,
)
    requires
        call_ensures(GovernanceChainStore::genesis, (&store, governors, threshold), set),
    ensures
        governors@.len() > 0 ==> set.members@ == governors@,
        governors@.len() > 0 && threshold >= 1 ==> set.threshold == threshold,
        governors@.len() > 0 && threshold == 0 ==> set.threshold == 1,
        governors@.len() == 0 ==> set.threshold == 1 && set.members@.len() == 1
            && set.members@[0] == store.self_id,
{
}

/// A chain is announced at first and whenever its length has changed, and again ten minutes after
/// the last time. Announcing it makes it the one announced last.
pub proof fn law_announcements_repeat(
    store: &mut GovernanceChainStore,
    seq: u64,
    at: u64,
    later: u64,
    again: bool,
    longer: u64,
    at_once: bool,
)
    requires
        call_ensures(GovernanceChainStore::published, (store, seq, at), ()),
        call_ensures(GovernanceChainStore::publish_due, (final(store), seq, later), again),
        call_ensures(GovernanceChainStore::publish_due, (final(store), longer, later), at_once),
        later >= at,
    ensures
        again <==> later >= at + 600_000,
        longer != seq ==> at_once,
        final(store).self_id == old(store).self_id,
{
}

/// A stored chain is kept exactly where it is of this genesis and holds together; the governors in
/// office are those that the chain leads to, and those of the genesis only where it leads nowhere.
pub proof fn law_sound_chains_are_kept(
    stored: ChainHead,
    keep: bool,
    none: bool,
    derived: GovernanceSet,
    genesis: GovernanceSet,
    led: GovernanceSet,
    lost: GovernanceSet,
)
    requires
        call_ensures(GovernanceChainStore::keeps_stored, (&Some(stored),), keep),
        call_ensures(GovernanceChainStore::keeps_stored, (&None,), none),
        call_ensures(GovernanceChainStore::current, (Some(derived), genesis), led),
        call_ensures(GovernanceChainStore::current, (None, genesis), lost),
    ensures
        keep <==> stored.same_genesis && stored.valid,
        !none,
        led == derived,
        lost == genesis,
{
}

/// A node signs exactly where it governs and has not signed yet.
pub proof fn law_governors_sign_once(
    store: GovernanceChainStore,
    current: GovernanceSet,
    signers: &[[u8; 32]],
    governs: bool,
    r: Result<bool, CosignError>,
)
    requires
        call_ensures(GovernanceChainStore::is_governor, (&store, &current), governs),
        call_ensures(GovernanceChainStore::cosign, (&store, &current, signers), r),
    ensures
        governs <==> exists|i: int|
            0 <= i < current.members@.len() && current.members@[i] == store.self_id,
        r is Ok <==> governs,
        r is Ok ==> (r->Ok_0 <==> forall|i: int|
            0 <= i < signers@.len() ==> signers@[i] != store.self_id),
{
}

/// A program name stands for what governance set; only the registry has a program where nothing
/// was set.
pub proof fn law_governance_overrides_the_native_program(
    cid: [u8; 32],
    native: [u8; 32],
    name: &str,
    set: Option<[u8; 32]>,
    unset: Option<[u8; 32]>,
)
    requires
        call_ensures(GovernanceChainStore::resolve, (Some(cid), name, native), set),
        call_ensures(GovernanceChainStore::resolve, (None, name, native), unset),
    ensures
        set == Some(cid),
        name@ == "app-registry"@ ==> unset == Some(native),
        name@ != "app-registry"@ ==> unset is None,
{
}

/// The chain is pulled from every live member and every governor but this node, once each.
pub proof fn law_pulls_go_to_members_and_governors(
    store: GovernanceChainStore,
    census: &[[u8; 32]],
    current: GovernanceSet,
    targets: Vec<[u8; 32]>,
    id: [u8; 32],
)
    requires
        call_ensures(GovernanceChainStore::pull_targets, (&store, census, &current), targets),
    ensures
        targets@.no_duplicates(),
        targets@.contains(id) <==> id != store.self_id && (census@.contains(id)
            || current.members@.contains(id)),
{
    law_every_governor_is_pulled(store.self_id, census@, current.members@);
}

/// A proposal is for the step behind the last one of the chain that it is drafted on.
pub proof fn law_proposals_are_for_the_next_step(seq: u64, next: u64)
    requires
        seq < u64::MAX,
        call_ensures(GovernanceChainStore::draft, (seq,), next),
    ensures
        next == seq + 1,
{
}

} // verus!
