//! Chains of statements that a program's quorum has authorised.

use crate::bytes::same32;
use crate::idset::lists;
use crate::parse::{is_hex32, parse32, split_at_first, split_once};
use crate::text::{hex_bytes, hex_encode, hex_text};
use vstd::prelude::*;
use vstd::string::*;

verus! {

/// The name that the head of a chain is announced under.
pub open spec fn head_name(owner: Seq<u8>, program: Seq<u8>) -> Seq<char> {
    "\u{1}attest-chain-"@ + hex_text(owner) + "-"@ + hex_text(program)
}

/// The name that the head of the chain of an owner's program is announced under.
pub fn attest_head_name(owner: &[u8; 32], program_cid: &[u8; 32]) -> (name: String)
    ensures
        name@ == head_name(owner@, program_cid@),
{
    let mut name = String::from_str("\u{1}attest-chain-");
    name.append(hex_encode(owner.as_slice()).as_str());
    name.append("-");
    name.append(hex_encode(program_cid.as_slice()).as_str());
    name
}

/// The stem of the file that a chain is kept in.
pub open spec fn stem(owner: Seq<u8>, program: Seq<u8>) -> Seq<char> {
    hex_text(owner) + "_"@ + hex_text(program)
}

/// The name of the file that a chain is kept in.
pub fn chain_file(owner: &[u8; 32], program_cid: &[u8; 32]) -> (name: String)
    ensures
        name@ == stem(owner@, program_cid@) + ".chain"@,
{
    let mut name = hex_encode(owner.as_slice());
    name.append("_");
    name.append(hex_encode(program_cid.as_slice()).as_str());
    name.append(".chain");
    name
}

/// The owner and the program that a file stem names.
pub open spec fn named(s: Seq<char>) -> Option<(Seq<u8>, Seq<u8>)> {
    match split_at_first(s, '_') {
        Some((o, p)) => if is_hex32(o) && is_hex32(p) {
            Some((hex_bytes(o), hex_bytes(p)))
        } else {
            None
        },
        None => None,
    }
}

/// Reads the owner and the program off the stem of a file name.
pub fn parse_stem(stem: &str) -> (key: Option<([u8; 32], [u8; 32])>)
    ensures
        match key {
            Some((o, p)) => named(stem@) == Some((o@, p@)),
            None => named(stem@) is None,
        },
{
    match split_once(stem, '_') {
        Some((o, p)) => match (parse32(o.as_str()), parse32(p.as_str())) {
            (Some(owner), Some(program)) => Some((owner, program)),
            _ => None,
        },
        None => None,
    }
}

/// A chain is found again under the file name that it was stored under.
pub proof fn law_file_names_read_back(owner: Seq<u8>, program: Seq<u8>)
    requires
        owner.len() == 32,
        program.len() == 32,
    ensures
        named(stem(owner, program)) == Some((owner, program)),
{
    reveal_strlit("_");
    let o = hex_text(owner);
    let p = hex_text(program);
    let s = stem(owner, program);
    crate::text::law_hex_round_trip(owner);
    crate::text::law_hex_round_trip(program);
    assert forall|i: int| 0 <= i < 64 implies s[i] != '_' by {
        assert(s[i] == o[i]);
        assert(crate::text::hex_value(o[i]) >= 0);
    }
    assert(s[64] == '_');
    lemma_first_underscore(s, 64);
    assert(s.take(64) =~= o);
    assert(s.skip(65) =~= p);
}

proof fn lemma_first_underscore(s: Seq<char>, n: int)
    requires
        0 <= n < s.len(),
        s[n] == '_',
        forall|i: int| 0 <= i < n ==> s[i] != '_',
    ensures
        crate::parse::first_at(s, '_') == n,
    decreases n,
{
    if n > 0 {
        assert(s[0] != '_');
        let t = s.skip(1);
        assert(t[n - 1] == '_');
        assert forall|i: int| 0 <= i < n - 1 implies t[i] != '_' by {
            assert(s[i + 1] != '_');
        }
        lemma_first_underscore(t, n - 1);
    }
}

/// What a chain that was fetched or read claims, and what of it was checked.
#[derive(Clone, Copy, Debug)]
pub struct Envelope {
    /// Whose chain it says it is.
    pub owner: [u8; 32],
    /// The owner's signature over the genesis, for this program, holds, and every step follows.
    pub verified: bool,
    /// Its genesis is the one already held; true where none is held.
    pub same_genesis: bool,
    /// How many steps it has.
    pub seq: u64,
}

/// The chain that a node holds of one program of one owner.
#[derive(Clone, Copy, Debug, PartialEq, Eq, Structural)]
pub struct HeldChain {
    /// How many steps it has, `None` where no chain is held.
    pub seq: Option<u64>,
}

impl HeldChain {
    /// The length to beat.
    pub open spec fn length(self) -> u64 {
        match self.seq {
            Some(n) => n,
            None => 0,
        }
    }

    /// The length to beat: zero where no chain is held.
    pub fn local_seq(&self) -> (n: u64)
        ensures
            n == self.length(),
    {
        match self.seq {
            Some(n) => n,
            None => 0,
        }
    }
}

/// Whether a fetched chain is taken over: signed by the very owner, sound, of the genesis
/// already held if one is, and longer than that.
pub open spec fn takes_over(held: HeldChain, owner: [u8; 32], e: Envelope) -> bool {
    &&& e.owner == owner
    &&& e.verified
    &&& held.seq is Some ==> e.same_genesis
    &&& held.seq is None || e.seq > held.length()
}

/// The store of one node.
#[derive(Clone, Copy, Debug)]
pub struct AttestStore {
    pub self_id: [u8; 32],
}

impl AttestStore {
    /// The store of the node `self_id`.
    pub fn open(self_id: [u8; 32]) -> (store: AttestStore)
        ensures
            store.self_id == self_id,
    {
        AttestStore { self_id }
    }

    /// The owner that this node bootstraps and collects for: itself.
    pub fn owner(&self) -> (id: [u8; 32])
        ensures
            id == self.self_id,
    {
        self.self_id
    }

    /// Whether a stored chain is loaded: it is the owner's that the file names, and sound.
    pub fn loads(named_owner: &[u8; 32], e: &Envelope) -> (load: bool)
        ensures
            load == (e.owner == *named_owner && e.verified),
    {
        same32(&e.owner, named_owner) && e.verified
    }

    /// Whether a new chain is begun: only where none is held yet.
    pub fn bootstrap(held: &HeldChain) -> (begin: bool)
        ensures
            begin == (held.seq is None),
    {
        held.seq.is_none()
    }

    /// The step that a proposal is for; none where no chain is held.
    pub fn propose(held: &HeldChain) -> (next: Option<u64>)
        requires
            held.length() < u64::MAX,
        ensures
            next == (match held.seq {
                Some(n) => Some((n + 1) as u64),
                None => None,
            }),
    {
        match held.seq {
            Some(n) => Some(n + 1),
            None => None,
        }
    }

    /// Whether this node's signature is to be added: unless it has signed already.
    pub fn cosign(&self, signers: &[[u8; 32]]) -> (push: bool)
        ensures
            push == !signers@.contains(self.self_id),
    {
        !lists(signers, &self.self_id)
    }

    /// What a submission comes to, given whether it extends the held chain: it is refused
    /// where no chain is held or it does not, and the chain is one step longer otherwise.
    pub fn submit(held: &HeldChain, extends: bool) -> (r: Option<HeldChain>)
        requires
            held.length() < u64::MAX,
        ensures
            r == (if held.seq is Some && extends {
                Some(HeldChain { seq: Some((held.length() + 1) as u64) })
            } else {
                None
            }),
    {
        match held.seq {
            Some(n) => if extends {
                Some(HeldChain { seq: Some(n + 1) })
            } else {
                None
            },
            None => None,
        }
    }

    /// Whether a statement is authorised: by a chain that is held and lists it.
    pub fn is_authorized(held: &HeldChain, listed: bool) -> (yes: bool)
        ensures
            yes == (held.seq is Some && listed),
    {
        held.seq.is_some() && listed
    }

    /// The nodes to pull chains from: every live member but this node.
    pub fn pull_targets(&self, census: &[[u8; 32]]) -> (targets: Vec<[u8; 32]>)
        ensures
            targets@ == crate::headreg::election::others(census@, self.self_id),
    {
        let mut targets: Vec<[u8; 32]> = Vec::new();
        let mut i: usize = 0;
        assert(census@.take(0) =~= Seq::<[u8; 32]>::empty());
        while i < census.len()
            invariant
                i <= census@.len(),
                targets@ == crate::headreg::election::others(
                    census@.take(i as int),
                    self.self_id,
                ),
            decreases census@.len() - i,
        {
            proof {
                let next = census@.take(i + 1);
                assert(next.drop_last() =~= census@.take(i as int));
                assert(next.last() == census@[i as int]);
            }
            if !same32(&census[i], &self.self_id) {
                targets.push(census[i]);
            }
            i = i + 1;
        }
        assert(census@.take(i as int) =~= census@);
        targets
    }

    /// What is held after a chain was fetched for `owner`.
    pub fn sync(held: &HeldChain, owner: &[u8; 32], fetched: &Envelope) -> (r: HeldChain)
        ensures
            r == (if takes_over(*held, *owner, *fetched) {
                HeldChain { seq: Some(fetched.seq) }
            } else {
                *held
            }),
    {
        if !same32(&fetched.owner, owner) || !fetched.verified {
            return *held;
        }
        if held.seq.is_some() && !fetched.same_genesis {
            return *held;
        }
        if held.seq.is_none() || fetched.seq > held.local_seq() {
            HeldChain { seq: Some(fetched.seq) }
        } else {
            *held
        }
    }
}

/// What is held after chains were fetched one after another.
pub open spec fn synced(held: HeldChain, owner: [u8; 32], fetched: Seq<Envelope>) -> HeldChain
    decreases fetched.len(),
{
    if fetched.len() == 0 {
        held
    } else {
        let before = synced(held, owner, fetched.drop_last());
        if takes_over(before, owner, fetched.last()) {
            HeldChain { seq: Some(fetched.last().seq) }
        } else {
            before
        }
    }
}

/// No peer can put a chain in the place of the owner's. Whatever is served, what is held in
/// the end is what was held before or a chain that the very owner signed and that is sound,
/// of the genesis already held if there was one; and it is never shorter.
pub proof fn law_only_the_owner_is_believed(
    held: HeldChain,
    owner: [u8; 32],
    fetched: Seq<Envelope>,
)
    ensures
        synced(held, owner, fetched).length() >= held.length(),
        held.seq is Some ==> synced(held, owner, fetched).seq is Some,
        synced(held, owner, fetched) == held || exists|i: int|
            0 <= i < fetched.len() && (#[trigger] fetched[i]).owner == owner && fetched[i].verified
                && (held.seq is Some ==> fetched[i].same_genesis) && synced(
                held,
                owner,
                fetched,
            ).seq == Some(fetched[i].seq),
    decreases fetched.len(),
{
    if fetched.len() > 0 {
        let front = fetched.drop_last();
        law_only_the_owner_is_believed(held, owner, front);
        let before = synced(held, owner, front);
        if takes_over(before, owner, fetched.last()) {
            assert(fetched[fetched.len() - 1] == fetched.last());
        } else if before != held {
            let i = choose|i: int|
                0 <= i < front.len() && (#[trigger] front[i]).owner == owner && front[i].verified
                    && (held.seq is Some ==> front[i].same_genesis) && before.seq == Some(
                    front[i].seq,
                );
            assert(fetched[i] == front[i]);
        }
    }
}

/// Of the sound chains that the owner signed, of the genesis already held, the longest is
/// held in the end. So a node that pulls a declared quorum holds it, though no statement was
/// made under it yet.
pub proof fn law_longest_signed_chain_is_held(
    held: HeldChain,
    owner: [u8; 32],
    fetched: Seq<Envelope>,
    i: int,
)
    requires
        0 <= i < fetched.len(),
        fetched[i].owner == owner,
        fetched[i].verified,
        fetched[i].same_genesis,
    ensures
        synced(held, owner, fetched).seq is Some,
        synced(held, owner, fetched).length() >= fetched[i].seq,
    decreases fetched.len(),
{
    if i < fetched.len() - 1 {
        law_longest_signed_chain_is_held(held, owner, fetched.drop_last(), i);
    }
}

/// Which chains are taken over, one after the other: of what was fetched last, one that its very
/// owner signed, that holds together, and that is the first or a longer one of the same genesis.
pub proof fn law_chains_are_taken_over_in_turn(
    held: HeldChain,
    owner: [u8; 32],
    before: Seq<Envelope>,
    e: Envelope,
)
    ensures
        synced(held, owner, Seq::empty()) == held,
        ({
            let was = synced(held, owner, before);
            let is = synced(held, owner, before.push(e));
            let sound = e.owner == owner && e.verified;
            &&& sound && was.seq is None ==> is.seq == Some(e.seq)
            &&& sound && was.seq is Some && e.same_genesis && e.seq > was.seq->0 ==> is.seq
                == Some(e.seq)
            &&& !sound ==> is == was
            &&& was.seq is Some && (!e.same_genesis || e.seq <= was.seq->0) ==> is == was
        }),
{
    assert(before.push(e).drop_last() =~= before);
}

/// The chains of different owners or programs are announced under different names, which tell
/// both; so are they stored under different names.
pub proof fn law_chains_have_their_own_names(
    owner: Seq<u8>,
    program: Seq<u8>,
    other: Seq<u8>,
    another: Seq<u8>,
)
    requires
        owner.len() == 32,
        program.len() == 32,
        other.len() == 32,
        another.len() == 32,
    ensures
        head_name(owner, program) == head_name(other, another) ==> owner == other && program
            == another,
        head_name(owner, program).len() == 143,
        head_name(owner, program)[0] == '\u{1}',
        head_name(owner, program).subrange(14, 78) == hex_text(owner),
        head_name(owner, program).subrange(79, 143) == hex_text(program),
        stem(owner, program).len() == 129,
        stem(owner, program).subrange(0, 64) == hex_text(owner),
        stem(owner, program)[64] == '_',
        stem(owner, program).subrange(65, 129) == hex_text(program),
{
    reveal_strlit("\u{1}attest-chain-");
    reveal_strlit("-");
    reveal_strlit("_");
    assert(head_name(owner, program).subrange(14, 78) =~= hex_text(owner));
    assert(head_name(owner, program).subrange(79, 143) =~= hex_text(program));
    assert(head_name(other, another).subrange(14, 78) =~= hex_text(other));
    assert(head_name(other, another).subrange(79, 143) =~= hex_text(another));
    assert(stem(owner, program).subrange(0, 64) =~= hex_text(owner));
    assert(stem(owner, program).subrange(65, 129) =~= hex_text(program));
    crate::text::law_hex_round_trip(owner);
    crate::text::law_hex_round_trip(program);
    crate::text::law_hex_round_trip(other);
    crate::text::law_hex_round_trip(another);
}

/// What calls on a chain of statements come to: it is begun where none is held; a proposal is for
/// the step behind the last, and submitting one that extends it makes it longer by that step. A
/// node that has signed does not sign again, and only who is listed on a chain that is held is
/// authorised.
pub proof fn law_chains_grow_step_by_step(
    store: AttestStore,
    held: HeldChain,
    begin: bool,
    next: Option<u64>,
    extends: bool,
    r: Option<HeldChain>,
    signers: &[[u8; 32]],
    push: bool,
    listed: bool,
    yes: bool,
)
    requires
        held.length() < u64::MAX,
        call_ensures(AttestStore::bootstrap, (&held,), begin),
        call_ensures(AttestStore::propose, (&held,), next),
        call_ensures(AttestStore::submit, (&held, extends), r),
        call_ensures(AttestStore::cosign, (&store, signers), push),
        call_ensures(AttestStore::is_authorized, (&held, listed), yes),
    ensures
        begin <==> held.seq is None,
        next is Some <==> held.seq is Some,
        held.seq matches Some(n) ==> next matches Some(m) && m == n + 1,
        r is Some <==> held.seq is Some && extends,
        r is Some ==> r->0.seq == next,
        push <==> forall|i: int| 0 <= i < signers@.len() ==> signers@[i] != store.self_id,
        yes <==> held.seq is Some && listed,
{
}

/// A stored chain is loaded under the owner that signed it, and pulled from every other member of
/// the census.
pub proof fn law_stored_chains_are_the_owners(
    store: AttestStore,
    named_owner: [u8; 32],
    e: Envelope,
    load: bool,
    census: &[[u8; 32]],
    targets: Vec<[u8; 32]>,
    id: [u8; 32],
)
    requires
        call_ensures(AttestStore::loads, (&named_owner, &e), load),
        call_ensures(AttestStore::pull_targets, (&store, census), targets),
    ensures
        load <==> e.owner == named_owner && e.verified,
        targets@.contains(id) <==> id != store.self_id && census@.contains(id),
{
    crate::headreg::election::law_only_self_is_left_out(census@, id, store.self_id);
}

} // verus!
