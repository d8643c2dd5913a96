//! Where a request about a name goes: which shard, which node, in which order.

use crate::headreg::cache::Head;
use crate::headreg::election::{ask_order, is_replica, read_targets, replica_set, writer_among,
    writer_of};
use crate::headreg::rows::HeadRowWire;
use crate::headreg::shard::{shard_at, shard_of, HeadEntry, ShardKey, MAX_SHARD_BITS};
use crate::bytes::same32;
use crate::membership::member::PeerAddr;
use crate::parse::chars_of;
use vstd::prelude::*;
use vstd::string::*;

verus! {

/// The longest name that a head may have, in characters.
pub const MAX_NAME_LEN: usize = 32;

/// A request to a registry node.
#[derive(Debug)]
pub enum RegistryReq {
    /// Advance a head by a signed submission.
    Submit { rtype: u8, bits: u32, sub: Vec<u8> },
    Resolve { rtype: u8, bits: u32, owner: [u8; 32], name: String },
    /// The whole state of a shard.
    GetState { rtype: u8, bits: u32, shard: u64 },
    CurrentVersion { rtype: u8, bits: u32, owner: [u8; 32], name: String },
    /// State to be merged.
    PushState { rtype: u8, bits: u32, shard: u64, state: Vec<u8> },
    ListEntries,
}

/// The answer to one.
#[derive(Debug)]
pub enum RegistryResp {
    SubmitAck([u8; 32]),
    Resolved(Option<Head>),
    State(Vec<u8>),
    Version(u64),
    Ack,
    Entries(Vec<HeadRowWire>),
    Refused(String),
}

/// A head that its owner wants registered.
#[derive(Debug)]
pub struct HeadSubmission {
    pub owner: [u8; 32],
    pub name: String,
    pub cid: [u8; 32],
    pub version: u64,
}

/// The shard of a name at a shard count.
pub open spec fn shard_key(rtype: u8, bits: u32, owner: [u8; 32], name: Seq<char>) -> ShardKey {
    ShardKey { rtype, bits, shard: shard_at(owner, name, bits) as u64 }
}

/// The shard of a name at the shard count `2^bits`.
pub fn route(rtype: u8, bits: u32, owner: &[u8; 32], name: &str) -> (sk: ShardKey)
    requires
        bits < 64,
    ensures
        sk == shard_key(rtype, bits, *owner, name@),
        sk.shard == shard_at(*owner, name@, bits),
{
    ShardKey { rtype, bits, shard: shard_of(owner, name, bits) }
}

/// What a node has to do for a request.
#[derive(Debug)]
pub enum ServePlan {
    /// Answer at once.
    Reply(RegistryResp),
    /// Catch up as the writer of the shard, check the submission, and advance.
    Advance(ShardKey),
    /// Catch up as the writer of the shard and look the name up.
    LookUp { sk: ShardKey, owner: [u8; 32], name: String },
    /// Hand out the state of the shard.
    Snapshot(ShardKey),
    /// Look up the version of the name in the shard.
    Version { sk: ShardKey, owner: [u8; 32], name: String },
    /// Merge the pushed state into the shard and acknowledge.
    Merge(ShardKey),
    /// List this node's heads.
    List,
}

/// What is answered while memory is short.
pub open spec fn busy_text() -> Seq<char> {
    "busy — memory pressure"@
}

/// What is answered to a submission that cannot be read.
pub open spec fn unreadable_text() -> Seq<char> {
    "bad submission"@
}

/// Whether `plan` is what the request calls for. The shard is found from the request's own
/// shard count, so that both ends agree even while the count changes.
pub open spec fn planned(
    req: RegistryReq,
    submission: Option<HeadSubmission>,
    readable: bool,
    shedding: bool,
    plan: ServePlan,
) -> bool {
    match req {
        RegistryReq::Submit { rtype, bits, .. } => match submission {
            Some(s) => plan == ServePlan::Advance(shard_key(rtype, bits, s.owner, s.name@)),
            None => plan matches ServePlan::Reply(RegistryResp::Refused(text)) && text@
                == unreadable_text(),
        },
        RegistryReq::Resolve { rtype, bits, owner, name } => {
            &&& plan matches ServePlan::LookUp { sk, owner: o, name: n }
            &&& sk == shard_key(rtype, bits, owner, name@)
            &&& o == owner
            &&& n@ == name@
        },
        RegistryReq::GetState { rtype, bits, shard } => plan == ServePlan::Snapshot(
            ShardKey { rtype, bits, shard },
        ),
        RegistryReq::CurrentVersion { rtype, bits, owner, name } => {
            &&& plan matches ServePlan::Version { sk, owner: o, name: n }
            &&& sk == shard_key(rtype, bits, owner, name@)
            &&& o == owner
            &&& n@ == name@
        },
        RegistryReq::PushState { rtype, bits, shard, .. } => if shedding {
            plan matches ServePlan::Reply(RegistryResp::Refused(text)) && text@ == busy_text()
        } else if readable {
            plan == ServePlan::Merge(ShardKey { rtype, bits, shard })
        } else {
            plan == ServePlan::Reply(RegistryResp::Ack)
        },
        RegistryReq::ListEntries => plan == ServePlan::List,
    }
}

/// The shard count that a request is routed by, where it is.
pub open spec fn routed_by(req: RegistryReq) -> Option<u32> {
    match req {
        RegistryReq::Submit { bits, .. } => Some(bits),
        RegistryReq::Resolve { bits, .. } => Some(bits),
        RegistryReq::CurrentVersion { bits, .. } => Some(bits),
        _ => None,
    }
}

/// Plans the answer to a request. `submission` is what the submitted bytes say, `readable`
/// whether the pushed bytes are a state, `shedding` whether memory is short.
pub fn plan_serve(
    req: &RegistryReq,
    submission: &Option<HeadSubmission>,
    readable: bool,
    shedding: bool,
) -> (plan: ServePlan)
    requires
        routed_by(*req) matches Some(bits) ==> bits < 64,
    ensures
        planned(*req, *submission, readable, shedding, plan),
{
    match req {
        RegistryReq::Submit { rtype, bits, sub: _ } => match submission {
            Some(s) => ServePlan::Advance(route(*rtype, *bits, &s.owner, s.name.as_str())),
            None => ServePlan::Reply(RegistryResp::Refused(String::from_str("bad submission"))),
        },
        RegistryReq::Resolve { rtype, bits, owner, name } => ServePlan::LookUp {
            sk: route(*rtype, *bits, owner, name.as_str()),
            owner: *owner,
            name: name.clone(),
        },
        RegistryReq::GetState { rtype, bits, shard } => ServePlan::Snapshot(
            ShardKey { rtype: *rtype, bits: *bits, shard: *shard },
        ),
        RegistryReq::CurrentVersion { rtype, bits, owner, name } => ServePlan::Version {
            sk: route(*rtype, *bits, owner, name.as_str()),
            owner: *owner,
            name: name.clone(),
        },
        RegistryReq::PushState { rtype, bits, shard, state: _ } => if shedding {
            ServePlan::Reply(RegistryResp::Refused(String::from_str("busy — memory pressure")))
        } else if readable {
            ServePlan::Merge(ShardKey { rtype: *rtype, bits: *bits, shard: *shard })
        } else {
            ServePlan::Reply(RegistryResp::Ack)
        },
        RegistryReq::ListEntries => ServePlan::List,
    }
}

/// Why a submission is refused.
#[derive(Clone, Copy, Debug, PartialEq, Eq, Structural)]
pub enum SubmitError {
    BadSignature,
    NameTooLong,
}

impl SubmitError {
    /// The text of the refusal.
    pub fn message(&self) -> (text: String)
        ensures
            *self == SubmitError::BadSignature ==> text@
                == "registry rejected the submission: bad-signature"@,
            *self == SubmitError::NameTooLong ==> text@
                == "registry rejected the submission: name exceeds 32 chars"@,
    {
        match self {
            SubmitError::BadSignature => String::from_str(
                "registry rejected the submission: bad-signature",
            ),
            SubmitError::NameTooLong => String::from_str(
                "registry rejected the submission: name exceeds 32 chars",
            ),
        }
    }
}

/// Checks a submission, given whether its owner signed it: first the signature, then the
/// length of the name.
pub fn check_submission(sub: &HeadSubmission, signed: bool) -> (r: Result<HeadEntry, SubmitError>)
    ensures
        match r {
            Ok(e) => {
                &&& signed
                &&& sub.name@.len() <= MAX_NAME_LEN
                &&& e.owner == sub.owner
                &&& e.name@ == sub.name@
                &&& e.cid == sub.cid
                &&& e.version == sub.version
            },
            Err(SubmitError::BadSignature) => !signed,
            Err(SubmitError::NameTooLong) => signed && sub.name@.len() > MAX_NAME_LEN,
        },
{
    if !signed {
        return Err(SubmitError::BadSignature);
    }
    if chars_of(sub.name.as_str()).len() > MAX_NAME_LEN {
        return Err(SubmitError::NameTooLong);
    }
    Ok(
        HeadEntry {
            owner: sub.owner,
            name: sub.name.clone(),
            cid: sub.cid,
            version: sub.version,
        },
    )
}

/// Where a write goes.
#[derive(Clone, Copy, Debug)]
pub enum WriteRoute {
    /// This node is the writer.
    Local(ShardKey),
    /// The node that is.
    Forward { sk: ShardKey, writer: [u8; 32] },
}

/// Routes a write of a name: to the writer of its shard in the epoch `eff`.
pub fn route_write(
    rtype: u8,
    bits: u32,
    owner: &[u8; 32],
    name: &str,
    eligible: &[[u8; 32]],
    eff: u64,
    self_id: &[u8; 32],
) -> (r: WriteRoute)
    requires
        bits < 64,
    ensures
        ({
            let sk = shard_key(rtype, bits, *owner, name@);
            let writer = writer_among(replica_set(rtype, sk.shard, eligible@), eff, *self_id);
            r == (if writer == *self_id {
                WriteRoute::Local(sk)
            } else {
                WriteRoute::Forward { sk, writer }
            })
        }),
{
    let sk = route(rtype, bits, owner, name);
    let writer = writer_of(sk, eligible, eff, *self_id);
    if same32(&writer, self_id) {
        WriteRoute::Local(sk)
    } else {
        WriteRoute::Forward { sk, writer }
    }
}

/// Why a write could not be forwarded.
#[derive(Debug)]
pub enum RegisterError {
    /// No address of the writer is known.
    WriterUnknown,
    /// The writer refused, and said why.
    Rejected(String),
    /// The writer answered something else.
    Unexpected,
}

/// What a forwarded write came to, by the writer's answer.
pub fn forwarded(answer: RegistryResp) -> (r: Result<[u8; 32], RegisterError>)
    ensures
        r == (match answer {
            RegistryResp::SubmitAck(root) => Ok(root),
            RegistryResp::Refused(text) => Err(RegisterError::Rejected(text)),
            _ => Err(RegisterError::Unexpected),
        }),
{
    match answer {
        RegistryResp::SubmitAck(root) => Ok(root),
        RegistryResp::Refused(text) => Err(RegisterError::Rejected(text)),
        _ => Err(RegisterError::Unexpected),
    }
}

/// The version that the writer's answer gives; zero for any other answer.
pub fn reported_version(answer: &Option<RegistryResp>) -> (version: u64)
    ensures
        version == (match *answer {
            Some(RegistryResp::Version(v)) => v,
            _ => 0,
        }),
{
    match answer {
        Some(RegistryResp::Version(v)) => *v,
        _ => 0,
    }
}

/// The version of a head that was looked up; zero where there is none.
pub fn version_of(head: &Option<Head>) -> (version: u64)
    ensures
        version == (match *head {
            Some((_, v)) => v,
            None => 0,
        }),
{
    match head {
        Some((_, v)) => *v,
        None => 0,
    }
}

/// The version after the one that is registered.
pub fn next_version(current: u64) -> (next: u64)
    requires
        current < u64::MAX,
    ensures
        next == current + 1,
{
    current + 1
}

/// A place to look a name up: a node, or this node's own copy.
#[derive(Clone, Copy, Debug)]
pub struct Lookup {
    pub sk: ShardKey,
    /// The node to ask, `None` for the own copy.
    pub node: Option<[u8; 32]>,
}

/// The shard counts at which a name may be found: the live one, then the one below and the
/// one above, which it may not have left yet.
pub open spec fn generations(bits: u32) -> Seq<u32> {
    seq![bits] + (if 1 <= bits - 1 <= MAX_SHARD_BITS {
        seq![(bits - 1) as u32]
    } else {
        Seq::empty()
    }) + (if 1 <= bits + 1 <= MAX_SHARD_BITS {
        seq![(bits + 1) as u32]
    } else {
        Seq::empty()
    })
}

/// The shard counts at which a name is looked for, in order.
pub fn generations_to_try(bits: u32) -> (list: Vec<u32>)
    requires
        bits < u32::MAX,
    ensures
        list@ == generations(bits),
{
    let mut list: Vec<u32> = Vec::new();
    list.push(bits);
    if bits > 1 && bits - 1 <= MAX_SHARD_BITS {
        list.push(bits - 1);
    }
    if bits + 1 <= MAX_SHARD_BITS {
        list.push(bits + 1);
    }
    assert(list@ =~= generations(bits));
    list
}

/// The places to look in at one shard count: the own copy where this node holds the shard,
/// then the writer, then the other holders.
pub open spec fn lookups_at(
    sk: ShardKey,
    eligible: Seq<[u8; 32]>,
    eff: u64,
    self_id: [u8; 32],
) -> Seq<Lookup> {
    let holders = replica_set(sk.rtype, sk.shard, eligible);
    let remote = ask_order(writer_among(holders, eff, self_id), holders, self_id).map_values(
        |id: [u8; 32]| Lookup { sk, node: Some(id) },
    );
    if holders.contains(self_id) {
        seq![Lookup { sk, node: None }] + remote
    } else {
        remote
    }
}

/// The places to look for a name in at the shard count `2^bits`, in order.
pub fn lookups(
    rtype: u8,
    bits: u32,
    owner: &[u8; 32],
    name: &str,
    eligible: &[[u8; 32]],
    eff: u64,
    self_id: &[u8; 32],
) -> (list: Vec<Lookup>)
    requires
        bits < 64,
    ensures
        list@ == lookups_at(shard_key(rtype, bits, *owner, name@), eligible@, eff, *self_id),
{
    let sk = route(rtype, bits, owner, name);
    let mut list: Vec<Lookup> = Vec::new();
    if is_replica(sk, eligible, self_id) {
        list.push(Lookup { sk, node: None });
    }
    let ghost first = list@;
    let targets = read_targets(sk, eligible, eff, self_id);
    let ghost f = |id: [u8; 32]| Lookup { sk, node: Some(id) };
    let mut i: usize = 0;
    assert(list@ =~= first + targets@.take(0).map_values(f));
    while i < targets.len()
        invariant
            i <= targets@.len(),
            f == (|id: [u8; 32]| Lookup { sk, node: Some(id) }),
            list@ == first + targets@.take(i as int).map_values(f),
        decreases targets@.len() - i,
    {
        list.push(Lookup { sk, node: Some(targets[i]) });
        assert(targets@.take(i + 1).map_values(f) =~= targets@.take(i as int).map_values(f).push(
            f(targets@[i as int]),
        ));
        assert(list@ =~= first + targets@.take(i + 1).map_values(f));
        i = i + 1;
    }
    assert(targets@.take(i as int) =~= targets@);
    assert(list@ =~= lookups_at(sk, eligible@, eff, *self_id));
    list
}

/// A read never asks this node over the network and reaches every holder, its own copy first.
pub proof fn law_read_reaches_every_holder(
    sk: ShardKey,
    eligible: Seq<[u8; 32]>,
    eff: u64,
    self_id: [u8; 32],
    id: [u8; 32],
)
    requires
        replica_set(sk.rtype, sk.shard, eligible).contains(id),
    ensures
        id != self_id ==> lookups_at(sk, eligible, eff, self_id).contains(
            Lookup { sk, node: Some(id) },
        ),
        id == self_id ==> lookups_at(sk, eligible, eff, self_id)[0] == (Lookup {
            sk,
            node: None,
        }),
        !lookups_at(sk, eligible, eff, self_id).contains(Lookup { sk, node: Some(self_id) }),
{
    let holders = replica_set(sk.rtype, sk.shard, eligible);
    let writer = writer_among(holders, eff, self_id);
    let order = ask_order(writer, holders, self_id);
    crate::headreg::election::law_reads_try_every_other_holder(writer, holders, self_id);
    let all = lookups_at(sk, eligible, eff, self_id);
    let shift = if holders.contains(self_id) {
        1int
    } else {
        0int
    };
    assert forall|i: int| 0 <= i < order.len() implies all[i + shift] == (Lookup {
        sk,
        node: Some(#[trigger] order[i]),
    }) by {}
    if id != self_id {
        assert(order.contains(id));
        let i = choose|i: int| 0 <= i < order.len() && order[i] == id;
        assert(all[i + shift] == (Lookup { sk, node: Some(order[i]) }));
    }
    let bad = Lookup { sk, node: Some(self_id) };
    if all.contains(bad) {
        let j = choose|j: int| 0 <= j < all.len() && all[j] == bad;
        assert(j >= shift);
        assert(all[j] == (Lookup { sk, node: Some(order[j - shift]) }));
        assert(order.contains(self_id));
    }
}

/// The address to reach a node at: the one it is a member under, else the one of the live
/// neighbour of that identity, else of the dead one.
pub fn addr_of(
    id: &[u8; 32],
    member: Option<PeerAddr>,
    active: &[PeerAddr],
    dead: &[PeerAddr],
) -> (addr: Option<PeerAddr>)
    ensures
        addr == (match member {
            Some(a) => Some(a),
            None => match first_with(active@, *id) {
                Some(a) => Some(a),
                None => first_with(dead@, *id),
            },
        }),
{
    match member {
        Some(a) => Some(a),
        None => match find_addr(active, id) {
            Some(a) => Some(a),
            None => find_addr(dead, id),
        },
    }
}

/// The first address of the identity.
pub open spec fn first_with(list: Seq<PeerAddr>, id: [u8; 32]) -> Option<PeerAddr>
    decreases list.len(),
{
    if list.len() == 0 {
        None
    } else if list[0].id.0 == id {
        Some(list[0])
    } else {
        first_with(list.skip(1), id)
    }
}

fn find_addr(list: &[PeerAddr], id: &[u8; 32]) -> (addr: Option<PeerAddr>)
    ensures
        addr == first_with(list@, *id),
{
    let mut i: usize = 0;
    assert(list@.skip(0) =~= list@);
    while i < list.len()
        invariant
            i <= list@.len(),
            first_with(list@, *id) == first_with(list@.skip(i as int), *id),
        decreases list@.len() - i,
    {
        assert(list@.skip(i as int)[0] == list@[i as int]);
        assert(list@.skip(i as int).skip(1) =~= list@.skip(i + 1));
        if same32(&list[i].id.0, id) {
            return Some(list[i].clone());
        }
        i = i + 1;
    }
    None
}

/// A request is served from the shard that its own shard count leads to, of the type it asks for.
/// State is taken in only where it can be read and memory is not short; what cannot be read is
/// refused, or ignored where it is state.
pub proof fn law_requests_find_their_shard(
    req: RegistryReq,
    submission: Option<HeadSubmission>,
    readable: bool,
    shedding: bool,
    plan: ServePlan,
)
    requires
        planned(req, submission, readable, shedding, plan),
    ensures
        match req {
            RegistryReq::Submit { rtype, bits, sub: _ } => {
                &&& submission is Some <==> plan is Advance
                &&& submission is None ==> plan is Reply && plan->Reply_0 is Refused
                &&& submission matches Some(s) ==> {
                    &&& plan->Advance_0.rtype == rtype
                    &&& plan->Advance_0.bits == bits
                    &&& plan->Advance_0.shard == shard_at(s.owner, s.name@, bits) as u64
                }
            },
            RegistryReq::Resolve { rtype, bits, owner, name } => {
                &&& plan is LookUp
                &&& plan->LookUp_sk.rtype == rtype
                &&& plan->LookUp_sk.bits == bits
                &&& plan->LookUp_sk.shard == shard_at(owner, name@, bits) as u64
                &&& plan->LookUp_owner == owner
                &&& plan->LookUp_name@ == name@
            },
            RegistryReq::GetState { rtype, bits, shard } => {
                &&& plan is Snapshot
                &&& plan->Snapshot_0.rtype == rtype
                &&& plan->Snapshot_0.bits == bits
                &&& plan->Snapshot_0.shard == shard
            },
            RegistryReq::CurrentVersion { rtype, bits, owner, name } => {
                &&& plan is Version
                &&& plan->Version_sk.rtype == rtype
                &&& plan->Version_sk.bits == bits
                &&& plan->Version_sk.shard == shard_at(owner, name@, bits) as u64
                &&& plan->Version_owner == owner
                &&& plan->Version_name@ == name@
            },
            RegistryReq::PushState { rtype, bits, shard, state: _ } => {
                &&& plan is Merge <==> readable && !shedding
                &&& plan is Merge ==> plan->Merge_0.rtype == rtype && plan->Merge_0.bits == bits
                    && plan->Merge_0.shard == shard
                &&& shedding ==> plan is Reply && plan->Reply_0 is Refused
                &&& !shedding && !readable ==> plan == ServePlan::Reply(RegistryResp::Ack)
            },
            RegistryReq::ListEntries => plan == ServePlan::List,
        },
{
}

/// Only what is about one name goes by a shard count.
pub proof fn law_names_go_by_a_count(req: RegistryReq)
    ensures
        routed_by(req) is Some <==> req is Submit || req is Resolve || req is CurrentVersion,
        req is Submit ==> routed_by(req) == Some(req->Submit_bits),
        req is Resolve ==> routed_by(req) == Some(req->Resolve_bits),
        req is CurrentVersion ==> routed_by(req) == Some(req->CurrentVersion_bits),
{
}

/// A name is looked for at the live shard count first, and at the counts one below and one above
/// where these are from 1 to 12; at no others, and at none twice.
pub proof fn law_neighbouring_counts_are_tried(bits: u32, count: u32)
    requires
        bits < u32::MAX,
    ensures
        generations(bits)[0] == bits,
        generations(bits).contains(count) <==> count == bits || (1 <= count <= 12 && (count + 1
            == bits || count == bits + 1)),
        generations(bits).no_duplicates(),
        bits > 1 && bits <= 13 ==> generations(bits)[1] == bits - 1,
{
    let below: Seq<u32> = if 1 <= bits - 1 <= 12 {
        seq![(bits - 1) as u32]
    } else {
        Seq::empty()
    };
    let above: Seq<u32> = if 1 <= bits + 1 <= 12 {
        seq![(bits + 1) as u32]
    } else {
        Seq::empty()
    };
    let all = generations(bits);
    assert(all =~= seq![bits] + below + above);
    assert(all[0] == bits);
    if 1 <= count <= 12 && count + 1 == bits {
        assert(all[1] == count);
    }
    if 1 <= count <= 12 && count == bits + 1 {
        assert(all[1 + below.len() as int] == count);
    }
}

/// At one shard count every holder is asked, this node's own copy first, and nobody else.
pub proof fn law_only_holders_are_asked(
    sk: ShardKey,
    eligible: Seq<[u8; 32]>,
    eff: u64,
    self_id: [u8; 32],
    at: int,
)
    requires
        0 <= at < lookups_at(sk, eligible, eff, self_id).len(),
    ensures
        lookups_at(sk, eligible, eff, self_id)[at].sk == sk,
        lookups_at(sk, eligible, eff, self_id)[at].node matches Some(id) ==> id != self_id
            && replica_set(sk.rtype, sk.shard, eligible).contains(id),
        lookups_at(sk, eligible, eff, self_id)[at].node is None <==> at == 0 && replica_set(
            sk.rtype,
            sk.shard,
            eligible,
        ).contains(self_id),
{
    let holders = replica_set(sk.rtype, sk.shard, eligible);
    let writer = writer_among(holders, eff, self_id);
    let order = ask_order(writer, holders, self_id);
    crate::headreg::election::law_reads_try_every_other_holder(writer, holders, self_id);
    let own: int = if holders.contains(self_id) {
        1
    } else {
        0
    };
    if at >= own {
        assert(order.contains(order[at - own]));
        if holders.len() > 0 {
            assert(holders.contains(writer));
        }
    }
}

/// The address found is the first in the list under that identity; none is found only where none
/// is listed.
pub proof fn law_the_first_address_is_found(list: Seq<PeerAddr>, id: [u8; 32])
    ensures
        first_with(list, id) is None <==> forall|i: int|
            0 <= i < list.len() ==> (#[trigger] list[i]).id.0 != id,
        first_with(list, id) matches Some(a) ==> exists|i: int|
            {
                &&& 0 <= i < list.len()
                &&& #[trigger] list[i] == a
                &&& a.id.0 == id
                &&& forall|k: int| 0 <= k < i ==> (#[trigger] list[k]).id.0 != id
            },
    decreases list.len(),
{
    if list.len() > 0 {
        let rest = list.skip(1);
        law_the_first_address_is_found(rest, id);
        if list[0].id.0 == id {
            assert(list[0] == first_with(list, id)->0);
        } else {
            if forall|i: int| 0 <= i < rest.len() ==> (#[trigger] rest[i]).id.0 != id {
                assert forall|i: int| 0 <= i < list.len() implies (#[trigger] list[i]).id.0 != id by {
                    if i > 0 {
                        assert(rest[i - 1].id.0 != id);
                    }
                }
            } else {
                let j = choose|j: int| 0 <= j < rest.len() && (#[trigger] rest[j]).id.0 == id;
                assert(list[j + 1].id.0 == id);
            }
            if let Some(a) = first_with(rest, id) {
                let j = choose|j: int|
                    {
                        &&& 0 <= j < rest.len()
                        &&& #[trigger] rest[j] == a
                        &&& a.id.0 == id
                        &&& forall|k: int| 0 <= k < j ==> (#[trigger] rest[k]).id.0 != id
                    };
                assert(list[j + 1] == a);
                assert forall|k: int| 0 <= k < j + 1 implies (#[trigger] list[k]).id.0 != id by {
                    if k > 0 {
                        assert(rest[k - 1].id.0 != id);
                    }
                }
            }
        }
    }
}

/// A submission is taken as it is where its owner signed it and its name has at most 32
/// characters; a bad signature is told before a long name.
pub proof fn law_signed_submissions_are_taken(
    sub: HeadSubmission,
    signed: bool,
    r: Result<HeadEntry, SubmitError>,
)
    requires
        call_ensures(check_submission, (&sub, signed), r),
    ensures
        r is Ok <==> signed && sub.name@.len() <= 32,
        r is Ok ==> r->Ok_0.owner == sub.owner && r->Ok_0.name@ == sub.name@ && r->Ok_0.cid
            == sub.cid && r->Ok_0.version == sub.version,
        r is Err ==> (r->Err_0 == SubmitError::BadSignature <==> !signed),
{
}

/// A write goes to the writer of the name's shard: it is made here where this node is that, and
/// passed on otherwise.
pub proof fn law_writes_go_to_the_writer(
    rtype: u8,
    bits: u32,
    owner: [u8; 32],
    name: &str,
    eligible: &[[u8; 32]],
    eff: u64,
    self_id: [u8; 32],
    sk: ShardKey,
    writer: [u8; 32],
    r: WriteRoute,
)
    requires
        bits < 64,
        call_ensures(route, (rtype, bits, &owner, name), sk),
        call_ensures(writer_of, (sk, eligible, eff, self_id), writer),
        call_ensures(
            route_write,
            (rtype, bits, &owner, name, eligible, eff, &self_id),
            r,
        ),
    ensures
        sk.rtype == rtype,
        sk.bits == bits,
        sk.shard == shard_at(owner, name@, bits),
        writer == self_id ==> r == WriteRoute::Local(sk),
        writer != self_id ==> r == (WriteRoute::Forward { sk, writer }),
{
}

/// What the writer answers to a write that was passed on: its root where it took it, and its words
/// where it refused.
pub proof fn law_answers_to_writes_are_passed_back(
    answer: RegistryResp,
    r: Result<[u8; 32], RegisterError>,
    version: u64,
)
    requires
        call_ensures(forwarded, (answer,), r),
        call_ensures(reported_version, (&Some(answer),), version),
    ensures
        answer matches RegistryResp::SubmitAck(root) ==> r is Ok && r->Ok_0 == root,
        answer matches RegistryResp::Refused(text) ==> r is Err && r->Err_0
            == RegisterError::Rejected(text),
        r is Ok ==> answer is SubmitAck,
        answer matches RegistryResp::Version(v) ==> version == v,
        !(answer is Version) ==> version == 0,
{
}

/// Where a node is reached: at the address that it is a member under, else at that of a live
/// neighbour, and of a dead one only last.
pub proof fn law_members_are_reached_first(
    id: [u8; 32],
    member: PeerAddr,
    active: &[PeerAddr],
    dead: &[PeerAddr],
    known: Option<PeerAddr>,
    unknown: Option<PeerAddr>,
    i: int,
)
    requires
        call_ensures(addr_of, (&id, Some(member), active, dead), known),
        call_ensures(addr_of, (&id, None, active, dead), unknown),
    ensures
        known == Some(member),
        unknown matches Some(a) ==> a.id.0 == id && (active@.contains(a) || dead@.contains(a)),
        unknown is None ==> (0 <= i < active@.len() ==> active@[i].id.0 != id) && (0 <= i
            < dead@.len() ==> dead@[i].id.0 != id),
        0 <= i < active@.len() && active@[i].id.0 == id ==> unknown is Some && active@.contains(
            unknown->0,
        ),
{
    law_the_first_address_is_found(active@, id);
    law_the_first_address_is_found(dead@, id);
}

} // verus!
