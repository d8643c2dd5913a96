//! Answering membership messages: joins and their random walk, link requests, shuffles,
//! member exchange, digests, and probes on behalf of others.

use crate::bytes::NodeId;
use crate::membership::gossip::{
    census_rows, lists_links, rows_bytes, sample, sampled, DigestRow,
};
use crate::membership::lifecycle::elapsed;
use crate::membership::member::{entry_of, MemberEntry, PeerAddr};
use crate::membership::node::{
    absorbed, all_readable, offered, reasserted, Membership, EPIDEMIC_DEBOUNCE_MS,
};
use crate::membership::overlay::{
    activated, clone_addrs, drop_peer, eviction_draw, evicts, lemma_without_absent, lists_peer,
    passive_lists, sidelined, slot_draw, swap_removed, without_peer, Overlay,
};
use crate::random::choose_one;
use vstd::prelude::*;

verus! {

/// A membership message. An address is absent where its text could not be read.
#[derive(Debug)]
pub enum Message {
    /// A node wants in.
    Join { origin: Option<PeerAddr> },
    /// A join on its random walk.
    ForwardJoin { origin: Option<PeerAddr>, ttl: u8 },
    /// A request for a warm link.
    Neighbor { origin: Option<PeerAddr>, high_priority: bool },
    NeighborReply { accepted: bool },
    /// The sender dropped its link to the receiver.
    Disconnect,
    /// An exchange of backup addresses.
    Shuffle {
        origin: Option<PeerAddr>,
        sample: Vec<Option<PeerAddr>>,
        members: Vec<MemberEntry>,
    },
    ShuffleReply { sample: Vec<Option<PeerAddr>>, members: Vec<MemberEntry> },
    /// An exchange of member sets.
    MemberSync { members: Vec<MemberEntry> },
    /// The sender's census hash.
    Digest { hash: [u8; 32] },
    /// A request to probe on the sender's behalf.
    PingReq { target_id: NodeId, target_addr: Option<PeerAddr> },
    PingReqAck { target_id: NodeId, alive: bool },
    /// Anything that does not belong to membership.
    Other,
}

/// What to do on the network before the answer goes out, in order.
#[derive(Debug)]
pub enum Action {
    /// Deliver a message; no answer is waited for.
    Send { to: PeerAddr, message: Message },
    /// Deliver a message and wait for the answer, which does not matter.
    Ask { to: PeerAddr, message: Message },
}

/// How a message is to be answered.
#[derive(Debug)]
pub enum Answer {
    Nothing,
    Reply(Message),
    /// Probe the address, and answer whether it was reached.
    Probe { target_id: NodeId, addr: PeerAddr },
}

/// What handling a message comes to.
#[derive(Debug)]
pub struct Handled {
    pub actions: Vec<Action>,
    pub answer: Answer,
    /// Gossip at once.
    pub wake: bool,
}

/// Telling an evicted link of it.
pub open spec fn farewell(evicted: Option<PeerAddr>) -> Seq<Action> {
    match evicted {
        Some(to) => seq![Action::Send { to, message: Message::Disconnect }],
        None => Seq::empty(),
    }
}

/// Passing a join on to each of `targets`.
pub open spec fn forwards(targets: Seq<PeerAddr>, origin: PeerAddr, ttl: u8) -> Seq<Action> {
    targets.map_values(
        |to: PeerAddr|
            Action::Send { to, message: Message::ForwardJoin { origin: Some(origin), ttl } },
    )
}

/// `a` is where a link of `o` leads, other than to `but`.
pub open spec fn links_to(o: Overlay, but: NodeId, a: PeerAddr) -> bool {
    a.id != but && exists|id: NodeId| #[trigger]
        o.active.contains_key(id) && o.active[id].addr == a
}

/// `targets` are the addresses of the links of `o`, other than to `but`, one for each link.
pub open spec fn are_links(o: Overlay, but: NodeId, targets: Seq<PeerAddr>) -> bool {
    lists_links(o.active, Some(but), targets)
}

/// Linking to `peer` leads from `before` to `after`, with `evicted` told, on some draw.
pub open spec fn linked(
    before: Membership,
    peer: PeerAddr,
    after: Membership,
    evicted: Option<PeerAddr>,
) -> bool {
    after.same_but_views(before) && exists|victim: NodeId, slot: int|
        #![trigger activated(before.views@, before.me.id, before.cfg, peer, victim, slot)]
        eviction_draw(before.views@, before.me.id, before.cfg, peer, victim, slot) && (
        after.views@, evicted) == activated(
            before.views@,
            before.me.id,
            before.cfg,
            peer,
            victim,
            slot,
        )
}

/// Keeping `peer` as a backup leads from `before` to `after` on some draw.
pub open spec fn backed_up(before: Membership, peer: PeerAddr, after: Membership) -> bool {
    after.same_but_views(before) && exists|slot: int|
        #![trigger sidelined(before.views@, before.me.id, before.cfg, peer, slot)]
        slot_draw(before.views@, slot) && after.views@ == sidelined(
            before.views@,
            before.me.id,
            before.cfg,
            peer,
            slot,
        )
}

/// What a join comes to: a link to the joiner, and the join set on its walk over the
/// links there were.
pub open spec fn join_handled(
    before: Membership,
    origin: PeerAddr,
    after: Membership,
    actions: Seq<Action>,
) -> bool {
    exists|evicted: Option<PeerAddr>, targets: Seq<PeerAddr>|
        #![trigger linked(before, origin, after, evicted), are_links(before.views@, origin.id, targets)]
        linked(before, origin, after, evicted) && are_links(before.views@, origin.id, targets)
            && actions == farewell(evicted) + forwards(targets, origin, before.cfg.arwl)
}

/// The walk of a join ends here: its hops are used up, or there is hardly a link to walk.
pub open spec fn walk_ends(before: Membership, ttl: u8) -> bool {
    ttl == 0 || before.views@.active.dom().len() <= 1
}

/// The node after a passing join of `ttl` remaining hops was perhaps kept as a backup.
pub open spec fn walk_kept(before: Membership, origin: PeerAddr, ttl: u8, mid: Membership) -> bool {
    if ttl == before.cfg.prwl {
        backed_up(before, origin, mid)
    } else {
        mid == before
    }
}

/// What a join on its walk comes to. At the end of the walk the joiner is linked to and
/// told of this node. Before it, the joiner is kept as a backup at one hop count, and the
/// join goes on to one link that is not the joiner, or ends here for want of one.
pub open spec fn walk_handled(
    before: Membership,
    origin: PeerAddr,
    ttl: u8,
    after: Membership,
    actions: Seq<Action>,
) -> bool {
    if origin.id == before.me.id {
        after == before && actions.len() == 0
    } else if walk_ends(before, ttl) {
        exists|evicted: Option<PeerAddr>| #[trigger]
            linked(before, origin, after, evicted) && actions == farewell(evicted).push(
                Action::Ask {
                    to: origin,
                    message: Message::Neighbor { origin: Some(before.me), high_priority: false },
                },
            )
    } else {
        exists|mid: Membership| #[trigger]
            walk_kept(before, origin, ttl, mid) && ((exists|next: PeerAddr| #[trigger]
                links_to(before.views@, origin.id, next) && after == mid && actions == forwards(
                    seq![next],
                    origin,
                    (ttl - 1) as u8,
                )) || ((forall|a: PeerAddr| !#[trigger] links_to(before.views@, origin.id, a)) && (
            exists|evicted: Option<PeerAddr>| #[trigger]
                linked(mid, origin, after, evicted) && actions == farewell(evicted))))
    }
}

/// No link leads to anybody but the joiner: a join on its walk is stuck.
pub open spec fn walk_stuck(before: Membership, origin: PeerAddr) -> bool {
    forall|a: PeerAddr| !#[trigger] links_to(before.views@, origin.id, a)
}

/// Where the walk is stuck, the link that makes way for the joiner finds a place among the
/// backups that are left once the joiner is none of them.
pub open spec fn stuck_walk_fits(before: Membership, origin: PeerAddr, ttl: u8) -> bool {
    let o = before.views@;
    evicts(o, before.me.id, before.cfg, origin) ==> before.cfg.passive_size > 0 || if ttl
        == before.cfg.prwl && !lists_peer(o.passive, origin.id) {
        o.passive.len() > 1
    } else {
        without_peer(o.passive, origin.id).len() > 0
    }
}

/// A join on its walk finds the places among the backups that it takes.
pub open spec fn walk_fits(before: Membership, origin: PeerAddr, ttl: u8) -> bool {
    if origin.id == before.me.id {
        true
    } else if walk_ends(before, ttl) {
        before.link_fits(origin)
    } else {
        &&& ttl == before.cfg.prwl ==> before.backup_fits(origin)
        &&& walk_stuck(before, origin) ==> stuck_walk_fits(before, origin, ttl)
    }
}

/// The backups that `msg` offers, and the links that it evicts, find places. A list that is
/// given no room at all has none for its first address.
pub open spec fn finds_room(before: Membership, msg: Message) -> bool {
    match msg {
        Message::Join { origin: Some(origin) } => before.link_fits(origin),
        Message::ForwardJoin { origin: Some(origin), ttl } => walk_fits(before, origin, ttl),
        Message::Neighbor { origin: Some(origin), high_priority } => if grants(
            before,
            high_priority,
        ) {
            before.link_fits(origin)
        } else {
            before.backup_fits(origin)
        },
        Message::Shuffle { origin, sample, members: _ } => before.backups_fit(
            sample@.push(origin),
        ),
        _ => true,
    }
}

/// A node that may keep a backup has room for every message.
pub proof fn law_backups_make_room(before: Membership, msg: Message)
    requires
        before.cfg.passive_size > 0,
    ensures
        finds_room(before, msg),
{
}

/// A link request is granted: it is urgent, or there is room.
pub open spec fn grants(before: Membership, high_priority: bool) -> bool {
    high_priority || before.views@.active.dom().len() < before.cfg.active_size
}

/// What a link request comes to: a link where it is granted, else a backup.
pub open spec fn neighbor_handled(
    before: Membership,
    origin: PeerAddr,
    high_priority: bool,
    after: Membership,
    actions: Seq<Action>,
) -> bool {
    if grants(before, high_priority) {
        exists|evicted: Option<PeerAddr>| #[trigger]
            linked(before, origin, after, evicted) && actions == farewell(evicted)
    } else {
        backed_up(before, origin, after) && actions.len() == 0
    }
}

/// Taking in reports leads from `before` to `after`, and `wake` says whether to gossip at
/// once.
pub open spec fn reports_taken(
    before: Membership,
    entries: Seq<MemberEntry>,
    now: u64,
    after: Membership,
    wake: bool,
) -> bool {
    let st = absorbed(before.views@, before.self_incarnation, before.me, entries, now);
    &&& after.me == before.me
    &&& after.cfg == before.cfg
    &&& after.bootstrap == before.bootstrap
    &&& after.last_recover_ms == before.last_recover_ms
    &&& after.isolated_since_ms == before.isolated_since_ms
    &&& after.views@ == st.o
    &&& after.self_incarnation == st.incarnation
    &&& wake == ((st.news || st.refuted) && elapsed(now, before.last_epidemic_ms)
        >= EPIDEMIC_DEBOUNCE_MS)
    &&& after.last_epidemic_ms == (if wake {
        now
    } else {
        before.last_epidemic_ms
    })
}

/// Taking in reports and renewing the node's own record leads from `before` to `after`.
pub open spec fn reports_taken_and_renewed(
    before: Membership,
    entries: Seq<MemberEntry>,
    now: u64,
    after: Membership,
    wake: bool,
) -> bool {
    exists|mid: Membership| #[trigger]
        reports_taken(before, entries, now, mid, wake) && after.same_but_views(mid) && after.views@
            == reasserted(mid.views@, mid.me, mid.self_incarnation, now)
}

/// `reply` is a random sample of the addresses in `pool`, of at most `k`.
pub open spec fn samples(pool: Seq<PeerAddr>, k: nat, reply: Seq<Option<PeerAddr>>) -> bool {
    exists|some: Seq<PeerAddr>| #[trigger] sampled(pool, k, some) && reply == all_readable(some)
}

/// What a shuffle comes to: the sample and the sender are kept as backups, the reports
/// taken in, and a sample of the backups there were is sent back.
pub open spec fn shuffle_handled(
    before: Membership,
    origin: Option<PeerAddr>,
    theirs: Seq<Option<PeerAddr>>,
    members: Seq<MemberEntry>,
    now: u64,
    after: Membership,
    wake: bool,
) -> bool {
    exists|slots: Seq<int>, mid: Membership|
        #![trigger offered(before.views@, before.me.id, before.cfg, theirs.push(origin), slots, mid.views@)]
        offered(before.views@, before.me.id, before.cfg, theirs.push(origin), slots, mid.views@)
            && mid.same_but_views(before) && reports_taken_and_renewed(
            mid,
            members,
            now,
            after,
            wake,
        )
}

/// `entries` is the member set of `o` in wire form.
pub open spec fn is_member_set(o: Overlay, entries: Seq<MemberEntry>) -> bool {
    &&& entries.len() == o.members.dom().len()
    &&& forall|e: MemberEntry| #[trigger]
        entries.contains(e) <==> o.members.contains_key(e.id) && e == entry_of(
            e.id,
            o.members[e.id],
        )
}

/// `hash` is the census hash of `o`.
pub open spec fn is_census_hash(o: Overlay, hash: [u8; 32]) -> bool {
    exists|rows: Seq<DigestRow>| #[trigger]
        census_rows(rows, o.members) && hash@ == crate::digest::blake3_digest(rows_bytes(rows))
}

/// What handling `msg` comes to.
pub open spec fn handled(
    before: Membership,
    msg: Message,
    now: u64,
    after: Membership,
    out: Handled,
) -> bool {
    match msg {
        Message::Join { origin: Some(origin) } => {
            &&& join_handled(before, origin, after, out.actions@)
            &&& out.answer == Answer::Nothing
            &&& !out.wake
        },
        Message::ForwardJoin { origin: Some(origin), ttl } => {
            &&& walk_handled(before, origin, ttl, after, out.actions@)
            &&& out.answer == Answer::Nothing
            &&& !out.wake
        },
        Message::Neighbor { origin: Some(origin), high_priority } => {
            &&& neighbor_handled(before, origin, high_priority, after, out.actions@)
            &&& out.answer == Answer::Reply(
                Message::NeighborReply { accepted: grants(before, high_priority) },
            )
            &&& !out.wake
        },
        Message::Shuffle { origin, sample, members } => {
            &&& shuffle_handled(before, origin, sample@, members@, now, after, out.wake)
            &&& out.actions@.len() == 0
            &&& out.answer matches Answer::Reply(
                Message::ShuffleReply { sample: ours, members: none },
            ) && none@.len() == 0 && samples(
                before.views@.passive,
                if sample@.len() == 0 {
                    1
                } else {
                    sample@.len()
                },
                ours@,
            )
        },
        Message::MemberSync { members } => {
            &&& reports_taken_and_renewed(before, members@, now, after, out.wake)
            &&& out.actions@.len() == 0
            &&& out.answer matches Answer::Reply(Message::MemberSync { members: ours })
                && is_member_set(after.views@, ours@)
        },
        Message::Digest { hash: _ } => {
            &&& after == before
            &&& out.actions@.len() == 0
            &&& out.answer matches Answer::Reply(Message::Digest { hash }) && is_census_hash(
                before.views@,
                hash,
            )
            &&& !out.wake
        },
        Message::PingReq { target_id, target_addr } => {
            &&& after == before
            &&& out.actions@.len() == 0
            &&& out.answer == match target_addr {
                Some(addr) => Answer::Probe { target_id, addr },
                None => Answer::Reply(Message::PingReqAck { target_id, alive: false }),
            }
            &&& !out.wake
        },
        _ => {
            &&& after == before
            &&& out.actions@.len() == 0
            &&& out.answer == Answer::Nothing
            &&& !out.wake
        },
    }
}

/// The answer to a probe request once the probe is done.
pub fn probe_result(target_id: NodeId, alive: bool) -> (reply: Message)
    ensures
        reply == (Message::PingReqAck { target_id, alive }),
{
    Message::PingReqAck { target_id, alive }
}

/// Whether `reply` says that `target` was reached.
pub fn acknowledges(reply: &Message, target: &NodeId) -> (reached: bool)
    ensures
        reached == (*reply matches Message::PingReqAck { target_id, alive } && target_id == *target
            && alive),
{
    match reply {
        Message::PingReqAck { target_id, alive } => target_id.same(target) && *alive,
        _ => false,
    }
}

/// Where the joiner took the place of a backup, at least one other is left of two.
proof fn lemma_place_left(before: Membership, origin: PeerAddr, slot: int)
    requires
        slot_draw(before.views@, slot),
        !lists_peer(before.views@.passive, origin.id),
        before.views@.passive.len() > 1,
    ensures
        without_peer(swap_removed(before.views@.passive, slot).push(origin), origin.id).len() > 0,
{
    let passive = before.views@.passive;
    let rest = swap_removed(passive, slot);
    assert(!lists_peer(rest, origin.id)) by {
        if lists_peer(rest, origin.id) {
            let i = choose|i: int| 0 <= i < rest.len() && (#[trigger] rest[i]).id == origin.id;
            if i == slot {
                assert(passive[passive.len() - 1].id == origin.id);
            } else {
                assert(passive[i].id == origin.id);
            }
        }
    }
    lemma_without_absent(rest, origin.id);
    assert(rest.push(origin).drop_last() =~= rest);
}

fn push_farewell(actions: &mut Vec<Action>, evicted: Option<PeerAddr>)
    ensures
        final(actions)@ == old(actions)@ + farewell(evicted),
{
    match evicted {
        Some(to) => {
            actions.push(Action::Send { to, message: Message::Disconnect });
            assert(actions@ =~= old(actions)@ + farewell(evicted));
        },
        None => {
            assert(actions@ =~= old(actions)@ + farewell(evicted));
        },
    }
}

fn push_forwards(actions: &mut Vec<Action>, targets: &Vec<PeerAddr>, origin: &PeerAddr, ttl: u8)
    ensures
        final(actions)@ == old(actions)@ + forwards(targets@, *origin, ttl),
{
    let mut i: usize = 0;
    assert(actions@ =~= old(actions)@ + forwards(targets@.take(0), *origin, ttl));
    while i < targets.len()
        invariant
            i <= targets@.len(),
            actions@ == old(actions)@ + forwards(targets@.take(i as int), *origin, ttl),
        decreases targets@.len() - i,
    {
        actions.push(
            Action::Send {
                to: targets[i].clone(),
                message: Message::ForwardJoin { origin: Some(origin.clone()), ttl },
            },
        );
        i = i + 1;
        assert(actions@ =~= old(actions)@ + forwards(targets@.take(i as int), *origin, ttl));
    }
    assert(targets@.take(i as int) =~= targets@);
}

/// The addresses as a message carries them.
pub fn readable(addrs: &Vec<PeerAddr>) -> (list: Vec<Option<PeerAddr>>)
    ensures
        list@ == all_readable(addrs@),
{
    let mut list: Vec<Option<PeerAddr>> = Vec::new();
    let mut i: usize = 0;
    while i < addrs.len()
        invariant
            i <= addrs@.len(),
            list@ == all_readable(addrs@.take(i as int)),
        decreases addrs@.len() - i,
    {
        list.push(Some(addrs[i].clone()));
        i = i + 1;
        assert(list@ =~= all_readable(addrs@.take(i as int)));
    }
    assert(addrs@.take(i as int) =~= addrs@);
    list
}

impl Membership {
    /// Links to `peer`, and hands out the address that had to leave.
    pub fn add_active(&mut self, peer: PeerAddr) -> (evicted: Option<PeerAddr>)
        requires
            old(self).wf(),
            old(self).link_fits(peer),
        ensures
            final(self).wf(),
            linked(*old(self), peer, *final(self), evicted),
    {
        self.views.add_active(&self.me.id, &self.cfg, peer)
    }

    /// Keeps `peer` as a backup.
    pub fn add_passive(&mut self, peer: PeerAddr)
        requires
            old(self).wf(),
            old(self).backup_fits(peer),
        ensures
            final(self).wf(),
            backed_up(*old(self), peer, *final(self)),
    {
        self.views.add_passive(&self.me.id, &self.cfg, peer);
    }

    fn on_join(&mut self, origin: PeerAddr) -> (actions: Vec<Action>)
        requires
            old(self).wf(),
            old(self).link_fits(origin),
        ensures
            final(self).wf(),
            join_handled(*old(self), origin, *final(self), actions@),
    {
        let targets = self.views.link_addrs_but(Some(origin.id));
        assert(are_links(self.views@, origin.id, targets@));
        let mut actions: Vec<Action> = Vec::new();
        let evicted = self.add_active(origin.clone());
        push_farewell(&mut actions, evicted);
        push_forwards(&mut actions, &targets, &origin, self.cfg.arwl);
        assert(actions@ =~= farewell(evicted) + forwards(targets@, origin, old(self).cfg.arwl));
        actions
    }

    fn on_forward_join(&mut self, origin: PeerAddr, ttl: u8) -> (actions: Vec<Action>)
        requires
            old(self).wf(),
            walk_fits(*old(self), origin, ttl),
        ensures
            final(self).wf(),
            walk_handled(*old(self), origin, ttl, *final(self), actions@),
    {
        let mut actions: Vec<Action> = Vec::new();
        if origin.id.same(&self.me.id) {
            return actions;
        }
        if ttl == 0 || self.views.active.len() <= 1 {
            let evicted = self.add_active(origin.clone());
            push_farewell(&mut actions, evicted);
            assert(actions@ =~= farewell(evicted));
            let me = self.me.clone();
            actions.push(
                Action::Ask {
                    to: origin,
                    message: Message::Neighbor { origin: Some(me), high_priority: false },
                },
            );
            return actions;
        }
        if ttl == self.cfg.prwl {
            self.add_passive(origin.clone());
        }
        let ghost mid = *self;
        assert(walk_kept(*old(self), origin, ttl, mid));
        assert(mid.views@.active == old(self).views@.active);
        let candidates = self.views.link_addrs_but(Some(origin.id));
        let next: Option<PeerAddr> = match choose_one(candidates.as_slice()) {
            Some(a) => Some(a.clone()),
            None => None,
        };
        match next {
            Some(a) => {
                assert(candidates@.contains(a));
                assert(links_to(old(self).views@, origin.id, a));
                let mut one: Vec<PeerAddr> = Vec::new();
                one.push(a);
                push_forwards(&mut actions, &one, &origin, ttl - 1);
                assert(one@ =~= seq![a]);
                assert(actions@ =~= forwards(seq![a], origin, (ttl - 1) as u8));
            },
            None => {
                assert forall|a: PeerAddr| !#[trigger] links_to(old(self).views@, origin.id, a) by {
                    assert(candidates@.contains(a) == links_to(mid.views@, origin.id, a));
                }
                proof {
                    let before = *old(self);
                    let crowded = before.cfg.passive_size == 0 && evicts(
                        before.views@,
                        before.me.id,
                        before.cfg,
                        origin,
                    );
                    if crowded && ttl == before.cfg.prwl && mid.views@ != before.views@ {
                        let slot = choose|slot: int|
                            #![trigger sidelined(before.views@, before.me.id, before.cfg, origin, slot)]
                            slot_draw(before.views@, slot) && mid.views@ == sidelined(
                                before.views@,
                                before.me.id,
                                before.cfg,
                                origin,
                                slot,
                            );
                        lemma_place_left(before, origin, slot);
                    }
                }
                let evicted = self.add_active(origin);
                push_farewell(&mut actions, evicted);
                assert(actions@ =~= farewell(evicted));
                assert(linked(mid, origin, *self, evicted));
            },
        }
        actions
    }

    fn on_neighbor(&mut self, origin: PeerAddr, high_priority: bool) -> (out: (Vec<Action>, bool))
        requires
            old(self).wf(),
            grants(*old(self), high_priority) ==> old(self).link_fits(origin),
            !grants(*old(self), high_priority) ==> old(self).backup_fits(origin),
        ensures
            final(self).wf(),
            neighbor_handled(*old(self), origin, high_priority, *final(self), out.0@),
            out.1 == grants(*old(self), high_priority),
    {
        let mut actions: Vec<Action> = Vec::new();
        let accept = high_priority || self.views.active.len() < self.cfg.active_size;
        if accept {
            let evicted = self.add_active(origin);
            push_farewell(&mut actions, evicted);
            assert(actions@ =~= farewell(evicted));
        } else {
            self.add_passive(origin);
        }
        (actions, accept)
    }

    fn on_shuffle(
        &mut self,
        origin: Option<PeerAddr>,
        theirs: Vec<Option<PeerAddr>>,
        members: &Vec<MemberEntry>,
        now: u64,
    ) -> (out: (Vec<Option<PeerAddr>>, bool))
        requires
            old(self).wf(),
            old(self).backups_fit(theirs@.push(origin)),
        ensures
            final(self).wf(),
            shuffle_handled(*old(self), origin, theirs@, members@, now, *final(self), out.1),
            samples(
                old(self).views@.passive,
                if theirs@.len() == 0 {
                    1
                } else {
                    theirs@.len()
                },
                out.0@,
            ),
    {
        let pool = clone_addrs(&self.views.passive);
        let k: usize = if theirs.len() == 0 {
            1
        } else {
            theirs.len()
        };
        let picked = sample(pool, k);
        let ours = readable(&picked);
        let mut all = theirs;
        all.push(origin);
        self.offer_all(&all);
        let ghost mid = *self;
        let wake = self.merge_members(members.as_slice(), now);
        let ghost taken = *self;
        assert(reports_taken(mid, members@, now, taken, wake));
        self.refresh_self(now);
        assert(reports_taken_and_renewed(mid, members@, now, *self, wake));
        (ours, wake)
    }

    fn on_member_sync(&mut self, members: &Vec<MemberEntry>, now: u64) -> (out: (
        Vec<MemberEntry>,
        bool,
    ))
        requires
            old(self).wf(),
        ensures
            final(self).wf(),
            reports_taken_and_renewed(*old(self), members@, now, *final(self), out.1),
            is_member_set(final(self).views@, out.0@),
    {
        let wake = self.merge_members(members.as_slice(), now);
        let ghost taken = *self;
        assert(reports_taken(*old(self), members@, now, taken, wake));
        self.refresh_self(now);
        (self.views.member_entries(), wake)
    }

    fn can_walk(&self, origin: &PeerAddr, ttl: u8) -> (fits: bool)
        requires
            self.wf(),
        ensures
            fits == walk_fits(*self, *origin, ttl),
    {
        if origin.id.same(&self.me.id) {
            return true;
        }
        if ttl == 0 || self.views.active.len() <= 1 {
            return self.can_link(origin);
        }
        let keeps = ttl == self.cfg.prwl;
        if keeps && !self.can_back_up(origin) {
            return false;
        }
        let candidates = self.views.link_addrs_but(Some(origin.id));
        if candidates.len() > 0 {
            proof {
                assert(candidates@.contains(candidates@[0]));
                assert(links_to(self.views@, origin.id, candidates@[0]));
            }
            return true;
        }
        assert forall|a: PeerAddr| !#[trigger] links_to(self.views@, origin.id, a) by {
            assert(candidates@.contains(a) == links_to(self.views@, origin.id, a));
        }
        if self.cfg.passive_size > 0 || self.views.active.contains(&origin.id)
            || self.views.active.len() < self.cfg.active_size {
            return true;
        }
        if keeps && !passive_lists(&self.views.passive, &origin.id) {
            return self.views.passive.len() > 1;
        }
        let mut rest = clone_addrs(&self.views.passive);
        drop_peer(&mut rest, &origin.id);
        rest.len() > 0
    }

    /// Whether the backups that a message offers, and the links that it evicts, find places.
    pub fn can_handle(&self, msg: &Message) -> (fits: bool)
        requires
            self.wf(),
        ensures
            fits == finds_room(*self, *msg),
    {
        match msg {
            Message::Join { origin: Some(origin) } => self.can_link(origin),
            Message::ForwardJoin { origin: Some(origin), ttl } => self.can_walk(origin, *ttl),
            Message::Neighbor { origin: Some(origin), high_priority } => {
                if *high_priority || self.views.active.len() < self.cfg.active_size {
                    self.can_link(origin)
                } else {
                    self.can_back_up(origin)
                }
            },
            Message::Shuffle { origin, sample, members: _ } => {
                let ghost all = sample@.push(*origin);
                let others = self.can_back_up_all(sample);
                let sender = match origin {
                    Some(peer) => self.can_back_up(peer),
                    None => true,
                };
                proof {
                    assert(all.last() == *origin);
                    assert forall|i: int| 0 <= i < sample@.len() implies #[trigger] sample@[i]
                        == all[i] by {}
                }
                others && sender
            },
            _ => true,
        }
    }

    /// Handles one message.
    pub fn handle_message(&mut self, msg: Message, now: u64) -> (out: Handled)
        requires
            old(self).wf(),
            finds_room(*old(self), msg),
        ensures
            final(self).wf(),
            handled(*old(self), msg, now, *final(self), out),
    {
        let mut out = Handled { actions: Vec::new(), answer: Answer::Nothing, wake: false };
        match msg {
            Message::Join { origin: Some(origin) } => {
                out.actions = self.on_join(origin);
            },
            Message::ForwardJoin { origin: Some(origin), ttl } => {
                out.actions = self.on_forward_join(origin, ttl);
            },
            Message::Neighbor { origin: Some(origin), high_priority } => {
                let (actions, accepted) = self.on_neighbor(origin, high_priority);
                out.actions = actions;
                out.answer = Answer::Reply(Message::NeighborReply { accepted });
            },
            Message::Shuffle { origin, sample, members } => {
                let (ours, wake) = self.on_shuffle(origin, sample, &members, now);
                out.answer = Answer::Reply(
                    Message::ShuffleReply { sample: ours, members: Vec::new() },
                );
                out.wake = wake;
            },
            Message::MemberSync { members } => {
                let (ours, wake) = self.on_member_sync(&members, now);
                out.answer = Answer::Reply(Message::MemberSync { members: ours });
                out.wake = wake;
            },
            Message::Digest { hash: _ } => {
                let hash: [u8; 32] = self.views.members_digest();
                out.answer = Answer::Reply(Message::Digest { hash });
            },
            Message::PingReq { target_id, target_addr } => {
                out.answer = match target_addr {
                    Some(addr) => Answer::Probe { target_id, addr },
                    None => Answer::Reply(Message::PingReqAck { target_id, alive: false }),
                };
            },
            _ => {},
        }
        out
    }
}

} // verus!
