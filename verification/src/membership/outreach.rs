//! Whom a node counts, asks, probes and tells.

use crate::bytes::NodeId;
use crate::membership::census::{are_helpers, member_addrs, picks_helpers};
use crate::membership::exchange::{gossips_to, is_news, mixes};
use crate::membership::gossip::{
    covers, link_addrs_of, lists_links, names_links, row_bytes, sampled, DigestRow,
};
use crate::membership::handler::{handled, reports_taken, Handled, Message};
use crate::membership::lifecycle::Now;
use crate::membership::member::{Member, MemberEntry, MemberState, PeerAddr};
use crate::membership::node::Membership;
use crate::membership::overlay::{Overlay, PeerState, Views};
use crate::membership::round::{are_targets, stepped, Event, Stage, Task};
use crate::membership::snapshot::shows_exactly;
use vstd::prelude::*;

verus! {

/// The census for elections lists this node first, and behind it every other member that is not
/// dead and was heard of recently, once and at its address, and nobody else. The liveness census
/// does the same of those that are alive and not buried here.
pub proof fn law_censuses_list_each_once(
    views: Views,
    me: PeerAddr,
    now: u64,
    retention: u64,
    all: Vec<(NodeId, PeerAddr)>,
    alive: Vec<(NodeId, PeerAddr)>,
    id: NodeId,
    addr: PeerAddr,
)
    requires
        call_ensures(Views::census, (&views, &me, now, retention), all),
        call_ensures(Views::liveness_census, (&views, &me, now, retention), alive),
        id != me.id,
        views@.members.contains_key(id) ==> now >= views@.members[id].last_heard_ms,
    ensures
        all@.len() > 0 && all@[0] == (me.id, me),
        alive@.len() > 0 && alive@[0] == (me.id, me),
        all@.contains((id, addr)) <==> views@.members.contains_key(id)
            && views@.members[id].state != MemberState::Dead && now
            < views@.members[id].last_heard_ms + retention && addr == views@.members[id].addr,
        alive@.contains((id, addr)) <==> views@.members.contains_key(id)
            && views@.members[id].state == MemberState::Alive && now
            < views@.members[id].last_heard_ms + retention && !views@.dead.contains_key(id) && addr
            == views@.members[id].addr,
        forall|i: int, j: int|
            0 <= i < j < all@.len() ==> (#[trigger] all@[i]).0 != (#[trigger] all@[j]).0,
        forall|i: int, j: int|
            0 <= i < j < alive@.len() ==> (#[trigger] alive@[i]).0 != (#[trigger] alive@[j]).0,
{
}

/// Helpers are members thought alive, neither this node nor the target, each once and at its
/// address; as many as asked for, or all there are.
pub proof fn law_helpers_are_alive_others(
    o: Overlay,
    me: NodeId,
    target: NodeId,
    k: nat,
    helpers: Seq<PeerAddr>,
    i: int,
    h: NodeId,
)
    requires
        are_helpers(o, me, target, k, helpers),
        0 <= i < helpers.len(),
    ensures
        helpers.len() <= k,
        exists|id: NodeId|
            {
                &&& #[trigger] o.members.contains_key(id)
                &&& id != me
                &&& id != target
                &&& o.members[id].state == MemberState::Alive
                &&& helpers[i] == o.members[id].addr
            },
        helpers.len() < k && o.members.contains_key(h) && h != me && h != target
            && o.members[h].state == MemberState::Alive ==> helpers.contains(o.members[h].addr),
{
    let ids = choose|ids: Seq<NodeId>| #[trigger]
        picks_helpers(o, me, target, k, ids) && helpers == member_addrs(o, ids);
    assert(crate::membership::census::can_help(o, me, target, ids[i]));
    if helpers.len() < k && o.members.contains_key(h) && h != me && h != target
        && o.members[h].state == MemberState::Alive {
        assert(crate::membership::census::can_help(o, me, target, h));
        let j = choose|j: int| 0 <= j < ids.len() && ids[j] == h;
        assert(helpers[j] == o.members[h].addr);
    }
}

/// The links that are listed are all links but the one left out, each at its address, and nobody
/// else.
pub proof fn law_links_are_listed(
    active: Map<NodeId, PeerState>,
    but: Option<NodeId>,
    addrs: Seq<PeerAddr>,
    id: NodeId,
    i: int,
)
    requires
        lists_links(active, but, addrs),
    ensures
        active.contains_key(id) && but != Some(active[id].addr.id) ==> addrs.contains(
            active[id].addr,
        ),
        0 <= i < addrs.len() ==> but != Some(addrs[i].id) && exists|k: NodeId| #[trigger]
            active.contains_key(k) && active[k].addr == addrs[i],
{
    let ids = choose|ids: Seq<NodeId>| #[trigger]
        names_links(active, but, ids) && addrs == link_addrs_of(active, ids);
    if active.contains_key(id) && but != Some(active[id].addr.id) {
        assert(ids.contains(id));
        let j = choose|j: int| 0 <= j < ids.len() && ids[j] == id;
        assert(addrs[j] == active[id].addr);
    }
    if 0 <= i < addrs.len() {
        assert(ids.contains(ids[i]));
        assert(active.contains_key(ids[i]));
    }
}

/// A sample is drawn from the pool without putting back: as many as asked for, or all.
pub proof fn law_samples_are_from_the_pool(
    pool: Seq<PeerAddr>,
    k: nat,
    some: Seq<PeerAddr>,
    a: PeerAddr,
)
    requires
        sampled(pool, k, some),
    ensures
        pool.len() <= k ==> some.len() == pool.len(),
        pool.len() >= k ==> some.len() == k,
        some.contains(a) ==> pool.contains(a),
        some.to_multiset().count(a) <= pool.to_multiset().count(a),
{
    broadcast use vstd::seq_lib::group_to_multiset_ensures;

    if some.contains(a) {
        assert(some.to_multiset().count(a) > 0);
        assert(pool.to_multiset().count(a) > 0);
    }
}

/// News is told to three links, or to all where there are fewer.
pub proof fn law_news_goes_to_three_links(o: Overlay, targets: Seq<PeerAddr>, i: int)
    requires
        gossips_to(o, targets),
    ensures
        targets.len() <= 3,
        0 <= i < targets.len() ==> exists|k: NodeId| #[trigger]
            o.active.contains_key(k) && o.active[k].addr == targets[i],
        targets.len() == 0 ==> forall|k: NodeId| !#[trigger] o.active.contains_key(k),
{
    let links = choose|links: Seq<PeerAddr>| #[trigger]
        lists_links(o.active, None, links) && sampled(links, 3, targets);
    if 0 <= i < targets.len() {
        law_samples_are_from_the_pool(links, 3, targets, targets[i]);
        assert(targets.contains(targets[i]));
        let j = choose|j: int| 0 <= j < links.len() && links[j] == targets[i];
        law_links_are_listed(o.active, None, links, targets[i].id, j);
    }
    if targets.len() == 0 {
        assert forall|k: NodeId| !#[trigger] o.active.contains_key(k) by {
            if o.active.contains_key(k) {
                law_links_are_listed(o.active, None, links, k, 0);
                assert(links.contains(o.active[k].addr));
            }
        }
    }
}

/// The news tells every change that is queued and known, as it stands now, and nothing else.
pub proof fn law_news_tells_every_change(o: Overlay, delta: Seq<MemberEntry>, id: NodeId, e: MemberEntry)
    requires
        is_news(o, delta),
    ensures
        delta.contains(e) ==> o.dirty.contains_key(e.id) && o.members.contains_key(e.id)
            && e.incarnation == o.members[e.id].incarnation && e.addr == Some(
            o.members[e.id].addr,
        ) && e.last_heard_ms == o.members[e.id].last_heard_ms,
        o.dirty.contains_key(id) && o.members.contains_key(id) ==> exists|x: MemberEntry| #[trigger]
            delta.contains(x) && x.id == id && x.incarnation == o.members[id].incarnation,
{
    let x = crate::membership::member::entry_of(id, o.members[id]);
    assert(delta.contains(x) <==> o.dirty.contains_key(x.id) && o.members.contains_key(x.id) && x
        == crate::membership::member::entry_of(x.id, o.members[x.id]));
}

/// A shuffle offers as many of the other links and the backups as configured, or all, and never
/// the one it is sent to as a link.
pub proof fn law_shuffles_mix_links_and_backups(
    o: Overlay,
    target: PeerAddr,
    k: usize,
    sample: Seq<Option<PeerAddr>>,
    i: int,
)
    requires
        mixes(o, target, k, sample),
        0 <= i < sample.len(),
    ensures
        sample.len() <= k,
        sample[i] is Some,
        o.passive.contains(sample[i]->0) || (sample[i]->0.id != target.id && exists|id: NodeId|
            #[trigger]
            o.active.contains_key(id) && o.active[id].addr == sample[i]->0),
{
    let pool = choose|pool: Seq<PeerAddr>| #[trigger]
        crate::membership::exchange::is_shuffle_pool(o, target, pool)
            && crate::membership::handler::samples(pool, k as nat, sample);
    let links = choose|links: Seq<PeerAddr>| #[trigger]
        lists_links(o.active, Some(target.id), links) && pool == links + o.passive;
    let some = choose|some: Seq<PeerAddr>| #[trigger]
        sampled(pool, k as nat, some) && sample == crate::membership::node::all_readable(some);
    law_samples_are_from_the_pool(pool, k as nat, some, some[i]);
    assert(some.contains(some[i]));
    let j = choose|j: int| 0 <= j < pool.len() && pool[j] == some[i];
    if j < links.len() {
        law_links_are_listed(o.active, Some(target.id), links, target.id, j);
    } else {
        assert(o.passive[j - links.len()] == some[i]);
    }
}

/// A digest covers every member that is not dead, with its incarnation and whether it is suspect,
/// and nothing else of it.
pub proof fn law_digests_cover_the_living(members: Map<NodeId, Member>, row: DigestRow)
    ensures
        covers(members, row) <==> ({
            let id = NodeId(row.id);
            &&& members.contains_key(id)
            &&& row.incarnation == members[id].incarnation
            &&& (members[id].state == MemberState::Alive && row.state == 0) || (members[id].state
                == MemberState::Suspect && row.state == 1)
        }),
        row_bytes(row).len() == 41,
        row_bytes(row).subrange(0, 32) == row.id@,
        row_bytes(row).subrange(32, 40) == crate::bytes::le_digits(row.incarnation as nat, 8),
        row_bytes(row)[40] == row.state,
{
    crate::bytes::lemma_le_digits_len(row.incarnation as nat, 8);
    assert(row_bytes(row).subrange(0, 32) =~= row.id@);
    assert(row_bytes(row).subrange(32, 40) =~= crate::bytes::le_digits(
        row.incarnation as nat,
        8,
    ));
}

/// An exchange of members is answered with all that this node knows once it has taken the reports
/// in, itself alive and heard just now among them.
pub proof fn law_exchanges_are_answered_in_full(
    before: Membership,
    members: Vec<MemberEntry>,
    now: u64,
    after: Membership,
    out: Handled,
    id: NodeId,
)
    requires
        handled(before, Message::MemberSync { members }, now, after, out),
        after.views@.members.contains_key(id),
    ensures
        out.actions@.len() == 0,
        out.answer is Reply,
        out.answer->Reply_0 is MemberSync,
        after.me == before.me,
        after.views@.members.contains_key(before.me.id),
        after.views@.members[before.me.id].state == MemberState::Alive,
        after.views@.members[before.me.id].last_heard_ms == now,
        after.views@.members[before.me.id].incarnation == after.self_incarnation,
        after.self_incarnation >= before.self_incarnation,
        after.views@.active == before.views@.active,
        after.views@.passive == before.views@.passive,
        exists|e: MemberEntry| #[trigger]
            out.answer->Reply_0->MemberSync_members@.contains(e) && e.id == id && e.incarnation
                == after.views@.members[id].incarnation && e.addr == Some(
                after.views@.members[id].addr,
            ),
{
    let ours = out.answer->Reply_0->MemberSync_members@;
    let e = crate::membership::member::entry_of(id, after.views@.members[id]);
    assert(ours.contains(e) <==> after.views@.members.contains_key(e.id) && e
        == crate::membership::member::entry_of(e.id, after.views@.members[e.id]));
    let mid = choose|mid: Membership| #[trigger]
        reports_taken(before, members@, now, mid, out.wake) && after.same_but_views(mid)
            && after.views@ == crate::membership::node::reasserted(
            mid.views@,
            mid.me,
            mid.self_incarnation,
            now,
        );
    assert(mid.me == before.me);
    lemma_intake_keeps(
        crate::membership::node::Intake {
            o: before.views@,
            incarnation: before.self_incarnation,
            refuted: false,
            news: false,
        },
        before.me.id,
        members@,
        now,
    );
}

proof fn lemma_intake_keeps(
    st: crate::membership::node::Intake,
    me: NodeId,
    entries: Seq<MemberEntry>,
    now: u64,
)
    ensures
        ({
            let next = crate::membership::node::took_in_all(st, me, entries, now);
            &&& next.incarnation >= st.incarnation
            &&& next.o.active == st.o.active
            &&& next.o.passive == st.o.passive
            &&& next.o.dead == st.o.dead
        }),
    decreases entries.len(),
{
    if entries.len() > 0 {
        lemma_intake_keeps(st, me, entries.drop_last(), now);
    }
}

/// A round probes every link, once and at its address.
pub proof fn law_every_link_is_probed(
    o: Overlay,
    targets: Seq<(NodeId, PeerAddr)>,
    id: NodeId,
    i: int,
    j: int,
)
    requires
        are_targets(o, targets),
    ensures
        o.active.contains_key(id) ==> targets.contains((id, o.active[id].addr)),
        0 <= i < targets.len() ==> o.active.contains_key(targets[i].0)
            && o.active[targets[i].0].addr == targets[i].1,
        0 <= i < j < targets.len() ==> targets[i].0 != targets[j].0,
{
    if 0 <= i < targets.len() {
        assert(targets.contains((targets[i].0, targets[i].1)));
    }
}

/// A wedged node rebinds its endpoint, and may dial a seed at once where that came off; then it
/// goes on to probe its links as it would have without.
pub proof fn law_rebinding_lets_it_dial_again(
    before: Membership,
    ok: bool,
    now: Now,
    after: Membership,
    next: Stage,
    task: Task,
)
    requires
        stepped(before, Stage::AwaitRebind, Event::Rebound(ok), now, after, next, task),
    ensures
        ok ==> after.last_recover_ms == 0,
        !ok ==> after.last_recover_ms == before.last_recover_ms,
        after.views == before.views,
        after.isolated_since_ms == before.isolated_since_ms,
        after.self_incarnation == before.self_incarnation,
        next is Probe,
        are_targets(before.views@, next->Probe_0@),
        task == Task::Continue,
{
}

/// A listing that shows exactly the rows it should shows each of them, each identity once, and
/// nothing else.
pub proof fn law_listings_are_exact(
    rows: Seq<(NodeId, PeerState)>,
    shown: spec_fn(NodeId, PeerState) -> bool,
    id: NodeId,
    state: PeerState,
    i: int,
    j: int,
)
    requires
        shows_exactly(rows, shown),
    ensures
        shown(id, state) ==> rows.contains((id, state)),
        0 <= i < rows.len() ==> shown(rows[i].0, rows[i].1),
        0 <= i < j < rows.len() ==> rows[i].0 != rows[j].0,
{
    if 0 <= i < rows.len() {
        assert(rows.contains((rows[i].0, rows[i].1)));
    }
    if shown(id, state) {
        assert(rows.contains((id, state)));
    }
}

/// A contact that took a join request, and a candidate that granted a link, is a link from now on,
/// and its members are pulled; one that did not is none, and nothing changes.
pub proof fn law_granted_links_are_made(
    node: &mut Membership,
    asked: &mut Membership,
    contact: PeerAddr,
    delivered: bool,
    joined: (Vec<crate::membership::handler::Action>, bool),
    accepted: bool,
    granted: (Vec<crate::membership::handler::Action>, bool),
)
    requires
        contact.id != old(node).me.id,
        contact.id != old(asked).me.id,
        old(node).link_fits(contact),
        old(asked).link_fits(contact),
        call_ensures(Membership::on_joined, (node, contact, delivered), joined),
        call_ensures(
            Membership::on_link_reply,
            (asked, contact, &Some(Message::NeighborReply { accepted })),
            granted,
        ),
    ensures
        joined.1 == delivered,
        granted.1 == accepted,
        delivered ==> final(node).views@.active.contains_key(contact.id)
            && final(node).views@.active[contact.id].addr == contact,
        !delivered ==> *final(node) == *old(node) && joined.0@.len() == 0,
        accepted ==> final(asked).views@.active.contains_key(contact.id)
            && final(asked).views@.active[contact.id].addr == contact,
        !accepted ==> *final(asked) == *old(asked) && granted.0@.len() == 0,
        final(node).views@.members == old(node).views@.members,
        final(asked).views@.members == old(asked).views@.members,
{
    if delivered {
        let evicted = choose|evicted: Option<PeerAddr>| #[trigger]
            crate::membership::handler::linked(*old(node), contact, *final(node), evicted);
        crate::membership::conduct::lemma_linked(*old(node), contact, *final(node), evicted);
    }
    if accepted {
        let evicted = choose|evicted: Option<PeerAddr>| #[trigger]
            crate::membership::handler::linked(*old(asked), contact, *final(asked), evicted);
        crate::membership::conduct::lemma_linked(*old(asked), contact, *final(asked), evicted);
    }
}

/// What a node sends of its own accord: a join and a request for a link carry its own address, the
/// request is urgent exactly where it has no link at all, and a reply to a probe that was made for
/// somebody counts only where it is about the very target and says that it was reached.
pub proof fn law_requests_carry_the_own_address(
    node: Membership,
    join: Message,
    link: Message,
    target_id: NodeId,
    alive: bool,
    reply: Message,
    target: NodeId,
    reached: bool,
)
    requires
        call_ensures(Membership::join_request, (&node,), join),
        call_ensures(Membership::link_request, (&node,), link),
        call_ensures(crate::membership::handler::probe_result, (target_id, alive), reply),
        call_ensures(crate::membership::handler::acknowledges, (&reply, &target), reached),
    ensures
        join == (Message::Join { origin: Some(node.me) }),
        link is Neighbor && link->Neighbor_origin == Some(node.me),
        link->high_priority <==> node.views@.active.dom().len() == 0,
        reached <==> alive && target_id == target,
{
}

/// Member sets are exchanged exactly where the census hashes differ.
pub proof fn law_differing_hashes_lead_to_an_exchange(
    hash: [u8; 32],
    mine: [u8; 32],
    differs: bool,
    none: bool,
)
    requires
        call_ensures(
            crate::membership::exchange::digest_differs,
            (&Some(Message::Digest { hash }), &mine),
            differs,
        ),
        call_ensures(crate::membership::exchange::digest_differs, (&None, &mine), none),
    ensures
        differs <==> hash != mine,
        !none,
{
}

/// A round of gossip tells the news, this node's own record renewed, to up to three links, and
/// counts it as told once more; where there is no news nobody is told anything.
pub proof fn law_gossip_tells_news_once_more(
    node: &mut Membership,
    now: u64,
    push: Option<(Vec<PeerAddr>, Message)>,
    id: NodeId,
)
    requires
        call_ensures(Membership::epidemic_push, (node, now), push),
        id != old(node).me.id,
    ensures
        final(node).views@.members.contains_key(id) <==> old(node).views@.members.contains_key(id),
        final(node).views@.members[old(node).me.id].state == MemberState::Alive,
        final(node).views@.members[old(node).me.id].last_heard_ms == now,
        final(node).views@.active == old(node).views@.active,
        final(node).views@.dirty.contains_key(id) <==> old(node).views@.dirty.contains_key(id)
            && old(node).views@.dirty[id] >= 2,
        final(node).views@.dirty.contains_key(id) ==> final(node).views@.dirty[id]
            == old(node).views@.dirty[id] - 1,
        push is None && old(node).views@.dirty.contains_key(id)
            ==> !old(node).views@.members.contains_key(id),
        push matches Some((targets, message)) ==> targets@.len() <= 3 && message is MemberSync && (
        old(node).views@.dirty.contains_key(id) && old(node).views@.members.contains_key(id)
            ==> exists|e: MemberEntry| #[trigger]
            message->MemberSync_members@.contains(e) && e.id == id && e.incarnation
                == old(node).views@.members[id].incarnation),
{
    let fresh = crate::membership::node::reasserted(
        old(node).views@,
        old(node).me,
        old(node).self_incarnation,
        now,
    );
    if let Some((targets, message)) = push {
        law_news_goes_to_three_links(fresh, targets@, 0);
        let e = crate::membership::member::entry_of(id, fresh.members[id]);
        law_news_tells_every_change(fresh, message->MemberSync_members@, id, e);
    } else {
        let none = Seq::<MemberEntry>::empty();
        if old(node).views@.dirty.contains_key(id) && old(node).views@.members.contains_key(id) {
            let e = crate::membership::member::entry_of(id, fresh.members[id]);
            law_news_tells_every_change(fresh, none, id, e);
        }
    }
}

/// A round begins with the suspects that are overdue, all of them and nobody else, each once.
pub proof fn law_rounds_begin_with_the_overdue(
    node: Membership,
    now: u64,
    stage: Stage,
    id: NodeId,
    since: u64,
)
    requires
        call_ensures(Membership::begin_round, (&node, now), stage),
        node.views@.members.contains_key(id),
        node.views@.members[id].suspect_since_ms == Some(since),
        now >= since,
    ensures
        stage is Bury,
        stage->Bury_0@.no_duplicates(),
        stage->Bury_0@.contains(id) <==> node.views@.members[id].state == MemberState::Suspect && now
            >= since + node.cfg.suspect_timeout_ms,
{
}

/// What is shown of the peers: a link is, unless it is to a member known to be dead; a tombstone is
/// until it expires, and a dead member in any case; each once.
pub proof fn law_dead_links_are_not_shown(
    views: &mut Views,
    now: u64,
    retention: u64,
    shot: crate::membership::snapshot::Snapshot,
    id: NodeId,
    state: PeerState,
)
    requires
        call_ensures(Views::snapshot, (views, now, retention), shot),
        retention > 0,
    ensures
        ({
            let dead = old(views)@.members.contains_key(id) && old(views)@.members[id].state
                == MemberState::Dead;
            let tomb = old(views)@.dead.contains_key(id) && now < old(views)@.dead[id].died_ms
                + retention;
            &&& shot.active@.contains((id, state)) <==> old(views)@.active.contains_key(id) && state
                == old(views)@.active[id] && !dead
            &&& shot.dead@.contains((id, state)) ==> dead || tomb
            &&& tomb && state == old(views)@.dead[id].state ==> shot.dead@.contains((id, state))
            &&& shot.passive_count == old(views)@.passive.len()
            &&& final(views)@.active == old(views)@.active
            &&& final(views)@.members == old(views)@.members
        }),
{
}

/// What a node lists and finds: itself first in both censuses, others by its own retention, and the
/// address of a member as it is known, its own for itself.
pub proof fn law_nodes_count_by_their_retention(
    node: Membership,
    now: u64,
    all: Vec<(NodeId, PeerAddr)>,
    alive: Vec<(NodeId, PeerAddr)>,
    id: NodeId,
    addr: Option<PeerAddr>,
    own: Option<PeerAddr>,
)
    requires
        call_ensures(Membership::census, (&node, now), all),
        call_ensures(Membership::liveness_census, (&node, now), alive),
        call_ensures(Membership::member_addr, (&node, &id), addr),
        call_ensures(Membership::member_addr, (&node, &node.me.id), own),
        id != node.me.id,
        node.views@.members.contains_key(id),
        now >= node.views@.members[id].last_heard_ms,
    ensures
        all@.len() > 0 && all@[0] == (node.me.id, node.me),
        alive@.len() > 0 && alive@[0] == (node.me.id, node.me),
        own == Some(node.me),
        addr == Some(node.views@.members[id].addr),
        all@.contains((id, node.views@.members[id].addr)) <==> node.views@.members[id].state
            != MemberState::Dead && now < node.views@.members[id].last_heard_ms
            + node.cfg.dead_retention_ms,
        alive@.contains((id, node.views@.members[id].addr)) <==> node.views@.members[id].state
            == MemberState::Alive && now < node.views@.members[id].last_heard_ms
            + node.cfg.dead_retention_ms && !node.views@.dead.contains_key(id),
{
}

/// What calls that look for peers come to: a backup is drawn exactly where there is a free place and
/// a backup, and leaves the list; a seed is dialled at most once in fifteen seconds, and none where
/// there is no other node among them.
pub proof fn law_peers_are_looked_for(
    node: &mut Membership,
    candidate: Option<PeerAddr>,
    lost: &mut Membership,
    now: u64,
    seed: Option<PeerAddr>,
)
    requires
        call_ensures(Membership::next_candidate, (node,), candidate),
        call_ensures(Membership::recover_isolated, (lost, now), seed),
        now >= old(lost).last_recover_ms,
    ensures
        candidate is Some <==> old(node).views@.active.dom().len() < old(node).cfg.active_size
            && old(node).views@.passive.len() > 0,
        candidate matches Some(c) ==> old(node).views@.passive.contains(c)
            && final(node).views@.passive.len() + 1 == old(node).views@.passive.len(),
        candidate is None ==> *final(node) == *old(node),
        final(node).views@.active == old(node).views@.active,
        final(node).views@.members == old(node).views@.members,
        now < old(lost).last_recover_ms + 15_000 ==> seed is None && final(lost).last_recover_ms
            == old(lost).last_recover_ms,
        now >= old(lost).last_recover_ms + 15_000 ==> final(lost).last_recover_ms == now,
        seed matches Some(a) ==> old(lost).bootstrap@.contains(a) && a.id != old(lost).me.id,
        final(lost).views == old(lost).views,
{
    broadcast use vstd::seq_lib::group_to_multiset_ensures;

    if let Some(c) = candidate {
        let was = old(node).views@.passive.to_multiset();
        let is = final(node).views@.passive.to_multiset();
        assert(was == is.insert(c));
        assert(is.insert(c).count(c) > 0);
        assert(was.len() == is.len() + 1);
    }
}

} // verus!
