//! What a node does with its links and backups, as its peers see it.

use crate::bytes::NodeId;
use crate::membership::gossip::{counted_down, link_addrs_of, names_links, sampled};
use crate::membership::handler::{
    are_links, backed_up, farewell, forwards, handled, linked, links_to, reports_taken, Action,
    Answer, Handled, Message,
};
use crate::membership::lifecycle::Now;
use crate::membership::member::{MemberEntry, MemberState, PeerAddr};
use crate::membership::node::{absorbed, offered, offered_step, Membership};
use crate::membership::overlay::{
    activated, eviction_draw, eviction_fits, lists_peer, offer_fits, sidelined, slot_draw,
    swap_removed, without_peer, Config, Overlay,
};
use crate::membership::round::{laid_to_rest, stepped, watched, wedged, Event, Stage, Task};
use crate::membership::soundness::lemma_without_peer;
use vstd::prelude::*;

verus! {

proof fn lemma_swapped_out(passive: Seq<PeerAddr>, slot: int)
    requires
        0 <= slot < passive.len(),
    ensures
        swap_removed(passive, slot).to_multiset().insert(passive[slot]) == passive.to_multiset(),
        swap_removed(passive, slot).len() == passive.len() - 1,
{
    broadcast use vstd::seq_lib::group_to_multiset_ensures;

    let swapped = passive.update(slot, passive.last());
    assert(swapped.last() == passive.last());
    assert(swapped =~= swapped.drop_last().push(swapped.last()));
    vstd::seq_lib::to_multiset_update(passive, slot, passive.last());
    let kept = swap_removed(passive, slot);
    let all = passive.to_multiset();
    assert(swapped.to_multiset() == kept.to_multiset().insert(passive.last()));
    assert(all.count(passive[slot]) > 0) by {
        assert(passive.contains(passive[slot]));
    }
    assert forall|a: PeerAddr| kept.to_multiset().insert(passive[slot]).count(a) == all.count(a) by {
        assert(all.insert(passive.last()).remove(passive[slot]).count(a)
            == kept.to_multiset().insert(passive.last()).count(a));
    }
    assert(kept.to_multiset().insert(passive[slot]) =~= all);
}

/// A peer that is linked is a link at its address, and no tombstone. Nobody else becomes one. A
/// peer that was a link keeps what was measured of it; a new one has nothing measured yet. Only
/// where the view was full does a link make way: one, which becomes a backup.
pub proof fn law_linking_links_the_peer(
    o: Overlay,
    me: NodeId,
    cfg: Config,
    peer: PeerAddr,
    victim: NodeId,
    slot: int,
)
    requires
        eviction_draw(o, me, cfg, peer, victim, slot),
        eviction_fits(o, me, cfg, peer),
    ensures
        ({
            let (after, evicted) = activated(o, me, cfg, peer, victim, slot);
            let known = o.active.contains_key(peer.id);
            let full = o.active.dom().len() >= cfg.active_size && o.active.dom().len() > 0;
            let link = after.active[peer.id];
            &&& after.members == o.members
            &&& after.dirty == o.dirty
            &&& peer.id == me ==> after == o && evicted is None
            &&& peer.id != me ==> {
                &&& after.active.contains_key(peer.id)
                &&& link.addr == peer
                &&& !after.dead.contains_key(peer.id)
                &&& after.dead == o.dead.remove(peer.id)
                &&& known ==> link.alive == o.active[peer.id].alive && link.rtt_us
                    == o.active[peer.id].rtt_us && link.skew_ms == o.active[peer.id].skew_ms
                    && link.last_seen_unix == o.active[peer.id].last_seen_unix
                    && link.consecutive_failures == o.active[peer.id].consecutive_failures
                &&& !known ==> !link.alive && link.rtt_us is None && link.skew_ms is None
                    && link.last_seen_unix is None && link.consecutive_failures == 0
                &&& known || !full ==> evicted is None && after.active.remove(peer.id)
                    == o.active.remove(peer.id)
                &&& !known && full ==> evicted == Some(o.active[victim].addr)
                    && !after.active.contains_key(victim) && after.active.remove(peer.id)
                    == o.active.remove(victim)
            }
        }),
{
    let (after, evicted) = activated(o, me, cfg, peer, victim, slot);
    if peer.id != me {
        if o.active.contains_key(peer.id) || evicted is None {
            assert(after.active.remove(peer.id) =~= o.active.remove(peer.id));
        } else {
            assert(after.active.remove(peer.id) =~= o.active.remove(victim));
        }
    }
}

/// A peer that is linked is no backup. The other backups stay, but for one that may have to make
/// way for the link that made way.
pub proof fn law_linking_leaves_the_backups(
    o: Overlay,
    me: NodeId,
    cfg: Config,
    peer: PeerAddr,
    victim: NodeId,
    slot: int,
    a: PeerAddr,
)
    requires
        peer.id != me,
        eviction_draw(o, me, cfg, peer, victim, slot),
        eviction_fits(o, me, cfg, peer),
    ensures
        ({
            let (after, evicted) = activated(o, me, cfg, peer, victim, slot);
            &&& evicted is None ==> (after.passive.contains(a) <==> o.passive.contains(a) && a.id
                != peer.id)
            &&& evicted matches Some(gone) ==> lists_peer(after.passive, gone.id)
            &&& evicted matches Some(gone) ==> after.passive.contains(a) ==> a == gone || (
            o.passive.contains(a) && a.id != peer.id)
            &&& evicted matches Some(gone) ==> after.passive.len() == without_peer(
                o.passive,
                peer.id,
            ).len() || after.passive.len() == without_peer(o.passive, peer.id).len() + 1
        }),
{
    lemma_without_peer(o.passive, peer.id);
    let (after, evicted) = activated(o, me, cfg, peer, victim, slot);
    if let Some(gone) = evicted {
        let rest = without_peer(o.passive, peer.id);
        lemma_backed_up(rest, gone, cfg.passive_size as nat, slot, a);
    }
}

proof fn lemma_backed_up(
    passive: Seq<PeerAddr>,
    peer: PeerAddr,
    cap: nat,
    slot: int,
    a: PeerAddr,
)
    requires
        cap > 0 || passive.len() > 0,
        0 <= slot,
        passive.len() > 0 ==> slot < passive.len(),
    ensures
        ({
            let after = crate::membership::overlay::passive_pushed(passive, peer, cap, slot);
            let listed = exists|i: int| 0 <= i < passive.len() && (#[trigger] passive[i]).id
                == peer.id;
            &&& lists_peer(after, peer.id)
            &&& listed ==> after == passive
            &&& !listed ==> after.contains(peer)
            &&& after.contains(a) ==> a == peer || passive.contains(a)
            &&& !listed && passive.len() < cap ==> after == passive.push(peer)
            &&& !listed && passive.len() >= cap ==> after.len() == passive.len()
                && after.to_multiset().insert(passive[slot]) == passive.to_multiset().insert(peer)
        }),
{
    broadcast use vstd::seq_lib::group_to_multiset_ensures;

    let after = crate::membership::overlay::passive_pushed(passive, peer, cap, slot);
    if lists_peer(passive, peer.id) {
    } else {
        assert(after.last() == peer);
        assert(after[after.len() - 1].id == peer.id);
        if passive.len() < cap {
            if after.contains(a) && a != peer {
                let i = choose|i: int| 0 <= i < after.len() && after[i] == a;
                assert(passive[i] == a);
            }
        } else {
            let kept = swap_removed(passive, slot);
            lemma_swapped_out(passive, slot);
            assert(after =~= kept.push(peer));
            assert(after.to_multiset().insert(passive[slot]) =~= passive.to_multiset().insert(
                peer,
            ));
            if after.contains(a) && a != peer {
                let i = choose|i: int| 0 <= i < after.len() && after[i] == a;
                assert(i < kept.len());
                if i == slot {
                    assert(passive[passive.len() - 1] == a);
                } else {
                    assert(passive[i] == a);
                }
            }
        }
    }
}

/// A peer that is offered as a backup is one afterwards, unless it is this node or a link. One
/// that was listed changes nothing. Otherwise it is added, and only where the list was full does
/// one backup make way for it.
pub proof fn law_offers_become_backups(
    o: Overlay,
    me: NodeId,
    cfg: Config,
    peer: PeerAddr,
    slot: int,
)
    requires
        slot_draw(o, slot),
        offer_fits(o, me, cfg, peer),
    ensures
        ({
            let after = sidelined(o, me, cfg, peer, slot);
            let refused = peer.id == me || o.active.contains_key(peer.id);
            let listed = exists|i: int| 0 <= i < o.passive.len() && (#[trigger] o.passive[i]).id
                == peer.id;
            &&& after.active == o.active
            &&& after.dead == o.dead
            &&& after.members == o.members
            &&& after.dirty == o.dirty
            &&& refused || listed ==> after.passive == o.passive
            &&& !refused && !listed && o.passive.len() < cfg.passive_size ==> after.passive
                == o.passive.push(peer)
            &&& !refused && !listed && o.passive.len() >= cfg.passive_size ==> {
                &&& after.passive.contains(peer)
                &&& after.passive.len() == o.passive.len()
                &&& after.passive.to_multiset().insert(o.passive[slot])
                    == o.passive.to_multiset().insert(peer)
            }
        }),
{
    if peer.id != me && !o.active.contains_key(peer.id) {
        lemma_backed_up(o.passive, peer, cfg.passive_size as nat, slot, peer);
    }
}

/// Offering many peers offers each in turn: without any nothing changes, one more is offered to
/// what the others led to, and links, tombstones, records and news stay throughout.
pub proof fn law_offers_touch_backups_only(
    o: Overlay,
    me: NodeId,
    cfg: Config,
    peers: Seq<Option<PeerAddr>>,
    slots: Seq<int>,
    next: Overlay,
)
    requires
        offered(o, me, cfg, peers, slots, next),
    ensures
        next.active == o.active,
        next.dead == o.dead,
        next.members == o.members,
        next.dirty == o.dirty,
        next.passive.len() >= o.passive.len() || cfg.passive_size == 0,
        peers.len() == 0 ==> next == o,
        (forall|i: int| 0 <= i < peers.len() ==> (#[trigger] peers[i]) is None) ==> next == o,
    decreases peers.len(),
{
    if peers.len() > 0 {
        let mid = choose|mid: Overlay|
            offered(o, me, cfg, peers.drop_last(), slots.drop_last(), mid)
                && #[trigger] offered_step(mid, me, cfg, peers.last(), slots.last(), next);
        law_offers_touch_backups_only(o, me, cfg, peers.drop_last(), slots.drop_last(), mid);
        if let Some(p) = peers.last() {
            if cfg.passive_size > 0 {
                law_offers_become_backups(mid, me, cfg, p, slots.last());
            }
        } else if forall|i: int| 0 <= i < peers.len() ==> (#[trigger] peers[i]) is None {
            assert forall|i: int| 0 <= i < peers.drop_last().len() implies (
            #[trigger] peers.drop_last()[i]) is None by {
                assert(peers[i] is None);
            }
        }
        assert(peers.last() == peers[peers.len() - 1]);
    }
}

/// The last peer offered is a backup afterwards, unless it is this node or a link.
pub proof fn law_the_last_offer_is_listed(
    o: Overlay,
    me: NodeId,
    cfg: Config,
    peers: Seq<Option<PeerAddr>>,
    peer: PeerAddr,
    slots: Seq<int>,
    next: Overlay,
)
    requires
        cfg.passive_size > 0,
        peer.id != me,
        !o.active.contains_key(peer.id),
        offered(o, me, cfg, peers.push(Some(peer)), slots, next),
    ensures
        lists_peer(next.passive, peer.id),
{
    let all = peers.push(Some(peer));
    assert(all.drop_last() =~= peers);
    let mid = choose|mid: Overlay|
        offered(o, me, cfg, all.drop_last(), slots.drop_last(), mid) && #[trigger] offered_step(
            mid,
            me,
            cfg,
            all.last(),
            slots.last(),
            next,
        );
    law_offers_touch_backups_only(o, me, cfg, peers, slots.drop_last(), mid);
    lemma_backed_up(mid.passive, peer, cfg.passive_size as nat, slots.last(), peer);
}

proof fn lemma_links_listed(o: Overlay, but: NodeId, targets: Seq<PeerAddr>, id: NodeId) -> (at:
    int)
    requires
        are_links(o, but, targets),
        o.active.contains_key(id),
        o.active[id].addr.id != but,
    ensures
        0 <= at < targets.len(),
        targets[at] == o.active[id].addr,
{
    let ids = choose|ids: Seq<NodeId>| #[trigger]
        names_links(o.active, Some(but), ids) && targets == link_addrs_of(o.active, ids);
    assert(ids.contains(id));
    let at = choose|at: int| 0 <= at < ids.len() && ids[at] == id;
    at
}

/// A node that joins is linked, and every other link is told of it with the full walk to go: the
/// message goes to each of them once, and to nobody else but the link that made way, which is
/// told so.
pub proof fn law_joins_are_announced(
    before: Membership,
    origin: PeerAddr,
    now: u64,
    after: Membership,
    out: Handled,
    id: NodeId,
)
    requires
        origin.id != before.me.id,
        before.link_fits(origin),
        handled(before, Message::Join { origin: Some(origin) }, now, after, out),
    ensures
        after.views@.active.contains_key(origin.id),
        after.views@.active[origin.id].addr == origin,
        after.views@.members == before.views@.members,
        after.same_but_views(before),
        out.answer == Answer::Nothing,
        !out.wake,
        before.views@.active.contains_key(id) && before.views@.active[id].addr.id != origin.id
            ==> exists|i: int|
            0 <= i < out.actions@.len() && #[trigger] out.actions@[i] == (Action::Send {
                to: before.views@.active[id].addr,
                message: Message::ForwardJoin { origin: Some(origin), ttl: before.cfg.arwl },
            }),
        forall|i: int|
            0 <= i < out.actions@.len() ==> (#[trigger] out.actions@[i] matches Action::Send {
                to,
                message,
            } && (message == Message::Disconnect || (message == (Message::ForwardJoin {
                origin: Some(origin),
                ttl: before.cfg.arwl,
            }) && to.id != origin.id))),
{
    let (evicted, targets) = choose|evicted: Option<PeerAddr>, targets: Seq<PeerAddr>|
        #![trigger linked(before, origin, after, evicted), are_links(before.views@, origin.id, targets)]
        linked(before, origin, after, evicted) && are_links(before.views@, origin.id, targets)
            && out.actions@ == farewell(evicted) + forwards(targets, origin, before.cfg.arwl);
    lemma_linked(before, origin, after, evicted);
    let bye = farewell(evicted);
    let told = forwards(targets, origin, before.cfg.arwl);
    if before.views@.active.contains_key(id) && before.views@.active[id].addr.id != origin.id {
        let at = lemma_links_listed(before.views@, origin.id, targets, id);
        assert(out.actions@[bye.len() + at] == told[at]);
    }
    assert forall|i: int| 0 <= i < out.actions@.len() implies (
    #[trigger] out.actions@[i] matches Action::Send { to, message } && (message
        == Message::Disconnect || (message == (Message::ForwardJoin {
        origin: Some(origin),
        ttl: before.cfg.arwl,
    }) && to.id != origin.id))) by {
        if i >= bye.len() {
            let j = i - bye.len();
            assert(out.actions@[i] == told[j]);
            let ids = choose|ids: Seq<NodeId>| #[trigger]
                names_links(before.views@.active, Some(origin.id), ids) && targets
                    == link_addrs_of(before.views@.active, ids);
            assert(ids.contains(ids[j]));
        } else {
            assert(out.actions@[i] == bye[i]);
        }
    }
}

/// What linking a peer comes to, whichever link made way.
pub proof fn lemma_linked(
    before: Membership,
    peer: PeerAddr,
    after: Membership,
    evicted: Option<PeerAddr>,
)
    requires
        linked(before, peer, after, evicted),
        before.link_fits(peer),
    ensures
        after.same_but_views(before),
        after.views@.members == before.views@.members,
        after.views@.dirty == before.views@.dirty,
        peer.id == before.me.id ==> after.views@ == before.views@ && evicted is None,
        peer.id != before.me.id ==> after.views@.active.contains_key(peer.id)
            && after.views@.active[peer.id].addr == peer,
        before.views@.active.dom().len() < before.cfg.active_size ==> evicted is None,
        evicted matches Some(gone) ==> exists|id: NodeId| #[trigger]
            before.views@.active.contains_key(id) && before.views@.active[id].addr == gone
                && !after.views@.active.contains_key(id),
{
    let (victim, slot) = choose|victim: NodeId, slot: int|
        #![trigger activated(before.views@, before.me.id, before.cfg, peer, victim, slot)]
        eviction_draw(before.views@, before.me.id, before.cfg, peer, victim, slot) && (
        after.views@, evicted) == activated(
            before.views@,
            before.me.id,
            before.cfg,
            peer,
            victim,
            slot,
        );
    law_linking_links_the_peer(before.views@, before.me.id, before.cfg, peer, victim, slot);
    if evicted is Some {
        assert(before.views@.active.contains_key(victim));
    }
}

/// A request for a link is granted where it is urgent or there is room, and the answer says
/// which. Who is granted a link has it; who is not is kept as a backup, and no link changes.
pub proof fn law_link_requests_are_granted(
    before: Membership,
    origin: PeerAddr,
    high_priority: bool,
    now: u64,
    after: Membership,
    out: Handled,
)
    requires
        origin.id != before.me.id,
        before.link_fits(origin),
        before.backup_fits(origin),
        handled(
            before,
            Message::Neighbor { origin: Some(origin), high_priority },
            now,
            after,
            out,
        ),
    ensures
        ({
            let granted = high_priority || before.views@.active.dom().len()
                < before.cfg.active_size;
            &&& out.answer == Answer::Reply(Message::NeighborReply { accepted: granted })
            &&& after.same_but_views(before)
            &&& after.views@.members == before.views@.members
            &&& granted ==> after.views@.active.contains_key(origin.id)
                && after.views@.active[origin.id].addr == origin
            &&& !high_priority && granted ==> out.actions@.len() == 0
            &&& !granted ==> after.views@.active == before.views@.active && out.actions@.len() == 0
                && (before.views@.active.contains_key(origin.id) || lists_peer(
                after.views@.passive,
                origin.id,
            ))
            &&& out.actions@.len() <= 1
            &&& out.actions@.len() == 1 ==> out.actions@[0] is Send && out.actions@[0]->Send_message
                == Message::Disconnect
        }),
{
    if high_priority || before.views@.active.dom().len() < before.cfg.active_size {
        let evicted = choose|evicted: Option<PeerAddr>| #[trigger]
            linked(before, origin, after, evicted) && out.actions@ == farewell(evicted);
        lemma_linked(before, origin, after, evicted);
    } else {
        assert(backed_up(before, origin, after));
        let slot = choose|slot: int|
            #![trigger sidelined(before.views@, before.me.id, before.cfg, origin, slot)]
            slot_draw(before.views@, slot) && after.views@ == sidelined(
                before.views@,
                before.me.id,
                before.cfg,
                origin,
                slot,
            );
        if !before.views@.active.contains_key(origin.id) {
            lemma_backed_up(
                before.views@.passive,
                origin,
                before.cfg.passive_size as nat,
                slot,
                origin,
            );
        }
    }
}

/// A join whose walk ends here, since it ran out or leads nowhere, is linked, and asked for the
/// link back.
pub proof fn law_walks_end_in_a_link(
    before: Membership,
    origin: PeerAddr,
    ttl: u8,
    now: u64,
    after: Membership,
    out: Handled,
)
    requires
        origin.id != before.me.id,
        before.link_fits(origin),
        handled(before, Message::ForwardJoin { origin: Some(origin), ttl }, now, after, out),
        ttl == 0 || before.views@.active.dom().len() <= 1,
    ensures
        after.views@.active.contains_key(origin.id),
        after.views@.active[origin.id].addr == origin,
        after.views@.members == before.views@.members,
        after.same_but_views(before),
        out.actions@.len() > 0,
        out.actions@.last() == (Action::Ask {
            to: origin,
            message: Message::Neighbor { origin: Some(before.me), high_priority: false },
        }),
        out.actions@.len() <= 2,
        out.actions@.len() == 2 ==> out.actions@[0] is Send && out.actions@[0]->Send_message
            == Message::Disconnect,
        out.answer == Answer::Nothing,
{
    let ask = Action::Ask {
        to: origin,
        message: Message::Neighbor { origin: Some(before.me), high_priority: false },
    };
    let evicted = choose|evicted: Option<PeerAddr>| #[trigger]
        linked(before, origin, after, evicted) && out.actions@ == farewell(evicted).push(ask);
    lemma_linked(before, origin, after, evicted);
    assert(out.actions@[0] == farewell(evicted).push(ask)[0]);
}

/// A join whose walk goes on is passed to one link, which is not who joins, with one step less to
/// go, and no link changes. It is kept as a backup exactly where the walk is as far as
/// configured.
pub proof fn law_walks_go_on(
    before: Membership,
    origin: PeerAddr,
    ttl: u8,
    now: u64,
    after: Membership,
    out: Handled,
    way: PeerAddr,
)
    requires
        origin.id != before.me.id,
        before.backup_fits(origin),
        handled(before, Message::ForwardJoin { origin: Some(origin), ttl }, now, after, out),
        ttl > 0,
        before.views@.active.dom().len() > 1,
        links_to(before.views@, origin.id, way),
    ensures
        after.views@.active == before.views@.active,
        after.views@.members == before.views@.members,
        after.same_but_views(before),
        out.actions@.len() == 1,
        out.actions@[0] is Send,
        out.actions@[0]->Send_message == (Message::ForwardJoin {
            origin: Some(origin),
            ttl: (ttl - 1) as u8,
        }),
        out.actions@[0]->Send_to.id != origin.id,
        exists|id: NodeId| #[trigger]
            before.views@.active.contains_key(id) && before.views@.active[id].addr
                == out.actions@[0]->Send_to,
        ttl != before.cfg.prwl ==> after.views@ == before.views@,
        ttl == before.cfg.prwl && !before.views@.active.contains_key(origin.id) ==> lists_peer(
            after.views@.passive,
            origin.id,
        ),
        out.answer == Answer::Nothing,
{
    let mid = choose|mid: Membership| #[trigger]
        crate::membership::handler::walk_kept(before, origin, ttl, mid) && ((exists|
            next: PeerAddr,
        | #[trigger]
            links_to(before.views@, origin.id, next) && after == mid && out.actions@ == forwards(
                seq![next],
                origin,
                (ttl - 1) as u8,
            )) || ((forall|a: PeerAddr| !#[trigger] links_to(before.views@, origin.id, a)) && (
        exists|evicted: Option<PeerAddr>| #[trigger]
            linked(mid, origin, after, evicted) && out.actions@ == farewell(evicted))));
    let next = choose|next: PeerAddr| #[trigger]
        links_to(before.views@, origin.id, next) && after == mid && out.actions@ == forwards(
            seq![next],
            origin,
            (ttl - 1) as u8,
        );
    assert(out.actions@[0] == forwards(seq![next], origin, (ttl - 1) as u8)[0]);
    if ttl == before.cfg.prwl {
        let slot = choose|slot: int|
            #![trigger sidelined(before.views@, before.me.id, before.cfg, origin, slot)]
            slot_draw(before.views@, slot) && after.views@ == sidelined(
                before.views@,
                before.me.id,
                before.cfg,
                origin,
                slot,
            );
        if !before.views@.active.contains_key(origin.id) {
            lemma_backed_up(
                before.views@.passive,
                origin,
                before.cfg.passive_size as nat,
                slot,
                origin,
            );
        }
    }
}

/// A node is not joined to itself, and messages that only answer, or that name nobody, change
/// nothing and are not answered.
pub proof fn law_nothing_comes_of_nothing(
    before: Membership,
    msg: Message,
    now: u64,
    after: Membership,
    out: Handled,
)
    requires
        handled(before, msg, now, after, out),
        match msg {
            Message::Join { origin } => origin is None,
            Message::ForwardJoin { origin, ttl: _ } => match origin {
                Some(o) => o.id == before.me.id,
                None => true,
            },
            Message::Neighbor { origin, high_priority: _ } => origin is None,
            Message::NeighborReply { accepted: _ } => true,
            Message::Disconnect => true,
            Message::ShuffleReply { sample: _, members: _ } => true,
            Message::PingReqAck { target_id: _, alive: _ } => true,
            Message::Other => true,
            _ => false,
        },
    ensures
        after == before,
        out.actions@.len() == 0,
        out.answer == Answer::Nothing,
        !out.wake,
{
}

/// A request to probe for somebody else is carried out on the address it names, and refused where
/// it names none; it changes nothing here.
pub proof fn law_probes_are_made_for_others(
    before: Membership,
    target_id: NodeId,
    target_addr: Option<PeerAddr>,
    now: u64,
    after: Membership,
    out: Handled,
)
    requires
        handled(before, Message::PingReq { target_id, target_addr }, now, after, out),
    ensures
        after == before,
        target_addr matches Some(addr) ==> out.answer == (Answer::Probe { target_id, addr }),
        target_addr is None ==> out.answer == Answer::Reply(
            Message::PingReqAck { target_id, alive: false },
        ),
        out.actions@.len() == 0,
        !out.wake,
{
}

/// What a peer offers in a shuffle is answered with as many backups as it offered, one at least,
/// as far as there are so many, and with nothing else.
pub proof fn law_shuffles_are_answered_in_kind(
    before: Membership,
    origin: Option<PeerAddr>,
    sample: Vec<Option<PeerAddr>>,
    members: Vec<MemberEntry>,
    now: u64,
    after: Membership,
    out: Handled,
)
    requires
        handled(before, Message::Shuffle { origin, sample, members }, now, after, out),
    ensures
        out.actions@.len() == 0,
        out.answer is Reply,
        out.answer->Reply_0 is ShuffleReply,
        ({
            let ours = out.answer->Reply_0->ShuffleReply_sample@;
            let asked = if sample@.len() > 1 {
                sample@.len()
            } else {
                1
            };
            &&& out.answer->Reply_0->ShuffleReply_members@.len() == 0
            &&& ours.len() == if before.views@.passive.len() < asked {
                before.views@.passive.len()
            } else {
                asked
            }
            &&& forall|i: int|
                0 <= i < ours.len() ==> (#[trigger] ours[i] matches Some(a)
                    && before.views@.passive.contains(a))
        }),
{
    broadcast use vstd::seq_lib::group_to_multiset_ensures;

    let ours = out.answer->Reply_0->ShuffleReply_sample@;
    let k: nat = if sample@.len() == 0 {
        1
    } else {
        sample@.len()
    };
    let pool = before.views@.passive;
    let some = choose|some: Seq<PeerAddr>| #[trigger]
        sampled(pool, k, some) && ours == crate::membership::node::all_readable(some);
    assert forall|i: int| 0 <= i < ours.len() implies (#[trigger] ours[i] matches Some(a)
        && pool.contains(a)) by {
        assert(some.contains(some[i]));
        assert(some.to_multiset().count(some[i]) > 0);
        assert(pool.to_multiset().count(some[i]) > 0);
    }
}

/// News and refutations wake the gossip, at most once in a second, and nothing else does.
pub proof fn law_news_wakes_the_gossip(
    before: Membership,
    entries: Seq<MemberEntry>,
    now: u64,
    after: Membership,
    wake: bool,
)
    requires
        now >= before.last_epidemic_ms,
        reports_taken(before, entries, now, after, wake),
    ensures
        ({
            let st = absorbed(before.views@, before.self_incarnation, before.me, entries, now);
            &&& wake <==> (st.news || st.refuted) && now >= before.last_epidemic_ms + 1000
            &&& wake ==> after.last_epidemic_ms == now
            &&& !wake ==> after.last_epidemic_ms == before.last_epidemic_ms
            &&& entries.len() == 0 ==> !wake && after.views@ == before.views@
        }),
{
}

/// One round of gossip counts each piece of news down by one, and retires it after its last.
pub proof fn law_a_round_counts_down(dirty: Map<NodeId, u8>, id: NodeId)
    ensures
        counted_down(dirty).contains_key(id) <==> dirty.contains_key(id) && dirty[id] >= 2,
        counted_down(dirty).contains_key(id) ==> counted_down(dirty)[id] == dirty[id] - 1,
{
}

/// A step of the round puts a member under suspicion only where its link failed as often as
/// configured and nobody else could be asked, or those who were asked did not reach it.
pub proof fn law_suspicion_needs_grounds(
    before: Membership,
    stage: Stage,
    event: Event,
    now: Now,
    after: Membership,
    next: Stage,
    task: Task,
    id: NodeId,
)
    requires
        stepped(before, stage, event, now, after, next, task),
        before.views@.active.contains_key(id) ==> before.views@.active[id].consecutive_failures
            < u32::MAX,
        after.views@.members.contains_key(id),
        after.views@.members[id].state == MemberState::Suspect,
    ensures
        before.views@.members.contains_key(id),
        before.views@.members[id].state != MemberState::Suspect ==> {
            &&& before.views@.members[id].state == MemberState::Alive
            &&& match (stage, event) {
                (Stage::AwaitProbe(at, _, _), Event::Probed(None)) => {
                    &&& at == id
                    &&& before.views@.active.contains_key(id)
                    &&& before.views@.active[id].consecutive_failures + 1
                        >= before.cfg.probe_failures
                    &&& before.cfg.indirect_probes > 0 ==> forall|h: NodeId|
                        h != id && h != before.me.id && #[trigger]
                        before.views@.members.contains_key(h) ==> before.views@.members[h].state
                            != MemberState::Alive
                },
                (Stage::AwaitHelp(at, _), Event::Helped(reached)) => at == id && !reached,
                _ => false,
            }
        },
{
    if before.views@.members.contains_key(id) && before.views@.members[id].state
        != MemberState::Suspect {
        if let Stage::AwaitProbe(at, _, _) = stage {
            assert forall|h: NodeId|
                task == Task::Continue && before.cfg.indirect_probes > 0 && h != at && h
                    != before.me.id && #[trigger] before.views@.members.contains_key(
                    h,
                ) implies before.views@.members[h].state != MemberState::Alive || after.views@
                == crate::membership::lifecycle::unanswered(before.views@, at) || event
                != Event::Probed(None) by {
                assert(crate::membership::census::can_help(before.views@, before.me.id, at, h)
                    <==> before.views@.members[h].state == MemberState::Alive);
            }
        }
    }
}

/// A step of the round declares nobody dead but the overdue suspect whose turn it is, and drops
/// no member.
pub proof fn law_only_the_overdue_are_declared_dead(
    before: Membership,
    stage: Stage,
    event: Event,
    now: Now,
    after: Membership,
    next: Stage,
    task: Task,
    id: NodeId,
)
    requires
        stepped(before, stage, event, now, after, next, task),
    ensures
        before.views@.members.contains_key(id) ==> after.views@.members.contains_key(id),
        before.views@.members.contains_key(id) ==> after.views@.members[id].incarnation
            == before.views@.members[id].incarnation,
        after.views@.members.contains_key(id) && after.views@.members[id].state
            == MemberState::Dead && !(before.views@.members.contains_key(id)
            && before.views@.members[id].state == MemberState::Dead) ==> match stage {
            Stage::Bury(ids) => ids@.len() > 0 && ids@[0] == id && event == Event::Go,
            _ => false,
        },
        match (stage, event) {
            (Stage::Bury(ids), Event::Go) => ids@.len() > 0 && before.views@.members.contains_key(
                ids@[0],
            ) ==> after.views@.members[ids@[0]].state == MemberState::Dead
                && !after.views@.active.contains_key(ids@[0]),
            _ => true,
        },
{
}

/// A round goes through all its work: every overdue suspect in turn, the free places, every link
/// in turn, and it ends where no link is left to be probed.
pub proof fn law_rounds_go_through(
    before: Membership,
    stage: Stage,
    event: Event,
    now: Now,
    after: Membership,
    next: Stage,
    task: Task,
)
    requires
        stepped(before, stage, event, now, after, next, task),
    ensures
        match (stage, event) {
            (Stage::Bury(ids), Event::Go) => if ids@.len() > 0 {
                next is Bury && next->Bury_0@ == ids@.subrange(1, ids@.len() as int)
            } else {
                next == Stage::Fill
            },
            (Stage::Fill, Event::Go) => {
                let room = before.views@.active.dom().len() < before.cfg.active_size
                    && before.views@.passive.len() > 0;
                &&& room ==> task is Promote && next == Stage::Fill
                    && before.views@.passive.contains(task->Promote_0)
                    && after.views@.passive.len() + 1 == before.views@.passive.len()
                &&& !room ==> next == Stage::Isolation && task == Task::Continue && after == before
            },
            (Stage::Probe(targets), Event::Go) => if targets@.len() > 0 {
                &&& task == Task::Probe(targets@[0].1)
                &&& next is AwaitProbe
                &&& next->AwaitProbe_0 == targets@[0].0
                &&& next->AwaitProbe_2@ == targets@.subrange(1, targets@.len() as int)
                &&& after == before
            } else {
                task == Task::Finish && next == Stage::Finished && after == before
            },
            (Stage::AwaitProbe(id, addr, rest), Event::Probed(Some(report))) => next
                == Stage::Probe(rest) && task == Task::Continue,
            (Stage::AwaitProbe(id, addr, rest), Event::Probed(None)) => {
                ||| next == Stage::Probe(rest) && task == Task::Continue
                ||| next == Stage::AwaitHelp(id, rest) && task is AskHelpers
            },
            (Stage::AwaitHelp(id, rest), Event::Helped(reached)) => next == Stage::Probe(rest)
                && task == Task::Continue,
            (Stage::Finished, _) => task == Task::Finish && next == Stage::Finished,
            _ => true,
        },
{
    broadcast use vstd::seq_lib::group_to_multiset_ensures;

    match (stage, event) {
        (Stage::Bury(ids), Event::Go) => {
            assert(ids@.len() > 0 ==> ids@.skip(1) =~= ids@.subrange(1, ids@.len() as int));
        },
        (Stage::Fill, Event::Go) => {
            if before.views@.active.dom().len() < before.cfg.active_size
                && before.views@.passive.len() > 0 {
                let c = task->Promote_0;
                let was = before.views@.passive.to_multiset();
                let is = after.views@.passive.to_multiset();
                assert(was == is.insert(c));
                assert(is.insert(c).count(c) > 0);
                assert(was.len() == is.len() + 1);
            }
        },
        (Stage::Probe(targets), Event::Go) => {
            assert(targets@.len() > 0 ==> targets@.skip(1) =~= targets@.subrange(
                1,
                targets@.len() as int,
            ));
        },
        _ => {},
    }
}

/// A node without any link dials a seed that is not itself, at most once in fifteen seconds.
pub proof fn law_isolated_nodes_dial_a_seed(
    before: Membership,
    now: Now,
    after: Membership,
    next: Stage,
    task: Task,
    seed: PeerAddr,
)
    requires
        stepped(before, Stage::Isolation, Event::Go, now, after, next, task),
        now.wall_ms >= before.last_recover_ms,
        before.bootstrap@.contains(seed),
        seed.id != before.me.id,
    ensures
        ({
            let isolated = before.views@.active.dom().len() == 0;
            let due = now.wall_ms >= before.last_recover_ms + 15_000;
            &&& after.views == before.views
            &&& task is Join <==> isolated && due
            &&& task is Join ==> before.bootstrap@.contains(task->Join_0) && task->Join_0.id
                != before.me.id && after.last_recover_ms == now.wall_ms
            &&& isolated && !due ==> after.last_recover_ms == before.last_recover_ms && task
                == Task::Continue
            &&& isolated ==> next == Stage::Wedge && after.isolated_since_ms
                == before.isolated_since_ms
            &&& !isolated ==> after.isolated_since_ms == 0 && next is Probe && task
                == Task::Continue
        }),
{
    assert(crate::membership::round::is_seed(before, seed));
}

/// A node that has been isolated for as long as it may rebinds its endpoint, and starts counting
/// anew; the first time it is found isolated it starts counting. Without seeds it does neither.
pub proof fn law_wedged_nodes_rebind(before: Membership, now: u64)
    requires
        now >= before.isolated_since_ms,
    ensures
        wedged(before, now) <==> before.bootstrap@.len() > 0 && before.isolated_since_ms > 0
            && now >= before.isolated_since_ms + before.cfg.wedge_rebind_ms,
        before.bootstrap@.len() == 0 ==> watched(before, now) == before,
        before.bootstrap@.len() > 0 && before.isolated_since_ms == 0 ==> watched(
            before,
            now,
        ).isolated_since_ms == now,
        wedged(before, now) ==> watched(before, now).isolated_since_ms == now,
        before.isolated_since_ms > 0 && !wedged(before, now) ==> watched(before, now) == before,
        watched(before, now).views == before.views,
        watched(before, now).last_recover_ms == before.last_recover_ms,
{
}

/// Laying a link to rest takes a backup to ask in its place, where there is one; laying to rest
/// who is no link takes none.
pub proof fn law_a_lost_link_is_replaced(
    before: Membership,
    id: NodeId,
    now: Now,
    after: Membership,
    candidate: Option<PeerAddr>,
)
    requires
        laid_to_rest(before, id, now, after, candidate),
    ensures
        candidate is Some <==> before.views@.active.contains_key(id)
            && before.views@.passive.len() > 0,
        candidate matches Some(c) ==> before.views@.passive.contains(c)
            && after.views@.passive.len() + 1 == before.views@.passive.len(),
        candidate is None ==> after.views@.passive == before.views@.passive,
        !after.views@.active.contains_key(id),
        after.views@.active == before.views@.active.remove(id),
        before.views@.active.contains_key(id) ==> after.views@.dead.contains_key(id)
            && after.views@.dead[id].died_ms == now.mono_ms,
        before.views@.members.contains_key(id) ==> after.views@.members[id].state
            == MemberState::Dead,
{
    broadcast use vstd::seq_lib::group_to_multiset_ensures;

    assert(after.views@.active =~= before.views@.active.remove(id));
    if let Some(c) = candidate {
        let was = before.views@.passive.to_multiset();
        let is = after.views@.passive.to_multiset();
        assert(was == is.insert(c));
        assert(is.insert(c).count(c) > 0);
        assert(was.len() == is.len() + 1);
    }
}

} // verus!
