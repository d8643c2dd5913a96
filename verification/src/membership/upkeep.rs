//! The views stay sound through whole messages, rounds and exchanges.

use crate::bytes::NodeId;
use crate::membership::exchange::{forgot, reply_taken};
use crate::membership::handler::{
    backed_up, farewell, finds_room, grants, handled, linked, reports_taken, reports_taken_and_renewed,
    shuffle_handled, walk_ends, walk_fits, walk_handled, walk_kept, walk_stuck, Action, Handled,
    Message,
};
use crate::membership::lifecycle::{
    answered, buried, declared_dead, suspected, unanswered, vouched, Now,
};
use crate::membership::member::{MemberEntry, PeerAddr};
use crate::membership::node::{
    offered, offered_step, reasserted, took_in_all, Intake, Membership,
};
use crate::membership::overlay::{
    activated, eviction_draw, offer_fits, sidelined, slot_draw, Config, Overlay,
};
use crate::membership::round::{countable, laid_to_rest, stepped, Event, Stage, Task};
use crate::membership::soundness::{
    law_backing_up_keeps_views_sound, law_burying_keeps_views_sound, law_drawing_keeps_views_sound,
    law_linking_keeps_views_sound, sound,
};
use vstd::prelude::*;

verus! {

/// The views of a node are sound.
pub open spec fn sound_node(node: Membership) -> bool {
    sound(node.views@, node.me.id, node.cfg)
}

proof fn lemma_intake_leaves_links(st: Intake, me: NodeId, entries: Seq<MemberEntry>, now: u64)
    ensures
        took_in_all(st, me, entries, now).o.active == st.o.active,
        took_in_all(st, me, entries, now).o.passive == st.o.passive,
        took_in_all(st, me, entries, now).o.dead == st.o.dead,
    decreases entries.len(),
{
    if entries.len() > 0 {
        lemma_intake_leaves_links(st, me, entries.drop_last(), now);
    }
}

/// Taking in reports keeps the views sound: it touches no link, backup or tombstone.
pub proof fn law_reports_keep_views_sound(
    before: Membership,
    entries: Seq<MemberEntry>,
    now: u64,
    after: Membership,
    wake: bool,
)
    requires
        sound_node(before),
        reports_taken(before, entries, now, after, wake),
    ensures
        sound_node(after),
{
    lemma_intake_leaves_links(
        Intake {
            o: before.views@,
            incarnation: before.self_incarnation,
            refuted: false,
            news: false,
        },
        before.me.id,
        entries,
        now,
    );
}

/// A new link, whoever has to leave for it, keeps the views sound.
pub proof fn law_links_keep_views_sound(
    before: Membership,
    peer: PeerAddr,
    after: Membership,
    evicted: Option<PeerAddr>,
)
    requires
        sound_node(before),
        before.link_fits(peer),
        linked(before, peer, after, evicted),
    ensures
        sound_node(after),
{
    let (victim, slot) = choose|victim: NodeId, slot: int|
        #![trigger activated(before.views@, before.me.id, before.cfg, peer, victim, slot)]
        eviction_draw(before.views@, before.me.id, before.cfg, peer, victim, slot) && (
        after.views@, evicted) == activated(
            before.views@,
            before.me.id,
            before.cfg,
            peer,
            victim,
            slot,
        );
    law_linking_keeps_views_sound(before.views@, before.me.id, before.cfg, peer, victim, slot);
}

proof fn lemma_backing_up(before: Membership, peer: PeerAddr, after: Membership)
    requires
        sound_node(before),
        before.backup_fits(peer),
        backed_up(before, peer, after),
    ensures
        sound_node(after),
        before.cfg.passive_size == 0 ==> after.views@ == before.views@,
{
    let slot = choose|slot: int|
        #![trigger sidelined(before.views@, before.me.id, before.cfg, peer, slot)]
        slot_draw(before.views@, slot) && after.views@ == sidelined(
            before.views@,
            before.me.id,
            before.cfg,
            peer,
            slot,
        );
    law_backing_up_keeps_views_sound(before.views@, before.me.id, before.cfg, peer, slot);
}

/// Offering backups, one after the other, keeps the views sound.
pub proof fn law_offers_keep_views_sound(
    o: Overlay,
    me: NodeId,
    cfg: Config,
    peers: Seq<Option<PeerAddr>>,
    slots: Seq<int>,
    next: Overlay,
)
    requires
        sound(o, me, cfg),
        forall|i: int|
            0 <= i < peers.len() ==> (#[trigger] peers[i] matches Some(p) ==> offer_fits(
                o,
                me,
                cfg,
                p,
            )),
        offered(o, me, cfg, peers, slots, next),
    ensures
        sound(next, me, cfg),
        cfg.passive_size == 0 ==> next == o,
    decreases peers.len(),
{
    if peers.len() > 0 {
        let front = peers.drop_last();
        let mid = choose|mid: Overlay|
            offered(o, me, cfg, front, slots.drop_last(), mid) && #[trigger] offered_step(
                mid,
                me,
                cfg,
                peers.last(),
                slots.last(),
                next,
            );
        assert forall|i: int| 0 <= i < front.len() implies (#[trigger] front[i] matches Some(p)
            ==> offer_fits(o, me, cfg, p)) by {
            assert(front[i] == peers[i]);
        }
        law_offers_keep_views_sound(o, me, cfg, front, slots.drop_last(), mid);
        assert(peers[peers.len() - 1] == peers.last());
        if let Some(p) = peers.last() {
            law_backing_up_keeps_views_sound(mid, me, cfg, p, slots.last());
        }
    }
}

proof fn lemma_walk(
    before: Membership,
    origin: PeerAddr,
    ttl: u8,
    after: Membership,
    actions: Seq<Action>,
)
    requires
        sound_node(before),
        walk_fits(before, origin, ttl),
        walk_handled(before, origin, ttl, after, actions),
    ensures
        sound_node(after),
{
    if origin.id == before.me.id {
    } else if walk_ends(before, ttl) {
        let evicted = choose|evicted: Option<PeerAddr>| #[trigger]
            linked(before, origin, after, evicted) && actions == farewell(evicted).push(
                Action::Ask {
                    to: origin,
                    message: Message::Neighbor { origin: Some(before.me), high_priority: false },
                },
            );
        law_links_keep_views_sound(before, origin, after, evicted);
    } else {
        let mid = choose|mid: Membership| #[trigger]
            walk_kept(before, origin, ttl, mid) && (after == mid || (walk_stuck(before, origin)
                && exists|evicted: Option<PeerAddr>| #[trigger]
                linked(mid, origin, after, evicted)));
        if ttl == before.cfg.prwl {
            lemma_backing_up(before, origin, mid);
        }
        if after != mid {
            let evicted = choose|evicted: Option<PeerAddr>| #[trigger]
                linked(mid, origin, after, evicted);
            law_links_keep_views_sound(mid, origin, after, evicted);
        }
    }
}

proof fn lemma_shuffle(
    before: Membership,
    origin: Option<PeerAddr>,
    theirs: Seq<Option<PeerAddr>>,
    members: Seq<MemberEntry>,
    now: u64,
    after: Membership,
    wake: bool,
)
    requires
        sound_node(before),
        before.backups_fit(theirs.push(origin)),
        shuffle_handled(before, origin, theirs, members, now, after, wake),
    ensures
        sound_node(after),
{
    let all = theirs.push(origin);
    let (slots, mid) = choose|slots: Seq<int>, mid: Membership|
        #![trigger offered(before.views@, before.me.id, before.cfg, all, slots, mid.views@)]
        offered(before.views@, before.me.id, before.cfg, all, slots, mid.views@)
            && mid.same_but_views(before) && reports_taken_and_renewed(
            mid,
            members,
            now,
            after,
            wake,
        );
    law_offers_keep_views_sound(
        before.views@,
        before.me.id,
        before.cfg,
        all,
        slots,
        mid.views@,
    );
    lemma_reports_renewed(mid, members, now, after, wake);
}

proof fn lemma_reports_renewed(
    before: Membership,
    entries: Seq<MemberEntry>,
    now: u64,
    after: Membership,
    wake: bool,
)
    requires
        sound_node(before),
        reports_taken_and_renewed(before, entries, now, after, wake),
    ensures
        sound_node(after),
{
    let mid = choose|mid: Membership| #[trigger]
        reports_taken(before, entries, now, mid, wake) && after.same_but_views(mid) && after.views@
            == reasserted(mid.views@, mid.me, mid.self_incarnation, now);
    law_reports_keep_views_sound(before, entries, now, mid, wake);
}

/// Whatever message a node handles, its views stay sound.
pub proof fn law_messages_keep_views_sound(
    before: Membership,
    msg: Message,
    now: u64,
    after: Membership,
    out: Handled,
)
    requires
        sound_node(before),
        finds_room(before, msg),
        handled(before, msg, now, after, out),
    ensures
        sound_node(after),
{
    match msg {
        Message::Join { origin: Some(origin) } => {
            let evicted = choose|evicted: Option<PeerAddr>| #[trigger]
                linked(before, origin, after, evicted);
            law_links_keep_views_sound(before, origin, after, evicted);
        },
        Message::ForwardJoin { origin: Some(origin), ttl } => {
            lemma_walk(before, origin, ttl, after, out.actions@);
        },
        Message::Neighbor { origin: Some(origin), high_priority } => {
            if grants(before, high_priority) {
                let evicted = choose|evicted: Option<PeerAddr>| #[trigger]
                    linked(before, origin, after, evicted);
                law_links_keep_views_sound(before, origin, after, evicted);
            } else {
                lemma_backing_up(before, origin, after);
            }
        },
        Message::Shuffle { origin, sample, members } => {
            lemma_shuffle(before, origin, sample@, members@, now, after, out.wake);
        },
        Message::MemberSync { members } => {
            lemma_reports_renewed(before, members@, now, after, out.wake);
        },
        _ => {},
    }
}

/// What a probe says of a link changes neither who is linked nor where.
proof fn lemma_probes_leave_links(
    o: Overlay,
    me: NodeId,
    cfg: Config,
    next: Overlay,
)
    requires
        sound(o, me, cfg),
        next.passive == o.passive,
        next.dead == o.dead,
        next.active.dom() == o.active.dom(),
        forall|x: NodeId| #[trigger]
            o.active.contains_key(x) ==> next.active[x].addr == o.active[x].addr,
    ensures
        sound(next, me, cfg),
{
    assert forall|x: NodeId| #[trigger] next.active.contains_key(x) implies next.active[x].addr.id
        == x by {
        assert(o.active.contains_key(x));
    }
    assert forall|x: NodeId| #[trigger] next.active.contains_key(x) implies !next.dead.contains_key(
        x,
    ) by {
        assert(o.active.contains_key(x));
    }
    assert forall|i: int| 0 <= i < next.passive.len() implies (#[trigger] next.passive[i]).id != me
        && !next.active.contains_key(next.passive[i].id) by {
        assert(o.passive[i].id != me);
        assert(next.active.dom().contains(next.passive[i].id) == o.active.dom().contains(
            next.passive[i].id,
        ));
    }
}

/// Declaring a member dead, and drawing a backup in its place, keep the views sound.
pub proof fn law_deaths_keep_views_sound(
    before: Membership,
    id: NodeId,
    now: Now,
    after: Membership,
    candidate: Option<PeerAddr>,
)
    requires
        sound_node(before),
        laid_to_rest(before, id, now, after, candidate),
    ensures
        sound_node(after),
{
    let dead = declared_dead(before.views@, id, now.wall_ms);
    law_burying_keeps_views_sound(dead, before.me.id, before.cfg, id, now.mono_ms);
    let grave = buried(dead, id, now.mono_ms);
    if let Some(c) = candidate {
        law_drawing_keeps_views_sound(
            grave,
            before.me.id,
            before.cfg,
            c,
            after.views@.passive,
        );
    }
    assert(after.views@ == (Overlay { passive: after.views@.passive, ..grave }));
}

/// Whatever step of a probe round a node takes, its views stay sound.
pub proof fn law_steps_keep_views_sound(
    before: Membership,
    stage: Stage,
    event: Event,
    now: Now,
    after: Membership,
    next: Stage,
    task: Task,
)
    requires
        sound_node(before),
        countable(before, stage),
        stepped(before, stage, event, now, after, next, task),
    ensures
        sound_node(after),
{
    let o = before.views@;
    let me = before.me.id;
    let cfg = before.cfg;
    match (stage, event) {
        (Stage::Bury(ids), Event::Go) => if ids@.len() == 0 {
            law_burying_keeps_views_sound(o, me, cfg, me, now.mono_ms);
        } else {
            match task {
                Task::Promote(c) => law_deaths_keep_views_sound(before, ids@[0], now, after, Some(c)),
                _ => law_deaths_keep_views_sound(before, ids@[0], now, after, None),
            }
        },
        (Stage::Fill, Event::Go) => if let Task::Promote(c) = task {
            law_drawing_keeps_views_sound(o, me, cfg, c, after.views@.passive);
        },
        (Stage::AwaitProbe(id, addr, _), Event::Probed(Some(report))) => {
            let heard = answered(o, id, addr, report, now.wall_ms);
            assert(heard.active.dom() =~= o.active.dom());
            lemma_probes_leave_links(o, me, cfg, heard);
        },
        (Stage::AwaitProbe(id, _, _), Event::Probed(None)) => {
            let counted = unanswered(o, id);
            assert(counted.active.dom() =~= o.active.dom());
            lemma_probes_leave_links(o, me, cfg, counted);
            lemma_probes_leave_links(o, me, cfg, suspected(counted, id, now.wall_ms));
        },
        (Stage::AwaitHelp(id, _), Event::Helped(_)) => {
            let cleared = vouched(o, me, id, now.wall_ms);
            assert(cleared.active.dom() =~= o.active.dom());
            lemma_probes_leave_links(o, me, cfg, cleared);
            lemma_probes_leave_links(o, me, cfg, suspected(o, id, now.wall_ms));
        },
        _ => {},
    }
}

/// A shuffle that ends, with whatever reply, keeps the views sound.
pub proof fn law_shuffle_replies_keep_views_sound(
    before: Membership,
    theirs: Seq<Option<PeerAddr>>,
    members: Seq<MemberEntry>,
    now: u64,
    mid: Membership,
    after: Membership,
    wake: bool,
)
    requires
        sound_node(before),
        before.backups_fit(theirs),
        reply_taken(before, theirs, members, now, mid, wake),
        forgot(mid, now, after),
    ensures
        sound_node(after),
{
    let (slots, kept) = choose|slots: Seq<int>, kept: Membership|
        #![trigger offered(before.views@, before.me.id, before.cfg, theirs, slots, kept.views@)]
        offered(before.views@, before.me.id, before.cfg, theirs, slots, kept.views@)
            && kept.same_but_views(before) && reports_taken(kept, members, now, mid, wake);
    law_offers_keep_views_sound(
        before.views@,
        before.me.id,
        before.cfg,
        theirs,
        slots,
        kept.views@,
    );
    law_reports_keep_views_sound(kept, members, now, mid, wake);
}

/// What touches only the member records and the news, or lets tombstones expire, keeps the
/// views sound.
pub proof fn law_records_leave_views_sound(o: Overlay, me: NodeId, cfg: Config, next: Overlay)
    requires
        sound(o, me, cfg),
        next.active == o.active,
        next.passive == o.passive,
        next.dead.dom().subset_of(o.dead.dom()),
    ensures
        sound(next, me, cfg),
{
}

/// A node that knows nobody has sound views, whatever its configuration.
pub proof fn law_views_start_sound(me: NodeId, cfg: Config)
    ensures
        sound(
            Overlay {
                active: Map::empty(),
                passive: Seq::empty(),
                dead: Map::empty(),
                members: Map::empty(),
                dirty: Map::empty(),
            },
            me,
            cfg,
        ),
{
}

} // verus!
