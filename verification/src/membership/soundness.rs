//! What every operation on the views keeps, and what the censuses promise.

use crate::bytes::NodeId;
use crate::membership::census::{counted, live};
use crate::membership::gossip::counted_down;
use crate::membership::lifecycle::{buried, cleared, corpse, declared_dead, elapsed, suspected};
use crate::membership::member::{
    entry_of, merged, Member, MemberEntry, MemberState, PeerAddr,
};
use crate::membership::node::{absorbed, outdone, self_record, took_in_all, Intake};
use crate::membership::overlay::{
    activated, eviction_draw, eviction_fits, lists_peer, must_evict, offer_fits, passive_pushed,
    sidelined, slot_draw, swap_removed, without_peer, Config, Overlay, PeerState, GOSSIP_REPEATS,
};
use vstd::prelude::*;

verus! {

/// No two addresses lead to one node.
pub open spec fn distinct_peers(passive: Seq<PeerAddr>) -> bool {
    forall|i: int, j: int|
        0 <= i < passive.len() && 0 <= j < passive.len() && (#[trigger] passive[i]).id == (
        #[trigger] passive[j]).id ==> i == j
}

/// The backups are usable beside the links: nobody twice, never self, never a link.
pub open spec fn backups_sound(
    active: Map<NodeId, PeerState>,
    passive: Seq<PeerAddr>,
    me: NodeId,
) -> bool {
    &&& distinct_peers(passive)
    &&& forall|i: int|
        0 <= i < passive.len() ==> (#[trigger] passive[i]).id != me && !active.contains_key(
            passive[i].id,
        )
}

/// The views are as they should be: a node is never its own peer; each link leads where it
/// says; links, backups and tombstones do not overlap; and the views keep their sizes.
pub open spec fn sound(o: Overlay, me: NodeId, cfg: Config) -> bool {
    &&& o.active.dom().finite()
    &&& !o.active.contains_key(me)
    &&& forall|id: NodeId| #[trigger] o.active.contains_key(id) ==> o.active[id].addr.id == id
    &&& backups_sound(o.active, o.passive, me)
    &&& forall|id: NodeId| #[trigger] o.active.contains_key(id) ==> !o.dead.contains_key(id)
    &&& o.active.dom().len() <= (if cfg.active_size > 1 {
        cfg.active_size as nat
    } else {
        1
    })
    &&& o.passive.len() <= cfg.passive_size
}

/// Dropping a peer's addresses drops those and nothing else.
pub proof fn lemma_without_peer(passive: Seq<PeerAddr>, id: NodeId)
    ensures
        without_peer(passive, id).len() <= passive.len(),
        forall|a: PeerAddr| #[trigger]
            without_peer(passive, id).contains(a) <==> passive.contains(a) && a.id != id,
        distinct_peers(passive) ==> distinct_peers(without_peer(passive, id)),
    decreases passive.len(),
{
    if passive.len() > 0 {
        let front = passive.drop_last();
        let last = passive.last();
        lemma_without_peer(front, id);
        let f = without_peer(front, id);
        let out = without_peer(passive, id);
        assert forall|a: PeerAddr| #[trigger] out.contains(a) <==> passive.contains(a) && a.id != id by {
            assert(f.contains(a) <==> front.contains(a) && a.id != id);
            if passive.contains(a) {
                let i = choose|i: int| 0 <= i < passive.len() && passive[i] == a;
                if i < front.len() {
                    assert(front[i] == a);
                } else {
                    assert(a == last);
                    if last.id != id {
                        assert(out[f.len() as int] == a);
                    }
                }
            }
            if front.contains(a) {
                let i = choose|i: int| 0 <= i < front.len() && front[i] == a;
                assert(passive[i] == a);
            }
            if f.contains(a) {
                let i = choose|i: int| 0 <= i < f.len() && f[i] == a;
                assert(out[i] == a);
            }
            if out.contains(a) && !f.contains(a) {
                let i = choose|i: int| 0 <= i < out.len() && out[i] == a;
                if i < f.len() {
                    assert(f[i] == a);
                }
                assert(a == last);
                assert(passive[passive.len() - 1] == a);
            }
        }
        if distinct_peers(passive) {
            assert(distinct_peers(front)) by {
                assert forall|i: int, j: int|
                    0 <= i < front.len() && 0 <= j < front.len() && (#[trigger] front[i]).id == (
                    #[trigger] front[j]).id implies i == j by {
                    assert(passive[i].id == passive[j].id);
                }
            }
            assert forall|i: int, j: int|
                0 <= i < out.len() && 0 <= j < out.len() && (#[trigger] out[i]).id == (
                #[trigger] out[j]).id implies i == j by {
                if i < f.len() && j < f.len() {
                    assert(f[i].id == f[j].id);
                } else if i < f.len() || j < f.len() {
                    let c = if i < f.len() { i } else { j };
                    assert(f.contains(f[c]));
                    let k = choose|k: int| 0 <= k < front.len() && front[k] == f[c];
                    assert(passive[k].id == passive[passive.len() - 1].id);
                }
            }
        }
    }
}

proof fn lemma_pushed_sound(
    active: Map<NodeId, PeerState>,
    passive: Seq<PeerAddr>,
    me: NodeId,
    peer: PeerAddr,
    cap: nat,
    slot: int,
)
    requires
        backups_sound(active, passive, me),
        passive.len() <= cap,
        cap > 0,
        0 <= slot,
        passive.len() > 0 ==> slot < passive.len(),
        peer.id != me,
        !active.contains_key(peer.id),
    ensures
        backups_sound(active, passive_pushed(passive, peer, cap, slot), me),
        passive_pushed(passive, peer, cap, slot).len() <= cap,
{
    let out = passive_pushed(passive, peer, cap, slot);
    if !lists_peer(passive, peer.id) {
        let base = if passive.len() >= cap {
            swap_removed(passive, slot)
        } else {
            passive
        };
        assert(out == base.push(peer));
        let n = passive.len() - 1;
        assert forall|i: int| 0 <= i < base.len() implies passive.contains(#[trigger] base[i]) by {
            if passive.len() >= cap && i == slot {
                assert(passive[n] == base[i]);
            } else {
                assert(passive[i] == base[i]);
            }
        }
        assert forall|i: int, j: int|
            0 <= i < out.len() && 0 <= j < out.len() && (#[trigger] out[i]).id == (
            #[trigger] out[j]).id implies i == j by {
            if i < base.len() && j < base.len() {
                let pi = if passive.len() >= cap && i == slot { n } else { i };
                let pj = if passive.len() >= cap && j == slot { n } else { j };
                assert(passive[pi] == base[i] && passive[pj] == base[j]);
                assert(pi == pj);
            } else if i < base.len() || j < base.len() {
                let c = if i < base.len() { i } else { j };
                let k = choose|k: int| 0 <= k < passive.len() && passive[k] == base[c];
                assert(passive[k].id == peer.id);
            }
        }
        assert forall|i: int| 0 <= i < out.len() implies (#[trigger] out[i]).id != me
            && !active.contains_key(out[i].id) by {
            if i < base.len() {
                let k = choose|k: int| 0 <= k < passive.len() && passive[k] == base[i];
                assert(passive[k].id == out[i].id);
            }
        }
    }
}

/// Linking to a peer keeps the views sound, whichever entries leave for it.
pub proof fn law_linking_keeps_views_sound(
    o: Overlay,
    me: NodeId,
    cfg: Config,
    peer: PeerAddr,
    victim: NodeId,
    slot: int,
)
    requires
        sound(o, me, cfg),
        eviction_fits(o, me, cfg, peer),
        eviction_draw(o, me, cfg, peer, victim, slot),
    ensures
        sound(activated(o, me, cfg, peer, victim, slot).0, me, cfg),
        peer.id != me ==> activated(o, me, cfg, peer, victim, slot).0.active.contains_key(peer.id),
        peer.id != me ==> !activated(o, me, cfg, peer, victim, slot).0.dead.contains_key(peer.id),
{
    let after = activated(o, me, cfg, peer, victim, slot).0;
    if peer.id != me {
        let base = without_peer(o.passive, peer.id);
        lemma_without_peer(o.passive, peer.id);
        assert forall|i: int| 0 <= i < base.len() implies (#[trigger] base[i]).id != me
            && !o.active.contains_key(base[i].id) && base[i].id != peer.id by {
            assert(base.contains(base[i]));
            let k = choose|k: int| 0 <= k < o.passive.len() && o.passive[k] == base[i];
            assert(o.passive[k].id == base[i].id);
        }
        if o.active.contains_key(peer.id) {
            assert(o.active.insert(
                peer.id,
                PeerState { addr: peer, ..o.active[peer.id] },
            ).dom() =~= o.active.dom());
        } else if must_evict(o, cfg) {
            let gone = o.active[victim].addr;
            let active = o.active.remove(victim).insert(peer.id, PeerState::unprobed(peer));
            assert(gone.id == victim);
            assert(active.dom() =~= o.active.dom().remove(victim).insert(peer.id));
            lemma_pushed_sound(active, base, me, gone, cfg.passive_size as nat, slot);
        } else {
            assert(after.active.dom() =~= o.active.dom().insert(peer.id));
        }
    }
}

/// Keeping a backup keeps the views sound.
pub proof fn law_backing_up_keeps_views_sound(
    o: Overlay,
    me: NodeId,
    cfg: Config,
    peer: PeerAddr,
    slot: int,
)
    requires
        sound(o, me, cfg),
        offer_fits(o, me, cfg, peer),
        slot_draw(o, slot),
    ensures
        sound(sidelined(o, me, cfg, peer, slot), me, cfg),
{
    if peer.id != me && !o.active.contains_key(peer.id) {
        lemma_pushed_sound(o.active, o.passive, me, peer, cfg.passive_size as nat, slot);
    }
}

/// Burying a link, and clearing links to dead members, keep the views sound.
pub proof fn law_burying_keeps_views_sound(
    o: Overlay,
    me: NodeId,
    cfg: Config,
    id: NodeId,
    died_ms: u64,
)
    requires
        sound(o, me, cfg),
    ensures
        sound(buried(o, id, died_ms), me, cfg),
        sound(cleared(o, died_ms), me, cfg),
        forall|c: NodeId| #[trigger] corpse(o, c) ==> !cleared(o, died_ms).active.contains_key(c),
{
    let b = buried(o, id, died_ms);
    if o.active.contains_key(id) {
        assert(b.active.dom() =~= o.active.dom().remove(id));
    }
    let c = cleared(o, died_ms);
    assert(c.active.dom().subset_of(o.active.dom()));
    vstd::set_lib::lemma_len_subset(c.active.dom(), o.active.dom());
}

/// Drawing a backup keeps the views sound.
pub proof fn law_drawing_keeps_views_sound(
    o: Overlay,
    me: NodeId,
    cfg: Config,
    drawn: PeerAddr,
    rest: Seq<PeerAddr>,
)
    requires
        sound(o, me, cfg),
        o.passive.to_multiset() == rest.to_multiset().insert(drawn),
    ensures
        sound(Overlay { passive: rest, ..o }, me, cfg),
        drawn.id != me,
        !o.active.contains_key(drawn.id),
{
    let all = o.passive;
    all.to_multiset_ensures();
    rest.to_multiset_ensures();
    assert(all.no_duplicates()) by {
        assert forall|i: int, j: int| 0 <= i < all.len() && 0 <= j < all.len() && i != j implies all[i]
            != all[j] by {
            assert(all[i].id != all[j].id);
        }
    }
    all.lemma_multiset_has_no_duplicates();
    assert forall|x: PeerAddr| rest.to_multiset().count(x) <= 1 by {
        assert(all.to_multiset().count(x) >= rest.to_multiset().count(x));
        if all.to_multiset().count(x) > 0 {
            assert(all.to_multiset().contains(x));
        }
    }
    rest.lemma_multiset_has_no_duplicates_conv();
    assert forall|i: int| 0 <= i < rest.len() implies all.contains(#[trigger] rest[i]) by {
        assert(rest.contains(rest[i]));
        assert(rest.to_multiset().count(rest[i]) > 0);
        assert(all.to_multiset().count(rest[i]) > 0);
    }
    assert forall|i: int, j: int|
        0 <= i < rest.len() && 0 <= j < rest.len() && (#[trigger] rest[i]).id == (
        #[trigger] rest[j]).id implies i == j by {
        let a = choose|a: int| 0 <= a < all.len() && all[a] == rest[i];
        let b = choose|b: int| 0 <= b < all.len() && all[b] == rest[j];
        assert(all[a].id == all[b].id);
    }
    assert forall|i: int| 0 <= i < rest.len() implies (#[trigger] rest[i]).id != me
        && !o.active.contains_key(rest[i].id) by {
        let a = choose|a: int| 0 <= a < all.len() && all[a] == rest[i];
        assert(all[a].id == rest[i].id);
    }
    assert(all.to_multiset().count(drawn) > 0);
    assert(all.contains(drawn));
    let a = choose|a: int| 0 <= a < all.len() && all[a] == drawn;
    assert(all[a].id == drawn.id);
}

/// Whoever is in the liveness census is in the election census; the dead are in neither,
/// and a suspect in the second alone.
pub proof fn law_censuses(m: Member, now: u64, retention: u64)
    ensures
        live(m, now, retention) ==> counted(m, now, retention),
        m.state == MemberState::Dead ==> !counted(m, now, retention) && !live(m, now, retention),
        m.state == MemberState::Suspect ==> !live(m, now, retention) && (counted(m, now, retention)
            <==> elapsed(now, m.last_heard_ms) < retention),
{
}

/// A member declared dead leaves every census at once, however fresh it is.
pub proof fn law_death_leaves_the_census(
    o: Overlay,
    id: NodeId,
    now: u64,
    later: u64,
    retention: u64,
)
    requires
        o.members.contains_key(id),
    ensures
        !counted(declared_dead(o, id, now).members[id], later, retention),
        !live(declared_dead(o, id, now).members[id], later, retention),
        declared_dead(o, id, now).members[id].incarnation == o.members[id].incarnation,
        declared_dead(o, id, now).dirty[id] == GOSSIP_REPEATS,
{
}

/// A suspicion takes a member out of the liveness census but leaves it in the election
/// census.
pub proof fn law_suspicion_leaves_liveness_only(
    o: Overlay,
    id: NodeId,
    now: u64,
    later: u64,
    retention: u64,
)
    requires
        o.members.contains_key(id),
        o.members[id].state == MemberState::Alive,
    ensures
        !live(suspected(o, id, now).members[id], later, retention),
        counted(suspected(o, id, now).members[id], later, retention) <==> counted(
            o.members[id],
            later,
            retention,
        ),
{
}

proof fn lemma_intake_incarnation(
    st: Intake,
    me: NodeId,
    entries: Seq<MemberEntry>,
    now: u64,
    at: int,
)
    requires
        0 <= at < entries.len(),
        entries[at].id == me,
        entries[at].claimed() != MemberState::Alive,
    ensures
        took_in_all(st, me, entries, now).refuted,
        took_in_all(st, me, entries, now).incarnation >= outdone(
            entries[at].incarnation,
            0,
        ),
    decreases entries.len(),
{
    let front = entries.drop_last();
    if at < front.len() {
        assert(front[at] == entries[at]);
        lemma_intake_incarnation(st, me, front, now, at);
    }
}

/// A node that hears itself accused, among whatever else, ends up alive in its own record
/// at an incarnation above the accusation's, queued for gossip; and that record overrides
/// the accusation wherever it arrives. Only an accusation at the last incarnation there is
/// cannot be outdone.
pub proof fn law_self_suspicion_is_refuted(
    o: Overlay,
    incarnation: u64,
    me: PeerAddr,
    entries: Seq<MemberEntry>,
    now: u64,
    at: int,
    elsewhere: Map<NodeId, Member>,
    later: u64,
)
    requires
        0 <= at < entries.len(),
        entries[at].id == me.id,
        entries[at].claimed() != MemberState::Alive,
        entries[at].incarnation < u64::MAX,
        elsewhere.contains_key(me.id),
        elsewhere[me.id].incarnation == entries[at].incarnation,
    ensures
        ({
            let st = absorbed(o, incarnation, me, entries, now);
            let record = st.o.members[me.id];
            &&& st.refuted
            &&& st.incarnation > entries[at].incarnation
            &&& record == self_record(me, st.incarnation, now)
            &&& st.o.dirty[me.id] == GOSSIP_REPEATS
            &&& merged(elsewhere, entry_of(me.id, record), later)[me.id].state
                == MemberState::Alive
            &&& merged(elsewhere, entry_of(me.id, record), later)[me.id].incarnation
                == st.incarnation
        }),
{
    let st0 = Intake { o, incarnation, refuted: false, news: false };
    lemma_intake_incarnation(st0, me.id, entries, now, at);
}

/// The counters after `n` gossip rounds.
pub open spec fn after_rounds(dirty: Map<NodeId, u8>, n: nat) -> Map<NodeId, u8>
    decreases n,
{
    if n == 0 {
        dirty
    } else {
        counted_down(after_rounds(dirty, (n - 1) as nat))
    }
}

/// A change queued with `dirty[id]` sendings left is sent in exactly that many rounds.
pub proof fn law_news_is_retired(dirty: Map<NodeId, u8>, id: NodeId, n: nat)
    requires
        dirty.contains_key(id),
        dirty[id] > 0,
    ensures
        after_rounds(dirty, n).contains_key(id) <==> n < dirty[id],
        n < dirty[id] ==> after_rounds(dirty, n)[id] == dirty[id] - n,
    decreases n,
{
    if n > 0 {
        law_news_is_retired(dirty, id, (n - 1) as nat);
    }
}

} // verus!
