//! What probes, reports and silence do to the standing of a member.

use crate::bytes::NodeId;
use crate::membership::census::{counted, live};
use crate::membership::lifecycle::{
    answered, buried, cleared, declared_dead, heard, overdue, pruned, suspected, unanswered,
    vouched, ProbeReport,
};
use crate::membership::member::{
    delta_worthy, entry_of, merged, Member, MemberEntry, MemberState, PeerAddr,
};
use crate::membership::node::{absorbed, reasserted, took_in, Intake};
use crate::membership::overlay::{Overlay, Views};
use crate::membership::snapshot::{shown_dead, unexpired};
use vstd::prelude::*;

verus! {

/// Two views differ at most in the record and the news of one member.
pub open spec fn same_but_member(a: Overlay, b: Overlay, id: NodeId) -> bool {
    &&& a.active == b.active
    &&& a.passive == b.passive
    &&& a.dead == b.dead
    &&& a.members.remove(id) == b.members.remove(id)
    &&& a.dirty.remove(id) == b.dirty.remove(id)
}

/// A member that answers a probe is not suspect, whatever it was held for. A suspect is alive
/// again at the incarnation it had, with its clock stopped, so that it is never overdue and
/// counts as live for as long as it is fresh. Only a member that gossip holds for dead stays
/// so. A node that was unknown becomes a member, and is news.
pub proof fn law_an_answer_lifts_suspicion(
    o: Overlay,
    id: NodeId,
    addr: PeerAddr,
    report: ProbeReport,
    now: u64,
    later: u64,
    timeout: u64,
    retention: u64,
)
    ensures
        ({
            let after = answered(o, id, addr, report, now);
            let m = after.members[id];
            &&& after.members.contains_key(id)
            &&& m.state != MemberState::Suspect
            &&& !overdue(m, later, timeout)
            &&& m.last_heard_ms == now
            &&& m.addr == addr
            &&& m.state == MemberState::Alive && now <= later < now + retention ==> live(
                m,
                later,
                retention,
            )
            &&& o.members.contains_key(id) ==> m.incarnation == o.members[id].incarnation
            &&& o.members.contains_key(id) ==> after.dirty == o.dirty
            &&& o.members.contains_key(id) && o.members[id].state == MemberState::Suspect ==> m.state
                == MemberState::Alive && m.suspect_since_ms is None
            &&& o.members.contains_key(id) && o.members[id].state != MemberState::Suspect ==> m.state
                == o.members[id].state && m.suspect_since_ms == o.members[id].suspect_since_ms
            &&& !o.members.contains_key(id) ==> m.state == MemberState::Alive && m.incarnation == 0
                && m.suspect_since_ms is None && after.dirty == o.dirty.insert(id, 6)
            &&& after.members.remove(id) == o.members.remove(id)
            &&& after.passive == o.passive
            &&& after.dead == o.dead
        }),
{
    let after = answered(o, id, addr, report, now);
    assert(after.members.remove(id) =~= o.members.remove(id));
}

/// What an answered probe measured is what its link shows: it answers, and the count of failures
/// starts over. No other link changes, and none appears.
pub proof fn law_an_answer_is_shown_on_its_link(
    o: Overlay,
    id: NodeId,
    addr: PeerAddr,
    report: ProbeReport,
    now: u64,
)
    ensures
        ({
            let after = answered(o, id, addr, report, now);
            let link = after.active[id];
            &&& after.active.remove(id) == o.active.remove(id)
            &&& after.active.contains_key(id) <==> o.active.contains_key(id)
            &&& o.active.contains_key(id) ==> {
                &&& link.alive
                &&& link.consecutive_failures == 0
                &&& link.addr == o.active[id].addr
                &&& link.rtt_us == Some(report.rtt_us)
                &&& link.skew_ms == Some(report.skew_ms)
                &&& link.last_seen_unix == report.seen_unix
            }
        }),
{
    let after = answered(o, id, addr, report, now);
    assert(after.active.remove(id) =~= o.active.remove(id));
}

/// A probe that goes unanswered counts one failure on its link, and suspects nobody yet.
pub proof fn law_failures_are_counted(o: Overlay, id: NodeId)
    requires
        o.active.contains_key(id) ==> o.active[id].consecutive_failures < u32::MAX,
    ensures
        ({
            let after = unanswered(o, id);
            &&& after.members == o.members
            &&& after.dirty == o.dirty
            &&& after.passive == o.passive
            &&& after.dead == o.dead
            &&& after.active.remove(id) == o.active.remove(id)
            &&& after.active.contains_key(id) <==> o.active.contains_key(id)
            &&& o.active.contains_key(id) ==> {
                &&& after.active[id].consecutive_failures == o.active[id].consecutive_failures + 1
                &&& after.active[id].addr == o.active[id].addr
                &&& after.active[id].alive == o.active[id].alive
                &&& after.active[id].rtt_us == o.active[id].rtt_us
                &&& after.active[id].skew_ms == o.active[id].skew_ms
                &&& after.active[id].last_seen_unix == o.active[id].last_seen_unix
            }
        }),
{
    assert(unanswered(o, id).active.remove(id) =~= o.active.remove(id));
}

/// Only a member thought alive comes under suspicion. It keeps its incarnation, its address and
/// when it was heard, its clock runs from now on, and the suspicion is news. Nothing else
/// changes.
pub proof fn law_suspicion_starts_a_clock(o: Overlay, id: NodeId, now: u64)
    ensures
        ({
            let after = suspected(o, id, now);
            &&& same_but_member(after, o, id)
            &&& !(o.members.contains_key(id) && o.members[id].state == MemberState::Alive)
                ==> after == o
            &&& o.members.contains_key(id) && o.members[id].state == MemberState::Alive ==> {
                &&& after.members[id].state == MemberState::Suspect
                &&& after.members[id].incarnation == o.members[id].incarnation
                &&& after.members[id].addr == o.members[id].addr
                &&& after.members[id].last_heard_ms == o.members[id].last_heard_ms
                &&& o.members[id].suspect_since_ms is None
                    ==> after.members[id].suspect_since_ms == Some(now)
                &&& after.dirty.contains_key(id) && after.dirty[id] == 6
            }
        }),
{
    let after = suspected(o, id, now);
    assert(after.members.remove(id) =~= o.members.remove(id));
    assert(after.dirty.remove(id) =~= o.dirty.remove(id));
}

/// A suspicion is overdue exactly once it has lasted as long as it may; nobody else is.
pub proof fn law_suspicions_run_out(m: Member, since: u64, now: u64, timeout: u64)
    requires
        now >= since,
    ensures
        m.state == MemberState::Suspect && m.suspect_since_ms == Some(since) ==> (overdue(
            m,
            now,
            timeout,
        ) <==> now >= since + timeout),
        m.state != MemberState::Suspect ==> !overdue(m, now, timeout),
        m.suspect_since_ms is None ==> !overdue(m, now, timeout),
{
}

/// A member that is declared dead is dead at the incarnation it had, is no longer suspect, and
/// its death is news. Declaring a stranger dead changes nothing.
pub proof fn law_death_is_declared_once_and_for_all(o: Overlay, id: NodeId, now: u64)
    ensures
        ({
            let after = declared_dead(o, id, now);
            &&& same_but_member(after, o, id)
            &&& !o.members.contains_key(id) ==> after == o
            &&& o.members.contains_key(id) ==> {
                &&& after.members[id].state == MemberState::Dead
                &&& after.members[id].suspect_since_ms is None
                &&& after.members[id].incarnation == o.members[id].incarnation
                &&& after.members[id].addr == o.members[id].addr
                &&& after.members[id].last_heard_ms == o.members[id].last_heard_ms
                &&& after.dirty.contains_key(id) && after.dirty[id] == 6
            }
        }),
{
    let after = declared_dead(o, id, now);
    assert(after.members.remove(id) =~= o.members.remove(id));
    assert(after.dirty.remove(id) =~= o.dirty.remove(id));
}

/// A link that is buried is a link no more: it leaves a tombstone with what was known of it,
/// marked as not answering, and the time. Burying who is no link changes nothing.
pub proof fn law_a_buried_link_leaves_a_tombstone(o: Overlay, id: NodeId, died_ms: u64)
    ensures
        ({
            let after = buried(o, id, died_ms);
            &&& after.members == o.members
            &&& after.dirty == o.dirty
            &&& after.passive == o.passive
            &&& !o.active.contains_key(id) ==> after == o
            &&& !after.active.contains_key(id)
            &&& after.active == o.active.remove(id)
            &&& after.dead.remove(id) == o.dead.remove(id)
            &&& o.active.contains_key(id) ==> {
                &&& after.dead.contains_key(id)
                &&& after.dead[id].died_ms == died_ms
                &&& !after.dead[id].state.alive
                &&& after.dead[id].state.addr == o.active[id].addr
                &&& after.dead[id].state.rtt_us == o.active[id].rtt_us
                &&& after.dead[id].state.skew_ms == o.active[id].skew_ms
                &&& after.dead[id].state.last_seen_unix == o.active[id].last_seen_unix
                &&& after.dead[id].state.consecutive_failures
                    == o.active[id].consecutive_failures
            }
        }),
{
    let after = buried(o, id, died_ms);
    assert(after.active =~= o.active.remove(id));
    assert(after.dead.remove(id) =~= o.dead.remove(id));
}

/// Clearing turns every link to a dead member into a tombstone, and no other link. What was a
/// tombstone and no such link stays as it is.
pub proof fn law_links_to_the_dead_are_cleared(o: Overlay, died_ms: u64, id: NodeId)
    ensures
        ({
            let after = cleared(o, died_ms);
            let gone = o.active.contains_key(id) && o.members.contains_key(id)
                && o.members[id].state == MemberState::Dead;
            &&& after.members == o.members
            &&& after.dirty == o.dirty
            &&& after.passive == o.passive
            &&& after.active.contains_key(id) <==> o.active.contains_key(id) && !gone
            &&& after.active.contains_key(id) ==> after.active[id] == o.active[id]
            &&& gone ==> after.dead.contains_key(id) && after.dead[id].died_ms == died_ms
                && !after.dead[id].state.alive && after.dead[id].state.addr == o.active[id].addr
            &&& !gone ==> (after.dead.contains_key(id) <==> o.dead.contains_key(id))
            &&& !gone && o.dead.contains_key(id) ==> after.dead[id] == o.dead[id]
        }),
{
}

/// Being heard makes a known member fresher and decides nothing about its liveness. A link that
/// was no member becomes one; anybody else, and the node itself, does not.
pub proof fn law_hearing_refreshes_only(o: Overlay, me: NodeId, id: NodeId, now: u64)
    ensures
        ({
            let after = heard(o, me, id, now);
            let m = after.members[id];
            &&& same_but_member(after, o, id)
            &&& id == me ==> after == o
            &&& id != me && o.members.contains_key(id) ==> {
                &&& m.last_heard_ms == now
                &&& m.state == o.members[id].state
                &&& m.incarnation == o.members[id].incarnation
                &&& m.suspect_since_ms == o.members[id].suspect_since_ms
                &&& m.addr == o.members[id].addr
                &&& after.dirty == o.dirty
            }
            &&& id != me && !o.members.contains_key(id) && o.active.contains_key(id) ==> {
                &&& after.members.contains_key(id)
                &&& m.state == MemberState::Alive
                &&& m.incarnation == 0
                &&& m.last_heard_ms == now
                &&& m.suspect_since_ms is None
                &&& m.addr == o.active[id].addr
                &&& after.dirty.contains_key(id) && after.dirty[id] == 6
            }
            &&& !o.members.contains_key(id) && !o.active.contains_key(id) ==> after == o
        }),
{
    let after = heard(o, me, id, now);
    assert(after.members.remove(id) =~= o.members.remove(id));
    assert(after.dirty.remove(id) =~= o.dirty.remove(id));
}

/// A member that others reached though this node could not is fresh, its failures are forgotten,
/// and it does not come under suspicion.
pub proof fn law_a_vouched_member_is_not_suspected(o: Overlay, me: NodeId, id: NodeId, now: u64)
    requires
        id != me,
        o.members.contains_key(id),
    ensures
        ({
            let after = vouched(o, me, id, now);
            &&& after.members.contains_key(id)
            &&& after.members[id].state == o.members[id].state
            &&& after.members[id].incarnation == o.members[id].incarnation
            &&& after.members[id].suspect_since_ms == o.members[id].suspect_since_ms
            &&& after.members[id].last_heard_ms == now
            &&& after.members.remove(id) == o.members.remove(id)
            &&& after.dirty == o.dirty
            &&& after.passive == o.passive
            &&& after.dead == o.dead
            &&& after.active.remove(id) == o.active.remove(id)
            &&& after.active.contains_key(id) <==> o.active.contains_key(id)
            &&& o.active.contains_key(id) ==> after.active[id].consecutive_failures == 0
                && after.active[id].addr == o.active[id].addr && after.active[id].alive
                == o.active[id].alive
        }),
{
    let after = vouched(o, me, id, now);
    assert(after.members.remove(id) =~= o.members.remove(id));
    assert(after.active.remove(id) =~= o.active.remove(id));
}

/// Members that were silent for too long are forgotten, and no others; the node itself never is.
pub proof fn law_only_the_silent_are_forgotten(
    o: Overlay,
    me: NodeId,
    now: u64,
    retention: u64,
    id: NodeId,
)
    ensures
        ({
            let after = pruned(o, me, now, retention);
            &&& after.active == o.active
            &&& after.passive == o.passive
            &&& after.dead == o.dead
            &&& after.dirty == o.dirty
            &&& after.members.contains_key(id) ==> o.members.contains_key(id) && after.members[id]
                == o.members[id]
            &&& o.members.contains_key(me) ==> after.members.contains_key(me)
            &&& o.members.contains_key(id) && id != me && now >= o.members[id].last_heard_ms
                + retention ==> !after.members.contains_key(id)
            &&& o.members.contains_key(id) && now < o.members[id].last_heard_ms + retention
                && retention > 0 ==> after.members.contains_key(id)
        }),
{
}

/// Tombstones are shown until they expire, and no longer.
pub proof fn law_tombstones_expire(o: Overlay, now: u64, retention: u64, id: NodeId)
    ensures
        unexpired(o.dead, now, retention).contains_key(id) ==> o.dead.contains_key(id)
            && unexpired(o.dead, now, retention)[id] == o.dead[id],
        o.dead.contains_key(id) && now < o.dead[id].died_ms + retention && retention > 0
            ==> unexpired(
            o.dead,
            now,
            retention,
        ).contains_key(id),
        o.dead.contains_key(id) && now >= o.dead[id].died_ms + retention ==> !unexpired(
            o.dead,
            now,
            retention,
        ).contains_key(id),
{
}

/// Who is dead is shown: every link that left a tombstone, with what was known of it, and every
/// member known to be dead, at its address. Nobody else is.
pub proof fn law_the_dead_are_shown(o: Overlay, id: NodeId)
    ensures
        o.dead.contains_key(id) ==> shown_dead(o, id, o.dead[id].state),
        (exists|s: crate::membership::overlay::PeerState| shown_dead(o, id, s))
            ==> o.dead.contains_key(id) || (o.members.contains_key(id) && o.members[id].state
            == MemberState::Dead),
        forall|s: crate::membership::overlay::PeerState|
            !o.dead.contains_key(id) && #[trigger] shown_dead(o, id, s) ==> s.addr
                == o.members[id].addr && !s.alive,
        !o.dead.contains_key(id) && o.members.contains_key(id) && o.members[id].state
            == MemberState::Dead ==> exists|s: crate::membership::overlay::PeerState| #[trigger]
            shown_dead(o, id, s),
{
    if !o.dead.contains_key(id) && o.members.contains_key(id) && o.members[id].state
        == MemberState::Dead {
        assert(shown_dead(
            o,
            id,
            crate::membership::overlay::PeerState::unprobed(o.members[id].addr),
        ));
    }
}

/// A census counts whom it should: for elections everybody who is not dead and was heard of
/// recently, for liveness only those of them who are alive.
pub proof fn law_censuses_count_the_fresh(m: Member, now: u64, retention: u64)
    requires
        now >= m.last_heard_ms,
    ensures
        counted(m, now, retention) <==> (m.state == MemberState::Alive || m.state
            == MemberState::Suspect) && now < m.last_heard_ms + retention,
        live(m, now, retention) <==> m.state == MemberState::Alive && now < m.last_heard_ms
            + retention,
{
}

/// The number that a state is sent as: alive is weakest, dead is strongest.
pub open spec fn strength(state: MemberState) -> int {
    match state {
        MemberState::Alive => 0,
        MemberState::Suspect => 1,
        MemberState::Dead => 2,
    }
}

/// The state that a number was sent for. An unknown number is taken for alive.
pub open spec fn sent_state(byte: u8) -> MemberState {
    if byte == 1 {
        MemberState::Suspect
    } else if byte == 2 {
        MemberState::Dead
    } else {
        MemberState::Alive
    }
}

/// A report says what is known of the member it is about.
pub proof fn law_reports_say_what_is_known(id: NodeId, m: Member)
    ensures
        entry_of(id, m).id == id,
        entry_of(id, m).addr == Some(m.addr),
        entry_of(id, m).last_heard_ms == m.last_heard_ms,
        entry_of(id, m).incarnation == m.incarnation,
        entry_of(id, m).state == strength(m.state),
        sent_state(entry_of(id, m).state) == m.state,
{
}

/// How a report about a known member is merged: a higher incarnation decides its state, at the
/// same incarnation the stronger claim does, and otherwise it keeps its state; the fresher
/// evidence decides its address; and a suspicion's clock starts with it and stops when it ends.
pub proof fn law_reports_are_merged_by_strength(
    members: Map<NodeId, Member>,
    e: MemberEntry,
    addr: PeerAddr,
    now: u64,
)
    requires
        e.addr == Some(addr),
        members.contains_key(e.id),
    ensures
        ({
            let was = members[e.id];
            let is = merged(members, e, now)[e.id];
            let claim = sent_state(e.state);
            let wins = e.incarnation > was.incarnation || (e.incarnation == was.incarnation
                && strength(claim) > strength(was.state));
            &&& merged(members, e, now).remove(e.id) == members.remove(e.id)
            &&& merged(members, e, now).contains_key(e.id)
            &&& wins ==> is.state == claim && is.incarnation == e.incarnation
            &&& !wins ==> is.state == was.state && is.incarnation == was.incarnation
                && is.suspect_since_ms == was.suspect_since_ms
            &&& wins && claim != MemberState::Suspect ==> is.suspect_since_ms is None
            &&& wins && claim == MemberState::Suspect && was.suspect_since_ms is None
                ==> is.suspect_since_ms == Some(now)
            &&& wins && claim == MemberState::Suspect && was.suspect_since_ms is Some
                ==> is.suspect_since_ms == was.suspect_since_ms
            &&& e.last_heard_ms > was.last_heard_ms ==> is.last_heard_ms == e.last_heard_ms
                && is.addr == addr
            &&& e.last_heard_ms <= was.last_heard_ms ==> is.last_heard_ms == was.last_heard_ms
                && is.addr == was.addr
            &&& delta_worthy(members, e) <==> wins
        }),
{
    assert(merged(members, e, now).remove(e.id) =~= members.remove(e.id));
}

/// A report about a stranger is believed as it stands and is news; one without an address that
/// can be read changes nothing and is none.
pub proof fn law_strangers_are_learned(members: Map<NodeId, Member>, e: MemberEntry, now: u64)
    ensures
        e.addr is None ==> merged(members, e, now) == members && !delta_worthy(members, e),
        e.addr is Some && !members.contains_key(e.id) ==> {
            let is = merged(members, e, now)[e.id];
            &&& merged(members, e, now).contains_key(e.id)
            &&& merged(members, e, now).remove(e.id) == members.remove(e.id)
            &&& Some(is.addr) == e.addr
            &&& is.last_heard_ms == e.last_heard_ms
            &&& is.incarnation == e.incarnation
            &&& is.state == sent_state(e.state)
            &&& is.state == MemberState::Suspect ==> is.suspect_since_ms == Some(now)
            &&& is.state != MemberState::Suspect ==> is.suspect_since_ms is None
            &&& delta_worthy(members, e)
        },
{
    assert(e.addr is Some && !members.contains_key(e.id) ==> merged(members, e, now).remove(e.id)
        =~= members.remove(e.id));
}

/// What a node makes of one report: one about itself never touches its records, and only an
/// accusation raises its incarnation, above both the accusation's and its own; one about another
/// is merged, and queued for gossip exactly if it is news.
pub proof fn law_reports_about_self_are_only_refuted(
    st: Intake,
    me: NodeId,
    e: MemberEntry,
    now: u64,
)
    ensures
        ({
            let next = took_in(st, me, e, now);
            let accused = e.state == 1 || e.state == 2;
            &&& e.id == me ==> next.o == st.o && next.news == st.news
            &&& e.id == me && !accused ==> next.incarnation == st.incarnation && next.refuted
                == st.refuted
            &&& e.id == me && accused ==> next.refuted
            &&& e.id == me && accused && e.incarnation < u64::MAX && st.incarnation < u64::MAX
                ==> next.incarnation > e.incarnation && next.incarnation > st.incarnation && (
            next.incarnation == e.incarnation + 1 || next.incarnation == st.incarnation + 1)
            &&& next.incarnation >= st.incarnation
            &&& e.id != me ==> next.incarnation == st.incarnation && next.refuted == st.refuted
            &&& e.id != me ==> next.o.members == merged(st.o.members, e, now)
            &&& e.id != me && delta_worthy(st.o.members, e) ==> next.news && next.o.dirty
                == st.o.dirty.insert(e.id, 6)
            &&& e.id != me && !delta_worthy(st.o.members, e) ==> next.news == st.news
                && next.o.dirty == st.o.dirty
            &&& next.o.active == st.o.active
            &&& next.o.passive == st.o.passive
            &&& next.o.dead == st.o.dead
        }),
{
}

/// A node that renews its own record is alive in it, at its incarnation and heard just now; the
/// records of others stay.
pub proof fn law_own_record_is_renewed(o: Overlay, me: PeerAddr, incarnation: u64, now: u64)
    ensures
        ({
            let after = reasserted(o, me, incarnation, now);
            let m = after.members[me.id];
            &&& after.members.contains_key(me.id)
            &&& m.state == MemberState::Alive
            &&& m.incarnation == incarnation
            &&& m.last_heard_ms == now
            &&& m.addr == me
            &&& m.suspect_since_ms is None
            &&& after.members.remove(me.id) == o.members.remove(me.id)
            &&& after.active == o.active
            &&& after.passive == o.passive
            &&& after.dead == o.dead
            &&& after.dirty == o.dirty
        }),
{
    assert(reasserted(o, me, incarnation, now).members.remove(me.id) =~= o.members.remove(me.id));
}

/// Without reports nothing changes, and a report more is taken in after the others.
pub proof fn law_reports_are_taken_in_order(
    o: Overlay,
    incarnation: u64,
    me: PeerAddr,
    e: MemberEntry,
    now: u64,
)
    ensures
        absorbed(o, incarnation, me, Seq::empty(), now).o == o,
        absorbed(o, incarnation, me, Seq::empty(), now).incarnation == incarnation,
        !absorbed(o, incarnation, me, Seq::empty(), now).news,
        !absorbed(o, incarnation, me, Seq::empty(), now).refuted,
        e.id != me.id ==> absorbed(o, incarnation, me, seq![e], now).o.members == merged(
            o.members,
            e,
            now,
        ),
{
    let st = Intake { o, incarnation, refuted: false, news: false };
    assert(seq![e].drop_last() =~= Seq::empty());
    assert(crate::membership::node::took_in_all(st, me.id, seq![e].drop_last(), now) == st);
}

/// What a call of `probe_answered` does to a suspect: it is alive at the incarnation it had, with no
/// clock running; no later look finds it overdue, and the liveness census lists it while it is
/// fresh and not buried here. Every other member is as it was.
pub proof fn law_a_suspect_that_answers_is_alive(
    views: &mut Views,
    me: PeerAddr,
    id: NodeId,
    addr: PeerAddr,
    report: ProbeReport,
    now: u64,
    later: u64,
    timeout: u64,
    retention: u64,
    overdue_ids: Vec<NodeId>,
    alive: Vec<(NodeId, PeerAddr)>,
    other: NodeId,
)
    requires
        old(views)@.members.contains_key(id),
        old(views)@.members[id].state == MemberState::Suspect,
        id != me.id,
        other != id,
        call_ensures(Views::probe_answered, (views, &id, &addr, report, now), ()),
        call_ensures(Views::overdue_suspects, (final(views), later, timeout), overdue_ids),
        call_ensures(Views::liveness_census, (final(views), &me, later, retention), alive),
    ensures
        final(views)@.members.contains_key(id),
        final(views)@.members[id].state == MemberState::Alive,
        final(views)@.members[id].incarnation == old(views)@.members[id].incarnation,
        final(views)@.members[id].suspect_since_ms is None,
        final(views)@.members[id].last_heard_ms == now,
        !overdue_ids@.contains(id),
        now <= later < now + retention && !old(views)@.dead.contains_key(id) ==> alive@.contains(
            (id, addr),
        ),
        final(views)@.members.contains_key(other) <==> old(views)@.members.contains_key(other),
        old(views)@.members.contains_key(other) ==> final(views)@.members[other]
            == old(views)@.members[other],
{
    assert(live(final(views)@.members[id], later, retention) <== now <= later < now + retention);
}

/// What a call of `suspect` does to a member thought alive: it is overdue once it has been suspect
/// for as long as it may, and not before; and a member that is not thought alive is left as it
/// is.
pub proof fn law_a_suspect_is_overdue_in_time(
    views: &mut Views,
    id: NodeId,
    now: u64,
    later: u64,
    timeout: u64,
    ids: Vec<NodeId>,
)
    requires
        old(views)@.members.contains_key(id),
        call_ensures(Views::suspect, (views, &id, now), ()),
        call_ensures(Views::overdue_suspects, (final(views), later, timeout), ids),
        later >= now,
    ensures
        old(views)@.members[id].state == MemberState::Alive
            && old(views)@.members[id].suspect_since_ms is None ==> (ids@.contains(id) <==> later
            >= now + timeout),
        old(views)@.members[id].state == MemberState::Dead ==> !ids@.contains(id),
        old(views)@.members[id].state != MemberState::Alive ==> final(views)@ == old(views)@,
        ids@.no_duplicates(),
{
}

/// What calls about a probe that failed do: the failure is counted, and once there are as many in a
/// row as configured others are asked; a member that they reach is not suspected, and one that
/// they do not reach is.
pub proof fn law_failures_lead_to_suspicion(
    views: &mut Views,
    after: &mut Views,
    me: NodeId,
    id: NodeId,
    threshold: u32,
    escalate: bool,
    reached: bool,
    now: u64,
)
    requires
        old(views)@.active.contains_key(id),
        old(views)@.members.contains_key(id),
        old(views)@.members[id].state == MemberState::Alive,
        old(views)@.active[id].consecutive_failures < u32::MAX,
        id != me,
        call_ensures(Views::probe_unanswered, (views, &id, threshold), escalate),
        old(after)@ == final(views)@,
        call_ensures(Views::probe_escalated, (after, &me, &id, reached, now), ()),
    ensures
        escalate <==> old(views)@.active[id].consecutive_failures + 1 >= threshold,
        final(views)@.members == old(views)@.members,
        final(views)@.active[id].consecutive_failures == old(views)@.active[id].consecutive_failures
            + 1,
        reached ==> final(after)@.members[id].state == MemberState::Alive
            && final(after)@.active[id].consecutive_failures == 0
            && final(after)@.members[id].last_heard_ms == now,
        !reached ==> final(after)@.members[id].state == MemberState::Suspect
            && final(after)@.members[id].incarnation == old(views)@.members[id].incarnation,
{
}

/// What a call of `mark_dead` does: the member is dead and no link, its link leaves a tombstone,
/// and a backup is drawn to take its place where there is one.
pub proof fn law_the_dead_are_replaced(
    views: &mut Views,
    id: NodeId,
    now: crate::membership::lifecycle::Now,
    candidate: Option<PeerAddr>,
)
    requires
        call_ensures(Views::mark_dead, (views, &id, now), candidate),
        old(views)@.active.contains_key(id),
        old(views)@.members.contains_key(id),
    ensures
        final(views)@.members[id].state == MemberState::Dead,
        final(views)@.members[id].incarnation == old(views)@.members[id].incarnation,
        final(views)@.members.remove(id) == old(views)@.members.remove(id),
        final(views)@.active == old(views)@.active.remove(id),
        final(views)@.dead.contains_key(id),
        final(views)@.dead[id].died_ms == now.mono_ms,
        !final(views)@.dead[id].state.alive,
        candidate is Some <==> old(views)@.passive.len() > 0,
        candidate is Some ==> final(views)@.passive.len() + 1 == old(views)@.passive.len()
            && old(views)@.passive.contains(candidate->0),
{
    broadcast use vstd::seq_lib::group_to_multiset_ensures;

    assert(final(views)@.members.remove(id) =~= old(views)@.members.remove(id));
    if let Some(c) = candidate {
        let was = old(views)@.passive.to_multiset();
        let is = final(views)@.passive.to_multiset();
        assert(was == is.insert(c));
        assert(is.insert(c).count(c) > 0);
        assert(was.len() == is.len() + 1);
    }
}

/// What a call of `merge_one` gives: a report is news exactly where the member was unknown or the
/// report outranks what was known, and then it decides the member's state.
pub proof fn law_stronger_reports_are_news(
    members: &mut crate::table::Table<Member>,
    e: MemberEntry,
    now: u64,
    delta: bool,
)
    requires
        e.addr is Some,
        call_ensures(crate::membership::member::merge_one, (members, &e, now), delta),
    ensures
        final(members)@.contains_key(e.id),
        !old(members)@.contains_key(e.id) ==> delta,
        old(members)@.contains_key(e.id) ==> (delta <==> e.incarnation
            > old(members)@[e.id].incarnation || (e.incarnation == old(members)@[e.id].incarnation
            && strength(sent_state(e.state)) > strength(old(members)@[e.id].state))),
        delta ==> final(members)@[e.id].state == sent_state(e.state)
            && final(members)@[e.id].incarnation == e.incarnation,
        !delta ==> final(members)@[e.id].state == old(members)@[e.id].state
            && final(members)@[e.id].incarnation == old(members)@[e.id].incarnation,
{
}

/// States read back from the numbers they are sent as, and an unknown number is taken for alive.
pub proof fn law_states_are_sent_by_strength(state: MemberState, byte: u8, v: u8, back: MemberState)
    requires
        call_ensures(MemberState::to_u8, (state,), byte),
        call_ensures(MemberState::from_u8, (v,), back),
    ensures
        byte == strength(state),
        back == sent_state(v),
        v == byte ==> back == state,
{
}

/// What a call of `set_liveness` does: state and incarnation are the ones given, a suspicion's clock
/// starts with it, keeps running while it lasts, and stops when it ends; nothing else changes.
pub proof fn law_clocks_run_while_suspect(
    m: &mut Member,
    incarnation: u64,
    state: MemberState,
    now: u64,
)
    requires
        call_ensures(Member::set_liveness, (m, incarnation, state, now), ()),
    ensures
        final(m).state == state,
        final(m).incarnation == incarnation,
        final(m).addr == old(m).addr,
        final(m).last_heard_ms == old(m).last_heard_ms,
        state != MemberState::Suspect ==> final(m).suspect_since_ms is None,
        state == MemberState::Suspect && old(m).suspect_since_ms is None
            ==> final(m).suspect_since_ms == Some(now),
        state == MemberState::Suspect && old(m).suspect_since_ms is Some
            ==> final(m).suspect_since_ms == old(m).suspect_since_ms,
{
}

} // verus!
