//! Why the member set converges: what a set holds of a member depends only on what
//! was heard, not on the order or the number of times it was heard.

use crate::bytes::NodeId;
use crate::membership::member::{
    delta_worthy, liveness_wins, merged, merged_all, Member, MemberEntry, MemberState,
};
use vstd::prelude::*;

verus! {

/// `e` is a usable report about `id`.
pub open spec fn reports(e: MemberEntry, id: NodeId) -> bool {
    e.id == id && e.addr is Some
}

/// Some entry is a usable report about `id`.
pub open spec fn reported(entries: Seq<MemberEntry>, id: NodeId) -> bool {
    exists|i: int| 0 <= i < entries.len() && reports(#[trigger] entries[i], id)
}

/// `e` claims exactly the liveness that `m` has.
pub open spec fn claims_liveness_of(e: MemberEntry, m: Member) -> bool {
    e.incarnation == m.incarnation && e.claimed() == m.state
}

/// `a` and `b` are known to be equally alive and equally fresh.
pub open spec fn same_standing(a: Member, b: Member) -> bool {
    a.incarnation == b.incarnation && a.state == b.state && a.last_heard_ms == b.last_heard_ms
}

/// Nothing known at the start or heard since beats `m`.
pub open spec fn bounds(
    start: Map<NodeId, Member>,
    entries: Seq<MemberEntry>,
    id: NodeId,
    m: Member,
) -> bool {
    &&& start.contains_key(id) ==> !liveness_wins(
        start[id].incarnation,
        start[id].state.level(),
        m.incarnation,
        m.state.level(),
    ) && start[id].last_heard_ms <= m.last_heard_ms
    &&& forall|i: int|
        0 <= i < entries.len() && reports(#[trigger] entries[i], id) ==> !entries[i].overrides(m)
            && entries[i].last_heard_ms <= m.last_heard_ms
}

/// What `m` says was known at the start or heard since.
pub open spec fn attained(
    start: Map<NodeId, Member>,
    entries: Seq<MemberEntry>,
    id: NodeId,
    m: Member,
) -> bool {
    &&& (start.contains_key(id) && start[id].incarnation == m.incarnation && start[id].state
        == m.state) || exists|i: int|
        0 <= i < entries.len() && reports(#[trigger] entries[i], id) && claims_liveness_of(
            entries[i],
            m,
        )
    &&& (start.contains_key(id) && start[id].last_heard_ms == m.last_heard_ms) || exists|i: int|
        0 <= i < entries.len() && reports(#[trigger] entries[i], id) && entries[i].last_heard_ms
            == m.last_heard_ms
}

/// The set after `entries` knows exactly the members known before or reported, and of
/// each the strongest liveness and the latest evidence.
pub proof fn law_merge_keeps_the_strongest(
    start: Map<NodeId, Member>,
    entries: Seq<MemberEntry>,
    id: NodeId,
    now: u64,
)
    ensures
        merged_all(start, entries, now).contains_key(id) <==> start.contains_key(id) || reported(
            entries,
            id,
        ),
        merged_all(start, entries, now).contains_key(id) ==> bounds(
            start,
            entries,
            id,
            merged_all(start, entries, now)[id],
        ) && attained(start, entries, id, merged_all(start, entries, now)[id]),
    decreases entries.len(),
{
    let after = merged_all(start, entries, now);
    if entries.len() > 0 {
        let front = entries.drop_last();
        let e = entries.last();
        let before = merged_all(start, front, now);
        law_merge_keeps_the_strongest(start, front, id, now);
        let n = entries.len() - 1;
        assert forall|i: int| 0 <= i < n implies #[trigger] entries[i] == front[i] by {}
        assert(entries[n] == e);
        assert(reported(entries, id) <==> reported(front, id) || reports(e, id)) by {
            if reported(front, id) {
                let i = choose|i: int| 0 <= i < front.len() && reports(#[trigger] front[i], id);
                assert(reports(entries[i], id));
            }
            if reported(entries, id) && !reports(e, id) {
                let i = choose|i: int| 0 <= i < entries.len() && reports(#[trigger] entries[i], id);
                assert(reports(front[i], id));
            }
        }
        if after.contains_key(id) {
            let m = after[id];
            assert forall|i: int| 0 <= i < entries.len() && reports(#[trigger] entries[i], id) implies !entries[i].overrides(
            m) && entries[i].last_heard_ms <= m.last_heard_ms by {
                if i < n {
                    assert(reports(front[i], id));
                    assert(before.contains_key(id));
                }
            }
            if before.contains_key(id) {
                let old_m = before[id];
                if claims_liveness_of(e, m) && reports(e, id) {
                    assert(reports(entries[n], id));
                } else {
                    assert(m.incarnation == old_m.incarnation && m.state == old_m.state);
                    if !(start.contains_key(id) && start[id].incarnation == m.incarnation
                        && start[id].state == m.state) {
                        let i = choose|i: int|
                            0 <= i < front.len() && reports(#[trigger] front[i], id)
                                && claims_liveness_of(front[i], old_m);
                        assert(reports(entries[i], id) && claims_liveness_of(entries[i], m));
                    }
                }
                if reports(e, id) && e.last_heard_ms == m.last_heard_ms {
                    assert(reports(entries[n], id));
                } else {
                    assert(m.last_heard_ms == old_m.last_heard_ms);
                    if !(start.contains_key(id) && start[id].last_heard_ms == m.last_heard_ms) {
                        let i = choose|i: int|
                            0 <= i < front.len() && reports(#[trigger] front[i], id)
                                && front[i].last_heard_ms == old_m.last_heard_ms;
                        assert(reports(entries[i], id));
                    }
                }
            } else {
                assert(reports(entries[n], id));
            }
        }
    }
}

/// Two nodes that start alike and hear the same reports, in any order and any number
/// of times, hold the same members with the same standing.
pub proof fn law_member_sets_converge(
    start: Map<NodeId, Member>,
    a: Seq<MemberEntry>,
    b: Seq<MemberEntry>,
    now_a: u64,
    now_b: u64,
    id: NodeId,
)
    requires
        forall|e: MemberEntry| a.contains(e) <==> b.contains(e),
    ensures
        merged_all(start, a, now_a).contains_key(id) <==> merged_all(start, b, now_b).contains_key(
            id,
        ),
        merged_all(start, a, now_a).contains_key(id) ==> same_standing(
            merged_all(start, a, now_a)[id],
            merged_all(start, b, now_b)[id],
        ),
{
    law_merge_keeps_the_strongest(start, a, id, now_a);
    law_merge_keeps_the_strongest(start, b, id, now_b);
    assert forall|i: int| 0 <= i < a.len() implies b.contains(#[trigger] a[i]) by {
        assert(a.contains(a[i]));
    }
    assert forall|i: int| 0 <= i < b.len() implies a.contains(#[trigger] b[i]) by {
        assert(b.contains(b[i]));
    }
    if reported(a, id) {
        let i = choose|i: int| 0 <= i < a.len() && reports(#[trigger] a[i], id);
        let j = choose|j: int| 0 <= j < b.len() && b[j] == a[i];
        assert(reports(b[j], id));
    }
    if reported(b, id) {
        let i = choose|i: int| 0 <= i < b.len() && reports(#[trigger] b[i], id);
        let j = choose|j: int| 0 <= j < a.len() && a[j] == b[i];
        assert(reports(a[j], id));
    }
    if merged_all(start, a, now_a).contains_key(id) {
        let ma = merged_all(start, a, now_a)[id];
        let mb = merged_all(start, b, now_b)[id];
        lemma_attained_is_below(start, a, b, id, ma, mb);
        lemma_attained_is_below(start, b, a, id, mb, ma);
    }
}

proof fn lemma_attained_is_below(
    start: Map<NodeId, Member>,
    a: Seq<MemberEntry>,
    b: Seq<MemberEntry>,
    id: NodeId,
    ma: Member,
    mb: Member,
)
    requires
        attained(start, a, id, ma),
        bounds(start, b, id, mb),
        forall|i: int| 0 <= i < a.len() ==> b.contains(#[trigger] a[i]),
    ensures
        !liveness_wins(ma.incarnation, ma.state.level(), mb.incarnation, mb.state.level()),
        ma.last_heard_ms <= mb.last_heard_ms,
{
    if !(start.contains_key(id) && start[id].incarnation == ma.incarnation && start[id].state
        == ma.state) {
        let i = choose|i: int|
            0 <= i < a.len() && reports(#[trigger] a[i], id) && claims_liveness_of(a[i], ma);
        let j = choose|j: int| 0 <= j < b.len() && b[j] == a[i];
        assert(reports(b[j], id));
    }
    if !(start.contains_key(id) && start[id].last_heard_ms == ma.last_heard_ms) {
        let i = choose|i: int|
            0 <= i < a.len() && reports(#[trigger] a[i], id) && a[i].last_heard_ms
                == ma.last_heard_ms;
        let j = choose|j: int| 0 <= j < b.len() && b[j] == a[i];
        assert(reports(b[j], id));
    }
}

/// Hearing an entry a second time, however much later, changes nothing at all and is
/// not worth gossiping.
pub proof fn law_merge_is_idempotent(
    members: Map<NodeId, Member>,
    e: MemberEntry,
    now: u64,
    later: u64,
)
    ensures
        merged(merged(members, e, now), e, later) == merged(members, e, now),
        !delta_worthy(merged(members, e, now), e),
{
    assert(merged(merged(members, e, now), e, later) =~= merged(members, e, now));
}

/// A member refutes any suspicion or death held against it by asserting itself alive
/// at a higher incarnation.
pub proof fn law_refutation_overrides(
    members: Map<NodeId, Member>,
    e: MemberEntry,
    now: u64,
)
    requires
        members.contains_key(e.id),
        e.addr is Some,
        e.claimed() == MemberState::Alive,
        e.incarnation > members[e.id].incarnation,
    ensures
        merged(members, e, now)[e.id].state == MemberState::Alive,
        merged(members, e, now)[e.id].incarnation == e.incarnation,
        merged(members, e, now)[e.id].suspect_since_ms is None,
        delta_worthy(members, e),
{
}

/// At the incarnation that is known, a report never makes a member look more alive.
pub proof fn law_no_revival_at_the_same_incarnation(
    members: Map<NodeId, Member>,
    e: MemberEntry,
    now: u64,
)
    requires
        members.contains_key(e.id),
        e.incarnation <= members[e.id].incarnation,
    ensures
        merged(members, e, now)[e.id].state.level() >= members[e.id].state.level(),
        merged(members, e, now)[e.id].incarnation == members[e.id].incarnation,
{
}

} // verus!
