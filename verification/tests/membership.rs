use std::collections::HashSet;
use zeph::bytes::NodeId;
use zeph::membership::handler::{Action, Answer, Message};
use zeph::membership::lifecycle::{Now, ProbeReport};
use zeph::membership::member::{
    merge_entries, merge_one, Member, MemberEntry, MemberState, PeerAddr,
};
use zeph::membership::node::Membership;
use zeph::membership::overlay::{push_passive, Config, PeerState, Tombstone};
use zeph::membership::round::{Event, Stage, Task};
use zeph::table::Table;

const T0: u64 = 1_700_000_000_000;

fn addr(n: u8) -> PeerAddr {
    PeerAddr {
        id: NodeId([n; 32]),
        text: format!("peer-{n}"),
    }
}

fn node(cfg: Config) -> Membership {
    Membership::new(addr(200), cfg)
}

fn at(ms: u64) -> Now {
    Now {
        wall_ms: ms,
        mono_ms: ms,
    }
}

fn entry(a: &PeerAddr, last_heard_ms: u64) -> MemberEntry {
    swim_entry(a, last_heard_ms, 0, MemberState::Alive)
}

fn swim_entry(
    a: &PeerAddr,
    last_heard_ms: u64,
    incarnation: u64,
    state: MemberState,
) -> MemberEntry {
    MemberEntry {
        id: a.node_id(),
        addr: Some(a.clone()),
        last_heard_ms,
        incarnation,
        state: state.to_u8(),
    }
}

fn in_list(list: &[(NodeId, PeerAddr)], id: NodeId) -> bool {
    list.iter().any(|(i, _)| i.0 == id.0)
}

fn in_census(m: &Membership, id: NodeId, now: u64) -> bool {
    in_list(&m.census(now), id)
}

/// Runs a probe round in which nobody is reached. Says how often a rebind was asked for.
fn dead_round(m: &mut Membership, now: Now) -> u32 {
    let mut rebinds = 0;
    let mut stage = m.begin_round(now.wall_ms);
    let mut event = Event::Go;
    loop {
        let (next, task) = m.step(stage, event, now);
        stage = next;
        event = match task {
            Task::Continue | Task::Promote(_) | Task::Join(_) => Event::Go,
            Task::Rebind => {
                rebinds += 1;
                Event::Rebound(true)
            }
            Task::Probe(_) => Event::Probed(None),
            Task::AskHelpers { .. } => Event::Helped(false),
            Task::Finish => return rebinds,
        };
    }
}

#[test]
fn dead_tombstones_expire_and_rejoin_clears_them() {
    let mut m = node(Config {
        dead_retention_ms: 50,
        ..Default::default()
    });
    let other = addr(1);
    m.add_active(other.clone());
    m.mark_dead(&other.node_id(), at(1_000));
    assert_eq!(m.snapshot(at(1_000)).dead.len(), 1, "tombstone visible");
    assert_eq!(
        m.snapshot(at(1_080)).dead.len(),
        0,
        "tombstone expired after retention"
    );
    m.add_active(other.clone());
    m.mark_dead(&other.node_id(), at(2_000));
    assert_eq!(m.snapshot(at(2_000)).dead.len(), 1);
    m.add_active(other);
    let shot = m.snapshot(at(2_000));
    assert_eq!((shot.active.len(), shot.dead.len()), (1, 0));
}

#[test]
fn isolation_watchdog_rebinds_endpoint() {
    let mut m = node(Config {
        probe_timeout_ms: 200,
        wedge_rebind_ms: 1,
        ..Default::default()
    });
    let mut rebinds = dead_round(&mut m, at(T0));
    rebinds += dead_round(&mut m, at(T0 + 1));
    assert_eq!(rebinds, 0, "no seeds: rebind can't help");

    m.bootstrap = vec![addr(9)];
    rebinds += dead_round(&mut m, at(T0 + 2));
    rebinds += dead_round(&mut m, at(T0 + 12));
    assert_eq!(rebinds, 1, "wedge window elapsed");
    assert_eq!(m.me.node_id().0, [200; 32]);
    // A rebind clears the way for a seed dial at once.
    assert_eq!(m.last_recover_ms, 0);
    assert_eq!(m.isolated_since_ms, T0 + 12);
}

#[test]
fn set_liveness_maintains_the_suspect_clock() {
    let mut m = Member::alive(addr(1), 0);
    assert!(m.suspect_since_ms.is_none());
    m.set_liveness(0, MemberState::Suspect, 100);
    assert_eq!(m.suspect_since_ms, Some(100));
    m.set_liveness(0, MemberState::Suspect, 200);
    assert_eq!(m.suspect_since_ms, Some(100));
    m.set_liveness(1, MemberState::Alive, 300);
    assert_eq!(m.suspect_since_ms, None);
    m.set_liveness(1, MemberState::Suspect, 400);
    assert_eq!(m.suspect_since_ms, Some(400));
    m.set_liveness(1, MemberState::Dead, 500);
    assert_eq!(m.suspect_since_ms, None);
}

#[test]
fn merge_one_swim_liveness_ordering_and_refutation() {
    let a = addr(1);
    let id = a.node_id();
    let mut m: Table<Member> = Table::new();

    merge_one(&mut m, &swim_entry(&a, 100, 0, MemberState::Alive), 7);
    assert_eq!(m.get(&id).unwrap().state, MemberState::Alive);

    merge_one(&mut m, &swim_entry(&a, 100, 0, MemberState::Suspect), 7);
    assert_eq!(m.get(&id).unwrap().state, MemberState::Suspect);
    assert!(
        m.get(&id).unwrap().suspect_since_ms.is_some(),
        "entering Suspect stamps the local clock"
    );

    merge_one(&mut m, &swim_entry(&a, 100, 0, MemberState::Alive), 7);
    assert_eq!(m.get(&id).unwrap().state, MemberState::Suspect);

    merge_one(&mut m, &swim_entry(&a, 100, 0, MemberState::Dead), 7);
    assert_eq!(m.get(&id).unwrap().state, MemberState::Dead);
    assert!(
        m.get(&id).unwrap().suspect_since_ms.is_none(),
        "leaving Suspect clears the clock"
    );

    merge_one(&mut m, &swim_entry(&a, 100, 1, MemberState::Alive), 7);
    assert_eq!(m.get(&id).unwrap().state, MemberState::Alive);
    assert_eq!(m.get(&id).unwrap().incarnation, 1);
}

#[test]
fn merge_one_freshness_is_independent_of_liveness() {
    let a = addr(1);
    let id = a.node_id();
    let mut m: Table<Member> = Table::new();
    merge_one(&mut m, &swim_entry(&a, 100, 5, MemberState::Alive), 7);

    merge_one(&mut m, &swim_entry(&a, 50, 5, MemberState::Suspect), 7);
    assert_eq!(
        m.get(&id).unwrap().state,
        MemberState::Suspect,
        "liveness merged"
    );
    assert_eq!(
        m.get(&id).unwrap().last_heard_ms,
        100,
        "freshness kept the max, not regressed"
    );

    merge_one(&mut m, &swim_entry(&a, 200, 5, MemberState::Alive), 7);
    assert_eq!(
        m.get(&id).unwrap().last_heard_ms,
        200,
        "freshness advanced"
    );
    assert_eq!(
        m.get(&id).unwrap().state,
        MemberState::Suspect,
        "lower rank at equal incarnation did not override"
    );
}

#[test]
fn suspect_promotes_to_dead_and_drops_from_census() {
    let mut m = node(Config {
        suspect_timeout_ms: 50,
        ..Default::default()
    });
    let peer = addr(1);
    let pid = peer.node_id();
    m.merge_members(&[entry(&peer, T0)], T0);
    assert!(in_census(&m, pid, T0), "alive peer is in the census");

    m.views.suspect(&pid, T0);
    assert!(in_census(&m, pid, T0), "a Suspect stays in the census");

    let later = T0 + 80;
    dead_round(&mut m, at(later));
    assert!(
        !in_census(&m, pid, later),
        "Dead is dropped from the election census"
    );
    assert!(
        !in_list(&m.liveness_census(later), pid),
        "Dead is dropped from the liveness census"
    );
}

#[test]
fn self_suspicion_is_refuted_by_incarnation_bump() {
    let mut m = node(Config::default());
    let me = m.me.node_id();
    let my_addr = m.me.clone();
    m.merge_members(&[swim_entry(&my_addr, T0, 5, MemberState::Dead)], T0);
    assert_eq!(
        m.self_incarnation, 6,
        "incarnation bumped above the false Dead's"
    );
    let entries = m.views.member_entries();
    let own = entries
        .iter()
        .find(|e| e.id.0 == me.0)
        .expect("self in member map");
    assert_eq!(own.state, MemberState::Alive.to_u8());
    assert_eq!(own.incarnation, 6);
    assert!(in_census(&m, me, T0), "we keep ourselves in the census");
}

#[test]
fn restarted_node_refutes_own_stale_dead_and_rejoins() {
    let mut m = node(Config::default());
    let me = m.me.node_id();
    let my_addr = m.me.clone();
    m.merge_members(&[swim_entry(&my_addr, T0, 0, MemberState::Dead)], T0);
    assert_eq!(m.self_incarnation, 1, "bumped from 0 to 1");
    let entries = m.views.member_entries();
    let own = entries.iter().find(|e| e.id.0 == me.0).unwrap();
    assert_eq!(
        (own.state, own.incarnation),
        (MemberState::Alive.to_u8(), 1),
        "re-asserts Alive@1, overriding the stale Dead@0"
    );
}

#[test]
fn ping_req_handler_replies_with_probe_result() {
    let mut m = node(Config {
        probe_timeout_ms: 200,
        ..Default::default()
    });
    let dead = addr(1);
    let out = m.handle_message(
        Message::PingReq {
            target_id: dead.node_id(),
            target_addr: Some(dead.clone()),
        },
        T0,
    );
    let reply = match out.answer {
        Answer::Probe { target_id, addr } => {
            assert_eq!(addr.node_id().0, dead.node_id().0);
            // The probe fails: nobody listens at the address.
            zeph::membership::handler::probe_result(target_id, false)
        }
        other => panic!("expected a probe, got {other:?}"),
    };
    match reply {
        Message::PingReqAck { target_id, alive } => {
            assert_eq!(
                target_id.0,
                dead.node_id().0,
                "acks the requested target"
            );
            assert!(!alive, "unreachable target reported not alive");
        }
        other => panic!("expected a PingReqAck, got {other:?}"),
    }
}

#[test]
fn an_unreadable_probe_target_is_reported_not_alive() {
    let mut m = node(Config::default());
    let out = m.handle_message(
        Message::PingReq {
            target_id: NodeId([1; 32]),
            target_addr: None,
        },
        T0,
    );
    match out.answer {
        Answer::Reply(Message::PingReqAck { target_id, alive }) => {
            assert_eq!(target_id.0, [1; 32]);
            assert!(!alive);
        }
        other => panic!("expected a PingReqAck, got {other:?}"),
    }
}

#[test]
fn delta_gossip_dirties_only_real_changes() {
    let mut m = node(Config::default());
    let peer = addr(1);
    let pid = peer.node_id();

    m.merge_members(&[swim_entry(&peer, T0, 0, MemberState::Alive)], T0);
    assert!(
        m.views.dirty.contains(&pid),
        "a newly-learned member is dirty"
    );
    m.views.dirty = Table::new();

    m.merge_members(&[swim_entry(&peer, T0 + 1000, 0, MemberState::Alive)], T0);
    assert_eq!(
        m.views.dirty.len(),
        0,
        "a last_heard-only bump does not dirty: freshness is not gossiped"
    );

    m.merge_members(&[swim_entry(&peer, T0 + 2000, 0, MemberState::Suspect)], T0);
    assert!(m.views.dirty.contains(&pid), "a liveness change is dirty");
}

#[test]
fn members_digest_reflects_census_not_freshness() {
    let mut m = node(Config::default());
    let a = addr(1);
    let empty = m.views.members_digest();

    m.merge_members(&[swim_entry(&a, T0, 0, MemberState::Alive)], T0);
    let h1 = m.views.members_digest();
    assert_ne!(empty, h1, "adding a member changes the digest");

    m.merge_members(&[swim_entry(&a, T0 + 9_999, 0, MemberState::Alive)], T0);
    assert_eq!(
        h1,
        m.views.members_digest(),
        "freshness does not affect the digest"
    );

    m.merge_members(&[swim_entry(&a, T0, 0, MemberState::Suspect)], T0);
    assert_ne!(
        h1,
        m.views.members_digest(),
        "a liveness change changes the digest"
    );

    m.merge_members(&[swim_entry(&a, T0, 0, MemberState::Dead)], T0);
    assert_eq!(
        empty,
        m.views.members_digest(),
        "Dead is excluded: digest returns to the empty-census hash"
    );
}

#[test]
fn the_digest_of_an_empty_census_is_the_hash_of_nothing() {
    let m = node(Config::default());
    assert_eq!(
        m.views.members_digest(),
        *blake3::hash(b"").as_bytes()
    );
}

fn last_heard(members: &Table<Member>, id: NodeId) -> Option<u64> {
    members.get(&id).map(|m| m.last_heard_ms)
}

#[test]
fn member_merge_is_commutative_and_idempotent() {
    let a = addr(1);
    let b = addr(2);
    let x_entries = vec![entry(&a, 100), entry(&b, 50)];
    let y_entries = vec![entry(&a, 30), entry(&b, 80)];

    let mut xy: Table<Member> = Table::new();
    merge_entries(&mut xy, &x_entries, 7);
    merge_entries(&mut xy, &y_entries, 7);

    let mut yx: Table<Member> = Table::new();
    merge_entries(&mut yx, &y_entries, 7);
    merge_entries(&mut yx, &x_entries, 7);

    for map in [&xy, &yx] {
        assert_eq!(map.len(), 2, "union of both member sets");
        assert_eq!(
            last_heard(map, a.node_id()),
            Some(100),
            "max last_heard for A"
        );
        assert_eq!(
            last_heard(map, b.node_id()),
            Some(80),
            "max last_heard for B"
        );
    }

    merge_entries(&mut xy, &x_entries, 7);
    merge_entries(&mut xy, &y_entries, 7);
    assert_eq!(last_heard(&xy, a.node_id()), Some(100));
    assert_eq!(last_heard(&xy, b.node_id()), Some(80));
}

#[test]
fn census_excludes_stale_members_and_includes_self() {
    let mut m = node(Config::default());
    let me = m.me.node_id();
    let backstop = Config::default().dead_retention_ms;
    let fresh = addr(1);
    let old_but_alive = addr(2);
    let silent = addr(3);
    let dead = addr(4);
    let now = T0;
    m.views
        .members
        .insert(fresh.node_id(), Member::alive(fresh.clone(), now));
    m.views.members.insert(
        old_but_alive.node_id(),
        Member::alive(old_but_alive.clone(), now.saturating_sub(200_000)),
    );
    m.views.members.insert(
        silent.node_id(),
        Member::alive(silent.clone(), now.saturating_sub(backstop + 5_000)),
    );
    let mut d = Member::alive(dead.clone(), now);
    d.set_liveness(0, MemberState::Dead, now);
    m.views.members.insert(dead.node_id(), d);

    let census = m.census(now);
    assert!(in_list(&census, me), "census always includes self");
    assert!(
        in_list(&census, fresh.node_id()),
        "fresh Alive member is in"
    );
    assert!(
        in_list(&census, old_but_alive.node_id()),
        "an Alive member past the old freshness TTL STAYS in"
    );
    assert!(
        !in_list(&census, silent.node_id()),
        "a member silent beyond the coarse backstop is forgotten"
    );
    assert!(
        !in_list(&census, dead.node_id()),
        "a SWIM-Dead member is excluded regardless of freshness"
    );
}

#[test]
fn liveness_census_is_swim_alive_only() {
    let mut m = node(Config::default());
    let me = m.me.node_id();
    let now = T0;
    let fresh = addr(1);
    let stale_alive = addr(2);
    let suspect = addr(3);
    let dead_state = addr(4);
    let tombstoned = addr(5);
    m.views
        .members
        .insert(fresh.node_id(), Member::alive(fresh.clone(), now));
    m.views.members.insert(
        stale_alive.node_id(),
        Member::alive(stale_alive.clone(), now.saturating_sub(200_000)),
    );
    let mut sus = Member::alive(suspect.clone(), now);
    sus.set_liveness(0, MemberState::Suspect, now);
    m.views.members.insert(suspect.node_id(), sus);
    let mut d = Member::alive(dead_state.clone(), now);
    d.set_liveness(0, MemberState::Dead, now);
    m.views.members.insert(dead_state.node_id(), d);
    m.views
        .members
        .insert(tombstoned.node_id(), Member::alive(tombstoned.clone(), now));
    m.views.dead.insert(
        tombstoned.node_id(),
        Tombstone {
            state: PeerState::new(tombstoned.clone()),
            died_ms: now,
        },
    );

    let wide = m.census(now);
    let live = m.liveness_census(now);
    assert!(in_list(&live, me) && in_list(&live, fresh.node_id()));
    assert!(
        in_list(&live, stale_alive.node_id()),
        "an Alive holder past the old 30s TTL STAYS live"
    );
    assert!(
        !in_list(&live, suspect.node_id()),
        "a Suspect holder is excluded from liveness so repair reacts fast"
    );
    assert!(
        !in_list(&live, dead_state.node_id()),
        "SWIM-Dead excluded"
    );
    assert!(
        !in_list(&live, tombstoned.node_id()),
        "tombstoned excluded"
    );
    assert!(
        in_list(&wide, suspect.node_id()),
        "Suspect stays in the election census"
    );
    assert!(in_list(&wide, stale_alive.node_id()));
    assert!(
        !in_list(&wide, dead_state.node_id()),
        "Dead excluded from the election census too"
    );
}

#[test]
fn news_is_retired_after_six_rounds_of_gossip() {
    let mut m = node(Config::default());
    m.add_active(addr(2));
    m.merge_members(&[entry(&addr(1), T0)], T0);
    for _ in 0..6 {
        match m.epidemic_push(T0) {
            Some((targets, Message::MemberSync { members })) => {
                assert_eq!(targets.len(), 1);
                assert!(members.iter().any(|e| e.id.0 == [1; 32]));
            }
            other => panic!("expected news, got {other:?}"),
        }
    }
    assert!(m.epidemic_push(T0).is_none());
}

#[test]
fn news_wakes_gossip_at_most_once_a_second() {
    let mut m = node(Config::default());
    assert!(m.merge_members(&[entry(&addr(1), T0)], T0));
    assert!(!m.merge_members(&[entry(&addr(2), T0)], T0 + 999));
    assert!(m.merge_members(&[entry(&addr(3), T0)], T0 + 1_000));
    // What is known already is no news.
    assert!(!m.merge_members(&[entry(&addr(3), T0)], T0 + 5_000));
}

#[test]
fn a_full_active_view_evicts_one_link_into_the_backups() {
    let mut m = node(Config {
        active_size: 2,
        ..Default::default()
    });
    assert!(m.add_active(addr(1)).is_none());
    assert!(m.add_active(addr(2)).is_none());
    let evicted = m.add_active(addr(3)).expect("a link gives way");
    assert!(evicted.id.0 == [1; 32] || evicted.id.0 == [2; 32]);
    assert_eq!(m.views.active.len(), 2);
    assert!(m.views.active.contains(&NodeId([3; 32])));
    assert_eq!(m.views.passive.len(), 1);
    assert_eq!(m.views.passive[0].id.0, evicted.id.0);
    // Linking to self, or twice to the same node, changes nothing.
    assert!(m.add_active(addr(200)).is_none());
    assert!(m.add_active(addr(3)).is_none());
    assert_eq!(m.views.active.len(), 2);
}

#[test]
fn a_full_list_of_backups_gives_one_up() {
    let mut m = node(Config {
        passive_size: 2,
        ..Default::default()
    });
    m.seed(&vec![addr(1), addr(2), addr(2), addr(200), addr(3)]);
    assert_eq!(m.views.passive.len(), 2);
    assert!(m.views.passive.iter().any(|p| p.id.0 == [3; 32]));
    assert!(!m.views.passive.iter().any(|p| p.id.0 == [200; 32]));
}

#[test]
fn a_join_is_linked_and_walked_on() {
    let mut m = node(Config::default());
    m.add_active(addr(1));
    m.add_active(addr(2));
    let out = m.handle_message(
        Message::Join {
            origin: Some(addr(3)),
        },
        T0,
    );
    assert!(m.views.active.contains(&NodeId([3; 32])));
    let mut told: Vec<u8> = Vec::new();
    for action in out.actions {
        match action {
            Action::Send {
                to,
                message: Message::ForwardJoin { origin, ttl },
            } => {
                assert_eq!(origin.unwrap().id.0, [3; 32]);
                assert_eq!(ttl, 6);
                told.push(to.id.0[0]);
            }
            other => panic!("expected a forwarded join, got {other:?}"),
        }
    }
    told.sort();
    assert_eq!(told, vec![1, 2]);
}

#[test]
fn a_link_is_refused_by_a_full_node_unless_it_matters() {
    let mut m = node(Config {
        active_size: 1,
        ..Default::default()
    });
    m.add_active(addr(1));
    let refused = m.handle_message(
        Message::Neighbor {
            origin: Some(addr(2)),
            high_priority: false,
        },
        T0,
    );
    assert!(matches!(
        refused.answer,
        Answer::Reply(Message::NeighborReply { accepted: false })
    ));
    let granted = m.handle_message(
        Message::Neighbor {
            origin: Some(addr(2)),
            high_priority: true,
        },
        T0,
    );
    assert!(matches!(
        granted.answer,
        Answer::Reply(Message::NeighborReply { accepted: true })
    ));
    assert!(m.views.active.contains(&NodeId([2; 32])));
}

#[test]
fn an_unanswered_link_is_suspected_after_its_helpers_fail_too() {
    let mut m = node(Config::default());
    m.merge_members(&[entry(&addr(1), T0), entry(&addr(2), T0)], T0);
    m.add_active(addr(1));
    dead_round(&mut m, at(T0));
    assert_eq!(
        m.views.members.get(&NodeId([1; 32])).unwrap().state,
        MemberState::Alive
    );
    dead_round(&mut m, at(T0 + 1));
    assert_eq!(
        m.views.members.get(&NodeId([1; 32])).unwrap().state,
        MemberState::Suspect
    );
    assert_eq!(
        m.views.members.get(&NodeId([2; 32])).unwrap().state,
        MemberState::Alive
    );
}

#[test]
fn a_probe_round_asks_helpers_before_it_suspects() {
    let mut m = node(Config {
        probe_failures: 1,
        indirect_probes: 1,
        ..Default::default()
    });
    m.merge_members(&[entry(&addr(1), T0), entry(&addr(2), T0)], T0);
    m.add_active(addr(1));
    let (stage, task) = m.step(Stage::Probe(m.probe_targets()), Event::Go, at(T0));
    assert!(matches!(task, Task::Probe(a) if a.id.0 == [1; 32]));
    let (stage, task) = m.step(stage, Event::Probed(None), at(T0));
    match task {
        Task::AskHelpers { helpers, .. } => {
            assert_eq!(helpers.len(), 1);
            assert_eq!(helpers[0].id.0, [2; 32]);
        }
        other => panic!("expected helpers, got {other:?}"),
    }
    let (_, _) = m.step(stage, Event::Helped(true), at(T0));
    assert_eq!(
        m.views.members.get(&NodeId([1; 32])).unwrap().state,
        MemberState::Alive
    );
}

#[test]
fn an_answered_probe_records_what_it_measured() {
    let mut m = node(Config::default());
    m.add_active(addr(1));
    let report = ProbeReport {
        rtt_us: 1_500,
        skew_ms: 3,
        seen_unix: Some(77),
    };
    let (stage, _) = m.step(Stage::Probe(m.probe_targets()), Event::Go, at(T0));
    m.step(stage, Event::Probed(Some(report)), at(T0));
    let shot = m.snapshot(at(T0));
    assert_eq!(shot.active.len(), 1);
    let st = &shot.active[0].1;
    assert!(st.alive);
    assert_eq!(
        (st.rtt_us, st.skew_ms, st.last_seen_unix),
        (Some(1_500), Some(3), Some(77))
    );
    assert_eq!(st.consecutive_failures, 0);
}

#[test]
fn an_isolated_node_dials_a_seed_every_fifteen_seconds() {
    let mut m = node(Config::default());
    m.bootstrap = vec![addr(200), addr(9)];
    assert_eq!(m.recover_isolated(T0).unwrap().id.0, [9; 32]);
    assert!(m.recover_isolated(T0 + 14_999).is_none());
    assert_eq!(m.recover_isolated(T0 + 15_000).unwrap().id.0, [9; 32]);
}

#[test]
fn the_peer_table_shows_those_that_answer_first() {
    let mut m = node(Config::default());
    for n in [7u8, 5, 6] {
        m.add_active(addr(n));
    }
    let id = NodeId([6; 32]);
    let mut up = m.views.active.get(&id).unwrap().clone();
    up.alive = true;
    m.views.active.insert(id, up);
    m.mark_dead(&NodeId([5; 32]), at(10));
    let table = zeph::peers::peer_table(&m.snapshot(at(10)));
    let ids: Vec<String> = table.iter().map(|p| p.id.clone()).collect();
    assert_eq!(ids, vec!["06".repeat(32), "05".repeat(32), "07".repeat(32)]);
    assert_eq!(table[0].addrs, "peer-6");
    assert_eq!(zeph::peers::alive_count(&table), 1);
}

#[test]
fn a_join_links_the_contact_and_pulls_its_members() {
    let mut m = node(Config::default());
    assert!(matches!(
        m.join_request(),
        Message::Join { origin: Some(o) } if o.id.0 == [200; 32]
    ));
    let (actions, pull) = m.on_joined(addr(1), false);
    assert!(actions.is_empty() && !pull);
    let (_, pull) = m.on_joined(addr(1), true);
    assert!(pull);
    assert!(m.views.active.contains(&NodeId([1; 32])));
    assert!(matches!(
        m.link_request(),
        Message::Neighbor {
            high_priority: false,
            ..
        }
    ));
    let (_, linked) = m.on_link_reply(
        addr(2),
        &Some(Message::NeighborReply { accepted: false }),
    );
    assert!(!linked);
    let (_, linked) = m.on_link_reply(addr(2), &Some(Message::NeighborReply { accepted: true }));
    assert!(linked);
    assert_eq!(m.views.active.len(), 2);
}

#[test]
fn member_sets_are_exchanged() {
    let mut a = node(Config::default());
    let mut b = Membership::new(addr(100), Config::default());
    a.merge_members(&[entry(&addr(1), T0)], T0);
    b.merge_members(&[entry(&addr(2), T0)], T0);
    assert!(zeph::membership::exchange::digest_differs(
        &Some(b.digest_request()),
        &a.views.members_digest()
    ));
    let request = a.sync_request(T0);
    let answer = match b.handle_message(request, T0).answer {
        Answer::Reply(m) => m,
        other => panic!("expected an answer, got {other:?}"),
    };
    assert!(a.on_sync_reply(&Some(answer), T0 + 5_000));
    for m in [&a, &b] {
        for id in [[1; 32], [2; 32], [100; 32], [200; 32]] {
            assert!(in_census(m, NodeId(id), T0));
        }
    }
    assert!(!a.on_sync_reply(&None, T0 + 9_000));
    assert!(!zeph::membership::exchange::digest_differs(
        &None,
        &a.views.members_digest()
    ));
}

#[test]
fn backups_are_mixed() {
    let mut a = node(Config::default());
    assert!(a.plan_shuffle(T0).is_none());
    a.add_active(addr(1));
    a.seed(&vec![addr(3), addr(4)]);
    let (to, message) = a.plan_shuffle(T0).expect("somebody to shuffle with");
    assert!([1, 3, 4].contains(&to.id.0[0]));
    let mut b = Membership::new(addr(1), Config::default());
    b.seed(&vec![addr(5)]);
    let answer = match b.handle_message(message, T0).answer {
        Answer::Reply(m) => m,
        other => panic!("expected an answer, got {other:?}"),
    };
    assert!(b.views.passive.iter().any(|p| p.id.0 == [200; 32]));
    a.on_shuffle_reply(Some(answer), T0);
    assert!(a.views.passive.iter().any(|p| p.id.0 == [5; 32]));
}

#[test]
fn a_silent_member_is_forgotten() {
    let mut m = node(Config::default());
    m.merge_members(&[entry(&addr(1), T0)], T0);
    m.prune_members(T0 + Config::default().dead_retention_ms + 1);
    assert!(!m.views.members.contains(&NodeId([1; 32])));
    m.note_heard(&NodeId([1; 32]), T0);
    assert!(m.member_addr(&NodeId([1; 32])).is_none());
    assert_eq!(m.member_addr(&NodeId([200; 32])).unwrap().text, "peer-200");
}

#[test]
fn a_full_backup_list_gives_up_one_address() {
    let mut passive: Vec<PeerAddr> = Vec::new();
    push_passive(&mut passive, addr(1), 2);
    push_passive(&mut passive, addr(1), 2);
    push_passive(&mut passive, addr(2), 2);
    let ids: Vec<u8> = passive.iter().map(|p| p.id.0[0]).collect();
    assert_eq!(ids, vec![1, 2]);
    push_passive(&mut passive, addr(3), 2);
    assert_eq!(passive.len(), 2);
    assert_eq!(passive[1].id.0, [3; 32]);
    assert!(passive[0].id.0 == [1; 32] || passive[0].id.0 == [2; 32]);
}

#[test]
fn a_join_goes_on_once_to_each_link() {
    let mut m = node(Config::default());
    for n in 1..4 {
        m.add_active(addr(n));
    }
    let join = Message::Join {
        origin: Some(addr(9)),
    };
    let mut to: Vec<u8> = Vec::new();
    for action in m.handle_message(join, T0).actions {
        match action {
            Action::Send {
                to: a,
                message: Message::ForwardJoin { origin, .. },
            } => {
                assert_eq!(origin.unwrap().id.0, [9; 32]);
                to.push(a.id.0[0]);
            }
            other => panic!("unexpected {other:?}"),
        }
    }
    to.sort_unstable();
    assert_eq!(to, vec![1, 2, 3]);
}

#[test]
fn samples_repeat_nobody() {
    let mut m = node(Config {
        probe_failures: 1,
        indirect_probes: 3,
        ..Default::default()
    });
    for n in 1..6 {
        m.add_passive(addr(n));
        m.merge_members(&[entry(&addr(n + 20), T0)], T0);
    }
    let shuffle = Message::Shuffle {
        origin: None,
        sample: vec![None, None, None, None],
        members: Vec::new(),
    };
    let firsts = |list: &[PeerAddr]| -> HashSet<u8> { list.iter().map(|a| a.id.0[0]).collect() };
    match m.handle_message(shuffle, T0).answer {
        Answer::Reply(Message::ShuffleReply { sample, .. }) => {
            let sample: Vec<PeerAddr> = sample.into_iter().flatten().collect();
            assert_eq!((sample.len(), firsts(&sample).len()), (4, 4));
        }
        other => panic!("expected a sample, got {other:?}"),
    }
    m.add_active(addr(40));
    m.merge_members(&[entry(&addr(40), T0)], T0);
    let pool = m.shuffle_pool(&addr(40));
    assert_eq!((pool.len(), firsts(&pool).len()), (5, 5));
    let (stage, _) = m.step(Stage::Probe(m.probe_targets()), Event::Go, at(T0));
    let (_, task) = m.step(stage, Event::Probed(None), at(T0));
    match task {
        Task::AskHelpers { helpers, .. } => {
            assert_eq!((helpers.len(), firsts(&helpers).len()), (3, 3));
            assert!(helpers.iter().all(|a| (21..26).contains(&a.id.0[0])));
        }
        other => panic!("expected helpers, got {other:?}"),
    }
    m.add_active(addr(41));
    let (targets, _) = m.epidemic_push(T0).unwrap();
    assert_eq!(firsts(&targets), HashSet::from([40, 41]));
    assert_eq!(targets.len(), 2);
}

#[test]
fn without_room_for_backups_messages_that_need_none_are_answered() {
    let mut m = node(Config {
        active_size: 1,
        passive_size: 0,
        ..Default::default()
    });
    let ask = |high_priority: bool| Message::Neighbor {
        origin: Some(addr(1)),
        high_priority,
    };
    assert!(m.can_handle(&ask(false)));
    match m.handle_message(ask(false), T0).answer {
        Answer::Reply(Message::NeighborReply { accepted }) => assert!(accepted),
        other => panic!("expected an answer, got {other:?}"),
    }
    for msg in [
        Message::Digest { hash: [0; 32] },
        Message::MemberSync {
            members: Vec::new(),
        },
        Message::PingReq {
            target_id: NodeId([7; 32]),
            target_addr: None,
        },
        Message::Shuffle {
            origin: Some(addr(1)),
            sample: vec![None],
            members: Vec::new(),
        },
    ] {
        assert!(m.can_handle(&msg));
        assert!(matches!(m.handle_message(msg, T0).answer, Answer::Reply(_)));
    }
    // A second link would have to make the first one a backup.
    let other = Message::Join {
        origin: Some(addr(2)),
    };
    assert!(!m.can_handle(&other));
    assert!(!m.can_link(&addr(2)));
    assert!(!m.can_back_up(&addr(2)));
    assert!(m.can_back_up(&addr(1)));
    assert!(m.can_back_up_all(&vec![None, Some(addr(1))]));
    assert!(!m.can_back_up_all(&vec![None, Some(addr(2))]));
    let walk = |ttl: u8| Message::ForwardJoin {
        origin: Some(addr(2)),
        ttl,
    };
    assert!(!m.can_handle(&walk(0)));
}

#[test]
fn views_stay_sound_through_messages_and_rounds() {
    let mut m = node(Config {
        active_size: 3,
        passive_size: 4,
        probe_failures: 1,
        ..Default::default()
    });
    for n in 0..120u8 {
        let origin = Some(addr(if n % 10 == 9 { 200 } else { n % 17 + 1 }));
        let msg = match n % 4 {
            0 => Message::Join { origin },
            1 => Message::ForwardJoin { origin, ttl: n % 7 },
            2 => Message::Neighbor {
                origin,
                high_priority: n % 8 == 2,
            },
            _ => Message::Shuffle {
                origin,
                sample: vec![Some(addr(n % 13 + 1)), None, Some(addr(200))],
                members: vec![entry(&addr(n % 17 + 1), T0)],
            },
        };
        assert!(m.can_handle(&msg));
        m.handle_message(msg, T0);
        if n % 15 == 14 {
            dead_round(&mut m, at(T0 + u64::from(n)));
        }
        let links = m.views.active.keys();
        let backups: HashSet<[u8; 32]> = m.views.passive.iter().map(|a| a.id.0).collect();
        assert!(links.len() <= 3 && m.views.passive.len() <= 4);
        assert_eq!(backups.len(), m.views.passive.len());
        assert!(!backups.contains(&[200; 32]));
        for id in links {
            assert!(id.0 != [200; 32] && !backups.contains(&id.0));
            assert!(!m.views.dead.contains(&id));
            assert_eq!(m.views.active.get(&id).unwrap().addr.id.0, id.0);
        }
    }
}
