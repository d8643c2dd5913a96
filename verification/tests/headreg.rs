use std::collections::HashSet;
use zeph::bytes::{Cid, NodeId};
use zeph::epoch::EPOCH_MILLIS;
use zeph::headreg::cache::{ResolveCache, RESOLVE_CACHE_TTL_MS};
use zeph::headreg::election::{
    effective_epoch, is_replica, peers_of, read_targets, replicas, writer_of, GRACE_MILLIS,
    REPLICATION_FACTOR,
};
use zeph::headreg::held::HeldIndex;
use zeph::headreg::registry::HeadRegistry;
use zeph::headreg::reshard::{
    census_digest, load_gen, save_gen, CensusWatch, ReshardStep, Resharding, DRAIN_TICKS,
};
use zeph::headreg::route::{
    addr_of, check_submission, forwarded, generations_to_try, lookups, next_version,
    reported_version, version_of, HeadSubmission, RegisterError, RegistryReq, RegistryResp, ServePlan,
    SubmitError, WriteRoute,
};
use zeph::headreg::rows::{
    group_rows, head_entry, head_rows, Gathered, HeadRowWire,
};
use zeph::headreg::search::Search;
use zeph::headreg::settle::{Settling, READY_MAX_MS, READY_STABLE_MS, READY_WAIT_MS};
use zeph::headreg::shard::{
    ns_of, push_job_key, rebucket_entries, resolve_shard_bits, shard_count, shard_of, HeadEntry, ShardKey, DEFAULT_SHARD_BITS, MAX_SHARD_BITS, RT_DBROOT, RT_MANIFEST, RT_PROGRAM, push_retry, PUSH_AGAIN_MS,
};
use zeph::headreg::tally::ShardTally;
use zeph::membership::member::PeerAddr;

fn key(rtype: u8, bits: u32, shard: u64) -> ShardKey {
    ShardKey { rtype, bits, shard }
}

fn ids(n: u8) -> Vec<[u8; 32]> {
    (1..=n).map(|i| [i; 32]).collect()
}

fn peer(n: u8, text: &str) -> PeerAddr {
    PeerAddr {
        id: NodeId([n; 32]),
        text: text.to_string(),
    }
}

fn wire(rtype: u8, name: &str, version: u64) -> HeadRowWire {
    HeadRowWire {
        rtype,
        owner: [1; 32],
        name: name.to_string(),
        cid: [version as u8; 32],
        version,
    }
}

#[test]
fn shard_of_is_prefix_stable_under_growth() {
    let owner = [7u8; 32];
    let h = Cid::of(&[owner.as_slice(), b"myapp".as_slice()].concat()).0;
    let full = u64::from_le_bytes(h[..8].try_into().unwrap());
    assert_eq!(shard_of(&owner, "myapp", 8), full % 256);

    for k in 4..20u32 {
        let s_k = shard_of(&owner, "myapp", k);
        let s_k1 = shard_of(&owner, "myapp", k + 1);
        assert_eq!(
            s_k1 & ((1u64 << k) - 1),
            s_k,
            "the low-k prefix must be preserved across a split"
        );
        assert!(
            s_k1 == s_k || s_k1 == s_k | (1u64 << k),
            "a child shard is its parent or parent | (1<<k)"
        );
    }
}

#[test]
fn a_key_hash_is_blake3_of_owner_and_name() {
    let h = blake3::hash(&[[7u8; 32].as_slice(), b"myapp".as_slice()].concat());
    let full = u64::from_le_bytes(h.as_bytes()[..8].try_into().unwrap());
    assert_eq!(shard_of(&[7; 32], "myapp", 12), full % 4096);
}

#[test]
fn ns_is_distinct_per_generation_and_kind() {
    let ns = |rtype, bits, shard| ns_of(ShardKey { rtype, bits, shard });
    assert_ne!(
        ns(RT_PROGRAM, 8, 5),
        ns(RT_PROGRAM, 9, 5),
        "bits 8 vs 9 distinct"
    );
    assert_ne!(ns(RT_PROGRAM, 8, 5), ns(RT_DBROOT, 8, 5), "rtype distinct");
    assert_ne!(ns(RT_PROGRAM, 8, 5), ns(RT_PROGRAM, 8, 6), "shard distinct");
}

#[test]
fn a_shard_is_named_by_its_three_numbers() {
    assert_eq!(ns_of(key(RT_DBROOT, 8, 255)), "reg_1_8_255");
    assert_eq!(push_job_key(key(RT_MANIFEST, 9, 0)), "pushstate:2:9:0");
}

#[test]
fn rebucket_routes_every_entry_and_splits_parent_into_two_children() {
    let entries: Vec<HeadEntry> = (0..300)
        .map(|i| HeadEntry {
            owner: [1u8; 32],
            name: format!("app{i}"),
            cid: [0u8; 32],
            version: 1,
        })
        .collect();
    let grouped = rebucket_entries(&entries, 9);
    let total: usize = grouped.values().map(|v| v.len()).sum();
    assert_eq!(total, entries.len(), "every entry re-bucketed exactly once");
    for (shard, group) in &grouped {
        for e in group {
            assert_eq!(shard_of(&e.owner, &e.name, 9), *shard);
            let parent = shard_of(&e.owner, &e.name, 8);
            assert!(*shard == parent || *shard == parent | 256);
        }
    }
    assert!(
        grouped.keys().any(|s| *s >= 256),
        "split populates shards >= 256"
    );
}

#[test]
fn resolve_shard_bits_falls_back_and_clamps() {
    assert_eq!(resolve_shard_bits(None), DEFAULT_SHARD_BITS);
    assert_eq!(resolve_shard_bits(Some(9)), 9);
    assert_eq!(
        resolve_shard_bits(Some(MAX_SHARD_BITS as i64)),
        MAX_SHARD_BITS
    );
    assert_eq!(resolve_shard_bits(Some(0)), 1);
    assert_eq!(resolve_shard_bits(Some(-5)), 1);
    assert_eq!(resolve_shard_bits(Some(1_000)), MAX_SHARD_BITS);
}

#[test]
fn routing_honors_a_non_default_count() {
    let owner = [3u8; 32];
    for bits in [1u32, 9, MAX_SHARD_BITS] {
        let count = 1u64 << bits;
        assert_eq!(shard_count(bits), count);
        for name in ["a", "app", "guestbook2", "x-y-z", "verylongprogramname"] {
            let s = shard_of(&owner, name, bits);
            assert!(s < count, "shard {s} must be < {count} at bits={bits}");
            let h = Cid::of(&[owner.as_slice(), name.as_bytes()].concat()).0;
            let full = u64::from_le_bytes(h[..8].try_into().unwrap());
            assert_eq!(s, full & (count - 1), "route by the low {bits} bits");
        }
    }
    let uses_high = (0..2000).any(|i| shard_of(&[9u8; 32], &format!("k{i}"), 9) >= 256);
    assert!(uses_high, "a 512-shard count must populate shards >= 256");
}

#[test]
fn resolve_cache_serves_fresh_expires_isolates_and_invalidates() {
    let mut c = ResolveCache::new();
    let owner = [1u8; 32];
    let entry = ([9u8; 32], 7u64);

    c.put(RT_PROGRAM, owner, "app", entry, 1_000);
    assert_eq!(c.get(RT_PROGRAM, &owner, "app", 1_500), Some(entry));
    let expiry = 1_000 + RESOLVE_CACHE_TTL_MS;
    assert_eq!(c.get(RT_PROGRAM, &owner, "app", expiry), None);

    c.put(RT_PROGRAM, owner, "app", entry, 1_000);
    assert_eq!(c.get(RT_PROGRAM, &owner, "other", 1_100), None);
    assert_eq!(c.get(RT_DBROOT, &owner, "app", 1_100), None);
    assert_eq!(c.get(RT_PROGRAM, &[2u8; 32], "app", 1_100), None);

    c.invalidate(RT_PROGRAM, &owner, "app");
    assert_eq!(c.get(RT_PROGRAM, &owner, "app", 1_100), None);
}

#[test]
fn the_memory_lasts_to_the_last_millisecond_before_it_expires() {
    let mut c = ResolveCache::new();
    c.put(RT_PROGRAM, [1; 32], "app", ([9; 32], 7), 0);
    assert_eq!(
        c.get(RT_PROGRAM, &[1; 32], "app", RESOLVE_CACHE_TTL_MS - 1),
        Some(([9; 32], 7))
    );
}

#[test]
fn the_writer_changes_a_grace_after_the_epoch_does() {
    assert_eq!(effective_epoch(EPOCH_MILLIS), 0);
    assert_eq!(effective_epoch(EPOCH_MILLIS + GRACE_MILLIS - 1), 0);
    assert_eq!(effective_epoch(EPOCH_MILLIS + GRACE_MILLIS), 1);
    assert_eq!(effective_epoch(0), 0);
}

#[test]
fn replicas_do_not_depend_on_the_order_of_the_census() {
    let sk = key(RT_PROGRAM, 8, 17);
    let forth = ids(9);
    let mut back = forth.clone();
    back.reverse();
    let a = replicas(sk, &forth);
    assert_eq!(a, replicas(sk, &back));
    assert_eq!(a.len(), REPLICATION_FACTOR);
    let distinct: HashSet<[u8; 32]> = a.iter().copied().collect();
    assert_eq!(distinct.len(), 3);
    // The replicas outlast the epoch.
    for eff in 0..20 {
        assert!(a.contains(&writer_of(sk, &forth, eff, [1; 32])));
    }
    // Where nobody is eligible the node writes itself.
    assert!(replicas(sk, &[]).is_empty());
    assert_eq!(writer_of(sk, &[], 5, [42; 32]), [42; 32]);
}

#[test]
fn a_small_census_holds_every_shard_on_every_node() {
    for shard in 0..8 {
        let sk = key(RT_PROGRAM, 3, shard);
        for id in ids(3) {
            assert!(is_replica(sk, &ids(3), &id));
            let others = peers_of(sk, &ids(3), &id);
            assert_eq!(others.len(), 2);
            assert!(!others.contains(&id));
        }
    }
}

#[test]
fn reads_try_the_writer_first() {
    let census = ids(9);
    let sk = key(RT_DBROOT, 8, 3);
    let stranger = [99; 32];
    let targets = read_targets(sk, &census, 4, &stranger);
    assert_eq!(targets[0], writer_of(sk, &census, 4, stranger));
    let all: HashSet<[u8; 32]> = targets.iter().copied().collect();
    let reps: HashSet<[u8; 32]> = replicas(sk, &census).into_iter().collect();
    assert_eq!(all, reps);
}

#[test]
fn the_index_of_held_shards_survives_encoding() {
    let mut index = HeldIndex::new();
    assert!(index.add(key(RT_PROGRAM, 8, 5)));
    assert!(index.add(key(RT_DBROOT, 8, 300)));
    assert!(index.add(key(RT_PROGRAM, 9, 5)));
    assert!(!index.add(key(RT_PROGRAM, 8, 5)));
    let raw = index.encode();
    let again = HeldIndex::load(&raw);
    assert!(again.contains(&key(RT_PROGRAM, 8, 5)));
    assert!(again.contains(&key(RT_DBROOT, 8, 300)));
    assert!(again.contains(&key(RT_PROGRAM, 9, 5)));
    assert!(!again.contains(&key(RT_MANIFEST, 8, 5)));
    assert_eq!(again.shards(None, 8).len(), 2);
    assert_eq!(again.shards(Some(RT_PROGRAM), 8), vec![key(RT_PROGRAM, 8, 5)]);
    // Three triples: their number, then each as a byte and two variable-length numbers.
    assert_eq!(raw[0], 3);
}

#[test]
fn an_unreadable_index_is_empty_and_an_absent_one_is_rebuilt() {
    assert!(HeldIndex::load(&[255, 255, 255]).shards(None, 8).is_empty());
    assert!(HeldIndex::backfill_needed(&[]));
    let index = HeldIndex::backfill(&[key(RT_PROGRAM, 8, 1), key(RT_PROGRAM, 8, 1)]);
    assert_eq!(index.shards(None, 8), vec![key(RT_PROGRAM, 8, 1)]);
    assert!(!HeldIndex::backfill_needed(&index.encode()));
}

#[test]
fn a_dropped_generation_leaves_the_others() {
    let mut index = HeldIndex::new();
    index.add(key(RT_PROGRAM, 8, 5));
    index.add(key(RT_PROGRAM, 9, 6));
    assert_eq!(index.forget_generation(8), vec![key(RT_PROGRAM, 8, 5)]);
    assert!(!index.contains(&key(RT_PROGRAM, 8, 5)));
    assert!(index.contains(&key(RT_PROGRAM, 9, 6)));
}

#[test]
fn a_new_shard_count_is_swept_into_then_the_old_one_dropped() {
    let mut r = Resharding::new();
    // Fresh node: the count is recorded.
    assert_eq!(r.reshard_round(8, None), vec![ReshardStep::Record(8)]);
    assert!(r.reshard_round(8, Some(8)).is_empty());
    // The count grows.
    assert_eq!(
        r.reshard_round(9, Some(8)),
        vec![ReshardStep::Sweep { from: 8, to: 9 }, ReshardStep::Record(9)]
    );
    let mut dropped = Vec::new();
    let mut ticks = 0;
    while dropped.is_empty() && ticks < 100 {
        ticks += 1;
        dropped = r.reshard_round(9, Some(9));
        dropped.retain(|s| matches!(s, ReshardStep::Drop(_)));
    }
    assert_eq!(dropped, vec![ReshardStep::Drop(8)]);
    assert!(ticks <= DRAIN_TICKS + 1 && ticks >= DRAIN_TICKS - 1);
}

#[test]
fn the_recorded_shard_count_reads_back() {
    for bits in [0u32, 1, 8, 12, u32::MAX] {
        assert_eq!(load_gen(&save_gen(bits)), Some(bits));
    }
    assert_eq!(load_gen(&[1, 2, 3]), None);
    assert_eq!(load_gen(&[]), None);
}

#[test]
fn a_settled_census_migrates_once() {
    let mut w = CensusWatch::new();
    let a = census_digest(&ids(3));
    let b = census_digest(&ids(4));
    assert_ne!(a, b);
    let mut turned = ids(3);
    turned.reverse();
    assert_eq!(a, census_digest(&turned));
    let mut fired = Vec::new();
    for tick in 0..8 {
        if w.observe(a) {
            fired.push(tick);
        }
    }
    assert_eq!(fired.len(), 1);
    let mut again = 0;
    for _ in 0..8 {
        if w.observe(b) {
            again += 1;
        }
    }
    assert_eq!(again, 1);
}

#[test]
fn a_submission_needs_a_signature_and_a_short_name() {
    let sub = |name: &str| HeadSubmission {
        owner: [1; 32],
        name: name.to_string(),
        cid: [2; 32],
        version: 3,
    };
    let e = check_submission(&sub("app"), true).unwrap();
    assert_eq!((e.owner, e.name.as_str(), e.cid, e.version), ([1; 32], "app", [2; 32], 3));
    match check_submission(&sub("app"), false) {
        Err(e) => assert!(matches!(e, SubmitError::BadSignature)),
        Ok(_) => panic!("unsigned"),
    }
    assert!(check_submission(&sub(&"n".repeat(32)), true).is_ok());
    assert!(check_submission(&sub(&"\u{e9}".repeat(20)), true).is_ok());
    assert!(check_submission(&sub(&"\u{e9}".repeat(33)), true).is_err());
    match check_submission(&sub(&"n".repeat(33)), true) {
        Err(e) => assert!(matches!(e, SubmitError::NameTooLong)),
        Ok(_) => panic!("too long"),
    }
}

#[test]
fn an_answer_to_a_forwarded_write_is_read() {
    assert_eq!(forwarded(RegistryResp::SubmitAck([4; 32])).unwrap(), [4; 32]);
    assert!(matches!(
        forwarded(RegistryResp::Refused("no".to_string())),
        Err(RegisterError::Rejected(s)) if s == "no"
    ));
    assert!(matches!(
        forwarded(RegistryResp::Ack),
        Err(RegisterError::Unexpected)
    ));
    assert_eq!(reported_version(&Some(RegistryResp::Version(9))), 9);
    assert_eq!(reported_version(&Some(RegistryResp::Ack)), 0);
    assert_eq!(reported_version(&None), 0);
    assert_eq!(next_version(9), 10);
}

#[test]
fn a_name_is_looked_up_at_neighbouring_counts_too() {
    assert_eq!(generations_to_try(8)[0], 8);
    let mut list = generations_to_try(8);
    list.sort();
    assert_eq!(list, vec![7, 8, 9]);
}

#[test]
fn a_lookup_asks_every_holder() {
    let census = ids(9);
    let sk = key(RT_PROGRAM, 8, shard_of(&[1; 32], "app", 8));
    let list = lookups(RT_PROGRAM, 8, &[1; 32], "app", &census, 0, &[99; 32]);
    let asked: HashSet<[u8; 32]> = list.iter().filter_map(|l| l.node).collect();
    let holders: HashSet<[u8; 32]> = replicas(sk, &census).into_iter().collect();
    assert_eq!(asked, holders);
    for l in &list {
        assert_eq!(l.sk, sk);
    }
}

#[test]
fn an_address_is_found_with_the_members_first() {
    let known = addr_of(
        &[1; 32],
        Some(peer(1, "member")),
        &[peer(1, "active")],
        &[peer(1, "dead")],
    );
    assert_eq!(known.unwrap().text, "member");
    assert_eq!(
        addr_of(&[1; 32], None, &[peer(2, "x"), peer(1, "active")], &[])
            .unwrap()
            .text,
        "active"
    );
    assert_eq!(
        addr_of(&[1; 32], None, &[], &[peer(1, "dead")]).unwrap().text,
        "dead"
    );
    assert!(addr_of(&[1; 32], None, &[], &[]).is_none());
}

#[test]
fn the_newest_version_of_a_head_is_listed_once() {
    let mut g = Gathered::new();
    g.absorb(vec![wire(RT_PROGRAM, "a", 2), wire(RT_DBROOT, "a", 1)]);
    g.absorb(vec![wire(RT_PROGRAM, "a", 3), wire(RT_PROGRAM, "b", 1)]);
    g.absorb(vec![wire(RT_PROGRAM, "a", 1)]);
    let mut rows: Vec<(u8, String, u64)> = g
        .into_rows()
        .into_iter()
        .map(|r| (r.rtype, r.name, r.version))
        .collect();
    rows.sort();
    assert_eq!(
        rows,
        vec![
            (RT_PROGRAM, "a".to_string(), 3),
            (RT_PROGRAM, "b".to_string(), 1),
            (RT_DBROOT, "a".to_string(), 1),
        ]
    );
}

#[test]
fn rows_are_grouped_by_kind_and_shown_in_hexadecimal() {
    let e = group_rows(
        vec![
            wire(RT_PROGRAM, "p", 1),
            wire(RT_DBROOT, "d", 2),
            wire(RT_MANIFEST, "m", 3),
            wire(77, "x", 4),
        ],
        5,
    );
    assert_eq!(e.contributors, 5);
    assert_eq!((e.programs.len(), e.dbroots.len(), e.manifests.len()), (1, 1, 2));
    assert_eq!(e.programs[0].owner, "01".repeat(32));
    assert_eq!(e.dbroots[0].cid, "02".repeat(32));
    assert_eq!((e.manifests[1].name.as_str(), e.manifests[1].version), ("x", 4));
}

#[test]
fn a_stored_row_with_a_short_identity_is_left_out() {
    let e = head_entry(&[1; 32], "app", &[2; 32], 7).unwrap();
    assert_eq!((e.owner, e.name.as_str(), e.cid, e.version), ([1; 32], "app", [2; 32], 7));
    assert!(head_entry(&[1; 31], "app", &[2; 32], 7).is_none());
    assert!(head_entry(&[1; 32], "app", &[2; 33], 7).is_none());
    let rows = head_rows(RT_DBROOT, &[e]);
    assert_eq!((rows[0].rtype, rows[0].version), (RT_DBROOT, 7));
}

#[test]
fn the_status_counts_what_the_node_writes() {
    let me = [1; 32];
    let counts = [
        (key(RT_PROGRAM, 3, 0), 4usize),
        (key(RT_DBROOT, 3, 1), 5),
        (key(RT_MANIFEST, 3, 2), 6),
    ];
    let r = HeadRegistry::open(me, &[], 0);
    let s = r.status(&counts, &[me], 0, 3);
    assert_eq!((s.epoch, s.eligible, s.shard_count), (0, 1, 8));
    assert_eq!((s.program_heads, s.dbroots, s.manifests), (4, 5, 6));
    let nobody = r.status(&counts, &[[2; 32]], 0, 3);
    assert_eq!((nobody.program_heads, nobody.dbroots, nobody.manifests), (0, 0, 0));
}

#[test]
fn the_summary_names_the_joint_state() {
    let (n, root) = HeadRegistry::summary(&[(2, [1; 32]), (3, [2; 32])]);
    assert_eq!(n, 5);
    assert_eq!(root.len(), 64);
    assert_ne!(root, HeadRegistry::summary(&[(3, [2; 32]), (2, [3; 32])]).1);
}

#[test]
fn a_node_is_ready_once_the_census_has_settled() {
    let mut s = Settling::new(1_000);
    s.look(3, 2_000);
    s.look(4, 3_000);
    s.look(4, 3_000 + READY_STABLE_MS - 1);
    assert!(!s.ready);
    s.look(4, 3_000 + READY_STABLE_MS);
    assert!(s.ready);
    // Once ready, always ready.
    s.look(9, 3_001 + READY_STABLE_MS);
    assert!(s.ready);
    let mut alone = Settling::new(0);
    alone.look(1, READY_MAX_MS - 1);
    assert!(!alone.ready);
    alone.look(1, READY_MAX_MS);
    assert!(alone.ready);
    assert!(Settling::new(0).holds_back(READY_WAIT_MS - 1));
    assert!(!Settling::new(0).holds_back(READY_WAIT_MS));
}

#[test]
fn a_tally_counts_each_shard_by_itself() {
    let mut t = ShardTally::new();
    assert_eq!(t.get(&key(0, 8, 1)), 0);
    t.set(key(0, 8, 1), 5);
    t.set(key(0, 8, 2), 6);
    t.set(key(0, 8, 1), 7);
    assert_eq!((t.get(&key(0, 8, 1)), t.get(&key(0, 8, 2))), (7, 6));
}

#[test]
fn a_write_goes_to_the_writer() {
    let me = [1; 32];
    let r = HeadRegistry::open(me, &[], 0);
    match r.register(RT_PROGRAM, "app", 8, &[me], 0) {
        WriteRoute::Local(sk) => assert_eq!(sk, key(RT_PROGRAM, 8, shard_of(&me, "app", 8))),
        WriteRoute::Forward { .. } => panic!("the only node writes itself"),
    }
    match r.register(RT_PROGRAM, "app", 8, &[[2; 32]], 0) {
        WriteRoute::Forward { writer, .. } => assert_eq!(writer, [2; 32]),
        WriteRoute::Local(_) => panic!("another node writes"),
    }
}

#[test]
fn a_write_forgets_what_was_remembered_of_the_name() {
    let me = [1; 32];
    let mut r = HeadRegistry::open(me, &[], 0);
    let other = [[2; 32]];
    let head = ([9; 32], 4);
    r.resolved(RT_PROGRAM, &me, "app", 8, 8, head, &other, 1_000);
    assert_eq!(r.remembered(RT_PROGRAM, &me, "app", 8, &other, 1_001), Some(head));
    r.registered(RT_PROGRAM, "app");
    assert_eq!(r.remembered(RT_PROGRAM, &me, "app", 8, &other, 1_001), None);
}

#[test]
fn requests_are_planned_and_shed() {
    let me = [1; 32];
    let r = HeadRegistry::open(me, &[], 0);
    let get = RegistryReq::GetState {
        rtype: RT_PROGRAM,
        bits: 8,
        shard: 5,
    };
    assert!(matches!(
        r.serve(&get, &None, true, false),
        ServePlan::Snapshot(sk) if sk == key(RT_PROGRAM, 8, 5)
    ));
    let resolve = RegistryReq::Resolve {
        rtype: RT_DBROOT,
        bits: 8,
        owner: [3; 32],
        name: "db".to_string(),
    };
    match r.serve(&resolve, &None, true, false) {
        ServePlan::LookUp { sk, owner, name } => {
            assert_eq!(sk, key(RT_DBROOT, 8, shard_of(&[3; 32], "db", 8)));
            assert_eq!((owner, name.as_str()), ([3; 32], "db"));
        }
        other => panic!("expected a lookup, got {other:?}"),
    }
    let push = RegistryReq::PushState {
        rtype: RT_PROGRAM,
        bits: 8,
        shard: 5,
        state: vec![1],
    };
    assert!(matches!(
        r.serve(&push, &None, true, true),
        ServePlan::Reply(RegistryResp::Refused(s)) if s == "busy \u{2014} memory pressure"
    ));
    assert!(matches!(
        r.serve(&push, &None, true, false),
        ServePlan::Merge(sk) if sk == key(RT_PROGRAM, 8, 5)
    ));
    assert!(matches!(
        r.serve(&RegistryReq::ListEntries, &None, true, false),
        ServePlan::List
    ));
}

#[test]
fn a_writer_catches_up_once_an_epoch() {
    let me = [1; 32];
    let census = ids(3);
    let mut r = HeadRegistry::open(me, &[], 0);
    let sk = key(RT_PROGRAM, 8, 0);
    // In the first epoch there is nothing to catch up with.
    assert!(r.ensure_current(sk, &census, 0).is_none());
    let epoch = (1..100)
        .find(|e| writer_of(sk, &census, *e, me) == me)
        .unwrap();
    let now = epoch * EPOCH_MILLIS + GRACE_MILLIS;
    assert_eq!(
        r.ensure_current(sk, &census, now).unwrap(),
        peers_of(sk, &census, &me)
    );
    r.current(sk, now);
    assert!(r.ensure_current(sk, &census, now).is_none());
    let idle = (1..100)
        .find(|e| writer_of(sk, &census, *e, me) != me)
        .unwrap();
    let fresh = HeadRegistry::open(me, &[], 0);
    assert!(fresh
        .ensure_current(sk, &census, idle * EPOCH_MILLIS + GRACE_MILLIS)
        .is_none());
}

#[test]
fn a_shard_that_was_written_meanwhile_is_pushed_again() {
    let mut r = HeadRegistry::open([1; 32], &[], 0);
    let sk = key(RT_PROGRAM, 8, 0);
    let seen = r.dirty.get(&sk);
    assert!(!r.rewritten(&sk, seen));
    r.touch(sk);
    assert!(r.rewritten(&sk, seen));
    assert_eq!(r.dirty.get(&sk), seen + 1);
}

#[test]
fn a_search_asks_memory_and_then_every_holder_at_three_counts() {
    let me = [99; 32];
    let census = ids(9);
    let mut r = HeadRegistry::open(me, &[], 0);
    let list = match r.resolve_entry(RT_PROGRAM, &[1; 32], "app", 8, &census, 0) {
        Search::Look(list) => list,
        Search::Known(_) => panic!("nothing is remembered yet"),
    };
    assert_eq!(list.len(), 9);
    let counts: Vec<u32> = list.iter().map(|l| l.sk.bits).collect();
    assert_eq!(counts, vec![8, 8, 8, 7, 7, 7, 9, 9, 9]);
    let head = ([9; 32], 4);
    r.resolved(RT_PROGRAM, &[1; 32], "app", 8, 8, head, &census, 1_000);
    match r.resolve_entry(RT_PROGRAM, &[1; 32], "app", 8, &census, 1_001) {
        Search::Known(h) => assert_eq!(h, head),
        Search::Look(_) => panic!("it is remembered"),
    }
    // What was found at another count is not remembered.
    r.resolved(RT_PROGRAM, &[1; 32], "b", 8, 9, head, &census, 1_000);
    assert!(matches!(
        r.resolve_entry(RT_PROGRAM, &[1; 32], "b", 8, &census, 1_001),
        Search::Look(_)
    ));
}

#[test]
fn a_holder_reads_its_own_copy_first() {
    let me = [1; 32];
    let r = HeadRegistry::open(me, &[], 0);
    match r.resolve_entry(RT_PROGRAM, &[1; 32], "app", 8, &ids(3), 0) {
        Search::Look(list) => {
            assert!(list[0].node.is_none());
            assert!(list.iter().all(|l| l.node != Some(me)));
        }
        Search::Known(_) => panic!("nothing is remembered"),
    }
    assert!(matches!(
        r.current_version(RT_PROGRAM, &[5; 32], "app", 8, &[me], 0),
        WriteRoute::Local(_)
    ));
}

#[test]
fn the_global_listing_counts_those_that_answered() {
    let e = HeadRegistry::entries_global(
        vec![wire(RT_PROGRAM, "a", 1)],
        vec![
            Some(vec![wire(RT_PROGRAM, "a", 5), wire(RT_DBROOT, "d", 1)]),
            None,
            Some(vec![]),
        ],
    );
    assert_eq!(e.contributors, 3);
    assert_eq!((e.programs.len(), e.dbroots.len()), (1, 1));
    assert_eq!(e.programs[0].version, 5);
    assert_eq!(HeadRegistry::entries(vec![wire(RT_PROGRAM, "a", 1)]).contributors, 1);
}

#[test]
fn a_request_waits_for_the_census_but_not_for_ever() {
    let mut r = HeadRegistry::open([1; 32], &[], 0);
    assert!(r.wait_ready(0));
    assert!(!r.wait_ready(READY_WAIT_MS));
    r.observe_eligible(3, 1_000);
    r.observe_eligible(3, 1_000 + READY_STABLE_MS);
    assert!(!r.wait_ready(0));
    assert_eq!(version_of(&Some(([1; 32], 6))), 6);
    assert_eq!(version_of(&None), 0);
}

#[test]
fn a_settled_census_hands_shards_on() {
    let mut r = HeadRegistry::open([1; 32], &[], 0);
    let fired = (0..8).filter(|_| r.migrate_round(&ids(3))).count();
    assert_eq!(fired, 1);
    let sk = key(RT_PROGRAM, 8, 1);
    assert_eq!(r.replicate(sk, &ids(3)), peers_of(sk, &ids(3), &[1; 32]));
    let list = r.resolve_at_bits(RT_PROGRAM, 8, &[4; 32], "x", &ids(3), 0);
    assert_eq!(list.len(), 3);
}

#[test]
fn a_grown_count_is_followed_by_the_registry() {
    let mut r = HeadRegistry::open([1; 32], &[], 0);
    assert_eq!(
        r.reshard_round(9, Some(8)),
        vec![ReshardStep::Sweep { from: 8, to: 9 }, ReshardStep::Record(9)]
    );
    let me = [1; 32];
    r.held.add(key(RT_PROGRAM, 9, 3));
    r.held.add(key(RT_DBROOT, 8, 3));
    assert_eq!(r.listed(None, 9, &[me], 0), vec![key(RT_PROGRAM, 9, 3)]);
    assert!(r.listed(Some(RT_DBROOT), 9, &[me], 0).is_empty());
}

#[test]
fn writers_take_turns() {
    let sk = key(RT_PROGRAM, 8, 17);
    let census = ids(9);
    let holders: HashSet<[u8; 32]> = replicas(sk, &census).into_iter().collect();
    for e in [0u64, 7, 1_000_000] {
        let turns: Vec<[u8; 32]> = (e..e + 3)
            .map(|eff| writer_of(sk, &census, eff, [1; 32]))
            .collect();
        let once: HashSet<[u8; 32]> = turns.iter().copied().collect();
        assert_eq!(once, holders);
        assert_eq!(writer_of(sk, &census, e + 3, [1; 32]), turns[0]);
    }
}

#[test]
fn the_index_of_held_shards_has_a_fixed_form() {
    let mut index = HeldIndex::new();
    assert_eq!(index.encode(), vec![0]);
    index.add(key(2, 8, 300));
    assert_eq!(index.encode(), vec![1, 2, 8, 0xac, 0x02]);
    let again = HeldIndex::load(&[1, 2, 8, 0xac, 0x02]);
    assert!(again.contains(&key(2, 8, 300)));
    assert_eq!(again.shards(None, 8).len(), 1);
}

#[test]
fn pushing_a_shard_is_tried_for_a_while() {
    assert_eq!(push_retry(0, false, PUSH_AGAIN_MS), Some(200));
    assert_eq!(push_retry(24, false, 7), Some(7));
    assert_eq!(push_retry(25, false, 7), None);
    assert_eq!(push_retry(3, true, 7), None);
}
