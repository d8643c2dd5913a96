use zeph::bytes::NodeId;
use zeph::cli::{
    gov_proposal, invoke_label, plural, resolve_target, trunc, Proposal, ProposalArgs,
};
use zeph::config::{
    parse_governors, reach_of, relays_text, seed_id, with_seeds, Config, Reach, RunArgs,
};
use zeph::content::{name_step, LocalContent, NameStep};
use zeph::membership::member::PeerAddr;
use zeph::parse::{parse32, parse_i64, parse_u64, split, split_once, trim, word_after_first};
use zeph::resources::{cgroup_path, grant, limit_file, memory_limit, resident_bytes};
use zeph::scan::{
    scanned_ago, verdict, wave_drained, Pace, ScanQueue, ScanStart, ScanStep, Verdict,
};
use zeph::sql::{
    apps_add_sql, hexlit, owned_add_sql, owned_remove_sql, push_integer, sql_esc, textlit,
    upsert_sql, CREATE_HEADS,
};
use zeph::headreg::shard::HeadEntry;

#[test]
fn the_scan_takes_the_earliest_first() {
    let mut q = ScanQueue::new();
    assert_eq!(q.step(0), ScanStep::Wait(500));
    q.again([2; 32], 3, 1_000);
    q.again([1; 32], 1, 1_000);
    q.again([0; 32], 3, 1_000);
    assert_eq!(q.step(1_000), ScanStep::Wait(1_000));
    assert_eq!(q.step(1_600), ScanStep::Wait(400));
    assert_eq!(q.step(2_000), ScanStep::Take);
    let order: Vec<u8> = (0..3).map(|_| q.pop().unwrap().cid[0]).collect();
    assert_eq!(order, vec![1, 0, 2]);
    assert!(q.pop().is_none());
}

#[test]
fn the_first_backlog_drips_and_later_content_is_due_at_once() {
    let mut q = ScanQueue::new();
    q.feed(&[[1; 32], [2; 32], [1; 32]], true, 10_000, 30);
    assert_eq!(q.items.len(), 2);
    assert_eq!((q.items[0].due_ms, q.items[1].due_ms), (10_100, 10_200));
    q.feed(&[[1; 32], [3; 32]], false, 20_000, 30);
    assert_eq!(q.items.len(), 3);
    assert_eq!(q.items[2].due_ms, 20_000);
    assert_eq!(q.seen.len(), 3);
    assert_eq!(q.depth(10_100), (3, 1));
    assert_eq!(q.next_secs(&[3; 32], 15_000), Some(5));
    assert_eq!(q.next_secs(&[3; 32], 25_000), Some(0));
    assert_eq!(q.next_secs(&[9; 32], 0), None);
}

#[test]
fn healthy_content_waits_twice_as_long_each_time() {
    let pace = Pace::new(30);
    assert_eq!((pace.min_secs, pace.max_secs), (30, 1_920));
    assert_eq!(pace.stale_ceiling(), 7_680);
    assert_eq!(pace.backed_off(30, 1), 60);
    assert_eq!(pace.backed_off(30, 5), 150);
    assert_eq!(pace.backed_off(30, 99), 480);
    assert_eq!(pace.backed_off(1_000, 1), 1_920);
    assert_eq!(pace.next_delay(1_000, true, 1), 30);
    assert_eq!(Pace::new(0).min_secs, 1);
    assert_eq!(Pace::new(u64::MAX).max_secs, u64::MAX);
}

#[test]
fn content_that_is_gone_is_no_longer_tracked() {
    let pace = Pace::new(30);
    let mut q = ScanQueue::new();
    q.feed(&[[1; 32], [2; 32]], false, 0, 30);
    let item = q.pop().unwrap();
    q.scanned(item, true, false, &pace, 1, 1_000);
    assert_eq!(q.items.len(), 2);
    let back = q.items.iter().find(|i| i.cid == [1; 32]).unwrap();
    assert_eq!((back.due_ms, back.delay_secs), (61_000, 60));
    let item = q.pop().unwrap();
    assert_eq!(item.cid, [2; 32]);
    q.scanned(item, false, false, &pace, 1, 1_000);
    assert_eq!(q.seen, vec![[1; 32]]);
    let item = q.pop().unwrap();
    q.passed_over(item, &pace, 3, 0);
    assert_eq!(q.items[0].delay_secs, 120);
}

#[test]
fn scans_begin_once_the_view_has_settled() {
    let mut s = ScanStart::new(0);
    assert!(!s.look(3, 5, 1_000));
    assert!(!s.look(3, 6, 5_000));
    assert!(!s.look(3, 6, 14_999));
    assert!(s.look(3, 6, 15_000));
    let mut alone = ScanStart::new(0);
    assert!(!alone.look(0, 0, 50_000));
    assert!(alone.look(0, 0, 90_000));
    assert!(wave_drained(31, 0));
    assert!(!wave_drained(32, 300_000));
    assert!(wave_drained(32, 300_001));
}

#[test]
fn the_condition_of_content_is_named() {
    assert_eq!(verdict(true, true, 0, 0, 0), Verdict::AtRisk);
    assert_eq!(verdict(false, true, 0, 0, 0).name(), "fading");
    assert_eq!(verdict(false, false, 0, 9, 1).name(), "pending");
    assert_eq!(verdict(false, false, 1, 10, 8).name(), "durable");
    assert_eq!(verdict(false, false, 1, 11, 8).name(), "surplus");
    assert_eq!(verdict(false, false, 1, 44, 40).name(), "durable");
    assert_eq!(verdict(false, false, 1, 46, 40).name(), "surplus");
    assert_eq!(verdict(false, false, 1, 9, 0).name(), "durable");
    assert_eq!(scanned_ago(0, 5_000), None);
    assert_eq!(scanned_ago(1_000, 5_999), Some(4));
    assert_eq!(scanned_ago(9_000, 5_000), Some(0));
}

#[test]
fn chosen_content_is_listed_and_the_rest_counted() {
    let c = |n: u8| [n; 32];
    let store = LocalContent {
        held: vec![c(1), c(2), c(3), c(4), c(5)],
        pinned: vec![c(1), c(5), c(8)],
        wanted: vec![c(2), c(9)],
        banned: vec![c(7), c(9)],
        system: vec![c(5)],
    };
    let mut curated = store.curated();
    curated.sort();
    assert_eq!(curated, vec![c(1), c(2), c(7), c(9)]);
    assert_eq!(store.hosting(), 2);
    let listed = store.listed(&curated, &vec![c(1), c(7)]);
    assert_eq!(listed, vec![c(2), c(7), c(9)]);
}

#[test]
fn names_are_fetched_sparingly() {
    assert_eq!(name_step(Some(65_537), false, true, 0), NameStep::Skip);
    assert_eq!(name_step(Some(65_536), false, true, 9), NameStep::Local);
    assert_eq!(name_step(None, true, true, 0), NameStep::Skip);
    assert_eq!(name_step(None, false, false, 3), NameStep::Fetch);
    assert_eq!(name_step(None, false, false, 4), NameStep::Later);
}

#[test]
fn memory_is_read_out_of_the_system_files() {
    assert_eq!(
        cgroup_path("1:x:/a\n0::/user.slice/b \n").unwrap(),
        "/user.slice/b"
    );
    assert_eq!(cgroup_path("0::/\r\n").unwrap(), "/");
    assert!(cgroup_path("10::/a\n").is_none());
    assert_eq!(limit_file("/a"), "/sys/fs/cgroup/a/memory.max");
    assert_eq!(memory_limit("1048576\n"), Some(1_048_576));
    assert_eq!(memory_limit("max\n"), None);
    assert_eq!(resident_bytes("100 7 3 0\n"), Some(28_672));
    assert_eq!(resident_bytes("100"), None);
    assert_eq!(resident_bytes("100 x"), None);
    assert_eq!(resident_bytes("1 18446744073709551615"), None);
}

#[test]
fn less_is_taken_on_under_pressure() {
    assert_eq!(grant(true, true, true, 9, 4), 0);
    assert_eq!(grant(false, true, true, 9, 4), 1);
    assert_eq!(grant(false, true, true, 0, 4), 0);
    assert_eq!(grant(false, true, false, 9, 4), 0);
    assert_eq!(grant(false, false, false, 9, 4), 4);
    assert_eq!(grant(false, false, false, 2, 4), 2);
}

fn nothing() -> ProposalArgs {
    ProposalArgs {
        add: None,
        remove: None,
        threshold: None,
        set_program: None,
        set_config: None,
    }
}

#[test]
fn a_proposal_is_read_off_the_command_line() {
    let args = ProposalArgs {
        add: Some("a".to_string()),
        threshold: Some(3),
        ..nothing()
    };
    assert!(matches!(gov_proposal(args), Ok(Proposal::Add(h)) if h == "a"));
    let args = ProposalArgs {
        set_program: Some("n=c=d".to_string()),
        ..nothing()
    };
    match gov_proposal(args).unwrap() {
        Proposal::SetProgram { name, cid } => assert_eq!((name.as_str(), cid.as_str()), ("n", "c=d")),
        other => panic!("expected a program, got {other:?}"),
    }
    let args = ProposalArgs {
        set_config: Some("shard_bits= -9".to_string()),
        ..nothing()
    };
    match gov_proposal(args).unwrap() {
        Proposal::SetConfig { key, value } => assert_eq!((key.as_str(), value), ("shard_bits", -9)),
        other => panic!("expected a value, got {other:?}"),
    }
    let err = |args| gov_proposal(args).unwrap_err();
    assert_eq!(
        err(nothing()),
        "give one of --add/--remove/--threshold/--set-program/--set-config"
    );
    assert_eq!(
        err(ProposalArgs {
            set_program: Some("n".to_string()),
            ..nothing()
        }),
        "--set-program name=cid"
    );
    assert_eq!(
        err(ProposalArgs {
            set_config: Some("k".to_string()),
            ..nothing()
        }),
        "--set-config key=value"
    );
    assert_eq!(
        err(ProposalArgs {
            set_config: Some("k=v".to_string()),
            ..nothing()
        }),
        "--set-config value must be an integer"
    );
}

#[test]
fn short_texts_for_the_terminal() {
    assert_eq!(trunc("h\u{e9}llo", 3), "h\u{e9}l");
    assert_eq!(trunc("ab", 3), "ab");
    assert_eq!((plural(1).as_str(), plural(0).as_str()), ("", "s"));
    assert_eq!(
        resolve_target("ab/c/d"),
        Ok(("ab".to_string(), "c/d".to_string()))
    );
    assert_eq!(
        resolve_target("ab").unwrap_err(),
        "name: bad publisher (expected <hex>/<app>)"
    );
    assert_eq!(invoke_label(Some("n"), Some("a"), None).unwrap(), "n");
    assert_eq!(invoke_label(None, Some("a"), Some("w")).unwrap(), "a");
    assert_eq!(invoke_label(None, None, Some("w")).unwrap(), "app");
    assert_eq!(
        invoke_label(None, Some("a"), None).unwrap_err(),
        "provide --name <app> or --wasm <cid>"
    );
}

#[test]
fn arguments_go_before_the_configuration() {
    let mut c = Config::default();
    assert_eq!((c.reach.as_str(), c.dashboard_port, c.health_scan_secs), ("local", 9945, 30));
    c.peers = vec!["p".to_string()];
    c.apply(RunArgs {
        peers: vec!["q".to_string()],
        reach: Some("relayed".to_string()),
        heartbeat_secs: None,
        listen_port: Some(7),
        dashboard_port: None,
        public_stats_port: None,
        relay_urls: vec![],
        no_fallback_relays: true,
    });
    assert_eq!(c.peers, vec!["p".to_string(), "q".to_string()]);
    assert_eq!((c.reach.as_str(), c.listen_port), ("relayed", 7));
    assert_eq!(c.relay_urls, vec!["https://relay1.zeph.craft.ec".to_string()]);
    assert!(!c.fallback_relays);
    assert!(matches!(reach_of("local"), Ok(Reach::LocalOnly)));
    assert_eq!(
        reach_of("wan").unwrap_err(),
        "invalid reach `wan`: expected \"local\" or \"relayed\""
    );
    assert_eq!(
        relays_text(Reach::Relayed, &["a".to_string(), "b".to_string()], true),
        "a, b + n0 fallback"
    );
    assert_eq!(
        relays_text(Reach::Relayed, &["a".to_string()], false),
        "a (exclusive)"
    );
    assert_eq!(relays_text(Reach::LocalOnly, &[], true), "none (local)");
}

#[test]
fn seeds_join_the_peers_once() {
    let at = |n: u8| PeerAddr {
        id: NodeId([n; 32]),
        text: format!("t{n}"),
    };
    let all = with_seeds(vec![at(1)], &[at(2), at(1), at(2)]);
    let ids: Vec<u8> = all.iter().map(|p| p.id.0[0]).collect();
    assert_eq!(ids, vec![1, 2]);
    assert_eq!(
        parse_governors(&[
            format!(" {} ", "01".repeat(32)),
            "junk".to_string(),
            "02".repeat(32),
        ]),
        vec![[1; 32], [2; 32]]
    );
    assert_eq!(seed_id(&format!("{}@1.2.3.4:5", "03".repeat(32))), Some([3; 32]));
    assert_eq!(seed_id("x@1.2.3.4:5"), None);
}

#[test]
fn quotes_are_doubled_in_statements() {
    assert_eq!(sql_esc("it's"), "it''s");
    assert_eq!(textlit("it's"), "'it''s'");
    assert_eq!(hexlit(&[0xab; 32]), format!("X'{}'", "ab".repeat(32)));
    let mut s = String::new();
    push_integer(&mut s, u64::MAX);
    assert_eq!(s, "-1");
}

#[test]
fn the_newest_version_of_a_head_stays_in_the_database() {
    let db = rusqlite::Connection::open_in_memory().unwrap();
    db.execute_batch(CREATE_HEADS).unwrap();
    let put = |version: u64, cid: u8| {
        db.execute_batch(&upsert_sql(&HeadEntry {
            owner: [1; 32],
            name: "o'app".to_string(),
            cid: [cid; 32],
            version,
        }))
        .unwrap();
    };
    put(2, 20);
    put(1, 10);
    let mut q = db.prepare("SELECT name, cid, version FROM heads").unwrap();
    let (name, cid, version): (String, Vec<u8>, i64) = q
        .query_row([], |r| Ok((r.get(0)?, r.get(1)?, r.get(2)?)))
        .unwrap();
    assert_eq!((name.as_str(), cid, version), ("o'app", vec![20; 32], 2));
    put(3, 30);
    let version: i64 = db
        .query_row("SELECT version FROM heads", [], |r| r.get(0))
        .unwrap();
    assert_eq!(version, 3);
}

#[test]
fn the_index_of_owned_content_is_kept() {
    let db = rusqlite::Connection::open_in_memory().unwrap();
    db.execute_batch(&owned_add_sql("c1", 5)).unwrap();
    db.execute_batch(&owned_add_sql("c1", 9)).unwrap();
    db.execute_batch(&owned_add_sql("c'2", 7)).unwrap();
    let n: i64 = db
        .query_row("SELECT published_at FROM owned WHERE cid = 'c1'", [], |r| {
            r.get(0)
        })
        .unwrap();
    assert_eq!(n, 5);
    db.execute_batch(&owned_remove_sql("c'2")).unwrap();
    let left: i64 = db
        .query_row("SELECT count(*) FROM owned", [], |r| r.get(0))
        .unwrap();
    assert_eq!(left, 1);
    db.execute_batch(&apps_add_sql("a", "x", 1, 10)).unwrap();
    db.execute_batch(&apps_add_sql("a", "y", 2, 20)).unwrap();
    let (cid, version): (String, i64) = db
        .query_row("SELECT cid, version FROM apps", [], |r| {
            Ok((r.get(0)?, r.get(1)?))
        })
        .unwrap();
    assert_eq!((cid.as_str(), version), ("y", 2));
}

#[test]
fn texts_are_taken_apart() {
    assert_eq!(trim("\t a b \u{3000}\n"), "a b");
    assert_eq!(split("a,,b", ','), vec!["a", "", "b"]);
    assert_eq!(split("", ','), vec![""]);
    assert_eq!(
        split_once("a=b=c", '='),
        Some(("a".to_string(), "b=c".to_string()))
    );
    assert_eq!(split_once("abc", '='), None);
    assert_eq!(word_after_first("  a \u{a0} bc d").unwrap(), "bc");
    assert_eq!(parse_u64("+12"), Some(12));
    assert_eq!(parse_u64("18446744073709551615"), Some(u64::MAX));
    assert_eq!(parse_u64("18446744073709551616"), None);
    assert_eq!(parse_u64(""), None);
    assert_eq!(parse_u64("+"), None);
    assert_eq!(parse_i64("-9223372036854775808"), Some(i64::MIN));
    assert_eq!(parse_i64("9223372036854775808"), None);
    assert_eq!(parse_i64("-"), None);
    assert_eq!(parse32(&"0f".repeat(32)), Some([15; 32]));
}

#[test]
fn heads_may_be_written_in_any_order() {
    let left = |versions: &[u64]| -> (Vec<u8>, i64) {
        let db = rusqlite::Connection::open_in_memory().unwrap();
        db.execute_batch(CREATE_HEADS).unwrap();
        for version in versions {
            let head = HeadEntry {
                owner: [1; 32],
                name: "app".to_string(),
                cid: [*version as u8; 32],
                version: *version,
            };
            db.execute_batch(&upsert_sql(&head)).unwrap();
        }
        db.query_row("SELECT cid, version FROM heads", [], |r| {
            Ok((r.get(0)?, r.get(1)?))
        })
        .unwrap()
    };
    for versions in [[1, 2, 3], [3, 2, 1], [2, 3, 1], [3, 1, 2]] {
        assert_eq!(left(&versions), (vec![3; 32], 3));
    }
}
