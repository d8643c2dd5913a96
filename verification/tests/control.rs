use zeph::control::http::{
    api_action, api_deploy, api_invoke, api_sql, app_namespace, authorize, new_token, stored_token,
    token_of,
};
use zeph::control::json::{params_of, read_reply, read_request, reply_of, request_of, Json, Kind, Parsed};
use zeph::control::method::{
    action_of, method_of, CidOp, Method, METHOD_NOT_FOUND, PARSE_ERROR,
};
use zeph::control::params::{
    parse_cid, parse_hex32, parse_hex_bytes, parse_node_id, Field, Params,
};
use zeph::control::publish::{
    deploy_bytes, deploy_version, drive_row, folder_size, guess_mime, DriveItem,
};
use zeph::control::report::{ContentInfo, PeerStatus, Reciprocity};
use zeph::control::request::{
    get_route, invoke_code, invoke_named, owner, parse_app, parse_gov_action, parse_members,
    publish_kind, rpc_anchor_resolve, rpc_attest_bootstrap, rpc_attest_cosign, rpc_attest_propose,
    rpc_attest_status, rpc_attest_submit, rpc_cid_op,
    rpc_deploy, rpc_get, rpc_gov_propose, rpc_gov_sign, rpc_gov_submit, rpc_invoke, rpc_ledger_balance,
    rpc_ledger_claim, rpc_ledger_pay, rpc_ledger_reward_claim, rpc_ledger_settle_epoch,
    rpc_ledger_transfer, rpc_program_resolve, rpc_sql_compact, rpc_sql_recover,
    rpc_program_advance, rpc_publish, rpc_publish_program, rpc_resolve_name, rpc_sequence_log,
    rpc_setmeta, rpc_sql_exec, rpc_sql_query, GetRoute, GovAction, InvokeTarget, PublishKind,
};
use zeph::control::state::{
    anchor_rows, derive_economy, storage_available, tag_streams, ScanResult, State, Storage,
};
use zeph::economy_egress::MyView;

fn text(s: &str) -> Field {
    Field::Text(s.to_string())
}

fn num(n: u64) -> Field {
    Field::Number {
        unsigned: Some(n),
        signed: i64::try_from(n).ok(),
    }
}

fn params(fields: Vec<(&str, Field)>) -> Params {
    Params {
        fields: fields
            .into_iter()
            .map(|(k, v)| (k.to_string(), v))
            .collect(),
    }
}

fn none() -> Params {
    params(vec![])
}

fn hex(n: u8) -> String {
    format!("{n:02x}").repeat(32)
}

#[test]
fn methods_are_known_by_their_names() {
    assert_eq!(method_of(Some("status")), Some(Method::Status));
    assert_eq!(method_of(Some("pin")), Some(Method::CidOp(CidOp::Pin)));
    assert_eq!(
        method_of(Some("delmeta")),
        Some(Method::CidOp(CidOp::DelMeta))
    );
    assert_eq!(method_of(Some("sql_compact")), Some(Method::SqlCompact));
    assert_eq!(method_of(Some("nothing")), None);
    assert_eq!(method_of(None), None);
    assert_eq!(action_of("ban").unwrap().name(), "ban");
    assert_eq!(action_of("delmeta").unwrap_err(), "unknown op delmeta");
}

#[test]
fn a_content_address_is_sixty_four_digits() {
    assert_eq!(parse_cid(&hex(7)), Some([7; 32]));
    assert_eq!(parse_cid(&hex(0xAB).to_uppercase()), Some([0xab; 32]));
    assert_eq!(parse_cid(&hex(7)[1..]), None);
    assert_eq!(parse_cid(&format!(" {}", hex(7))), None);
    assert_eq!(parse_cid(&"zz".repeat(32)), None);
}

#[test]
fn a_node_identity_may_stand_among_white_space() {
    assert_eq!(parse_node_id(&format!("  {}\n", hex(7))), Some([7; 32]));
    assert_eq!(parse_node_id(&hex(7)[2..]), None);
    assert_eq!(parse_node_id(&"g0".repeat(32)), None);
    assert_eq!(parse_node_id(&"+7".repeat(32)), None);
    assert_eq!(parse_node_id(&"Fe".repeat(32)), Some([254; 32]));
}

#[test]
fn hexadecimal_fields_are_read() {
    assert_eq!(parse_hex32(&Some(hex(3))), Ok([3; 32]));
    assert_eq!(parse_hex32(&None), Err("missing hex field".to_string()));
    assert_eq!(
        parse_hex32(&Some("xy".to_string())),
        Err("bad hex".to_string())
    );
    assert_eq!(
        parse_hex32(&Some("00".to_string())),
        Err("expected 32 bytes".to_string())
    );
    assert_eq!(parse_hex_bytes(&Some(" 0aff ".to_string())), Ok(vec![10, 255]));
    assert_eq!(parse_hex_bytes(&Some("  ".to_string())), Ok(vec![]));
    assert_eq!(parse_hex_bytes(&None), Ok(vec![]));
    assert_eq!(
        parse_hex_bytes(&Some("0".to_string())),
        Err("bad hex".to_string())
    );
}

#[test]
fn types_are_guessed_by_the_ending() {
    assert_eq!(guess_mime("a.txt"), "text/plain");
    assert_eq!(guess_mime("a.b.HTM"), "text/html");
    assert_eq!(guess_mime("photo.JpEg"), "image/jpeg");
    assert_eq!(guess_mime("wasm"), "application/wasm");
    assert_eq!(guess_mime("archive.tar"), "application/octet-stream");
    assert_eq!(guess_mime(""), "application/octet-stream");
    assert_eq!(guess_mime("x.svg"), "image/svg+xml");
}

#[test]
fn an_app_name_holds_no_control_character() {
    let d = deploy_bytes("app", b"code").unwrap();
    assert_eq!((d.name.as_str(), d.size), ("app", 4));
    assert_eq!(d.cid, *blake3::hash(b"code").as_bytes());
    for bad in ["", "\u{1}registry-head", "a\nb", "a\u{7f}", "\u{85}"] {
        assert_eq!(
            deploy_bytes(bad, b"code").unwrap_err(),
            "invalid app name (empty or control chars reserved)"
        );
    }
    assert_eq!(deploy_version(&hex(1), 4), 5);
    assert_eq!(deploy_version("nobody", 4), 1);
    assert_eq!(folder_size(&[1, 2, 3]), 6);
}

#[test]
fn the_drive_shows_what_can_be_read() {
    let locked = drive_row(hex(1), 5, DriveItem::Private(None));
    assert_eq!(
        (locked.name.as_str(), locked.size, locked.mime.as_str()),
        ("(locked)", 0, "encrypted")
    );
    assert!(locked.is_private && !locked.is_dir);
    let folder = drive_row(hex(1), 5, DriveItem::Folder("f".to_string(), 9));
    assert_eq!((folder.mime.as_str(), folder.size), ("inode/directory", 9));
    assert!(folder.is_dir && !folder.is_private);
    let gone = drive_row(hex(1), 5, DriveItem::Unavailable);
    assert_eq!((gone.name.as_str(), gone.mime.as_str()), ("(unavailable)", ""));
    let file = drive_row(
        hex(1),
        5,
        DriveItem::File("n".to_string(), 7, "text/plain".to_string()),
    );
    assert_eq!((file.name.as_str(), file.published_at), ("n", 5));
}

#[test]
fn publishing_needs_a_path() {
    assert_eq!(rpc_publish(&none()).unwrap_err(), "publish needs a 'path'");
    let r = rpc_publish(&params(vec![("path", text("/x"))])).unwrap();
    assert_eq!((r.path.as_str(), r.pin, r.private), ("/x", true, false));
    let r = rpc_publish(&params(vec![
        ("path", text("/x")),
        ("pin", Field::Flag(false)),
        ("private", Field::Flag(true)),
    ]))
    .unwrap();
    assert!(!r.pin && r.private);
    assert!(matches!(publish_kind(true, false), Ok(PublishKind::Folder)));
    assert!(matches!(
        publish_kind(false, true),
        Ok(PublishKind::PrivateFile)
    ));
    assert!(matches!(publish_kind(false, false), Ok(PublishKind::File)));
    assert_eq!(
        publish_kind(true, true).unwrap_err(),
        "private publish supports files only (phase 2)"
    );
}

#[test]
fn getting_needs_an_address_and_a_place() {
    assert_eq!(
        rpc_get(&params(vec![("cid", text(&hex(1)))])).unwrap_err(),
        "get needs 'cid' and 'output'"
    );
    assert_eq!(
        rpc_get(&params(vec![("cid", text("1")), ("output", text("/o"))])).unwrap_err(),
        "cid must be 64 hex chars"
    );
    let whole = rpc_get(&params(vec![
        ("cid", text(&hex(1))),
        ("output", text("/o")),
        ("offset", num(3)),
    ]))
    .unwrap();
    assert_eq!((whole.cid, whole.range), ([1; 32], None));
    let part = rpc_get(&params(vec![
        ("cid", text(&hex(1))),
        ("output", text("/o")),
        ("offset", num(3)),
        ("length", num(4)),
    ]))
    .unwrap();
    assert_eq!(part.range, Some((3, 4)));
    assert!(matches!(get_route(true, true, false), GetRoute::PrivateRange));
    assert!(matches!(get_route(true, false, true), GetRoute::PublicRange));
    assert!(matches!(get_route(false, true, true), GetRoute::Private));
    assert!(matches!(get_route(false, false, true), GetRoute::Restore));
    assert!(matches!(get_route(false, false, false), GetRoute::Raw));
}

#[test]
fn the_owner_is_this_node_unless_another_is_named() {
    assert_eq!(owner(&none(), &hex(9)), Ok([9; 32]));
    assert_eq!(
        owner(&params(vec![("owner", text(&hex(2)))]), &hex(9)),
        Ok([2; 32])
    );
    assert_eq!(
        owner(&params(vec![("owner", text("2"))]), &hex(9)),
        Err("owner must be 64 hex chars".to_string())
    );
    assert_eq!(
        owner(&none(), "me"),
        Err("self node id unparseable".to_string())
    );
}

#[test]
fn operations_on_content_need_its_address() {
    assert_eq!(
        rpc_cid_op(&none(), CidOp::Unban).unwrap_err(),
        "unban needs a valid 'cid'"
    );
    assert_eq!(
        rpc_cid_op(&params(vec![("cid", text(&hex(4)))]), CidOp::Pin),
        Ok([4; 32])
    );
    let (_, comment) = rpc_setmeta(&params(vec![
        ("cid", text(&hex(4))),
        ("comment", text("")),
    ]))
    .unwrap();
    assert_eq!(comment, None);
    let (_, comment) = rpc_setmeta(&params(vec![
        ("cid", text(&hex(4))),
        ("comment", text("hi")),
    ]))
    .unwrap();
    assert_eq!(comment, Some("hi".to_string()));
}

#[test]
fn database_requests_name_a_database_and_a_statement() {
    assert_eq!(
        rpc_sql_exec(&params(vec![("ns", text("n"))])).unwrap_err(),
        "sql_exec needs 'ns' and 'sql'"
    );
    assert_eq!(
        rpc_sql_exec(&params(vec![("ns", text("n")), ("sql", text("s"))])),
        Ok(("n".to_string(), "s".to_string()))
    );
    let q = rpc_sql_query(
        &params(vec![("ns", text("n")), ("sql", text("s"))]),
        &hex(8),
    )
    .unwrap();
    assert_eq!((q.owner, q.ns.as_str()), ([8; 32], "n"));
}

#[test]
fn programs_are_published_and_advanced() {
    assert_eq!(
        rpc_publish_program(&none()).unwrap_err(),
        "publish_program needs 'wasm' hex"
    );
    assert_eq!(
        rpc_publish_program(&params(vec![("wasm", text("0"))])).unwrap_err(),
        "bad wasm hex"
    );
    assert_eq!(
        rpc_publish_program(&params(vec![("wasm", text(" 00ff"))])),
        Ok(vec![0, 255])
    );
    let a = rpc_program_advance(&params(vec![
        ("program", text(&hex(1))),
        ("seed", text("aa")),
    ]))
    .unwrap();
    assert_eq!((a.program, a.seed, a.request), ([1; 32], vec![0xaa], vec![]));
    assert_eq!(
        rpc_program_advance(&params(vec![
            ("program", text(&hex(1))),
            ("request", text("x")),
        ]))
        .unwrap_err(),
        "bad request hex"
    );
    assert_eq!(
        rpc_resolve_name(&params(vec![("owner", text("1")), ("name", text("a"))])).unwrap_err(),
        "owner must be 64 hex chars"
    );
}

#[test]
fn ledger_requests_are_read() {
    assert_eq!(rpc_ledger_balance(&none(), &hex(1)), Ok([1; 32]));
    assert_eq!(
        rpc_ledger_balance(&params(vec![("account", text("q"))]), &hex(1)).unwrap_err(),
        "account must be 64 hex chars"
    );
    assert_eq!(rpc_ledger_pay(&none()).unwrap_err(), "pay needs 'amount'");
    assert_eq!(rpc_ledger_pay(&params(vec![("amount", num(3))])), Ok(3));
    assert_eq!(
        rpc_ledger_transfer(&params(vec![("to", text(&hex(2))), ("amount", num(3))])),
        Ok(([2; 32], 3))
    );
    assert_eq!(
        rpc_ledger_claim(&params(vec![("debit_account", text(&hex(2)))])).unwrap_err(),
        "claim needs 'debit_account' (64 hex) and 'debit_nonce'"
    );
    let s = rpc_ledger_settle_epoch(
        &params(vec![("epoch", num(1)), ("pool", num(2)), ("bytes", num(3))]),
        &hex(1),
    )
    .unwrap();
    assert_eq!((s.me, s.epoch, s.pool, s.bytes), ([1; 32], 1, 2, 3));
}

#[test]
fn governance_actions_are_read() {
    assert!(matches!(
        parse_gov_action(&params(vec![
            ("action", text("add")),
            ("governor", text(&hex(1))),
        ])),
        Ok(GovAction::AddGovernor(g)) if g == [1; 32]
    ));
    assert!(matches!(
        parse_gov_action(&params(vec![("action", text("threshold")), ("value", num(2))])),
        Ok(GovAction::SetThreshold(2))
    ));
    assert_eq!(
        parse_gov_action(&params(vec![("action", text("threshold"))])).unwrap_err(),
        "missing value"
    );
    assert_eq!(
        parse_gov_action(&params(vec![("action", text("set_program"))])).unwrap_err(),
        "missing name"
    );
    assert!(matches!(
        parse_gov_action(&params(vec![
            ("action", text("set_config")),
            ("key", text("k")),
            (
                "value",
                Field::Number {
                    unsigned: None,
                    signed: Some(-3),
                },
            ),
        ])),
        Ok(GovAction::SetConfig { value: -3, .. })
    ));
    assert_eq!(
        parse_gov_action(&none()).unwrap_err(),
        "unknown action (add|remove|threshold|set_program|set_config)"
    );
    assert_eq!(
        rpc_gov_propose(&none(), false).unwrap_err(),
        "this node is not a governor"
    );
    assert_eq!(
        rpc_gov_sign(&none()).unwrap_err(),
        "gov_sign needs 'approval' hex"
    );
}

#[test]
fn quorum_requests_are_read() {
    assert_eq!(
        parse_members(&format!("{}, ,{} ,", hex(1), hex(2))),
        Ok(vec![[1; 32], [2; 32]])
    );
    assert_eq!(
        parse_members("00, zz").unwrap_err(),
        "bad member hex: 00"
    );
    let q = rpc_attest_bootstrap(&params(vec![
        ("program", text(&hex(9))),
        ("members", text(&format!("{},{}", hex(1), hex(2)))),
    ]))
    .unwrap();
    assert_eq!((q.members.len(), q.threshold), (2, 2));
    let (program, statement) = rpc_attest_propose(&params(vec![
        ("program", text(&hex(9))),
        ("statement", text("deploy v2")),
    ]))
    .unwrap();
    assert_eq!((program, statement), ([9; 32], b"deploy v2".to_vec()));
    let a = rpc_attest_status(
        &params(vec![
            ("program", text(&hex(9))),
            ("statement", text("x")),
        ]),
        &[4; 32],
    )
    .unwrap();
    assert_eq!(a.owner, [4; 32]);
    assert_eq!(
        rpc_sequence_log(&params(vec![("program", text(&hex(9)))]), &[4; 32]).unwrap_err(),
        "missing hex field"
    );
}

#[test]
fn an_invocation_names_an_anchor_an_app_or_code() {
    let plan = rpc_invoke(
        &params(vec![("anchor", text("token")), ("name", text("x"))]),
        &hex(1),
    )
    .unwrap();
    assert!(matches!(plan.target, InvokeTarget::Anchor(a) if a == "token"));
    assert_eq!(plan.func, "run");
    let plan = rpc_invoke(
        &params(vec![
            ("name", text("notes")),
            ("func", text("go")),
            ("input", text("in")),
        ]),
        &hex(1),
    )
    .unwrap();
    assert_eq!((plan.func.as_str(), plan.input.as_slice()), ("go", b"in".as_slice()));
    let app = match plan.target {
        InvokeTarget::Named { full, app } => {
            assert_eq!(full, "notes");
            app
        }
        other => panic!("expected a name, got {other:?}"),
    };
    assert_eq!((app.publisher, app.name.as_str()), ([1; 32], "notes"));
    let run = invoke_named("notes", &app, &None, &Some([5; 32])).unwrap();
    assert_eq!(
        (run.wasm_cid, run.app_ns.as_str(), run.program_owner),
        ([5; 32], "notes", Some([1; 32]))
    );
    assert_eq!(
        invoke_named("notes", &app, &None, &None).unwrap_err(),
        "app 'notes' not found (deploy it first?)"
    );
    let code = invoke_code([6; 32], &Some("ns".to_string()));
    assert_eq!((code.app_ns.as_str(), code.program_owner), ("ns", None));
    assert_eq!(
        rpc_invoke(&none(), &hex(1)).unwrap_err(),
        "provide 'name' or a 64-hex 'wasm_cid'"
    );
    assert_eq!(
        parse_app("zz/notes", &hex(1)).unwrap_err(),
        "name: bad publisher (expected <hex>/<app>)"
    );
    let other = parse_app(&format!("{}/a/b", hex(2)), &hex(1)).unwrap();
    assert_eq!((other.publisher, other.name.as_str()), ([2; 32], "a/b"));
    assert_eq!(
        rpc_deploy(&none()).unwrap_err(),
        "deploy needs a 'path'"
    );
}

#[test]
fn the_dashboard_wants_its_token() {
    let t = token_of(&[0xab; 32]);
    assert_eq!(t, "ab".repeat(32));
    assert!(authorize(&t, &t).is_ok());
    let fault = authorize("", &t).unwrap_err();
    assert_eq!((fault.code(), fault.message().as_str()), (401, "invalid token"));
    assert_eq!(stored_token(" abc\n"), "abc");
    let (a, b) = (new_token(), new_token());
    assert_eq!(a.len(), 64);
    assert_ne!(a, b);
    assert!(parse_cid(&a).is_some());
}

#[test]
fn dashboard_requests_are_checked_in_order() {
    let bad = api_action("x", "t", "pin", "0").unwrap_err();
    assert_eq!(bad.code(), 401);
    let bad = api_action("t", "t", "pin", "0").unwrap_err();
    assert_eq!((bad.code(), bad.message().as_str()), (400, "bad cid"));
    let bad = api_action("t", "t", "sell", &hex(1)).unwrap_err();
    assert_eq!(bad.message(), "unknown op sell");
    assert_eq!(
        api_action("t", "t", "want", &hex(1)).unwrap(),
        (CidOp::Want, [1; 32])
    );
    let bad = api_invoke("t", "t", &hex(1), "me").unwrap_err();
    assert_eq!((bad.code(), bad.message().as_str()), (500, "self id"));
    let call = api_invoke("t", "t", &hex(1), &hex(2)).unwrap();
    assert_eq!((call.wasm_cid, call.caller), ([1; 32], [2; 32]));
    assert_eq!(api_sql("t", "t", "  ", &hex(2)).unwrap(), [2; 32]);
    assert_eq!(api_sql("t", "t", &hex(3), &hex(2)).unwrap(), [3; 32]);
    assert_eq!(
        api_sql("t", "t", "3", &hex(2)).unwrap_err().message(),
        "bad owner id"
    );
    assert_eq!(app_namespace("notes"), "app.notes");
    assert_eq!(
        api_deploy("t", "t", "n", "").unwrap_err().message(),
        "empty wasm"
    );
    assert_eq!(
        api_deploy("t", "t", "n", "q").unwrap_err().message(),
        "wasm must be hex"
    );
    assert_eq!(
        api_deploy("t", "t", " n ", "00").unwrap(),
        ("n".to_string(), vec![0])
    );
}

fn state() -> State {
    State::new(
        hex(1),
        "local".to_string(),
        "none (local)".to_string(),
        "addr".to_string(),
        1_000,
    )
}

fn peer(n: u8, alive: bool) -> PeerStatus {
    PeerStatus {
        id: hex(n),
        addrs: String::new(),
        alive,
        rtt_us: None,
        skew_ms: None,
        last_seen_unix: None,
        consecutive_failures: 0,
    }
}

#[test]
fn the_feed_keeps_the_last_forty_events() {
    let mut s = state();
    for i in 0..45 {
        s.record_event(format!("event {i}"), if i % 2 == 0 { "even" } else { "odd" });
    }
    let shot = s.snapshot(6_500, &[0; 11], 3);
    assert_eq!(shot.recent_events.len(), 40);
    assert_eq!(shot.recent_events[0], "event 44");
    assert_eq!(shot.recent_events[39], "event 5");
    assert_eq!(shot.uptime_secs, 5);
    assert_eq!(shot.event_stats.total, 45);
    assert_eq!((shot.event_stats.subscribers, shot.event_stats.capacity), (3, 256));
    let even = shot
        .event_stats
        .by_tag
        .iter()
        .find(|(t, _)| t == "even")
        .unwrap();
    assert_eq!(even.1, 23);
}

#[test]
fn coming_and_going_of_peers_is_noticed() {
    let mut s = state();
    let c = s.set_peers(vec![peer(1, true), peer(2, false)], 4, 7);
    assert_eq!((c.connected, c.disconnected), (vec![[1; 32]], vec![]));
    let c = s.set_peers(vec![peer(1, false), peer(2, true)], 4, 8);
    assert_eq!((c.connected, c.disconnected), (vec![[2; 32]], vec![[1; 32]]));
    // A peer that stands in the table twice is told of once.
    let c = s.set_peers(vec![peer(3, true), peer(3, true)], 4, 8);
    assert_eq!((c.connected, c.disconnected), (vec![[3; 32]], vec![[2; 32]]));
    let shot = s.snapshot(0, &[0; 11], 0);
    assert_eq!((shot.census, shot.passive_peers, shot.peers.len()), (8, 4, 2));
    assert_eq!(shot.uptime_secs, 0);
}

#[test]
fn counters_of_the_scan_add_up() {
    let mut s = state();
    let r = |n: u64| ScanResult {
        scanned: n as usize,
        at_risk: 1,
        repaired: n,
        degraded: n,
        fading: 2,
        offloaded: n,
        surplus: 3,
    };
    s.set_scan(r(1));
    s.set_scan(r(5));
    s.add_repaired(10);
    s.set_flow(2, 3);
    s.set_flow(2, 0);
    s.set_scan_queue(9, 4);
    s.set_storage(Storage {
        cids: 1,
        pieces: 2,
        pinned: 3,
        bytes: 4,
    });
    s.set_providing(1);
    s.set_boot_stage("lifecycle-running");
    let shot = s.snapshot(1_000, &[0; 11], 0);
    assert_eq!((shot.health.scanned, shot.health.repaired), (5, 16));
    assert_eq!((shot.health.distributed, shot.health.scaled), (4, 3));
    assert_eq!((shot.health.fading, shot.health.surplus), (2, 3));
    assert_eq!((shot.scan_queue, shot.scan_due), (9, 4));
    assert_eq!(shot.storage.bytes, 4);
    assert_eq!(shot.boot_stage, "lifecycle-running");
}

#[test]
fn streams_are_counted_by_name() {
    let mut counts = [0u64; 11];
    counts[1] = 4;
    counts[7] = 9;
    counts[10] = 1;
    let rows = tag_streams(&counts);
    let mut names: Vec<(String, u64)> = rows;
    names.sort();
    assert_eq!(
        names,
        vec![
            ("cheque".to_string(), 1),
            ("dht".to_string(), 9),
            ("ping".to_string(), 4),
        ]
    );
    assert_eq!(storage_available(10, 4), 6);
    assert_eq!(storage_available(4, 10), 0);
}

#[test]
fn the_economy_is_put_together_from_its_parts() {
    let my = MyView {
        settled_bytes: 1,
        subscription_bytes: 2,
        pool: 3,
        owed: 4,
    };
    let e = derive_economy(
        5,
        my,
        6,
        7,
        (8, 9),
        Reciprocity {
            earned: 10,
            consumed: 11,
        },
        anchor_rows(&None, &None),
    );
    assert_eq!((e.balance, e.reward_owed, e.reward_settled), (5, 4, 1));
    assert_eq!((e.pool, e.pool_total, e.total_supply), (3, 6, 7));
    assert_eq!((e.verified, e.mismatched, e.subscription_bytes), (8, 9, 2));
    assert!(e.anchors.is_empty());
    assert_eq!(e.reciprocity.unwrap().earned, 10);
}

#[test]
fn the_remaining_requests_say_what_they_need() {
    assert_eq!(rpc_sql_compact(&none()).unwrap_err(), "sql_compact needs 'ns'");
    assert_eq!(
        rpc_sql_compact(&params(vec![("ns", text("n"))])),
        Ok("n".to_string())
    );
    assert_eq!(
        rpc_sql_recover(&none(), &hex(1)).unwrap_err(),
        "sql_recover needs 'ns'"
    );
    assert_eq!(
        rpc_sql_recover(&params(vec![("ns", text("n"))]), &hex(1)),
        Ok(([1; 32], "n".to_string()))
    );
    assert_eq!(
        rpc_program_resolve(&params(vec![
            ("program", text(&hex(1))),
            ("seed", text("0")),
        ]))
        .unwrap_err(),
        "bad seed hex"
    );
    assert_eq!(
        rpc_anchor_resolve(&none()).unwrap_err(),
        "anchor_resolve needs a 'name'"
    );
    assert_eq!(
        rpc_ledger_reward_claim(&none()).unwrap_err(),
        "reward_claim needs 'epoch'"
    );
    assert_eq!(
        rpc_ledger_reward_claim(&params(vec![("epoch", num(6))])),
        Ok(6)
    );
    assert_eq!(
        rpc_gov_submit(&params(vec![("approval", text("0"))])).unwrap_err(),
        "bad approval hex"
    );
    assert_eq!(
        rpc_attest_cosign(&none()).unwrap_err(),
        "attest_cosign needs 'attestation' hex"
    );
    assert_eq!(
        rpc_attest_cosign(&params(vec![("attestation", text("0"))])).unwrap_err(),
        "undecodable attestation"
    );
    assert_eq!(
        rpc_attest_submit(&params(vec![("program", text(&hex(1)))])).unwrap_err(),
        "attest_submit needs a decodable 'attestation' hex"
    );
    assert_eq!(
        rpc_attest_submit(&params(vec![
            ("program", text(&hex(1))),
            ("attestation", text("07")),
        ])),
        Ok(([1; 32], vec![7]))
    );
}

#[test]
fn the_content_list_is_reported() {
    let mut s = state();
    s.set_content(vec![ContentInfo {
        cid: hex(1),
        providers: 0,
        pinned: 0,
        pieces: 0,
        wants: 0,
        k: 8,
        floor: 12,
        local_pieces: 3,
        local_pinned: true,
        local_wanted: false,
        local_tombstoned: false,
        name: Some("n".to_string()),
        size: 5,
        is_dir: false,
        mime: None,
        published_at: None,
        publisher: None,
        comment: None,
    }]);
    let shot = s.snapshot(0, &[0; 11], 0);
    assert_eq!(shot.content.len(), 1);
    assert_eq!((shot.content[0].k, shot.content[0].floor), (8, 12));
}

fn json(text: &str, kind: Kind) -> Json {
    Json {
        text: text.to_string(),
        kind,
    }
}

#[test]
fn a_line_is_read_as_a_request() {
    let line = "{\"jsonrpc\":\"2.0\",\"id\":7,\"method\":\"pin\",\"params\":\
        {\"cid\":\"ab\",\"n\":3,\"m\":-4,\"on\":true,\"list\":[1],\"none\":null}}";
    let call = read_request(line).unwrap();
    assert_eq!(call.id.text, "7");
    assert_eq!(call.method, Method::CidOp(CidOp::Pin));
    assert_eq!(call.params.text("cid"), Some("ab".to_string()));
    assert_eq!(call.params.number("n"), Some(3));
    assert_eq!(call.params.signed("m"), Some(-4));
    assert_eq!(call.params.number("m"), None);
    assert_eq!(call.params.flag("on"), Some(true));
    assert_eq!(call.params.text("list"), None);
    assert_eq!(call.params.flag("none"), None);
    assert_eq!(call.params.fields.len(), 6);

    let call = read_request("{\"method\":\"status\"}").unwrap();
    assert_eq!(call.id.text, "null");
    assert_eq!(call.method, Method::Status);
    assert!(call.params.fields.is_empty());
    let call = read_request("{\"id\":[1, 2],\"method\":\"gov\",\"params\":[3]}").unwrap();
    assert_eq!(call.id.text, "[1,2]");
    assert!(call.params.fields.is_empty());
}

#[test]
fn a_line_that_is_no_request_is_refused() {
    let r = read_request("{\"id\":").unwrap_err();
    assert_eq!((r.id.text.as_str(), r.code), ("null", PARSE_ERROR));
    assert!(r.message.starts_with("parse error: "));
    assert!(r.message.len() > "parse error: ".len());
    for line in ["{\"id\":\"x\",\"method\":\"nothing\"}", "{\"id\":\"x\",\"method\":5}", "{\"id\":\"x\"}"] {
        let r = read_request(line).unwrap_err();
        assert_eq!((r.id.text.as_str(), r.code), ("\"x\"", METHOD_NOT_FOUND));
        assert_eq!(r.message, "method not found");
    }
    let r = read_request("[]").unwrap_err();
    assert_eq!((r.id.text.as_str(), r.code), ("null", METHOD_NOT_FOUND));
}

#[test]
fn a_request_is_made_of_what_was_read() {
    let named = |name: &str| ("method".to_string(), json("?", Kind::Text(name.to_string())));
    let number = Kind::Number {
        unsigned: Some(5),
        signed: Some(5),
    };
    let fields = vec![
        ("params".to_string(), json("{}", Kind::Other)),
        named("board"),
        ("id".to_string(), json("5", number)),
    ];
    let q = request_of(Parsed::Object(fields)).unwrap();
    assert_eq!((q.id.text.as_str(), q.method), ("5", Method::Board));
    assert_eq!(q.params.unwrap().text, "{}");
    let r = request_of(Parsed::Broken("why".to_string())).unwrap_err();
    assert_eq!((r.code, r.message.as_str()), (PARSE_ERROR, "parse error: why"));
    assert_eq!(request_of(Parsed::Plain).unwrap_err().code, METHOD_NOT_FOUND);
    let p = params_of(Parsed::Object(vec![named("x")]));
    assert_eq!(p.text("method"), Some("x".to_string()));
    assert!(params_of(Parsed::Plain).fields.is_empty());
}

#[test]
fn an_answer_is_its_result_or_an_error() {
    let ok = read_reply("{\"id\":1,\"result\":{\"a\": [1, 2.5]}}");
    assert_eq!(ok, Ok("{\"a\":[1,2.5]}".to_string()));
    assert_eq!(read_reply("{\"id\":1}"), Ok("null".to_string()));
    let e = read_reply("{\"error\":{\"code\":-1,\"message\":\"no\"},\"result\":1}");
    assert_eq!(e, Err("daemon error: {\"code\":-1,\"message\":\"no\"}".to_string()));
    assert!(read_reply("nonsense").is_err());
    assert_eq!(reply_of(Parsed::Broken("why".to_string())), Err("why".to_string()));
    assert_eq!(reply_of(Parsed::Plain), Ok("null".to_string()));
}
