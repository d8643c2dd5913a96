use zeph::account::{AdvanceError, ProgramAccountStore};
use zeph::anchor::{iface_key, AnchorDispatcher};
use zeph::appreg::{AppRegistry, RegistryProgram, REGISTRY_HEAD_NAME};
use zeph::attest::{
    attest_head_name, chain_file, parse_stem, AttestStore, Envelope, HeldChain,
};
use zeph::board::{poll, BoardService, Poll, POLL_MS, VERIFY_TIMEOUT_MS};
use zeph::bytes::{Cid, NodeId};
use zeph::chain::{adopts, announce_version, worth_fetching, ChainHead};
use zeph::committee::{
    epoch_ms, ChainState, CommitteeChainStore, CommitteeStep, Endorser, DEFAULT_EPOCH_MS,
};
use zeph::epoch::EPOCH_MILLIS;
use zeph::epoch_committee::{EpochCommitteeSource, K_DEFAULT, N_DEFAULT};
use zeph::genesis::{pins, program_cid, published, Published};
use zeph::governance::{
    CosignError, GovernanceChainStore, GovernanceSet, ANNOUNCE_HEARTBEAT_MS,
};
use zeph::headreg::shard::HeadEntry;
use zeph::membership::member::PeerAddr;
use zeph::membership::overlay::PeerState;

fn id(n: u8) -> [u8; 32] {
    [n; 32]
}

fn link(n: u8, alive: bool) -> (NodeId, PeerState) {
    let mut state = PeerState::new(PeerAddr {
        id: NodeId(id(n)),
        text: format!("peer-{n}"),
    });
    state.alive = alive;
    (NodeId(id(n)), state)
}

#[test]
fn committee_is_deterministic_and_rotates_by_epoch() {
    let cid = [9u8; 32];
    let eligible: Vec<[u8; 32]> = (0..6).map(id).collect();
    let a = EpochCommitteeSource::committee_for(&cid, 100, &eligible).unwrap();
    let b = EpochCommitteeSource::committee_for(&cid, 100, &eligible).unwrap();
    assert_eq!(a.members, b.members);
    assert_eq!(a.threshold, b.threshold);
    assert_eq!(a.members.len(), N_DEFAULT);
    assert_eq!(a.threshold, K_DEFAULT);
    assert!(
        2 * a.threshold > a.members.len(),
        "intersection sizing 2k>n"
    );
    let later = EpochCommitteeSource::committee_for(&cid, 101, &eligible).unwrap();
    assert!(
        later.members != a.members || eligible.len() <= N_DEFAULT,
        "the committee membership shifts across epochs"
    );
}

#[test]
fn small_network_clamps_to_a_valid_intersection_quorum() {
    let cid = [1u8; 32];
    let two = EpochCommitteeSource::committee_for(&cid, 0, &[id(1), id(2)]).unwrap();
    assert_eq!(two.members.len(), 2);
    assert_eq!(two.threshold, 2);
    let one = EpochCommitteeSource::committee_for(&cid, 0, &[id(1)]).unwrap();
    assert_eq!(one.members.len(), 1);
    assert_eq!(one.threshold, 1);
    assert!(EpochCommitteeSource::committee_for(&cid, 0, &[]).is_none());
}

#[test]
fn a_node_counts_itself_into_the_committee() {
    let source = EpochCommitteeSource::new(id(7));
    let q = source.committee_for_epoch(&[1; 32], 3, &[id(1)]).unwrap();
    let mut members = q.members.clone();
    members.sort();
    assert_eq!(members, vec![id(1), id(7)]);
    let live = source
        .quorum_for(&[1; 32], &[id(1)], 3 * EPOCH_MILLIS)
        .unwrap();
    assert_eq!(live.members, q.members);
}

#[test]
fn the_committee_chain_is_started_followed_and_rolled_over() {
    let low = CommitteeChainStore::new(id(1), 1_000);
    let both = [id(2), id(1)];
    assert_eq!(CommitteeChainStore::assembler(&both), id(1));
    assert!(matches!(
        low.tick(&[id(1)], 5, ChainState::Absent),
        CommitteeStep::Idle
    ));
    assert!(matches!(
        low.tick(&both, 5, ChainState::Absent),
        CommitteeStep::Bootstrap(5)
    ));
    assert!(matches!(
        low.tick(&both, 5, ChainState::At(5)),
        CommitteeStep::Idle
    ));
    assert!(matches!(
        low.tick(&both, 6, ChainState::At(5)),
        CommitteeStep::RollOver(6)
    ));
    assert!(matches!(
        low.tick(&both, 6, ChainState::Broken),
        CommitteeStep::Idle
    ));
    let high = CommitteeChainStore::new(id(2), 1_000);
    match high.tick(&both, 6, ChainState::Absent) {
        CommitteeStep::Follow(a) => assert_eq!(a, id(1)),
        other => panic!("expected to follow, got {other:?}"),
    }
    assert_eq!(high.epoch_len_ms(), 1_000);
}

#[test]
fn only_links_that_answer_take_part_in_the_committee() {
    let store = CommitteeChainStore::new(id(1), 1_000);
    let ids = store.eligible(&[link(2, true), link(3, false), link(4, true)]);
    assert_eq!(ids, vec![id(1), id(2), id(4)]);
    let list = store.endorsers(&[id(1), id(2), id(3)], &[id(2)]);
    assert_eq!(list.len(), 2);
    assert!(matches!(list[0], Endorser::Own));
    assert!(matches!(list[1], Endorser::Ask(x) if x == id(2)));
    assert!(CommitteeChainStore::endorse(&[id(1), id(2)], 3, &[id(1), id(2)], 3));
    assert!(!CommitteeChainStore::endorse(&[id(1), id(2)], 3, &[id(1)], 3));
    assert!(!CommitteeChainStore::endorse(&[id(1), id(2)], 3, &[id(1), id(2)], 2));
    assert!(CommitteeChainStore::adopts(ChainState::Absent, 0));
    assert!(CommitteeChainStore::adopts(ChainState::At(3), 4));
    assert!(!CommitteeChainStore::adopts(ChainState::At(4), 4));
}

#[test]
fn the_epoch_length_can_be_configured() {
    assert_eq!(epoch_ms(None), DEFAULT_EPOCH_MS);
    assert_eq!(epoch_ms(Some("500")), 500);
    assert_eq!(epoch_ms(Some("soon")), DEFAULT_EPOCH_MS);
}

#[test]
fn a_chain_is_fetched_and_adopted_only_if_it_is_longer() {
    assert_eq!(announce_version(4), 5);
    assert!(worth_fetching(announce_version(5), Some(4)));
    assert!(!worth_fetching(announce_version(4), Some(4)));
    assert!(!worth_fetching(announce_version(0), Some(0)));
    assert!(worth_fetching(announce_version(0), None));
    let head = |same_genesis, valid, seq| ChainHead {
        same_genesis,
        valid,
        seq,
    };
    assert!(adopts(&head(true, true, 5), 4));
    assert!(!adopts(&head(true, true, 4), 4));
    assert!(!adopts(&head(false, true, 5), 4));
    assert!(!adopts(&head(true, false, 5), 4));
}

#[test]
fn governance_starts_with_the_configured_governors_or_with_the_node() {
    let store = GovernanceChainStore::open(id(1));
    let alone = store.genesis(&[], 3);
    assert_eq!((alone.members, alone.threshold), (vec![id(1)], 1));
    let set = store.genesis(&[id(2), id(3)], 0);
    assert_eq!((set.members.clone(), set.threshold), (vec![id(2), id(3)], 1));
    assert!(!store.is_governor(&set));
    assert!(matches!(
        store.cosign(&set, &[]),
        Err(CosignError::NotAGovernor)
    ));
    assert_eq!(
        CosignError::NotAGovernor.message(),
        "this node is not a governor"
    );
    let mine = GovernanceSet {
        members: vec![id(1)],
        threshold: 1,
    };
    assert!(matches!(store.cosign(&mine, &[]), Ok(true)));
    assert!(matches!(store.cosign(&mine, &[id(1)]), Ok(false)));
}

#[test]
fn governance_is_announced_on_a_change_and_now_and_then() {
    let mut store = GovernanceChainStore::open(id(1));
    assert!(store.publish_due(3, 1_000));
    store.published(3, 1_000);
    assert!(!store.publish_due(3, 1_000 + ANNOUNCE_HEARTBEAT_MS - 1));
    assert!(store.publish_due(3, 1_000 + ANNOUNCE_HEARTBEAT_MS));
    assert!(store.publish_due(4, 1_001));
}

#[test]
fn governors_are_pulled_from_though_the_census_does_not_see_them() {
    let store = GovernanceChainStore::open(id(1));
    let set = GovernanceSet {
        members: vec![id(1), id(2), id(9)],
        threshold: 1,
    };
    assert_eq!(
        store.pull_targets(&[id(1), id(2), id(3)], &set),
        vec![id(2), id(3), id(9)]
    );
}

#[test]
fn the_app_registry_falls_back_to_the_native_program() {
    assert_eq!(
        GovernanceChainStore::resolve(None, "app-registry", id(5)),
        Some(id(5))
    );
    assert_eq!(
        GovernanceChainStore::resolve(Some(id(6)), "app-registry", id(5)),
        Some(id(6))
    );
    assert_eq!(GovernanceChainStore::resolve(None, "other", id(5)), None);
    assert!(matches!(
        AppRegistry::program(&Some(id(5)), &id(5)),
        RegistryProgram::Native
    ));
    assert!(matches!(
        AppRegistry::program(&Some(id(6)), &id(5)),
        RegistryProgram::Wasm(c) if c == id(6)
    ));
    assert!(REGISTRY_HEAD_NAME.starts_with('\u{1}'));
}

#[test]
fn an_app_is_resolved_by_owner_and_name() {
    let entry = |owner, name: &str, cid| HeadEntry {
        owner,
        name: name.to_string(),
        cid,
        version: 1,
    };
    let entries = [
        entry(id(1), "a", id(11)),
        entry(id(2), "a", id(12)),
        entry(id(1), "b", id(13)),
    ];
    assert_eq!(AppRegistry::resolve(&entries, &id(2), "a"), Some(id(12)));
    assert_eq!(AppRegistry::resolve(&entries, &id(2), "b"), None);
    assert!(!AppRegistry::republish(0));
    assert_eq!(AppRegistry::register(Some(id(4))), Ok(id(4)));
    assert_eq!(
        AppRegistry::register(None),
        Err("registry program rejected the submission".to_string())
    );
    assert_eq!(AppRegistry::summary(3, &id(1)), (3, "01".repeat(32)));
}

#[test]
fn quorum_chains_are_kept_under_names_that_read_back() {
    let file = chain_file(&id(1), &id(2));
    let stem = file.rsplit_once('.').unwrap().0;
    assert_eq!(parse_stem(stem), Some((id(1), id(2))));
    assert_eq!(parse_stem("nonsense"), None);
    assert_ne!(attest_head_name(&id(1), &id(2)), attest_head_name(&id(2), &id(1)));
}

fn chain(owner: [u8; 32], verified: bool, seq: u64) -> Envelope {
    Envelope {
        owner,
        verified,
        same_genesis: true,
        seq,
    }
}

#[test]
fn a_quorum_chain_is_begun_once_and_grows_by_what_the_quorum_signed() {
    let none = HeldChain { seq: None };
    assert!(AttestStore::bootstrap(&none));
    assert!(AttestStore::propose(&none).is_none());
    assert!(AttestStore::submit(&none, true).is_none());
    assert!(!AttestStore::is_authorized(&none, true));
    let begun = HeldChain { seq: Some(0) };
    assert!(!AttestStore::bootstrap(&begun));
    assert_eq!(AttestStore::propose(&begun), Some(1));
    assert!(AttestStore::submit(&begun, false).is_none());
    let next = AttestStore::submit(&begun, true).unwrap();
    assert_eq!(next.local_seq(), 1);
    assert!(AttestStore::is_authorized(&next, true));
    assert!(!AttestStore::is_authorized(&next, false));
}

#[test]
fn only_the_owners_longer_chain_replaces_the_held_one() {
    let held = HeldChain { seq: Some(2) };
    let grown = AttestStore::sync(&held, &id(1), &chain(id(1), true, 3));
    assert_eq!(grown.local_seq(), 3);
    for refused in [
        chain(id(2), true, 3),
        chain(id(1), false, 3),
        chain(id(1), true, 2),
    ] {
        assert_eq!(AttestStore::sync(&held, &id(1), &refused).local_seq(), 2);
    }
    let none = HeldChain { seq: None };
    let declared = AttestStore::sync(&none, &id(1), &chain(id(1), true, 0));
    assert_eq!(declared.seq, Some(0));
    assert_eq!(AttestStore::sync(&none, &id(1), &chain(id(2), true, 0)).seq, None);
    assert!(AttestStore::loads(&id(1), &chain(id(1), true, 0)));
    assert!(!AttestStore::loads(&id(1), &chain(id(2), true, 0)));
    let store = AttestStore::open(id(1));
    assert_eq!(store.owner(), id(1));
    assert!(store.cosign(&[id(2)]));
    assert!(!store.cosign(&[id(2), id(1)]));
    assert!(!store.pull_targets(&[id(1), id(2)]).contains(&id(1)));
}

#[test]
fn the_board_goes_to_three_others() {
    let service = BoardService::new(NodeId(id(1)));
    let census: Vec<(NodeId, PeerAddr)> = [1u8, 2, 3, 4, 5]
        .iter()
        .map(|n| {
            (
                NodeId(id(*n)),
                PeerAddr {
                    id: NodeId(id(*n)),
                    text: String::new(),
                },
            )
        })
        .collect();
    let to: Vec<u8> = service
        .fanout_peers(&census)
        .iter()
        .map(|(n, _)| n.0[0])
        .collect();
    assert_eq!(to, vec![2, 3, 4]);
    assert!(!BoardService::gossips(0, 1, 1));
    assert!(!BoardService::gossips(3, 0, 0));
    assert!(BoardService::gossips(3, 0, 1));
    assert!(matches!(poll(true, VERIFY_TIMEOUT_MS), Poll::Verified));
    assert!(matches!(poll(false, 0), Poll::Wait(ms) if ms == POLL_MS));
    assert!(matches!(poll(false, VERIFY_TIMEOUT_MS), Poll::TimedOut));
}

#[test]
fn an_account_advances_to_what_its_program_returns() {
    let (state, r) = ProgramAccountStore::advance(id(1), vec![1, 2, 3]).unwrap();
    assert_eq!(state, vec![1, 2, 3]);
    assert_eq!(r.account, id(1));
    assert_eq!(r.new_root, *blake3::hash(&[1, 2, 3]).as_bytes());
    match ProgramAccountStore::advance(id(1), vec![]) {
        Err(e) => {
            assert_eq!(e, AdvanceError::Rejected);
            assert_eq!(e.message(), "program rejected the request");
        }
        Ok(_) => panic!("an empty output rejects the request"),
    }
    assert_eq!(
        ProgramAccountStore::state_path(&id(0xab)),
        format!("{}.state", "ab".repeat(32))
    );
}

#[test]
fn an_anchor_resolves_to_what_governance_pins() {
    assert_eq!(iface_key("token"), "anchor:token:iface");
    assert!(AnchorDispatcher::resolve(None, Some(2)).is_none());
    let r = AnchorDispatcher::resolve(Some(id(3)), Some(2)).unwrap();
    assert_eq!((r.cid, r.interface_version), (id(3), 2));
    assert_eq!(
        AnchorDispatcher::resolve(Some(id(3)), Some(-1))
            .unwrap()
            .interface_version,
        1
    );
    assert_eq!(
        AnchorDispatcher::resolve(Some(id(3)), None)
            .unwrap()
            .interface_version,
        1
    );
    let call = AnchorDispatcher::invoke_anchor("token", "run", vec![7], &Some(r)).unwrap();
    assert_eq!((call.app_ns.as_str(), call.func.as_str()), ("token", "run"));
    assert_eq!((call.wasm_cid, call.input), (id(3), vec![7]));
    assert_eq!(
        AnchorDispatcher::invoke_anchor("token", "run", vec![], &None).unwrap_err(),
        "no program anchored at `token`"
    );
}

#[test]
fn a_program_is_pinned_at_its_content_address() {
    let cid = program_cid(b"wasm");
    assert_eq!(cid, Cid::of(b"wasm").0);
    assert_eq!(cid, *blake3::hash(b"wasm").as_bytes());
    assert!(matches!(published(&cid, &Some(cid)), Published::Done));
    assert!(matches!(published(&cid, &Some(id(1))), Published::Mismatch));
    assert!(matches!(published(&cid, &None), Published::Failed));
    assert!(pins(true, &None, &cid));
    assert!(pins(true, &Some(id(1)), &cid));
    assert!(!pins(true, &Some(cid), &cid));
    assert!(!pins(false, &None, &cid));
}

#[test]
fn a_stored_chain_is_kept_only_if_it_holds_together() {
    let head = |same_genesis, valid| {
        Some(ChainHead {
            same_genesis,
            valid,
            seq: 3,
        })
    };
    assert!(GovernanceChainStore::keeps_stored(&head(true, true)));
    assert!(!GovernanceChainStore::keeps_stored(&head(true, false)));
    assert!(!GovernanceChainStore::keeps_stored(&None));
    assert_eq!(GovernanceChainStore::draft(3), 4);
}
