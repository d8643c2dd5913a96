use rusqlite::Connection;
use zeph::bytes::NodeId;
use zeph::cheque::{Cheque, ChequeService, ChequeTerms, COLD_START_GRANT, CREDIT_BAND};
use zeph::econ_store::{
    load, persist_sql, EconRows, EconomicSnapshot, SELECT_CLAIMS, SELECT_PAID, SELECT_SEEDING,
    SELECT_SERVED, SELECT_SINGLETONS,
};
use zeph::economy_egress::{
    sum_unclaimed_shares, EconomyEgressService, MyView, RewardRecord, Share, ViewStep, VIEW_TTL_MS,
};
use zeph::ledger::{
    claimable, fold_balance, AfterCommit, BalanceFold, Entry, FoldStep, LedgerOp, LedgerService,
    Need, Outcome, TransferOp,
};

fn service() -> ChequeService {
    ChequeService::new(NodeId([1; 32]))
}

fn cheque_to_me(consumer: u8, bytes: u64) -> Cheque {
    Cheque {
        consumer: NodeId([consumer; 32]),
        terms: ChequeTerms {
            server: NodeId([1; 32]),
            cumulative_bytes: bytes,
        },
        timestamp: bytes + 1,
        signature: [bytes as u8; 64],
    }
}

#[test]
fn credit_band_batches_into_a_cumulative_cheque() {
    let mut svc = service();
    let provider = NodeId([5u8; 32]);

    assert!(
        svc.on_bytes_received(provider, CREDIT_BAND - 1).is_none(),
        "no cheque below the credit band"
    );

    let cheque = svc
        .on_bytes_received(provider, 10)
        .expect("a cheque is enqueued at the band");
    assert_eq!(cheque.server.0, provider.0);
    assert_eq!(
        cheque.cumulative_bytes,
        CREDIT_BAND + 9,
        "the cheque is CUMULATIVE across the whole band"
    );

    let c2 = svc
        .on_bytes_received(provider, CREDIT_BAND)
        .expect("second cheque");
    assert_eq!(c2.cumulative_bytes, 2 * CREDIT_BAND + 9);
}

#[test]
fn provider_side_records_inbound_cheques_as_earnings() {
    let mut svc = service();
    assert!(svc
        .book
        .record(cheque_to_me(9, 5000), true));
    assert_eq!(svc.total_earned(), 5000);
}

#[test]
fn reciprocity_grants_free_headroom_then_requires_earning() {
    let mut svc = service();
    let gb = 1u64 << 30;
    assert!(svc.reciprocity_admits(gb));
    assert!(
        !svc.reciprocity_admits(gb + 1),
        "over the grant: declined"
    );
    svc.on_bytes_received(NodeId([7u8; 32]), gb);
    assert!(
        !svc.reciprocity_admits(1),
        "grant spent: must earn or pay to fetch more"
    );
    svc.book.record(cheque_to_me(9, 5000), true);
    assert!(svc.reciprocity_admits(5000));
    assert!(!svc.reciprocity_admits(5001));
    assert_eq!(COLD_START_GRANT, gb);
}

#[test]
fn a_lost_book_is_restored_from_its_proof() {
    let mut svc = service();
    assert!(svc.serving_proof().is_empty());
    svc.book.record(cheque_to_me(8, 40), true);
    svc.book.record(cheque_to_me(9, 10), true);
    svc.book.record(cheque_to_me(9, 30), true);
    let mut proof = svc.serving_proof();
    proof.sort_by_key(|c| c.consumer.0);
    let shown: Vec<(u8, u8, u64, u64, u8)> = proof
        .iter()
        .map(|c| {
            let (who, server) = (c.consumer.0[0], c.terms.server.0[0]);
            (who, server, c.terms.cumulative_bytes, c.timestamp, c.signature[63])
        })
        .collect();
    assert_eq!(shown, vec![(8, 1, 40, 41, 40), (9, 1, 30, 31, 30)]);

    let mut again = service();
    let came: Vec<(Cheque, bool)> = proof.into_iter().map(|c| (c, true)).collect();
    again.load_cheques(came.clone());
    assert_eq!(again.total_earned(), 70);
    again.load_cheques(came);
    assert_eq!(again.total_earned(), 70);
    assert_eq!(again.serving_proof().len(), 2);
}

#[test]
fn loading_keeps_a_fresher_cheque() {
    let mut svc = service();
    svc.book.record(cheque_to_me(9, 50), true);
    svc.load_cheques(vec![(cheque_to_me(9, 20), true), (cheque_to_me(9, 90), false)]);
    assert_eq!(svc.total_earned(), 50);
    svc.load_cheques(vec![(cheque_to_me(9, 60), true), (cheque_to_me(9, 55), true)]);
    assert_eq!(svc.total_earned(), 60);
}

#[test]
fn a_huge_fetch_from_a_new_provider_is_acknowledged() {
    let mut svc = service();
    let cheque = svc.on_bytes_received(NodeId([5; 32]), u64::MAX).unwrap();
    assert_eq!(cheque.cumulative_bytes, u64::MAX);
}

#[test]
fn only_signed_growing_cheques_to_this_node_count() {
    let mut svc = service();
    assert!(!svc.book.record(cheque_to_me(9, 10), false));
    let mut elsewhere = cheque_to_me(9, 10);
    elsewhere.terms.server = NodeId([2; 32]);
    assert!(!svc.book.record(elsewhere, true));
    assert_eq!(svc.total_earned(), 0);
    assert!(svc.book.record(cheque_to_me(9, 10), true));
    assert!(!svc.book.record(cheque_to_me(9, 9), true));
    assert!(svc.book.record(cheque_to_me(9, 30), true));
    assert!(svc.book.record(cheque_to_me(8, 4), true));
    assert_eq!(svc.total_earned(), 34);
}

fn sample() -> EconomicSnapshot {
    EconomicSnapshot {
        pool: 12_345,
        minted: 67_890,
        paid_watermarks: vec![([9u8; 32], 500), ([1u8; 32], 100)],
        served_watermarks: vec![(([2u8; 32], [8u8; 32]), 42), (([2u8; 32], [3u8; 32]), 7)],
        seeding_next: vec![([5u8; 32], 900), ([4u8; 32], 11)],
        claimed: vec![(9, [7u8; 32]), (2, [6u8; 32])],
    }
}

fn stored(snap: &EconomicSnapshot) -> EconomicSnapshot {
    stored_over(snap, snap)
}

fn stored_over(older: &EconomicSnapshot, snap: &EconomicSnapshot) -> EconomicSnapshot {
    let db = Connection::open_in_memory().unwrap();
    db.execute_batch(&persist_sql(older)).unwrap();
    // Writing again leaves only what was written last.
    db.execute_batch(&persist_sql(snap)).unwrap();
    let mut rows = EconRows {
        singletons: Vec::new(),
        paid: Vec::new(),
        served: Vec::new(),
        seeding: Vec::new(),
        claims: Vec::new(),
    };
    let mut q = db.prepare(SELECT_SINGLETONS).unwrap();
    let mut r = q.query([]).unwrap();
    while let Some(row) = r.next().unwrap() {
        rows.singletons
            .push((row.get(0).unwrap(), row.get(1).unwrap()));
    }
    let mut q = db.prepare(SELECT_PAID).unwrap();
    let mut r = q.query([]).unwrap();
    while let Some(row) = r.next().unwrap() {
        rows.paid.push((row.get(0).unwrap(), row.get(1).unwrap()));
    }
    let mut q = db.prepare(SELECT_SERVED).unwrap();
    let mut r = q.query([]).unwrap();
    while let Some(row) = r.next().unwrap() {
        rows.served
            .push((row.get(0).unwrap(), row.get(1).unwrap(), row.get(2).unwrap()));
    }
    let mut q = db.prepare(SELECT_SEEDING).unwrap();
    let mut r = q.query([]).unwrap();
    while let Some(row) = r.next().unwrap() {
        rows.seeding.push((row.get(0).unwrap(), row.get(1).unwrap()));
    }
    let mut q = db.prepare(SELECT_CLAIMS).unwrap();
    let mut r = q.query([]).unwrap();
    while let Some(row) = r.next().unwrap() {
        rows.claims.push((row.get(0).unwrap(), row.get(1).unwrap()));
    }
    load(&rows)
}

#[test]
fn a_round_trip_through_sql_preserves_the_canonical_hash() {
    let mut original = sample();
    original.paid_watermarks.sort_unstable();
    original.served_watermarks.sort_unstable();
    original.seeding_next.sort_unstable();
    original.claimed.sort_unstable();

    // The hash is taken over the fields in order, so it survives where they do.
    for loaded in [stored(&original), stored(&sample())] {
        assert_eq!(loaded.pool, original.pool, "pool survives");
        assert_eq!(loaded.minted, original.minted, "supply survives");
        assert_eq!(loaded.paid_watermarks, original.paid_watermarks);
        assert_eq!(loaded.served_watermarks, original.served_watermarks);
        assert_eq!(loaded.seeding_next, original.seeding_next);
        assert_eq!(loaded.claimed, original.claimed);
    }
}

#[test]
fn amounts_beyond_a_signed_number_survive_the_database() {
    let mut snap = sample();
    snap.pool = u64::MAX;
    snap.minted = 1 << 63;
    let back = stored(&snap);
    assert_eq!((back.pool, back.minted), (u64::MAX, 1 << 63));
}

fn prov(n: u8) -> [u8; 32] {
    [n; 32]
}

fn rec(epoch: u64, shares: &[([u8; 32], u64)]) -> RewardRecord {
    RewardRecord {
        epoch,
        pool: 0,
        shares: shares
            .iter()
            .map(|(provider, amount)| Share {
                provider: *provider,
                amount: *amount,
                bytes: 0,
                cumulative_bytes: 0,
            })
            .collect(),
        entitlements: Vec::new(),
    }
}

#[test]
fn owed_sums_unclaimed_shares_across_records() {
    let window = vec![
        rec(1, &[(prov(1), 60), (prov(2), 40)]),
        rec(2, &[(prov(1), 50)]),
    ];
    assert_eq!(sum_unclaimed_shares(&prov(1), &window, &[]), 110);
    assert_eq!(sum_unclaimed_shares(&prov(2), &window, &[]), 40);
    assert_eq!(sum_unclaimed_shares(&prov(1), &window, &[1]), 50);
    assert_eq!(sum_unclaimed_shares(&prov(9), &window, &[]), 0);
    assert_eq!(sum_unclaimed_shares(&prov(1), &window, &[1, 2]), 0);
}

#[test]
fn a_view_is_served_while_it_is_fresh() {
    let mut s = EconomyEgressService::new();
    let me = prov(1);
    assert!(matches!(
        s.my_view_from_records(&me, 5, false),
        ViewStep::Derive
    ));
    let view = MyView {
        settled_bytes: 1,
        subscription_bytes: 2,
        pool: 3,
        owed: 4,
    };
    s.derived(&me, view, 1_000);
    assert_eq!(s.cached_view(&me, 1_000 + VIEW_TTL_MS - 1).unwrap().owed, 4);
    assert!(s.cached_view(&me, 1_000 + VIEW_TTL_MS).is_none());
    assert_eq!(s.last_view(&me).unwrap().pool, 3);
    assert!(s.last_view(&prov(2)).is_none());
    // While another derivation runs the last one is served, however old.
    match s.my_view_from_records(&me, 1_000_000, true) {
        ViewStep::Serve(v) => assert_eq!(v.owed, 4),
        ViewStep::Derive => panic!("one derivation at a time"),
    }
}

#[test]
fn the_view_is_derived_from_the_newest_record() {
    let me = prov(1);
    let mut old = rec(1, &[(me, 60)]);
    old.pool = 1_000;
    old.shares[0].cumulative_bytes = 10;
    old.entitlements = vec![(me, 9)];
    let mut new = rec(2, &[(me, 50), (prov(2), 30)]);
    new.pool = 500;
    new.shares[0].cumulative_bytes = 25;
    new.entitlements = vec![(prov(2), 1), (me, 7)];
    let v = EconomyEgressService::derive_view(&me, &[new, old], &[1]);
    assert_eq!(v.owed, 50);
    assert_eq!(v.settled_bytes, 25);
    assert_eq!(v.subscription_bytes, 7);
    assert_eq!(v.pool, 420);
    assert_eq!(EconomyEgressService::window_start(10, 4), 6);
    assert_eq!(EconomyEgressService::window_start(3, 4), 0);
}

#[test]
fn a_stored_state_is_taken_over_only_where_its_hash_is_right() {
    assert!(EconomyEgressService::load_and_verify_economic_state(
        &Some([1; 32]),
        &[1; 32]
    ));
    assert!(!EconomyEgressService::load_and_verify_economic_state(
        &Some([2; 32]),
        &[1; 32]
    ));
    assert!(!EconomyEgressService::load_and_verify_economic_state(
        &None, &[1; 32]
    ));
}

#[test]
fn a_balance_is_folded_up_to_the_first_gap() {
    assert_eq!(
        fold_balance(&[
            Outcome::Applied(100),
            Outcome::Foreign,
            Outcome::Rejected,
            Outcome::Applied(70),
            Outcome::Missing,
            Outcome::Applied(5),
        ]),
        70
    );
    assert_eq!(fold_balance(&[]), 0);
}

#[test]
fn the_fold_asks_for_what_a_write_needs() {
    let mut fold = BalanceFold::new(3);
    let claim = LedgerService::claim([2; 32], 7);
    match fold.step(Entry::Write(claim)) {
        FoldStep::Apply(_, Need::Debit { account, nonce }) => {
            assert_eq!((account, nonce), ([2; 32], 7))
        }
        other => panic!("expected a debit, got {other:?}"),
    }
    assert!(matches!(fold.step(Entry::Foreign), FoldStep::Skip));
    match fold.step(Entry::Write(LedgerService::reward_claim(5))) {
        FoldStep::Apply(_, Need::Share { epoch }) => assert_eq!(epoch, 5),
        other => panic!("expected a share, got {other:?}"),
    }
    assert!(matches!(
        fold.step(Entry::Write(LedgerService::pay(1))),
        FoldStep::Done
    ));
    assert!(matches!(
        BalanceFold::new(3).step(Entry::Missing),
        FoldStep::Done
    ));
}

#[test]
fn only_a_transfer_can_be_claimed() {
    let t = LedgerService::transfer([3; 32], 40);
    let TransferOp { to, amount, .. } = claimable(&Some(t)).unwrap();
    assert_eq!((to, amount), ([3; 32], 40));
    assert!(claimable(&Some(LedgerService::pay(4))).is_none());
    assert!(claimable(&None).is_none());
}

#[test]
fn payments_and_rewards_are_booked_once_they_are_committed() {
    let mut s = LedgerService::new();
    let pay = LedgerService::pay(40);
    assert!(matches!(s.submitted(&pay, false), AfterCommit::Nothing));
    assert_eq!(s.total_paid(), 0);
    s.submitted(&pay, true);
    assert_eq!(s.total_paid(), 40);
    let claim = LedgerService::reward_claim(6);
    assert!(matches!(
        s.submitted(&claim, true),
        AfterCommit::MarkClaimed(6)
    ));
    assert!(matches!(s.submitted(&claim, false), AfterCommit::Nothing));
    assert!(matches!(
        s.submitted(&LedgerOp::Pay(1), true),
        AfterCommit::Nothing
    ));
    assert_eq!(LedgerService::next_nonce(Some(8)), 8);
    assert_eq!(LedgerService::next_nonce(None), 0);
}

#[test]
fn a_share_is_owed_once_its_record_is_attested() {
    let record = rec(1, &[(prov(1), 60)]);
    assert_eq!(
        EconomyEgressService::reward_share(&Some(record), &prov(1)),
        60
    );
    assert_eq!(EconomyEgressService::reward_share(&None, &prov(1)), 0);
}

#[test]
fn an_older_position_is_gone_once_a_newer_one_is_written() {
    let older = EconomicSnapshot {
        pool: 1,
        minted: 2,
        paid_watermarks: vec![([3u8; 32], 4)],
        served_watermarks: vec![(([5u8; 32], [6u8; 32]), 7)],
        seeding_next: vec![([8u8; 32], 9)],
        claimed: vec![(10, [11u8; 32])],
    };
    let back = stored_over(&older, &sample());
    assert_eq!((back.pool, back.minted), (12_345, 67_890));
    assert_eq!(back.paid_watermarks, vec![([1u8; 32], 100), ([9u8; 32], 500)]);
    assert_eq!(
        back.served_watermarks,
        vec![(([2u8; 32], [3u8; 32]), 7), (([2u8; 32], [8u8; 32]), 42)]
    );
    assert_eq!(back.seeding_next, vec![([4u8; 32], 11), ([5u8; 32], 900)]);
    assert_eq!(back.claimed, vec![(2, [6u8; 32]), (9, [7u8; 32])]);
}
