//! What an account is owed, read off the records that the committee attested.

use crate::bytes::same32;
use crate::cheque::capped;
use crate::headreg::settle::passed;
use vstd::prelude::*;

verus! {

/// How long a derived view is served again, in milliseconds.
pub const VIEW_TTL_MS: u64 = 20_000;

/// What one provider gets of an epoch.
#[derive(Clone, Copy, Debug)]
pub struct Share {
    pub provider: [u8; 32],
    pub amount: u64,
    pub bytes: u64,
    /// All that the provider ever served, as of the epoch.
    pub cumulative_bytes: u64,
}

/// The record of an epoch.
#[derive(Debug)]
pub struct RewardRecord {
    pub epoch: u64,
    pub pool: u64,
    pub shares: Vec<Share>,
    /// What each account may still fetch.
    pub entitlements: Vec<([u8; 32], u64)>,
}

/// The share of an account, where it has one: the first.
pub open spec fn share_row(shares: Seq<Share>, account: [u8; 32]) -> Option<Share>
    decreases shares.len(),
{
    if shares.len() == 0 {
        None
    } else if shares[0].provider == account {
        Some(shares[0])
    } else {
        share_row(shares.skip(1), account)
    }
}

/// The entitlement of an account, where it has one: the first.
pub open spec fn entitlement_row(rows: Seq<([u8; 32], u64)>, account: [u8; 32]) -> Option<u64>
    decreases rows.len(),
{
    if rows.len() == 0 {
        None
    } else if rows[0].0 == account {
        Some(rows[0].1)
    } else {
        entitlement_row(rows.skip(1), account)
    }
}

/// All shares together.
pub open spec fn shared_out(shares: Seq<Share>) -> nat
    decreases shares.len(),
{
    if shares.len() == 0 {
        0
    } else {
        shared_out(shares.drop_last()) + shares.last().amount as nat
    }
}

impl RewardRecord {
    /// What the account gets.
    pub open spec fn share(self, account: [u8; 32]) -> u64 {
        match share_row(self.shares@, account) {
            Some(s) => s.amount,
            None => 0,
        }
    }

    /// All that the account ever served, where it has a share.
    pub open spec fn served(self, account: [u8; 32]) -> Option<u64> {
        match share_row(self.shares@, account) {
            Some(s) => Some(s.cumulative_bytes),
            None => None,
        }
    }

    /// What is left in the pool.
    pub open spec fn left(self) -> u64 {
        if shared_out(self.shares@) >= self.pool {
            0
        } else {
            (self.pool - shared_out(self.shares@)) as u64
        }
    }

    fn find_share(&self, account: &[u8; 32]) -> (row: Option<Share>)
        ensures
            row == share_row(self.shares@, *account),
    {
        let mut i: usize = 0;
        assert(self.shares@.skip(0) =~= self.shares@);
        while i < self.shares.len()
            invariant
                i <= self.shares@.len(),
                share_row(self.shares@, *account) == share_row(
                    self.shares@.skip(i as int),
                    *account,
                ),
            decreases self.shares@.len() - i,
        {
            assert(self.shares@.skip(i as int)[0] == self.shares@[i as int]);
            assert(self.shares@.skip(i as int).skip(1) =~= self.shares@.skip(i + 1));
            if same32(&self.shares[i].provider, account) {
                return Some(self.shares[i]);
            }
            i = i + 1;
        }
        None
    }

    /// What the account gets: nothing where it has no share.
    pub fn share_of(&self, account: &[u8; 32]) -> (amount: u64)
        ensures
            amount == self.share(*account),
    {
        match self.find_share(account) {
            Some(s) => s.amount,
            None => 0,
        }
    }

    /// All that the account ever served, where it has a share.
    pub fn cumulative_bytes_of(&self, account: &[u8; 32]) -> (bytes: Option<u64>)
        ensures
            bytes == self.served(*account),
    {
        match self.find_share(account) {
            Some(s) => Some(s.cumulative_bytes),
            None => None,
        }
    }

    /// What the account may still fetch, where it has an entitlement.
    pub fn remaining_for(&self, account: &[u8; 32]) -> (bytes: Option<u64>)
        ensures
            bytes == entitlement_row(self.entitlements@, *account),
    {
        let mut i: usize = 0;
        assert(self.entitlements@.skip(0) =~= self.entitlements@);
        while i < self.entitlements.len()
            invariant
                i <= self.entitlements@.len(),
                entitlement_row(self.entitlements@, *account) == entitlement_row(
                    self.entitlements@.skip(i as int),
                    *account,
                ),
            decreases self.entitlements@.len() - i,
        {
            assert(self.entitlements@.skip(i as int)[0] == self.entitlements@[i as int]);
            assert(self.entitlements@.skip(i as int).skip(1) =~= self.entitlements@.skip(i + 1));
            if same32(&self.entitlements[i].0, account) {
                return Some(self.entitlements[i].1);
            }
            i = i + 1;
        }
        None
    }

    /// What is left in the pool after all shares.
    pub fn pool_remaining(&self) -> (left: u64)
        ensures
            left == self.left(),
    {
        let mut left: u64 = self.pool;
        let mut i: usize = 0;
        assert(self.shares@.take(0) =~= Seq::<Share>::empty());
        while i < self.shares.len()
            invariant
                i <= self.shares@.len(),
                left == (if shared_out(self.shares@.take(i as int)) >= self.pool {
                    0
                } else {
                    (self.pool - shared_out(self.shares@.take(i as int))) as u64
                }),
            decreases self.shares@.len() - i,
        {
            proof {
                let next = self.shares@.take(i + 1);
                assert(next.drop_last() =~= self.shares@.take(i as int));
                assert(next.last() == self.shares@[i as int]);
            }
            left = left.saturating_sub(self.shares[i].amount);
            i = i + 1;
        }
        assert(self.shares@.take(i as int) =~= self.shares@);
        left
    }
}

/// An account's own view of the economy.
#[derive(Clone, Copy, Debug, PartialEq, Eq, Structural)]
pub struct MyView {
    /// All bytes served that count for rewards.
    pub settled_bytes: u64,
    /// What may still be fetched.
    pub subscription_bytes: u64,
    /// What the newest record leaves in the pool.
    pub pool: u64,
    /// Rewards earned and not claimed.
    pub owed: u64,
}

impl Default for MyView {
    fn default() -> (view: MyView)
        ensures
            view == (MyView { settled_bytes: 0, subscription_bytes: 0, pool: 0, owed: 0 }),
    {
        MyView { settled_bytes: 0, subscription_bytes: 0, pool: 0, owed: 0 }
    }
}

/// The shares of an account in the records whose epoch it has not claimed, together.
pub open spec fn unclaimed(account: [u8; 32], window: Seq<RewardRecord>, claimed: Seq<u64>) -> nat
    decreases window.len(),
{
    if window.len() == 0 {
        0
    } else {
        let r = window.last();
        unclaimed(account, window.drop_last(), claimed) + (if claimed.contains(r.epoch) {
            0
        } else {
            r.share(account) as nat
        })
    }
}

/// The served bytes in the first record that has a row for the account.
pub open spec fn newest_served(account: [u8; 32], window: Seq<RewardRecord>) -> u64
    decreases window.len(),
{
    if window.len() == 0 {
        0
    } else {
        match window[0].served(account) {
            Some(n) => n,
            None => newest_served(account, window.skip(1)),
        }
    }
}

/// The entitlement in the first record that has a row for the account.
pub open spec fn newest_entitlement(account: [u8; 32], window: Seq<RewardRecord>) -> u64
    decreases window.len(),
{
    if window.len() == 0 {
        0
    } else {
        match entitlement_row(window[0].entitlements@, account) {
            Some(n) => n,
            None => newest_entitlement(account, window.skip(1)),
        }
    }
}

/// The view that records, newest first, give an account. What is state is read off the newest
/// record that has a row for it; what is owed is a sum over all of them.
pub open spec fn view_of(account: [u8; 32], window: Seq<RewardRecord>, claimed: Seq<u64>) -> MyView {
    MyView {
        settled_bytes: newest_served(account, window),
        subscription_bytes: newest_entitlement(account, window),
        pool: if window.len() > 0 {
            window[0].left()
        } else {
            0
        },
        owed: capped(unclaimed(account, window, claimed) as int),
    }
}

fn has_claimed(claimed: &[u64], epoch: u64) -> (yes: bool)
    ensures
        yes == claimed@.contains(epoch),
{
    let mut i: usize = 0;
    while i < claimed.len()
        invariant
            i <= claimed@.len(),
            forall|j: int| 0 <= j < i ==> claimed@[j] != epoch,
        decreases claimed@.len() - i,
    {
        if claimed[i] == epoch {
            assert(claimed@[i as int] == epoch);
            return true;
        }
        i = i + 1;
    }
    false
}

/// What an account is owed: its shares in the records of the window, but for the epochs that
/// it has claimed.
pub fn sum_unclaimed_shares(account: &[u8; 32], window: &[RewardRecord], claimed: &[u64]) -> (sum:
    u64)
    ensures
        sum == capped(unclaimed(*account, window@, claimed@) as int),
{
    let mut sum: u64 = 0;
    let mut i: usize = 0;
    assert(window@.take(0) =~= Seq::<RewardRecord>::empty());
    while i < window.len()
        invariant
            i <= window@.len(),
            sum == capped(unclaimed(*account, window@.take(i as int), claimed@) as int),
        decreases window@.len() - i,
    {
        proof {
            let next = window@.take(i + 1);
            assert(next.drop_last() =~= window@.take(i as int));
            assert(next.last() == window@[i as int]);
        }
        if !has_claimed(claimed, window[i].epoch) {
            sum = sum.saturating_add(window[i].share_of(account));
        }
        i = i + 1;
    }
    assert(window@.take(i as int) =~= window@);
    sum
}

/// What was last derived, for whom, and when.
#[derive(Clone, Copy, Debug)]
pub struct CachedView {
    pub at_ms: u64,
    pub account: [u8; 32],
    pub view: MyView,
}

/// What a request for a view calls for.
#[derive(Clone, Copy, Debug, PartialEq, Eq, Structural)]
pub enum ViewStep {
    Serve(MyView),
    /// Walk the records and derive it.
    Derive,
}

/// The service of one node.
#[derive(Clone, Copy, Debug)]
pub struct EconomyEgressService {
    pub cached: Option<CachedView>,
}

impl Default for EconomyEgressService {
    fn default() -> (s: EconomyEgressService)
        ensures
            s.cached is None,
    {
        EconomyEgressService { cached: None }
    }
}

impl EconomyEgressService {
    /// A service that has derived nothing yet.
    pub fn new() -> (s: EconomyEgressService)
        ensures
            s.cached is None,
    {
        EconomyEgressService { cached: None }
    }

    /// The view of the account if it is fresh.
    pub open spec fn fresh_view(&self, account: [u8; 32], now: u64) -> Option<MyView> {
        match self.cached {
            Some(c) => if c.account == account && passed(now, c.at_ms) < VIEW_TTL_MS {
                Some(c.view)
            } else {
                None
            },
            None => None,
        }
    }

    /// The view of the account, however old.
    pub open spec fn any_view(&self, account: [u8; 32]) -> Option<MyView> {
        match self.cached {
            Some(c) => if c.account == account {
                Some(c.view)
            } else {
                None
            },
            None => None,
        }
    }

    /// The last derived view of the account, while it is fresh.
    pub fn cached_view(&self, account: &[u8; 32], now: u64) -> (view: Option<MyView>)
        ensures
            view == self.fresh_view(*account, now),
    {
        match self.cached {
            Some(c) => if same32(&c.account, account) && now.saturating_sub(c.at_ms)
                < VIEW_TTL_MS {
                Some(c.view)
            } else {
                None
            },
            None => None,
        }
    }

    /// The last derived view of the account, however old.
    pub fn last_view(&self, account: &[u8; 32]) -> (view: Option<MyView>)
        ensures
            view == self.any_view(*account),
    {
        match self.cached {
            Some(c) => if same32(&c.account, account) {
                Some(c.view)
            } else {
                None
            },
            None => None,
        }
    }

    /// Answers a request for the view of an account. `busy` says whether another walk is
    /// under way: then the last view is served, or an empty one, and no second walk begun.
    pub fn my_view_from_records(&self, account: &[u8; 32], now: u64, busy: bool) -> (step: ViewStep)
        ensures
            step == (match self.fresh_view(*account, now) {
                Some(v) => ViewStep::Serve(v),
                None => if busy {
                    ViewStep::Serve(
                        match self.any_view(*account) {
                            Some(v) => v,
                            None => MyView {
                                settled_bytes: 0,
                                subscription_bytes: 0,
                                pool: 0,
                                owed: 0,
                            },
                        },
                    )
                } else {
                    ViewStep::Derive
                },
            }),
    {
        match self.cached_view(account, now) {
            Some(v) => ViewStep::Serve(v),
            None => if busy {
                match self.last_view(account) {
                    Some(v) => ViewStep::Serve(v),
                    None => ViewStep::Serve(MyView::default()),
                }
            } else {
                ViewStep::Derive
            },
        }
    }

    /// Keeps a view that was derived at `now`.
    pub fn derived(&mut self, account: &[u8; 32], view: MyView, now: u64)
        ensures
            final(self).cached == Some(CachedView { at_ms: now, account: *account, view }),
    {
        self.cached = Some(CachedView { at_ms: now, account: *account, view });
    }

    /// The first epoch of the claim window that ends at `now_epoch`.
    pub fn window_start(now_epoch: u64, window_epochs: u64) -> (start: u64)
        ensures
            start == (if now_epoch >= window_epochs {
                now_epoch - window_epochs
            } else {
                0
            }),
    {
        now_epoch.saturating_sub(window_epochs)
    }

    /// The view that records, newest first, give an account.
    pub fn derive_view(account: &[u8; 32], window: &[RewardRecord], claimed: &[u64]) -> (view:
        MyView)
        ensures
            view == view_of(*account, window@, claimed@),
    {
        let mut settled: Option<u64> = None;
        let mut remaining: Option<u64> = None;
        let mut i: usize = 0;
        assert(window@.skip(0) =~= window@);
        while i < window.len()
            invariant
                i <= window@.len(),
                newest_served(*account, window@) == (match settled {
                    Some(n) => n,
                    None => newest_served(*account, window@.skip(i as int)),
                }),
                newest_entitlement(*account, window@) == (match remaining {
                    Some(n) => n,
                    None => newest_entitlement(*account, window@.skip(i as int)),
                }),
            decreases window@.len() - i,
        {
            assert(window@.skip(i as int)[0] == window@[i as int]);
            assert(window@.skip(i as int).skip(1) =~= window@.skip(i + 1));
            if settled.is_none() {
                settled = window[i].cumulative_bytes_of(account);
            }
            if remaining.is_none() {
                remaining = window[i].remaining_for(account);
            }
            i = i + 1;
        }
        MyView {
            settled_bytes: match settled {
                Some(n) => n,
                None => 0,
            },
            subscription_bytes: match remaining {
                Some(n) => n,
                None => 0,
            },
            pool: if window.len() > 0 {
                window[0].pool_remaining()
            } else {
                0
            },
            owed: sum_unclaimed_shares(account, window, claimed),
        }
    }

    /// The share of an account in an epoch: that of the attested record, and nothing before
    /// there is one.
    pub fn reward_share(record: &Option<RewardRecord>, account: &[u8; 32]) -> (share: u64)
        ensures
            share == (match *record {
                Some(r) => r.share(*account),
                None => 0,
            }),
    {
        match record {
            Some(r) => r.share_of(account),
            None => 0,
        }
    }

    /// Whether a stored position is adopted: it was read, and its hash is the attested one.
    pub fn load_and_verify_economic_state(got: &Option<[u8; 32]>, expected: &[u8; 32]) -> (adopt:
        bool)
        ensures
            adopt == (*got == Some(*expected)),
    {
        match got {
            Some(h) => same32(h, expected),
            None => false,
        }
    }
}

/// Claiming an epoch takes exactly its share out of what is owed.
pub proof fn law_claiming_moves_a_share_out(
    account: [u8; 32],
    window: Seq<RewardRecord>,
    claimed: Seq<u64>,
    i: int,
)
    requires
        0 <= i < window.len(),
        !claimed.contains(window[i].epoch),
        forall|j: int, k: int|
            0 <= j < window.len() && 0 <= k < window.len() && j != k ==> (#[trigger] window[j]).epoch
                != (#[trigger] window[k]).epoch,
    ensures
        unclaimed(account, window, claimed) == unclaimed(
            account,
            window,
            claimed.push(window[i].epoch),
        ) + window[i].share(account),
    decreases window.len(),
{
    let n = window.len() - 1;
    let front = window.drop_last();
    let after = claimed.push(window[i].epoch);
    assert(after.contains(window[n].epoch) <==> claimed.contains(window[n].epoch) || i == n) by {
        if claimed.contains(window[n].epoch) {
            let j = choose|j: int| 0 <= j < claimed.len() && claimed[j] == window[n].epoch;
            assert(after[j] == window[n].epoch);
        }
        if after.contains(window[n].epoch) {
            let j = choose|j: int| 0 <= j < after.len() && after[j] == window[n].epoch;
            if j < claimed.len() {
                assert(claimed[j] == window[n].epoch);
            } else {
                assert(window[i].epoch == window[n].epoch);
            }
        }
        if i == n {
            assert(after[claimed.len() as int] == window[n].epoch);
        }
    }
    if i < n {
        assert(front[i] == window[i]);
        assert forall|j: int, k: int|
            0 <= j < front.len() && 0 <= k < front.len() && j != k implies (#[trigger] front[j]).epoch
            != (#[trigger] front[k]).epoch by {
            assert(window[j].epoch != window[k].epoch);
        }
        law_claiming_moves_a_share_out(account, front, claimed, i);
    } else {
        lemma_unrelated_claim(account, front, claimed, window[i].epoch);
    }
}

proof fn lemma_unrelated_claim(
    account: [u8; 32],
    window: Seq<RewardRecord>,
    claimed: Seq<u64>,
    epoch: u64,
)
    requires
        forall|j: int| 0 <= j < window.len() ==> (#[trigger] window[j]).epoch != epoch,
    ensures
        unclaimed(account, window, claimed) == unclaimed(account, window, claimed.push(epoch)),
    decreases window.len(),
{
    if window.len() > 0 {
        let front = window.drop_last();
        assert forall|j: int| 0 <= j < front.len() implies (#[trigger] front[j]).epoch != epoch by {
            assert(window[j].epoch != epoch);
        }
        lemma_unrelated_claim(account, front, claimed, epoch);
        let e = window.last().epoch;
        let after = claimed.push(epoch);
        assert(window[window.len() - 1].epoch != epoch);
        assert(after.contains(e) <==> claimed.contains(e)) by {
            if claimed.contains(e) {
                let j = choose|j: int| 0 <= j < claimed.len() && claimed[j] == e;
                assert(after[j] == e);
            }
            if after.contains(e) {
                let j = choose|j: int| 0 <= j < after.len() && after[j] == e;
                assert(claimed[j] == e);
            }
        }
    }
}

proof fn lemma_share_row(shares: Seq<Share>, account: [u8; 32])
    ensures
        forall|k: int|
            0 <= k < shares.len() && (#[trigger] shares[k]).provider == account && (forall|j: int|
                0 <= j < k ==> (#[trigger] shares[j]).provider != account) ==> share_row(
                shares,
                account,
            ) == Some(shares[k]),
        (forall|j: int| 0 <= j < shares.len() ==> (#[trigger] shares[j]).provider != account)
            ==> share_row(shares, account) is None,
    decreases shares.len(),
{
    if shares.len() > 0 {
        let rest = shares.skip(1);
        lemma_share_row(rest, account);
        assert forall|k: int|
            0 <= k < shares.len() && (#[trigger] shares[k]).provider == account && (forall|j: int|
                0 <= j < k ==> (#[trigger] shares[j]).provider != account) implies share_row(
            shares,
            account,
        ) == Some(shares[k]) by {
            if k > 0 {
                assert(shares[0].provider != account);
                assert(rest[k - 1] == shares[k]);
                assert forall|j: int| 0 <= j < k - 1 implies (#[trigger] rest[j]).provider
                    != account by {
                    assert(shares[j + 1].provider != account);
                }
            }
        }
        if forall|j: int| 0 <= j < shares.len() ==> (#[trigger] shares[j]).provider != account {
            assert(shares[0].provider != account);
            assert forall|j: int| 0 <= j < rest.len() implies (#[trigger] rest[j]).provider
                != account by {
                assert(shares[j + 1].provider != account);
            }
        }
    }
}

/// A record gives an account what its first row for it says, and nothing where it has none.
pub proof fn law_a_record_gives_what_its_row_says(record: RewardRecord, account: [u8; 32])
    ensures
        forall|k: int|
            0 <= k < record.shares@.len() && (#[trigger] record.shares@[k]).provider == account && (
            forall|j: int| 0 <= j < k ==> (#[trigger] record.shares@[j]).provider != account) ==> {
                &&& record.share(account) == record.shares@[k].amount
                &&& record.served(account) == Some(record.shares@[k].cumulative_bytes)
            },
        (forall|j: int|
            0 <= j < record.shares@.len() ==> (#[trigger] record.shares@[j]).provider != account)
            ==> record.share(account) == 0 && record.served(account) is None,
{
    lemma_share_row(record.shares@, account);
}

/// What a record entitles an account to is what its first row for it says.
pub proof fn law_an_entitlement_is_its_row(rows: Seq<([u8; 32], u64)>, account: [u8; 32])
    ensures
        forall|k: int|
            0 <= k < rows.len() && (#[trigger] rows[k]).0 == account && (forall|j: int|
                0 <= j < k ==> (#[trigger] rows[j]).0 != account) ==> entitlement_row(rows, account)
                == Some(rows[k].1),
        (forall|j: int| 0 <= j < rows.len() ==> (#[trigger] rows[j]).0 != account)
            ==> entitlement_row(rows, account) is None,
    decreases rows.len(),
{
    if rows.len() > 0 {
        let rest = rows.skip(1);
        law_an_entitlement_is_its_row(rest, account);
        assert forall|k: int|
            0 <= k < rows.len() && (#[trigger] rows[k]).0 == account && (forall|j: int|
                0 <= j < k ==> (#[trigger] rows[j]).0 != account) implies entitlement_row(
            rows,
            account,
        ) == Some(rows[k].1) by {
            if k > 0 {
                assert(rows[0].0 != account);
                assert(rest[k - 1] == rows[k]);
                assert forall|j: int| 0 <= j < k - 1 implies (#[trigger] rest[j]).0 != account by {
                    assert(rows[j + 1].0 != account);
                }
            }
        }
        if forall|j: int| 0 <= j < rows.len() ==> (#[trigger] rows[j]).0 != account {
            assert(rows[0].0 != account);
            assert forall|j: int| 0 <= j < rest.len() implies (#[trigger] rest[j]).0 != account by {
                assert(rows[j + 1].0 != account);
            }
        }
    }
}

/// The newest record with a row for the account wins: however many newer records say nothing of
/// it, what it served is what that record says, and nothing only where no record has a row.
pub proof fn law_newest_row_wins(
    account: [u8; 32],
    window: Seq<RewardRecord>,
    claimed: Seq<u64>,
    i: int,
)
    requires
        0 <= i <= window.len(),
        forall|j: int| 0 <= j < i ==> (#[trigger] window[j]).served(account) is None,
        i < window.len() ==> window[i].served(account) is Some,
    ensures
        i < window.len() ==> view_of(account, window, claimed).settled_bytes == window[i].served(
            account,
        )->0,
        i == window.len() ==> view_of(account, window, claimed).settled_bytes == 0,
    decreases i,
{
    if i > 0 {
        let rest = window.skip(1);
        assert(window[0].served(account) is None);
        assert forall|j: int| 0 <= j < i - 1 implies (#[trigger] rest[j]).served(account) is None by {
            assert(window[j + 1].served(account) is None);
        }
        law_newest_row_wins(account, rest, claimed, i - 1);
    }
}

/// What the account may still fetch is what the newest record that entitles it says, however many
/// newer records say nothing of it, and nothing only where no record does.
pub proof fn law_newest_entitlement_wins(
    account: [u8; 32],
    window: Seq<RewardRecord>,
    claimed: Seq<u64>,
    i: int,
)
    requires
        0 <= i <= window.len(),
        forall|j: int|
            0 <= j < i ==> entitlement_row((#[trigger] window[j]).entitlements@, account) is None,
        i < window.len() ==> entitlement_row(window[i].entitlements@, account) is Some,
    ensures
        i < window.len() ==> view_of(account, window, claimed).subscription_bytes
            == entitlement_row(window[i].entitlements@, account)->0,
        i == window.len() ==> view_of(account, window, claimed).subscription_bytes == 0,
    decreases i,
{
    if i > 0 {
        let rest = window.skip(1);
        assert(entitlement_row(window[0].entitlements@, account) is None);
        assert forall|j: int| 0 <= j < i - 1 implies entitlement_row(
            (#[trigger] rest[j]).entitlements@,
            account,
        ) is None by {
            assert(entitlement_row(window[j + 1].entitlements@, account) is None);
        }
        law_newest_entitlement_wins(account, rest, claimed, i - 1);
    }
}

/// What is owed adds up over the records: a record adds the account's share if its epoch was not
/// claimed and nothing if it was, and records together add what they add apart.
pub proof fn law_what_is_owed_adds_up(
    account: [u8; 32],
    a: Seq<RewardRecord>,
    b: Seq<RewardRecord>,
    claimed: Seq<u64>,
    r: RewardRecord,
)
    ensures
        unclaimed(account, a + b, claimed) == unclaimed(account, a, claimed) + unclaimed(
            account,
            b,
            claimed,
        ),
        claimed.contains(r.epoch) ==> unclaimed(account, seq![r], claimed) == 0,
        !claimed.contains(r.epoch) ==> unclaimed(account, seq![r], claimed) == r.share(account),
        unclaimed(account, Seq::empty(), claimed) == 0,
        unclaimed(account, a, claimed) <= u64::MAX ==> view_of(account, a, claimed).owed
            == unclaimed(account, a, claimed),
        unclaimed(account, a, claimed) > u64::MAX ==> view_of(account, a, claimed).owed
            == u64::MAX,
    decreases b.len(),
{
    assert(seq![r].drop_last() =~= Seq::empty());
    assert(seq![r].last() == r);
    assert(unclaimed(account, seq![r].drop_last(), claimed) == 0);
    if b.len() == 0 {
        assert(a + b =~= a);
    } else {
        law_what_is_owed_adds_up(account, a, b.drop_last(), claimed, r);
        assert((a + b).drop_last() =~= a + b.drop_last());
    }
}

/// The pool that is shown is that of the newest record: what it started from is what is left
/// and all shares together, unless more was shared out than there was, and then nothing is.
pub proof fn law_shares_come_out_of_the_pool(
    account: [u8; 32],
    window: Seq<RewardRecord>,
    claimed: Seq<u64>,
    a: Seq<Share>,
    b: Seq<Share>,
    s: Share,
)
    ensures
        window.len() > 0 && shared_out(window[0].shares@) <= window[0].pool ==> view_of(
            account,
            window,
            claimed,
        ).pool + shared_out(window[0].shares@) == window[0].pool,
        window.len() > 0 && shared_out(window[0].shares@) >= window[0].pool ==> view_of(
            account,
            window,
            claimed,
        ).pool == 0,
        window.len() == 0 ==> view_of(account, window, claimed).pool == 0,
        shared_out(a + b) == shared_out(a) + shared_out(b),
        shared_out(seq![s]) == s.amount,
        shared_out(Seq::empty()) == 0,
    decreases b.len(),
{
    assert(seq![s].drop_last() =~= Seq::empty());
    assert(shared_out(seq![s].drop_last()) == 0);
    if b.len() == 0 {
        assert(a + b =~= a);
    } else {
        law_shares_come_out_of_the_pool(account, window, claimed, a, b.drop_last(), s);
        assert((a + b).drop_last() =~= a + b.drop_last());
    }
}

/// A derived view is served again for twenty seconds and to its own account only; while another
/// walk is under way it is served however old.
pub proof fn law_views_are_served_while_fresh(
    s: EconomyEgressService,
    at_ms: u64,
    account: [u8; 32],
    view: MyView,
    asked: [u8; 32],
    now: u64,
)
    requires
        s.cached == Some(CachedView { at_ms, account, view }),
    ensures
        asked == account && now < at_ms + 20_000 ==> s.fresh_view(asked, now) == Some(view),
        now >= at_ms + 20_000 ==> s.fresh_view(asked, now) is None,
        asked != account ==> s.fresh_view(asked, now) is None && s.any_view(asked) is None,
        asked == account ==> s.any_view(asked) == Some(view),
{
}

/// What a call of `derive_view` gives: what the account served and may still fetch by the newest
/// record that says so, what is left in the newest pool, and what it is still owed.
pub proof fn law_a_view_is_by_the_newest_records(
    account: [u8; 32],
    window: &[RewardRecord],
    claimed: &[u64],
    view: MyView,
    i: int,
    k: int,
    j: int,
    m: int,
)
    requires
        call_ensures(EconomyEgressService::derive_view, (&account, window, claimed), view),
        0 <= i < window@.len(),
        0 <= k < window@[i].shares@.len(),
        window@[i].shares@[k].provider == account,
        forall|a: int| 0 <= a < k ==> (#[trigger] window@[i].shares@[a]).provider != account,
        forall|a: int, b: int|
            0 <= a < i && 0 <= b < window@[a].shares@.len() ==> (
            #[trigger] window@[a].shares@[b]).provider != account,
        0 <= j < window@.len(),
        0 <= m < window@[j].entitlements@.len(),
        window@[j].entitlements@[m].0 == account,
        forall|a: int| 0 <= a < m ==> (#[trigger] window@[j].entitlements@[a]).0 != account,
        forall|a: int, b: int|
            0 <= a < j && 0 <= b < window@[a].entitlements@.len() ==> (
            #[trigger] window@[a].entitlements@[b]).0 != account,
    ensures
        view.settled_bytes == window@[i].shares@[k].cumulative_bytes,
        view.subscription_bytes == window@[j].entitlements@[m].1,
        unclaimed(account, window@, claimed@) <= u64::MAX ==> view.owed == unclaimed(
            account,
            window@,
            claimed@,
        ),
{
    law_a_record_gives_what_its_row_says(window@[i], account);
    assert forall|a: int| 0 <= a < i implies (#[trigger] window@[a]).served(account) is None by {
        law_a_record_gives_what_its_row_says(window@[a], account);
    }
    law_newest_row_wins(account, window@, claimed@, i);
    law_an_entitlement_is_its_row(window@[j].entitlements@, account);
    assert forall|a: int| 0 <= a < j implies entitlement_row(
        (#[trigger] window@[a]).entitlements@,
        account,
    ) is None by {
        law_an_entitlement_is_its_row(window@[a].entitlements@, account);
    }
    law_newest_entitlement_wins(account, window@, claimed@, j);
}

/// While a view is fresh it is served; while another walk is under way the last one is, however
/// old, and an empty one where there is none; otherwise a view is derived, and kept.
pub proof fn law_views_are_derived_when_stale(
    s: &mut EconomyEgressService,
    account: [u8; 32],
    view: MyView,
    at: u64,
    asked: [u8; 32],
    now: u64,
    busy: bool,
    step: ViewStep,
)
    requires
        call_ensures(EconomyEgressService::derived, (s, &account, view, at), ()),
        call_ensures(
            EconomyEgressService::my_view_from_records,
            (final(s), &asked, now, busy),
            step,
        ),
        now >= at,
    ensures
        asked == account && now < at + 20_000 ==> step == ViewStep::Serve(view),
        asked == account && now >= at + 20_000 && busy ==> step == ViewStep::Serve(view),
        asked == account && now >= at + 20_000 && !busy ==> step is Derive,
        asked != account && !busy ==> step is Derive,
        asked != account && busy ==> step is Serve && step->Serve_0.settled_bytes == 0
            && step->Serve_0.owed == 0 && step->Serve_0.pool == 0
            && step->Serve_0.subscription_bytes == 0,
{
}

/// A window reaches back as many epochs as it has, and to the first where there are fewer; a
/// downloaded state is adopted exactly where it is the one that was asked for.
pub proof fn law_windows_reach_back(
    now_epoch: u64,
    window_epochs: u64,
    start: u64,
    got: Option<[u8; 32]>,
    expected: [u8; 32],
    adopt: bool,
)
    requires
        call_ensures(EconomyEgressService::window_start, (now_epoch, window_epochs), start),
        call_ensures(
            EconomyEgressService::load_and_verify_economic_state,
            (&got, &expected),
            adopt,
        ),
    ensures
        now_epoch >= window_epochs ==> start + window_epochs == now_epoch,
        now_epoch < window_epochs ==> start == 0,
        adopt <==> got is Some && got->0 == expected,
{
}

/// What a record leaves in its pool is what its shares do not take.
pub proof fn law_a_pool_is_left_what_is_not_shared(record: RewardRecord, left: u64)
    requires
        call_ensures(RewardRecord::pool_remaining, (&record,), left),
    ensures
        shared_out(record.shares@) <= record.pool ==> left + shared_out(record.shares@)
            == record.pool,
        shared_out(record.shares@) >= record.pool ==> left == 0,
{
}

} // verus!
