//! The token ledger: authoring writes, and folding an account's writes into its balance.

use vstd::prelude::*;

verus! {

/// A debit on the author's account in favour of `to`.
#[derive(Clone, Copy, Debug)]
pub struct TransferOp {
    pub to: [u8; 32],
    pub amount: u64,
    pub memo: [u8; 32],
}

/// A credit of the debit that stands at a place in another account's sequence.
#[derive(Clone, Copy, Debug)]
pub struct ClaimOp {
    pub debit_account: [u8; 32],
    pub debit_nonce: u64,
}

/// A write to an account.
#[derive(Clone, Copy, Debug)]
pub enum LedgerOp {
    Transfer(TransferOp),
    Claim(ClaimOp),
    /// Into the pool.
    Pay(u64),
    /// The reward of an epoch.
    RewardClaim(u64),
}

/// What must be looked up before a write can be applied.
#[derive(Clone, Copy, Debug)]
pub enum Need {
    Nothing,
    /// The debit at a place in another account's sequence.
    Debit { account: [u8; 32], nonce: u64 },
    /// The account's share of an epoch.
    Share { epoch: u64 },
}

/// What an operation needs looked up.
pub open spec fn need_of(op: LedgerOp) -> Need {
    match op {
        LedgerOp::Claim(c) => Need::Debit { account: c.debit_account, nonce: c.debit_nonce },
        LedgerOp::RewardClaim(epoch) => Need::Share { epoch },
        _ => Need::Nothing,
    }
}

/// The debit that a write is, for a claim to refer to; only a transfer is one.
pub fn claimable(op: &Option<LedgerOp>) -> (debit: Option<TransferOp>)
    ensures
        debit == (match *op {
            Some(LedgerOp::Transfer(t)) => Some(t),
            _ => None,
        }),
{
    match op {
        Some(LedgerOp::Transfer(t)) => Some(*t),
        _ => None,
    }
}

/// What stands at a place in an account's sequence.
#[derive(Clone, Copy, Debug)]
pub enum Entry {
    /// Nothing: the sequence has a gap.
    Missing,
    /// Something that is no ledger write.
    Foreign,
    Write(LedgerOp),
}

/// What the fold does at a place.
#[derive(Clone, Copy, Debug)]
pub enum FoldStep {
    /// The balance stands.
    Done,
    /// Look at the next place.
    Skip,
    /// Look up what is needed and apply the write; where it is rejected the balance stays.
    Apply(LedgerOp, Need),
}

/// The fold of an account's sequence: where it is, and where it ends.
#[derive(Clone, Copy, Debug)]
pub struct BalanceFold {
    pub nonce: u64,
    pub end: u64,
}

/// What the fold does next, given what stands at its place.
pub open spec fn fold_step(fold: BalanceFold, entry: Entry) -> FoldStep {
    if fold.nonce >= fold.end {
        FoldStep::Done
    } else {
        match entry {
            Entry::Missing => FoldStep::Done,
            Entry::Foreign => FoldStep::Skip,
            Entry::Write(op) => FoldStep::Apply(op, need_of(op)),
        }
    }
}

impl BalanceFold {
    /// The fold of a sequence of `end` writes.
    pub fn new(end: u64) -> (fold: BalanceFold)
        ensures
            fold == (BalanceFold { nonce: 0, end }),
    {
        BalanceFold { nonce: 0, end }
    }

    /// Moves on, given what stands at the present place.
    pub fn step(&mut self, entry: Entry) -> (step: FoldStep)
        ensures
            step == fold_step(*old(self), entry),
            final(self).end == old(self).end,
            final(self).nonce == (if step is Done {
                old(self).nonce
            } else {
                (old(self).nonce + 1) as u64
            }),
    {
        if self.nonce >= self.end {
            return FoldStep::Done;
        }
        match entry {
            Entry::Missing => FoldStep::Done,
            Entry::Foreign => {
                self.nonce = self.nonce + 1;
                FoldStep::Skip
            },
            Entry::Write(op) => {
                self.nonce = self.nonce + 1;
                let need = match op {
                    LedgerOp::Claim(c) => Need::Debit {
                        account: c.debit_account,
                        nonce: c.debit_nonce,
                    },
                    LedgerOp::RewardClaim(epoch) => Need::Share { epoch },
                    _ => Need::Nothing,
                };
                FoldStep::Apply(op, need)
            },
        }
    }
}

/// What came of the writes of a sequence, in order.
#[derive(Clone, Copy, Debug, PartialEq, Eq, Structural)]
pub enum Outcome {
    Missing,
    Foreign,
    Rejected,
    /// The balance after the write.
    Applied(u64),
}

/// The balance that outcomes lead to: the last applied one before a gap.
pub open spec fn balance_after(start: u64, outcomes: Seq<Outcome>) -> u64
    decreases outcomes.len(),
{
    if outcomes.len() == 0 {
        start
    } else {
        match outcomes[0] {
            Outcome::Missing => start,
            Outcome::Applied(b) => balance_after(b, outcomes.skip(1)),
            _ => balance_after(start, outcomes.skip(1)),
        }
    }
}

/// The balance that outcomes lead to.
pub fn fold_balance(outcomes: &[Outcome]) -> (balance: u64)
    ensures
        balance == balance_after(0, outcomes@),
{
    let mut balance: u64 = 0;
    let mut i: usize = 0;
    assert(outcomes@.skip(0) =~= outcomes@);
    while i < outcomes.len()
        invariant
            i <= outcomes@.len(),
            balance_after(0, outcomes@) == balance_after(balance, outcomes@.skip(i as int)),
        decreases outcomes@.len() - i,
    {
        assert(outcomes@.skip(i as int)[0] == outcomes@[i as int]);
        assert(outcomes@.skip(i as int).skip(1) =~= outcomes@.skip(i + 1));
        match outcomes[i] {
            Outcome::Missing => {
                return balance;
            },
            Outcome::Applied(b) => {
                balance = b;
            },
            _ => {},
        }
        i = i + 1;
    }
    balance
}

/// A rejected write takes a place in the sequence and changes no balance.
pub proof fn law_rejected_writes_change_nothing(start: u64, a: Seq<Outcome>, b: Seq<Outcome>)
    ensures
        balance_after(start, a + seq![Outcome::Rejected] + b) == balance_after(start, a + b),
        balance_after(start, a + seq![Outcome::Foreign] + b) == balance_after(start, a + b),
    decreases a.len(),
{
    let r = a + seq![Outcome::Rejected] + b;
    let f = a + seq![Outcome::Foreign] + b;
    let plain = a + b;
    if a.len() == 0 {
        assert(r.skip(1) =~= b);
        assert(f.skip(1) =~= b);
        assert(plain =~= b);
        assert(r[0] == Outcome::Rejected);
        assert(f[0] == Outcome::Foreign);
    } else {
        let next = match a[0] {
            Outcome::Applied(n) => n,
            _ => start,
        };
        law_rejected_writes_change_nothing(next, a.skip(1), b);
        assert(r[0] == a[0] && f[0] == a[0] && plain[0] == a[0]);
        assert(r.skip(1) =~= a.skip(1) + seq![Outcome::Rejected] + b);
        assert(f.skip(1) =~= a.skip(1) + seq![Outcome::Foreign] + b);
        assert(plain.skip(1) =~= a.skip(1) + b);
    }
}

/// What a committed write leaves to do.
#[derive(Clone, Copy, Debug, PartialEq, Eq, Structural)]
pub enum AfterCommit {
    Nothing,
    /// Take the reward of the epoch out of what the pool owes.
    MarkClaimed(u64),
}

/// The service of one node.
#[derive(Clone, Copy, Debug)]
pub struct LedgerService {
    /// All that this node has paid into the pool.
    pub total_paid: u64,
}

impl LedgerService {
    /// A node that has paid nothing.
    pub fn new() -> (s: LedgerService)
        ensures
            s.total_paid == 0,
    {
        LedgerService { total_paid: 0 }
    }

    /// The place of the next write in a sequence: the first where there is none.
    pub fn next_nonce(sequence: Option<u64>) -> (nonce: u64)
        ensures
            nonce == (match sequence {
                Some(n) => n,
                None => 0,
            }),
    {
        match sequence {
            Some(n) => n,
            None => 0,
        }
    }

    /// A transfer of `amount` to `to`.
    pub fn transfer(to: [u8; 32], amount: u64) -> (op: LedgerOp)
        ensures
            op matches LedgerOp::Transfer(t) && t.to == to && t.amount == amount && t.memo@
                == Seq::new(32, |i: int| 0u8),
    {
        let memo: [u8; 32] = [0u8;32];
        assert(memo@ =~= Seq::new(32, |i: int| 0u8));
        LedgerOp::Transfer(TransferOp { to, amount, memo })
    }

    /// A claim of the debit at a place in another account's sequence.
    pub fn claim(debit_account: [u8; 32], debit_nonce: u64) -> (op: LedgerOp)
        ensures
            op == LedgerOp::Claim(ClaimOp { debit_account, debit_nonce }),
    {
        LedgerOp::Claim(ClaimOp { debit_account, debit_nonce })
    }

    /// A payment into the pool.
    pub fn pay(amount: u64) -> (op: LedgerOp)
        ensures
            op == LedgerOp::Pay(amount),
    {
        LedgerOp::Pay(amount)
    }

    /// A claim of the reward of an epoch.
    pub fn reward_claim(epoch: u64) -> (op: LedgerOp)
        ensures
            op == LedgerOp::RewardClaim(epoch),
    {
        LedgerOp::RewardClaim(epoch)
    }

    /// Takes note of whether a write was ordered. Only one that was counts.
    pub fn submitted(&mut self, op: &LedgerOp, committed: bool) -> (after: AfterCommit)
        ensures
            final(self).total_paid == (match *op {
                LedgerOp::Pay(amount) if committed => old(self).total_paid.wrapping_add(amount),
                _ => old(self).total_paid,
            }),
            after == (match *op {
                LedgerOp::RewardClaim(epoch) if committed => AfterCommit::MarkClaimed(epoch),
                _ => AfterCommit::Nothing,
            }),
    {
        if !committed {
            return AfterCommit::Nothing;
        }
        match op {
            LedgerOp::Pay(amount) => {
                self.total_paid = self.total_paid.wrapping_add(*amount);
                AfterCommit::Nothing
            },
            LedgerOp::RewardClaim(epoch) => AfterCommit::MarkClaimed(*epoch),
            _ => AfterCommit::Nothing,
        }
    }

    /// All that this node has paid into the pool.
    pub fn total_paid(&self) -> (n: u64)
        ensures
            n == self.total_paid,
    {
        self.total_paid
    }
}

/// A write that is applied sets the balance, from which the fold goes on; a gap ends it, whatever
/// stands behind.
pub proof fn law_applied_writes_set_the_balance(start: u64, b: u64, rest: Seq<Outcome>)
    ensures
        balance_after(start, Seq::empty()) == start,
        balance_after(start, seq![Outcome::Applied(b)] + rest) == balance_after(b, rest),
        balance_after(start, seq![Outcome::Missing] + rest) == start,
{
    assert((seq![Outcome::Applied(b)] + rest).skip(1) =~= rest);
}

/// Every write before the end is looked at until there is a gap, and needs exactly what it
/// refers to: a claim the debit it names, a reward its epoch, and nothing else anything.
pub proof fn law_folds_go_to_the_end_or_a_gap(fold: BalanceFold, entry: Entry)
    ensures
        ({
            let step = fold_step(fold, entry);
            &&& step is Done <==> fold.nonce >= fold.end || entry is Missing
            &&& step is Skip <==> fold.nonce < fold.end && entry is Foreign
            &&& step is Apply ==> entry == Entry::Write(step->Apply_0)
            &&& step is Apply ==> match step->Apply_0 {
                LedgerOp::Transfer(_) => step->Apply_1 == Need::Nothing,
                LedgerOp::Pay(_) => step->Apply_1 == Need::Nothing,
                LedgerOp::Claim(c) => step->Apply_1 is Debit && step->Apply_1->account
                    == c.debit_account && step->Apply_1->nonce == c.debit_nonce,
                LedgerOp::RewardClaim(n) => step->Apply_1 is Share && step->Apply_1->epoch == n,
            }
        }),
{
}

/// What calls on the ledger come to: only what was paid and committed adds to what was paid, only a
/// reward that was committed is marked as claimed, and a claim can refer to a transfer only.
pub proof fn law_only_committed_writes_count(
    s: &mut LedgerService,
    op: LedgerOp,
    committed: bool,
    after: AfterCommit,
    debit: Option<TransferOp>,
)
    requires
        call_ensures(LedgerService::submitted, (s, &op, committed), after),
        call_ensures(claimable, (&Some(op),), debit),
    ensures
        op matches LedgerOp::Pay(amount) ==> committed && old(s).total_paid + amount <= u64::MAX
            ==> final(s).total_paid == old(s).total_paid + amount,
        !(op is Pay) || !committed ==> final(s).total_paid == old(s).total_paid,
        op matches LedgerOp::RewardClaim(epoch) ==> committed ==> after == AfterCommit::MarkClaimed(
            epoch,
        ),
        !(op is RewardClaim) || !committed ==> after == AfterCommit::Nothing,
        debit is Some <==> op is Transfer,
        op matches LedgerOp::Transfer(t) ==> debit == Some(t),
{
}

/// A balance is what the last applied write left of it, from nothing on, and writes behind a gap do
/// not count.
pub proof fn law_balances_start_at_nothing(
    outcomes: &[Outcome],
    balance: u64,
    rest: Seq<Outcome>,
    b: u64,
)
    requires
        call_ensures(fold_balance, (outcomes,), balance),
    ensures
        outcomes@.len() == 0 ==> balance == 0,
        outcomes@ == seq![Outcome::Missing] + rest ==> balance == 0,
        outcomes@ == seq![Outcome::Applied(b)] + rest ==> balance == balance_after(b, rest),
{
    law_applied_writes_set_the_balance(0, b, rest);
}

/// What is authored says what was asked for; the first write of an account has the number zero, and
/// each later one the number of those before it.
pub proof fn law_writes_say_what_was_asked(
    to: [u8; 32],
    amount: u64,
    transfer: LedgerOp,
    account: [u8; 32],
    nonce: u64,
    claim: LedgerOp,
    pay: LedgerOp,
    epoch: u64,
    reward: LedgerOp,
    first: u64,
    later: u64,
)
    requires
        call_ensures(LedgerService::transfer, (to, amount), transfer),
        call_ensures(LedgerService::claim, (account, nonce), claim),
        call_ensures(LedgerService::pay, (amount,), pay),
        call_ensures(LedgerService::reward_claim, (epoch,), reward),
        call_ensures(LedgerService::next_nonce, (None,), first),
        call_ensures(LedgerService::next_nonce, (Some(nonce),), later),
    ensures
        transfer is Transfer && transfer->Transfer_0.to == to && transfer->Transfer_0.amount
            == amount,
        claim is Claim && claim->Claim_0.debit_account == account && claim->Claim_0.debit_nonce
            == nonce,
        pay == LedgerOp::Pay(amount),
        reward == LedgerOp::RewardClaim(epoch),
        first == 0,
        later == nonce,
{
}

} // verus!
