//! The schedule of the health scan: when each held content is looked at next.

use crate::bytes::same32;
use crate::cheque::capped;
use crate::headreg::settle::{passed, READY_MAX_MS, READY_STABLE_MS};
use crate::idset::lists;
use crate::order::{lex_less, lex_lt};
use vstd::prelude::*;
use vstd::string::*;

verus! {

/// Over how many steps the first backlog is spread.
pub const DRIP_STEPS: u64 = 1_200;

/// How long such a step is, in milliseconds.
pub const DRIP_STEP_MS: u64 = 100;

/// How many holders count for the pace of the scan, at most.
pub const MAX_PACED_HOLDERS: u32 = 16;

/// Content that is due to be looked at.
#[derive(Clone, Copy, Debug)]
pub struct ScanItem {
    pub due_ms: u64,
    pub cid: [u8; 32],
    /// How long it waited for this look.
    pub delay_secs: u64,
}

/// Which item comes first: by time, then by content, then by delay.
pub open spec fn precedes(a: ScanItem, b: ScanItem) -> bool {
    ||| a.due_ms < b.due_ms
    ||| (a.due_ms == b.due_ms && lex_lt(a.cid@, b.cid@))
    ||| (a.due_ms == b.due_ms && a.cid == b.cid && a.delay_secs < b.delay_secs)
}

proof fn lemma_precedes_irreflexive(a: ScanItem)
    ensures
        !precedes(a, a),
{
    crate::order::lemma_lex_irreflexive(a.cid@);
}

proof fn lemma_precedes_transitive(a: ScanItem, b: ScanItem, c: ScanItem)
    requires
        precedes(a, b),
        precedes(b, c),
    ensures
        precedes(a, c),
{
    if lex_lt(a.cid@, b.cid@) && lex_lt(b.cid@, c.cid@) {
        crate::order::lemma_lex_transitive(a.cid@, b.cid@, c.cid@);
    }
}

fn comes_before(a: &ScanItem, b: &ScanItem) -> (yes: bool)
    ensures
        yes == precedes(*a, *b),
{
    if a.due_ms != b.due_ms {
        return a.due_ms < b.due_ms;
    }
    if lex_less(a.cid.as_slice(), b.cid.as_slice()) {
        return true;
    }
    same32(&a.cid, &b.cid) && a.delay_secs < b.delay_secs
}

fn capped_product(a: u64, b: u64) -> (n: u64)
    ensures
        n == capped(a * b),
{
    match a.checked_mul(b) {
        Some(n) => n,
        None => u64::MAX,
    }
}

/// The bounds between which content is looked at again.
#[derive(Clone, Copy, Debug, PartialEq, Eq, Structural)]
pub struct Pace {
    pub min_secs: u64,
    pub max_secs: u64,
}

impl Pace {
    /// The bounds for a configured interval: that interval, of at least a second, and 64 times
    /// as much.
    pub fn new(health_scan_secs: u64) -> (p: Pace)
        ensures
            p.min_secs == (if health_scan_secs < 1 {
                1
            } else {
                health_scan_secs
            }),
            p.max_secs == capped(64 * p.min_secs),
    {
        let min_secs: u64 = if health_scan_secs < 1 {
            1
        } else {
            health_scan_secs
        };
        Pace { min_secs, max_secs: capped_product(min_secs, 64) }
    }

    /// How old a look of one's own may be before it is done again in any case.
    pub fn stale_ceiling(&self) -> (secs: u64)
        ensures
            secs == capped(4 * self.max_secs),
    {
        capped_product(self.max_secs, 4)
    }

    /// How long healthy content waits next: twice as long as before, but at least as long as
    /// its holders need to take turns, and at most as long as the upper bound.
    pub fn backed_off(&self, delay_secs: u64, holders: u32) -> (secs: u64)
        ensures
            secs == eased(*self, delay_secs, holders),
    {
        let h: u64 = if holders < 1 {
            1
        } else if holders > MAX_PACED_HOLDERS {
            MAX_PACED_HOLDERS as u64
        } else {
            holders as u64
        };
        let doubled: u64 = capped_product(delay_secs, 2);
        let turns: u64 = capped_product(self.min_secs, h);
        let want: u64 = if doubled < turns {
            turns
        } else {
            doubled
        };
        if want < self.max_secs {
            want
        } else {
            self.max_secs
        }
    }

    /// How long content waits after it was looked at: the lower bound while it is not yet as
    /// safe as it should be.
    pub fn next_delay(&self, delay_secs: u64, converging: bool, holders: u32) -> (secs: u64)
        ensures
            secs == (if converging {
                self.min_secs
            } else {
                eased(*self, delay_secs, holders)
            }),
    {
        if converging {
            self.min_secs
        } else {
            self.backed_off(delay_secs, holders)
        }
    }
}

/// The holders that count for the pace.
pub open spec fn paced_holders(holders: u32) -> int {
    if holders < 1 {
        1
    } else if holders > MAX_PACED_HOLDERS {
        MAX_PACED_HOLDERS as int
    } else {
        holders as int
    }
}

/// How long healthy content waits next.
pub open spec fn eased(p: Pace, delay_secs: u64, holders: u32) -> u64 {
    let doubled = 2 * delay_secs;
    let turns = p.min_secs * paced_holders(holders);
    let want = if doubled < turns {
        turns
    } else {
        doubled
    };
    if want < p.max_secs {
        want as u64
    } else {
        p.max_secs
    }
}

/// Content is never looked at less often than the upper bound says, nor more often than the
/// lower.
pub proof fn law_pace_stays_in_bounds(p: Pace, delay_secs: u64, holders: u32)
    requires
        p.min_secs <= p.max_secs,
    ensures
        p.min_secs <= eased(p, delay_secs, holders) <= p.max_secs,
{
    assert(p.min_secs * paced_holders(holders) >= p.min_secs) by (nonlinear_arith)
        requires
            paced_holders(holders) >= 1,
    ;
}

/// Content that stays healthy is looked at less and less often: each wait is as long as the
/// last or longer.
pub proof fn law_healthy_content_backs_off(p: Pace, delay_secs: u64, holders: u32)
    requires
        delay_secs <= p.max_secs,
    ensures
        eased(p, delay_secs, holders) >= delay_secs,
{
}

/// What is due, and what is tracked at all.
#[derive(Debug)]
pub struct ScanQueue {
    pub items: Vec<ScanItem>,
    /// All content that is tracked, waiting or being looked at.
    pub seen: Vec<[u8; 32]>,
}

/// What the scanner does next.
#[derive(Clone, Copy, Debug, PartialEq, Eq, Structural)]
pub enum ScanStep {
    /// Wait this many milliseconds.
    Wait(u64),
    /// Take the first item.
    Take,
}

/// No waiting item comes before `first`.
pub open spec fn is_first(items: Seq<ScanItem>, first: ScanItem) -> bool {
    items.contains(first) && forall|i: int|
        0 <= i < items.len() ==> !precedes(#[trigger] items[i], first)
}

/// The items that a pass over held content adds, and what is tracked after it. `n` is how many
/// the pass has added before.
pub open spec fn fed(
    seen: Seq<[u8; 32]>,
    cids: Seq<[u8; 32]>,
    spread: bool,
    now: u64,
    delay_secs: u64,
) -> (Seq<ScanItem>, Seq<[u8; 32]>)
    decreases cids.len(),
{
    if cids.len() == 0 {
        (Seq::empty(), seen)
    } else {
        let (items, known) = fed(seen, cids.drop_last(), spread, now, delay_secs);
        let cid = cids.last();
        if known.contains(cid) {
            (items, known)
        } else {
            let due_ms = if spread {
                (now + ((items.len() + 1) % DRIP_STEPS as nat) * DRIP_STEP_MS) as u64
            } else {
                now
            };
            (items.push(ScanItem { due_ms, cid, delay_secs }), known.push(cid))
        }
    }
}

/// When content that waits for `delay_secs` from `now` on is due.
pub open spec fn due_after(now: u64, delay_secs: u64) -> u64 {
    capped(now + 1000 * delay_secs)
}

impl ScanQueue {
    /// An empty schedule.
    pub fn new() -> (q: ScanQueue)
        ensures
            q.items@.len() == 0,
            q.seen@.len() == 0,
    {
        ScanQueue { items: Vec::new(), seen: Vec::new() }
    }

    fn first_index(&self) -> (at: Option<usize>)
        ensures
            match at {
                Some(i) => i < self.items@.len() && is_first(self.items@, self.items@[i as int]),
                None => self.items@.len() == 0,
            },
    {
        if self.items.len() == 0 {
            return None;
        }
        let mut at: usize = 0;
        let mut i: usize = 1;
        proof {
            lemma_precedes_irreflexive(self.items@[0]);
        }
        while i < self.items.len()
            invariant
                1 <= i <= self.items@.len(),
                at < i,
                forall|j: int|
                    0 <= j < i ==> !precedes(#[trigger] self.items@[j], self.items@[at as int]),
            decreases self.items@.len() - i,
        {
            if comes_before(&self.items[i], &self.items[at]) {
                proof {
                    let was = self.items@[at as int];
                    let now = self.items@[i as int];
                    lemma_precedes_irreflexive(now);
                    assert forall|j: int| 0 <= j < i + 1 implies !precedes(
                        #[trigger] self.items@[j],
                        now,
                    ) by {
                        if j < i && precedes(self.items@[j], now) {
                            lemma_precedes_transitive(self.items@[j], now, was);
                        }
                    }
                }
                at = i;
            }
            i = i + 1;
        }
        Some(at)
    }

    /// What the scanner does at `now`: it looks again every half second while nothing waits,
    /// and at least every second until the first item is due.
    pub fn step(&self, now: u64) -> (step: ScanStep)
        ensures
            self.items@.len() == 0 ==> step == ScanStep::Wait(500),
            self.items@.len() > 0 ==> exists|first: ScanItem| #[trigger]
                is_first(self.items@, first) && step == (if first.due_ms <= now {
                    ScanStep::Take
                } else if first.due_ms - now < 1000 {
                    ScanStep::Wait((first.due_ms - now) as u64)
                } else {
                    ScanStep::Wait(1000)
                }),
    {
        match self.first_index() {
            None => ScanStep::Wait(500),
            Some(i) => {
                let due: u64 = self.items[i].due_ms;
                assert(is_first(self.items@, self.items@[i as int]));
                if due <= now {
                    ScanStep::Take
                } else if due - now < 1000 {
                    ScanStep::Wait(due - now)
                } else {
                    ScanStep::Wait(1000)
                }
            },
        }
    }

    /// Takes the first item.
    pub fn pop(&mut self) -> (item: Option<ScanItem>)
        ensures
            final(self).seen == old(self).seen,
            match item {
                Some(x) => {
                    &&& is_first(old(self).items@, x)
                    &&& final(self).items@.to_multiset() == old(self).items@.to_multiset().remove(x)
                    &&& final(self).items@.len() + 1 == old(self).items@.len()
                },
                None => old(self).items@.len() == 0 && final(self).items@ == old(self).items@,
            },
    {
        match self.first_index() {
            None => None,
            Some(i) => {
                let ghost before = self.items@;
                let item = self.items.remove(i);
                proof {
                    broadcast use vstd::seq_lib::to_multiset_remove;

                    assert(self.items@ == before.remove(i as int));
                }
                Some(item)
            },
        }
    }

    /// Adds content that is held and not tracked yet, due at once; the first time it is spread
    /// over two minutes.
    pub fn feed(&mut self, cids: &[[u8; 32]], spread: bool, now: u64, delay_secs: u64)
        requires
            now + DRIP_STEPS * DRIP_STEP_MS <= u64::MAX,
            cids@.len() < u64::MAX,
        ensures
            ({
                let (items, known) = fed(old(self).seen@, cids@, spread, now, delay_secs);
                &&& final(self).items@ == old(self).items@ + items
                &&& final(self).seen@ == known
            }),
    {
        let ghost start = self.items@;
        let ghost known = self.seen@;
        let mut added: u64 = 0;
        let mut i: usize = 0;
        assert(cids@.take(0) =~= Seq::<[u8; 32]>::empty());
        assert(self.items@ =~= start + fed(known, cids@.take(0), spread, now, delay_secs).0);
        while i < cids.len()
            invariant
                i <= cids@.len(),
                cids@.len() < u64::MAX,
                now + DRIP_STEPS * DRIP_STEP_MS <= u64::MAX,
                self.items@ == start + fed(known, cids@.take(i as int), spread, now, delay_secs).0,
                self.seen@ == fed(known, cids@.take(i as int), spread, now, delay_secs).1,
                added == fed(known, cids@.take(i as int), spread, now, delay_secs).0.len(),
                added <= i,
            decreases cids@.len() - i,
        {
            let ghost done = fed(known, cids@.take(i as int), spread, now, delay_secs);
            proof {
                let next = cids@.take(i + 1);
                assert(next.drop_last() =~= cids@.take(i as int));
                assert(next.last() == cids@[i as int]);
            }
            let cid = cids[i];
            if !lists(self.seen.as_slice(), &cid) {
                added = added + 1;
                let due_ms: u64 = if spread {
                    now + (added % DRIP_STEPS) * DRIP_STEP_MS
                } else {
                    now
                };
                self.seen.push(cid);
                self.items.push(ScanItem { due_ms, cid, delay_secs });
            }
            i = i + 1;
            assert(self.items@ =~= start + fed(
                known,
                cids@.take(i as int),
                spread,
                now,
                delay_secs,
            ).0);
        }
        assert(cids@.take(i as int) =~= cids@);
    }

    /// Puts content back, due after the delay.
    pub fn again(&mut self, cid: [u8; 32], delay_secs: u64, now: u64)
        ensures
            final(self).seen == old(self).seen,
            final(self).items@ == old(self).items@.push(
                ScanItem { due_ms: due_after(now, delay_secs), cid, delay_secs },
            ),
    {
        let due_ms: u64 = now.saturating_add(capped_product(delay_secs, 1000));
        self.items.push(ScanItem { due_ms, cid, delay_secs });
    }

    /// Content that another holder looks at in this turn: it waits as if it had been healthy.
    pub fn passed_over(&mut self, item: ScanItem, pace: &Pace, holders: u32, now: u64)
        ensures
            final(self).seen == old(self).seen,
            ({
                let next = eased(*pace, item.delay_secs, holders);
                final(self).items@ == old(self).items@.push(
                    ScanItem { due_ms: due_after(now, next), cid: item.cid, delay_secs: next },
                )
            }),
    {
        let next: u64 = pace.backed_off(item.delay_secs, holders);
        self.again(item.cid, next, now);
    }

    /// Content that was looked at. While it is held it is put back; once it is not it is no
    /// longer tracked.
    pub fn scanned(
        &mut self,
        item: ScanItem,
        held: bool,
        converging: bool,
        pace: &Pace,
        holders: u32,
        now: u64,
    )
        ensures
            held ==> {
                let next = if converging {
                    pace.min_secs
                } else {
                    eased(*pace, item.delay_secs, holders)
                };
                &&& final(self).seen == old(self).seen
                &&& final(self).items@ == old(self).items@.push(
                    ScanItem { due_ms: due_after(now, next), cid: item.cid, delay_secs: next },
                )
            },
            !held ==> {
                &&& final(self).items == old(self).items
                &&& forall|cid: [u8; 32]| #[trigger]
                    final(self).seen@.contains(cid) <==> old(self).seen@.contains(cid) && cid
                        != item.cid
            },
    {
        if held {
            let next: u64 = pace.next_delay(item.delay_secs, converging, holders);
            self.again(item.cid, next, now);
            return ;
        }
        let mut kept: Vec<[u8; 32]> = Vec::new();
        let mut i: usize = 0;
        while i < self.seen.len()
            invariant
                i <= self.seen@.len(),
                self.items == old(self).items,
                self.seen == old(self).seen,
                forall|cid: [u8; 32]| #[trigger]
                    kept@.contains(cid) <==> self.seen@.take(i as int).contains(cid) && cid
                        != item.cid,
            decreases self.seen@.len() - i,
        {
            let ghost before = kept@;
            let ghost done = self.seen@.take(i as int);
            let ghost next = self.seen@.take(i + 1);
            let x = self.seen[i];
            if !same32(&x, &item.cid) {
                kept.push(x);
            }
            proof {
                assert(next =~= done.push(x));
                assert forall|cid: [u8; 32]| #[trigger] kept@.contains(cid) <==> next.contains(cid)
                    && cid != item.cid by {
                    assert(before.contains(cid) <==> done.contains(cid) && cid != item.cid);
                    if done.contains(cid) {
                        let p = choose|p: int| 0 <= p < done.len() && done[p] == cid;
                        assert(next[p] == cid);
                    }
                    if next.contains(cid) && cid != x {
                        let p = choose|p: int| 0 <= p < next.len() && next[p] == cid;
                        assert(done[p] == cid);
                    }
                    if cid == x {
                        assert(next[i as int] == cid);
                    }
                    if before.contains(cid) {
                        let p = choose|p: int| 0 <= p < before.len() && before[p] == cid;
                        assert(kept@[p] == cid);
                    }
                    if kept@.contains(cid) && !before.contains(cid) {
                        let p = choose|p: int| 0 <= p < kept@.len() && kept@[p] == cid;
                        if p < before.len() {
                            assert(before[p] == cid);
                        }
                    }
                    if x != item.cid && cid == x {
                        assert(kept@[before.len() as int] == cid);
                    }
                }
            }
            i = i + 1;
        }
        assert(self.seen@.take(i as int) =~= self.seen@);
        self.seen = kept;
    }

    fn is_latest(&self, i: usize) -> (yes: bool)
        requires
            i < self.items@.len(),
        ensures
            yes == latest(self.items@, i as int),
    {
        let n: usize = self.items.len();
        let mut j: usize = i + 1;
        while j < n
            invariant
                n == self.items@.len(),
                i < j <= n,
                forall|k: int| i < k < j ==> #[trigger] self.items@[k].cid != self.items@[i as int].cid,
            decreases n - j,
        {
            if same32(&self.items[j].cid, &self.items[i].cid) {
                return false;
            }
            j = j + 1;
        }
        true
    }

    /// How many contents wait, and how many of them are due.
    pub fn depth(&self, now: u64) -> (d: (usize, usize))
        ensures
            d.0 == waiting(self.items@, self.items@.len() as int),
            d.1 == due_count(self.items@, self.items@.len() as int, now),
    {
        let mut all: usize = 0;
        let mut due: usize = 0;
        let mut i: usize = 0;
        while i < self.items.len()
            invariant
                i <= self.items@.len(),
                all <= i,
                due <= i,
                all == waiting(self.items@, i as int),
                due == due_count(self.items@, i as int, now),
            decreases self.items@.len() - i,
        {
            if self.is_latest(i) {
                all = all + 1;
                if self.items[i].due_ms <= now {
                    due = due + 1;
                }
            }
            i = i + 1;
        }
        (all, due)
    }

    /// In how many seconds content is looked at next, where it waits.
    pub fn next_secs(&self, cid: &[u8; 32], now: u64) -> (secs: Option<u64>)
        ensures
            secs == (match due_of(self.items@, *cid) {
                Some(due) => Some((passed(due, now) / 1000) as u64),
                None => None,
            }),
    {
        let mut i: usize = self.items.len();
        assert(self.items@.take(i as int) =~= self.items@);
        while i > 0
            invariant
                i <= self.items@.len(),
                due_of(self.items@.take(i as int), *cid) == due_of(self.items@, *cid),
            decreases i,
        {
            i = i - 1;
            assert(self.items@.take(i + 1).last() == self.items@[i as int]);
            assert(self.items@.take(i + 1).drop_last() =~= self.items@.take(i as int));
            if same32(&self.items[i].cid, cid) {
                return Some(self.items[i].due_ms.saturating_sub(now) / 1000);
            }
        }
        None
    }
}

/// No later item is for the same content.
pub open spec fn latest(items: Seq<ScanItem>, i: int) -> bool {
    forall|k: int| i < k < items.len() ==> #[trigger] items[k].cid != items[i].cid
}

/// How many contents the first `n` items settle.
pub open spec fn waiting(items: Seq<ScanItem>, n: int) -> nat
    decreases n,
{
    if n <= 0 {
        0
    } else {
        waiting(items, n - 1) + (if latest(items, n - 1) {
            1nat
        } else {
            0
        })
    }
}

/// How many of these are due.
pub open spec fn due_count(items: Seq<ScanItem>, n: int, now: u64) -> nat
    decreases n,
{
    if n <= 0 {
        0
    } else {
        due_count(items, n - 1, now) + (if latest(items, n - 1) && items[n - 1].due_ms <= now {
            1nat
        } else {
            0
        })
    }
}

/// When content is due, by the latest item for it.
pub open spec fn due_of(items: Seq<ScanItem>, cid: [u8; 32]) -> Option<u64>
    decreases items.len(),
{
    if items.len() == 0 {
        None
    } else if items.last().cid == cid {
        Some(items.last().due_ms)
    } else {
        due_of(items.drop_last(), cid)
    }
}

/// A pass over held content tracks all of it.
pub proof fn law_all_held_content_is_tracked(
    seen: Seq<[u8; 32]>,
    cids: Seq<[u8; 32]>,
    spread: bool,
    now: u64,
    delay_secs: u64,
    i: int,
)
    requires
        0 <= i < cids.len(),
    ensures
        fed(seen, cids, spread, now, delay_secs).1.contains(cids[i]),
    decreases cids.len(),
{
    let front = fed(seen, cids.drop_last(), spread, now, delay_secs).1;
    let all = fed(seen, cids, spread, now, delay_secs).1;
    if i < cids.len() - 1 {
        law_all_held_content_is_tracked(seen, cids.drop_last(), spread, now, delay_secs, i);
        let k = choose|k: int| 0 <= k < front.len() && front[k] == cids[i];
        assert(all[k] == cids[i]);
    } else if !front.contains(cids.last()) {
        assert(all[front.len() as int] == cids[i]);
    }
}

/// Content that is tracked already gets no second item from a pass.
pub proof fn law_tracked_content_is_not_added_again(
    seen: Seq<[u8; 32]>,
    cids: Seq<[u8; 32]>,
    spread: bool,
    now: u64,
    delay_secs: u64,
    i: int,
)
    requires
        0 <= i < fed(seen, cids, spread, now, delay_secs).0.len(),
    ensures
        !seen.contains(fed(seen, cids, spread, now, delay_secs).0[i].cid),
    decreases cids.len(),
{
    let front = fed(seen, cids.drop_last(), spread, now, delay_secs);
    if i < front.0.len() {
        law_tracked_content_is_not_added_again(
            seen,
            cids.drop_last(),
            spread,
            now,
            delay_secs,
            i,
        );
    } else {
        lemma_seen_stays(seen, cids.drop_last(), spread, now, delay_secs, cids.last());
    }
}

proof fn lemma_fed(
    seen: Seq<[u8; 32]>,
    cids: Seq<[u8; 32]>,
    spread: bool,
    now: u64,
    delay_secs: u64,
)
    requires
        now + 120_000 <= u64::MAX,
    ensures
        ({
            let (items, known) = fed(seen, cids, spread, now, delay_secs);
            &&& known == seen + items.map_values(|item: ScanItem| item.cid)
            &&& forall|k: int| 0 <= k < items.len() ==> cids.contains((#[trigger] items[k]).cid)
            &&& forall|k: int|
                0 <= k < items.len() ==> (#[trigger] items[k]).delay_secs == delay_secs
            &&& forall|k: int|
                0 <= k < items.len() ==> (#[trigger] items[k]).due_ms == (if spread {
                    now + 100 * ((k + 1) % 1200)
                } else {
                    now as int
                })
            &&& forall|j: int, k: int|
                0 <= j < k < items.len() ==> (#[trigger] items[j]).cid != (#[trigger] items[k]).cid
        }),
    decreases cids.len(),
{
    let (items, known) = fed(seen, cids, spread, now, delay_secs);
    if cids.len() == 0 {
        assert(known =~= seen + items.map_values(|item: ScanItem| item.cid));
    } else {
        let front = cids.drop_last();
        let (was, before) = fed(seen, front, spread, now, delay_secs);
        lemma_fed(seen, front, spread, now, delay_secs);
        assert(cids[cids.len() - 1] == cids.last());
        assert forall|k: int| 0 <= k < items.len() implies cids.contains((#[trigger] items[k]).cid) by {
            if k < was.len() {
                assert(items[k] == was[k]);
                let i = choose|i: int| 0 <= i < front.len() && front[i] == was[k].cid;
                assert(cids[i] == was[k].cid);
            }
        }
        if !before.contains(cids.last()) {
            assert(known =~= seen + items.map_values(|item: ScanItem| item.cid));
            assert forall|j: int, k: int| 0 <= j < k < items.len() implies (#[trigger] items[j]).cid
                != (#[trigger] items[k]).cid by {
                if k < was.len() {
                    assert(was[j].cid != was[k].cid);
                } else {
                    assert(before[seen.len() + j] == was[j].cid);
                }
            }
        }
    }
}

/// All held content gets scanned: a pass queues every content that was not tracked before,
/// exactly once and with the given delay, and nothing else. Queued content is tracked from then
/// on. The first pass spreads the content over two minutes, a tenth of a second apart; later
/// ones have it due at once.
pub proof fn law_all_held_content_is_queued(
    seen: Seq<[u8; 32]>,
    cids: Seq<[u8; 32]>,
    spread: bool,
    now: u64,
    delay_secs: u64,
)
    requires
        now + 120_000 <= u64::MAX,
    ensures
        ({
            let (items, known) = fed(seen, cids, spread, now, delay_secs);
            &&& forall|i: int|
                0 <= i < cids.len() && !seen.contains(#[trigger] cids[i]) ==> exists|k: int|
                    0 <= k < items.len() && (#[trigger] items[k]).cid == cids[i]
            &&& forall|k: int|
                0 <= k < items.len() ==> cids.contains((#[trigger] items[k]).cid) && !seen.contains(
                    items[k].cid,
                )
            &&& forall|j: int, k: int|
                0 <= j < k < items.len() ==> (#[trigger] items[j]).cid != (#[trigger] items[k]).cid
            &&& forall|k: int|
                0 <= k < items.len() ==> (#[trigger] items[k]).delay_secs == delay_secs
            &&& !spread ==> forall|k: int|
                0 <= k < items.len() ==> (#[trigger] items[k]).due_ms == now
            &&& spread ==> forall|k: int|
                0 <= k < items.len() ==> now <= (#[trigger] items[k]).due_ms < now + 120_000
            &&& spread ==> forall|k: int|
                0 <= k < items.len() && k < 1199 ==> (#[trigger] items[k]).due_ms == now + 100 * (k
                    + 1)
            &&& forall|c: [u8; 32]| #[trigger]
                known.contains(c) <==> seen.contains(c) || cids.contains(c)
            &&& known.len() == seen.len() + items.len()
        }),
{
    let (items, known) = fed(seen, cids, spread, now, delay_secs);
    let added = items.map_values(|item: ScanItem| item.cid);
    lemma_fed(seen, cids, spread, now, delay_secs);
    assert forall|c: [u8; 32]| #[trigger] known.contains(c) <==> seen.contains(c) || cids.contains(
        c,
    ) by {
        if known.contains(c) {
            let k = choose|k: int| 0 <= k < known.len() && known[k] == c;
            if k < seen.len() {
                assert(seen[k] == c);
            } else {
                assert(items[k - seen.len()].cid == c);
            }
        }
        if seen.contains(c) {
            let k = choose|k: int| 0 <= k < seen.len() && seen[k] == c;
            assert(known[k] == c);
        }
        if cids.contains(c) {
            let i = choose|i: int| 0 <= i < cids.len() && cids[i] == c;
            law_all_held_content_is_tracked(seen, cids, spread, now, delay_secs, i);
        }
    }
    assert forall|i: int| 0 <= i < cids.len() && !seen.contains(#[trigger] cids[i]) implies exists|
        k: int,
    | 0 <= k < items.len() && (#[trigger] items[k]).cid == cids[i] by {
        law_all_held_content_is_tracked(seen, cids, spread, now, delay_secs, i);
        let k = choose|k: int| 0 <= k < known.len() && known[k] == cids[i];
        if k < seen.len() {
            assert(seen[k] == cids[i]);
        }
        assert(added[k - seen.len()] == cids[i]);
        assert(items[k - seen.len()].cid == cids[i]);
    }
    assert forall|k: int| 0 <= k < items.len() implies !seen.contains((#[trigger] items[k]).cid) by {
        law_tracked_content_is_not_added_again(seen, cids, spread, now, delay_secs, k);
    }
}

proof fn lemma_seen_stays(
    seen: Seq<[u8; 32]>,
    cids: Seq<[u8; 32]>,
    spread: bool,
    now: u64,
    delay_secs: u64,
    cid: [u8; 32],
)
    ensures
        seen.contains(cid) ==> fed(seen, cids, spread, now, delay_secs).1.contains(cid),
    decreases cids.len(),
{
    if cids.len() > 0 && seen.contains(cid) {
        lemma_seen_stays(seen, cids.drop_last(), spread, now, delay_secs, cid);
        let front = fed(seen, cids.drop_last(), spread, now, delay_secs).1;
        let all = fed(seen, cids, spread, now, delay_secs).1;
        let k = choose|k: int| 0 <= k < front.len() && front[k] == cid;
        assert(all[k] == cid);
    }
}

/// Whether the wave of work after a start has drained, so that scans may begin: few jobs are
/// queued, or five minutes have passed.
pub fn wave_drained(queue_depth: usize, waited_ms: u64) -> (yes: bool)
    ensures
        yes == (queue_depth < 32 || waited_ms > 300_000),
{
    queue_depth < 32 || waited_ms > 300_000
}

/// Watches, before the first scan, whether the peers and the routing table have settled.
#[derive(Clone, Copy, Debug)]
pub struct ScanStart {
    pub start_ms: u64,
    /// The peers and the contacts last seen.
    pub last: Option<(usize, usize)>,
    pub stable_since_ms: u64,
}

/// What a look comes to, and whether scanning may begin: there are peers and contacts and
/// neither number has changed for ten seconds, or ninety seconds have passed.
pub open spec fn start_looked(g: ScanStart, peers: usize, table: usize, now: u64) -> (ScanStart, bool) {
    let stable_since_ms = if g.last == Some((peers, table)) {
        g.stable_since_ms
    } else {
        now
    };
    (
        ScanStart { start_ms: g.start_ms, last: Some((peers, table)), stable_since_ms },
        (peers > 0 && table > 0 && passed(now, stable_since_ms) >= READY_STABLE_MS) || passed(
            now,
            g.start_ms,
        ) >= READY_MAX_MS,
    )
}

impl ScanStart {
    /// A start at `now`.
    pub fn new(now: u64) -> (g: ScanStart)
        ensures
            g == (ScanStart { start_ms: now, last: None, stable_since_ms: now }),
    {
        ScanStart { start_ms: now, last: None, stable_since_ms: now }
    }

    /// A look at the peers and the routing table.
    pub fn look(&mut self, peers: usize, table: usize, now: u64) -> (ready: bool)
        ensures
            (*final(self), ready) == start_looked(*old(self), peers, table, now),
    {
        let same = match self.last {
            Some((p, t)) => p == peers && t == table,
            None => false,
        };
        if !same {
            self.last = Some((peers, table));
            self.stable_since_ms = now;
        }
        (peers > 0 && table > 0 && now.saturating_sub(self.stable_since_ms) >= READY_STABLE_MS)
            || now.saturating_sub(self.start_ms) >= READY_MAX_MS
    }
}

/// How well content is kept.
#[derive(Clone, Copy, Debug, PartialEq, Eq, Structural)]
pub enum Verdict {
    AtRisk,
    Fading,
    /// Not looked at yet.
    Pending,
    Surplus,
    Durable,
}

/// The verdict on content, by what the last look found: at risk before anything else, and
/// more than enough only well above the floor.
pub open spec fn verdict_of(
    at_risk: bool,
    fading: bool,
    last_scan_ms: u64,
    effective: usize,
    floor: usize,
) -> Verdict {
    let slack = if floor / 8 < 2 {
        2
    } else {
        floor as int / 8
    };
    if at_risk {
        Verdict::AtRisk
    } else if fading {
        Verdict::Fading
    } else if last_scan_ms == 0 {
        Verdict::Pending
    } else if floor > 0 && effective > floor + slack {
        Verdict::Surplus
    } else {
        Verdict::Durable
    }
}

/// The verdict on content.
pub fn verdict(
    at_risk: bool,
    fading: bool,
    last_scan_ms: u64,
    effective: usize,
    floor: usize,
) -> (v: Verdict)
    ensures
        v == verdict_of(at_risk, fading, last_scan_ms, effective, floor),
{
    if at_risk {
        return Verdict::AtRisk;
    }
    if fading {
        return Verdict::Fading;
    }
    if last_scan_ms == 0 {
        return Verdict::Pending;
    }
    let slack: usize = if floor / 8 < 2 {
        2
    } else {
        floor / 8
    };
    if floor > 0 && effective > floor && effective - floor > slack {
        Verdict::Surplus
    } else {
        Verdict::Durable
    }
}

impl Verdict {
    /// The name that the verdict is shown under.
    pub fn name(&self) -> (name: String)
        ensures
            name@ == (match *self {
                Verdict::AtRisk => "at-risk"@,
                Verdict::Fading => "fading"@,
                Verdict::Pending => "pending"@,
                Verdict::Surplus => "surplus"@,
                Verdict::Durable => "durable"@,
            }),
    {
        match self {
            Verdict::AtRisk => String::from_str("at-risk"),
            Verdict::Fading => String::from_str("fading"),
            Verdict::Pending => String::from_str("pending"),
            Verdict::Surplus => String::from_str("surplus"),
            Verdict::Durable => String::from_str("durable"),
        }
    }
}

/// How many seconds ago content was looked at, where it was.
pub fn scanned_ago(last_scan_ms: u64, now: u64) -> (secs: Option<u64>)
    ensures
        secs == (if last_scan_ms != 0 {
            Some((passed(now, last_scan_ms) / 1000) as u64)
        } else {
            None
        }),
{
    if last_scan_ms != 0 {
        Some(now.saturating_sub(last_scan_ms) / 1000)
    } else {
        None
    }
}

/// How long healthy content waits next. Below the upper bound it is at least twice as long as
/// before, and long enough for each of its holders, up to sixteen, to take a turn of the lower
/// bound; and it is no longer than one of these asks for. At the upper bound one of them asks for
/// as much or more.
pub proof fn law_waits_give_holders_their_turns(p: Pace, delay_secs: u64, holders: u32)
    ensures
        ({
            let next = eased(p, delay_secs, holders);
            let turn = p.min_secs;
            &&& next <= p.max_secs
            &&& next < p.max_secs ==> next >= delay_secs + delay_secs && next >= turn
            &&& next < p.max_secs && holders <= 16 ==> next >= turn * holders
            &&& next < p.max_secs && holders >= 16 ==> next >= turn * 16
            &&& next < p.max_secs ==> next == delay_secs + delay_secs || next == turn || (holders
                <= 16 && next == turn * holders) || (holders > 16 && next == turn * 16)
            &&& next == p.max_secs ==> delay_secs + delay_secs >= p.max_secs || turn >= p.max_secs
                || (holders <= 16 && turn * holders >= p.max_secs) || (holders > 16 && turn * 16
                >= p.max_secs)
        }),
{
    let h = paced_holders(holders);
    assert(p.min_secs * h >= p.min_secs) by (nonlinear_arith)
        requires
            h >= 1,
    ;
    assert(holders == 0 ==> p.min_secs * holders == 0) by (nonlinear_arith);
    assert(p.min_secs * 1 == p.min_secs);
}

/// Content put back is due after its delay in seconds, to the millisecond, as far as time goes.
pub proof fn law_content_is_due_after_its_delay(now: u64, delay_secs: u64)
    ensures
        now + delay_secs * 1000 <= u64::MAX ==> due_after(now, delay_secs) - now == delay_secs
            * 1000,
        now + delay_secs * 1000 > u64::MAX ==> due_after(now, delay_secs) == u64::MAX,
{
}

/// What is taken first is due no later than anything else, and of what is due with it none comes
/// before it in the order of content.
pub proof fn law_the_earliest_is_first(items: Seq<ScanItem>, first: ScanItem, i: int)
    requires
        is_first(items, first),
        0 <= i < items.len(),
    ensures
        items.contains(first),
        first.due_ms <= items[i].due_ms,
        first.due_ms == items[i].due_ms ==> !lex_lt(items[i].cid@, first.cid@),
        first.due_ms == items[i].due_ms && first.cid == items[i].cid ==> first.delay_secs
            <= items[i].delay_secs,
{
    assert(!precedes(items[i], first));
}

/// When content is next due: as its latest item says, and never where no item is for it.
pub proof fn law_the_latest_item_counts(items: Seq<ScanItem>, x: ScanItem, cid: [u8; 32])
    ensures
        due_of(Seq::empty(), cid) is None,
        due_of(items.push(x), x.cid) == Some(x.due_ms),
        cid != x.cid ==> due_of(items.push(x), cid) == due_of(items, cid),
        due_of(items, cid) is Some <==> exists|i: int|
            0 <= i < items.len() && (#[trigger] items[i]).cid == cid,
{
    assert(items.push(x).drop_last() =~= items);
    lemma_due_of(items, cid);
}

proof fn lemma_due_of(items: Seq<ScanItem>, cid: [u8; 32])
    ensures
        due_of(items, cid) is Some <==> exists|i: int|
            0 <= i < items.len() && (#[trigger] items[i]).cid == cid,
        due_of(items, cid) matches Some(due) ==> exists|i: int|
            0 <= i < items.len() && latest(items, i) && (#[trigger] items[i]).cid == cid
                && items[i].due_ms == due,
    decreases items.len(),
{
    if items.len() > 0 {
        let front = items.drop_last();
        let n = items.len() - 1;
        lemma_due_of(front, cid);
        if items.last().cid == cid {
            assert(items[n].cid == cid);
            assert(latest(items, n));
        } else {
            if due_of(front, cid) is Some {
                let i = choose|i: int|
                    0 <= i < front.len() && latest(front, i) && (#[trigger] front[i]).cid == cid
                        && front[i].due_ms == due_of(front, cid)->0;
                assert(items[i].cid == cid);
                assert forall|k: int| i < k < items.len() implies (#[trigger] items[k]).cid
                    != items[i].cid by {
                    if k < n {
                        assert(front[k].cid != front[i].cid);
                    }
                }
            }
            if exists|i: int| 0 <= i < items.len() && (#[trigger] items[i]).cid == cid {
                let i = choose|i: int| 0 <= i < items.len() && (#[trigger] items[i]).cid == cid;
                assert(front[i].cid == cid);
            }
        }
    }
}

proof fn lemma_counts_after_push(
    items: Seq<ScanItem>,
    x: ScanItem,
    last: int,
    n: int,
    now: u64,
)
    requires
        0 <= n <= items.len(),
        0 <= last < items.len() ==> items[last].cid == x.cid && latest(items, last),
        !(0 <= last < items.len()) ==> forall|i: int|
            0 <= i < items.len() ==> (#[trigger] items[i]).cid != x.cid,
    ensures
        0 <= last < n ==> waiting(items.push(x), n) + 1 == waiting(items, n) && due_count(
            items.push(x),
            n,
            now,
        ) + (if items[last].due_ms <= now {
            1nat
        } else {
            0
        }) == due_count(items, n, now),
        !(0 <= last < n) ==> waiting(items.push(x), n) == waiting(items, n) && due_count(
            items.push(x),
            n,
            now,
        ) == due_count(items, n, now),
    decreases n,
{
    if n > 0 {
        lemma_counts_after_push(items, x, last, n - 1, now);
        let i = n - 1;
        let all = items.push(x);
        assert(all[i] == items[i]);
        assert(all[items.len() as int] == x);
        if items[i].cid == x.cid {
            assert(!latest(all, i));
            assert(latest(items, i) ==> i == last) by {
                if latest(items, i) && i != last {
                    if i < last {
                        assert(items[last].cid != items[i].cid);
                    } else {
                        assert(items[i].cid != items[last].cid);
                    }
                }
            }
        } else {
            assert(latest(all, i) <==> latest(items, i)) by {
                if latest(items, i) {
                    assert forall|k: int| i < k < all.len() implies (#[trigger] all[k]).cid
                        != all[i].cid by {
                        if k < items.len() {
                            assert(items[k].cid != items[i].cid);
                        }
                    }
                }
                if latest(all, i) {
                    assert forall|k: int| i < k < items.len() implies (#[trigger] items[k]).cid
                        != items[i].cid by {
                        assert(all[k].cid != all[i].cid);
                    }
                }
            }
        }
    }
}

/// How many contents wait and how many are due: none at first; an item more counts as one, and
/// takes the place of an earlier item for the same content.
pub proof fn law_each_content_counts_once(items: Seq<ScanItem>, x: ScanItem, now: u64)
    ensures
        waiting(Seq::empty(), 0) == 0,
        due_count(Seq::empty(), 0, now) == 0,
        ({
            let n = items.len() as int;
            let listed = exists|i: int| 0 <= i < items.len() && (#[trigger] items[i]).cid == x.cid;
            &&& waiting(items.push(x), n + 1) == waiting(items, n) + (if listed {
                0nat
            } else {
                1nat
            })
            &&& due_count(items.push(x), n + 1, now) + (match due_of(items, x.cid) {
                Some(due) => if due <= now {
                    1nat
                } else {
                    0
                },
                None => 0,
            }) == due_count(items, n, now) + (if x.due_ms <= now {
                1nat
            } else {
                0
            })
        }),
{
    let n = items.len() as int;
    let all = items.push(x);
    lemma_due_of(items, x.cid);
    let last = if due_of(items, x.cid) is Some {
        choose|i: int|
            0 <= i < items.len() && latest(items, i) && (#[trigger] items[i]).cid == x.cid
                && items[i].due_ms == due_of(items, x.cid)->0
    } else {
        -1
    };
    lemma_counts_after_push(items, x, last, n, now);
    assert(latest(all, n));
    assert(all[n] == x);
}

/// Scanning begins once there are peers and contacts and neither number has changed for ten
/// seconds, and after ninety seconds in any case. A look at other numbers starts the ten seconds
/// over.
pub proof fn law_scans_wait_for_a_settled_network(
    g: ScanStart,
    peers: usize,
    table: usize,
    now: u64,
)
    requires
        now >= g.start_ms,
        now >= g.stable_since_ms,
    ensures
        ({
            let (next, ready) = start_looked(g, peers, table, now);
            let same = g.last == Some((peers, table));
            &&& next.last == Some((peers, table))
            &&& next.start_ms == g.start_ms
            &&& same ==> next.stable_since_ms == g.stable_since_ms
            &&& !same ==> next.stable_since_ms == now
            &&& ready <==> now >= g.start_ms + 90_000 || (same && peers > 0 && table > 0 && now
                >= g.stable_since_ms + 10_000)
        }),
{
}

/// What each verdict says of content: each is given exactly on its own grounds.
pub proof fn law_verdicts_have_their_grounds(
    at_risk: bool,
    fading: bool,
    last_scan_ms: u64,
    effective: usize,
    floor: usize,
)
    ensures
        ({
            let v = verdict_of(at_risk, fading, last_scan_ms, effective, floor);
            let over = effective - floor;
            &&& v == Verdict::AtRisk <==> at_risk
            &&& v == Verdict::Fading <==> fading && !at_risk
            &&& v == Verdict::Pending <==> last_scan_ms == 0 && !fading && !at_risk
            &&& v == Verdict::Surplus <==> !at_risk && !fading && last_scan_ms > 0 && floor > 0
                && over >= 3 && 8 * over > floor
            &&& v == Verdict::Durable <==> !at_risk && !fading && last_scan_ms > 0 && (floor == 0
                || over <= 2 || 8 * over <= floor)
        }),
{
}

/// What a call of `feed` does: all held content that was not tracked is queued, once, and
/// tracked; what was tracked is not queued again, and what waited still waits.
pub proof fn law_a_pass_queues_untracked_content(
    q: &mut ScanQueue,
    cids: &[[u8; 32]],
    spread: bool,
    now: u64,
    delay_secs: u64,
    cid: [u8; 32],
    i: int,
)
    requires
        now + 120_000 <= u64::MAX,
        call_ensures(ScanQueue::feed, (q, cids, spread, now, delay_secs), ()),
        0 <= i < cids@.len(),
    ensures
        final(q).seen@.contains(cids@[i]),
        final(q).seen@.contains(cid) <==> old(q).seen@.contains(cid) || cids@.contains(cid),
        final(q).items@.len() >= old(q).items@.len(),
        final(q).items@.take(old(q).items@.len() as int) == old(q).items@,
        !old(q).seen@.contains(cids@[i]) ==> exists|k: int|
            {
                &&& old(q).items@.len() <= k < final(q).items@.len()
                &&& (#[trigger] final(q).items@[k]).cid == cids@[i]
                &&& final(q).items@[k].delay_secs == delay_secs
                &&& now <= final(q).items@[k].due_ms <= now + 120_000
                &&& !spread ==> final(q).items@[k].due_ms == now
            },
        forall|k: int, m: int|
            old(q).items@.len() <= k < m < final(q).items@.len() ==> (
            #[trigger] final(q).items@[k]).cid != (#[trigger] final(q).items@[m]).cid,
        forall|k: int|
            old(q).items@.len() <= k < final(q).items@.len() ==> !old(q).seen@.contains(
                (#[trigger] final(q).items@[k]).cid,
            ) && cids@.contains(final(q).items@[k].cid),
{
    law_all_held_content_is_queued(old(q).seen@, cids@, spread, now, delay_secs);
    let (items, known) = fed(old(q).seen@, cids@, spread, now, delay_secs);
    let n = old(q).items@.len() as int;
    assert(final(q).items@ == old(q).items@ + items);
    assert(final(q).items@.take(n) =~= old(q).items@);
    assert(cids@.contains(cids@[i]));
    assert forall|k: int| n <= k < final(q).items@.len() implies #[trigger] final(q).items@[k]
        == items[k - n] by {}
    if !old(q).seen@.contains(cids@[i]) {
        let k = choose|k: int| 0 <= k < items.len() && (#[trigger] items[k]).cid == cids@[i];
        assert(final(q).items@[n + k] == items[k]);
    }
}

/// What is taken is the earliest item, and it alone; where nothing waits nothing is taken.
pub proof fn law_the_earliest_item_is_taken(q: &mut ScanQueue, item: Option<ScanItem>, i: int)
    requires
        call_ensures(ScanQueue::pop, (q,), item),
    ensures
        item is None <==> old(q).items@.len() == 0,
        final(q).seen == old(q).seen,
        item matches Some(x) ==> old(q).items@.contains(x) && final(q).items@.len() + 1
            == old(q).items@.len(),
        item matches Some(x) ==> 0 <= i < old(q).items@.len() ==> x.due_ms
            <= old(q).items@[i].due_ms,
        item matches Some(x) ==> final(q).items@.to_multiset().insert(x)
            == old(q).items@.to_multiset(),
{
    broadcast use vstd::seq_lib::group_to_multiset_ensures;

    if let Some(x) = item {
        if 0 <= i < old(q).items@.len() {
            law_the_earliest_is_first(old(q).items@, x, i);
        }
        assert(old(q).items@.to_multiset().count(x) > 0);
        assert(final(q).items@.to_multiset().insert(x) =~= old(q).items@.to_multiset());
    }
}

/// What the scanner does next: it takes an item exactly where one is due, and waits otherwise, half
/// a second where nothing waits, and never beyond a second or the first item.
pub proof fn law_due_items_are_taken(q: ScanQueue, now: u64, step: ScanStep, i: int)
    requires
        call_ensures(ScanQueue::step, (&q, now), step),
    ensures
        q.items@.len() == 0 ==> step == ScanStep::Wait(500),
        0 <= i < q.items@.len() && q.items@[i].due_ms <= now ==> step == ScanStep::Take,
        step == ScanStep::Take ==> exists|k: int|
            0 <= k < q.items@.len() && (#[trigger] q.items@[k]).due_ms <= now,
        step matches ScanStep::Wait(ms) ==> ms <= 1000 && (0 <= i < q.items@.len() ==> now + ms
            <= q.items@[i].due_ms),
        q.items@.len() > 0 && step is Wait ==> step->Wait_0 > 0,
{
    if q.items@.len() > 0 {
        let first = choose|first: ScanItem| #[trigger]
            is_first(q.items@, first) && step == (if first.due_ms <= now {
                ScanStep::Take
            } else if first.due_ms - now < 1000 {
                ScanStep::Wait((first.due_ms - now) as u64)
            } else {
                ScanStep::Wait(1000)
            });
        let k = choose|k: int| 0 <= k < q.items@.len() && q.items@[k] == first;
        assert(q.items@[k].due_ms == first.due_ms);
        if 0 <= i < q.items@.len() {
            law_the_earliest_is_first(q.items@, first, i);
        }
    }
}

/// What becomes of content that was looked at: while it is held it is queued again, after the
/// shortest wait while it is not yet as safe as it should be, and after a longer one once it is;
/// when it is no longer held it is no longer tracked.
pub proof fn law_content_is_looked_at_while_held(
    q: &mut ScanQueue,
    item: ScanItem,
    held: bool,
    converging: bool,
    pace: Pace,
    holders: u32,
    now: u64,
    other: [u8; 32],
)
    requires
        call_ensures(ScanQueue::scanned, (q, item, held, converging, &pace, holders, now), ()),
        item.delay_secs <= pace.max_secs,
        pace.min_secs <= pace.max_secs,
        now + 1000 * pace.max_secs <= u64::MAX,
        other != item.cid,
    ensures
        held ==> final(q).seen == old(q).seen && final(q).items@.len() == old(q).items@.len() + 1
            && final(q).items@.last().cid == item.cid && final(q).items@.last().due_ms == now + 1000
            * final(q).items@.last().delay_secs,
        held && converging ==> final(q).items@.last().delay_secs == pace.min_secs,
        held && !converging ==> item.delay_secs <= final(q).items@.last().delay_secs
            && pace.min_secs <= final(q).items@.last().delay_secs <= pace.max_secs,
        !held ==> final(q).items == old(q).items && !final(q).seen@.contains(item.cid),
        !held ==> (final(q).seen@.contains(other) <==> old(q).seen@.contains(other)),
{
    law_pace_stays_in_bounds(pace, item.delay_secs, holders);
    law_healthy_content_backs_off(pace, item.delay_secs, holders);
}

/// The bounds of the pace: the configured interval of at least a second, and 64 times as much; a
/// look of one's own goes stale after four times that.
pub proof fn law_paces_are_bounded(health_scan_secs: u64, p: Pace, stale: u64)
    requires
        call_ensures(Pace::new, (health_scan_secs,), p),
        call_ensures(Pace::stale_ceiling, (&p,), stale),
        health_scan_secs <= 1_000_000_000,
    ensures
        health_scan_secs >= 1 ==> p.min_secs == health_scan_secs,
        health_scan_secs == 0 ==> p.min_secs == 1,
        p.max_secs == 64 * p.min_secs,
        stale == 256 * p.min_secs,
{
}

/// Scans begin once fewer than 32 jobs are queued, and after five minutes in any case; and how long
/// ago content was looked at is told in whole seconds, where it was.
pub proof fn law_scans_wait_for_the_wave(
    queue_depth: usize,
    waited_ms: u64,
    yes: bool,
    last_scan_ms: u64,
    now: u64,
    ago: Option<u64>,
)
    requires
        call_ensures(wave_drained, (queue_depth, waited_ms), yes),
        call_ensures(scanned_ago, (last_scan_ms, now), ago),
        now >= last_scan_ms,
    ensures
        yes <==> queue_depth < 32 || waited_ms > 5 * 60 * 1000,
        ago is Some <==> last_scan_ms > 0,
        ago matches Some(secs) ==> secs * 1000 <= now - last_scan_ms < (secs + 1) * 1000,
{
}

} // verus!
