//! A number kept for each shard, zero until it is set.

use crate::headreg::shard::ShardKey;
use vstd::prelude::*;

verus! {

/// A number for each shard.
#[derive(Debug)]
pub struct ShardTally {
    rows: Vec<(ShardKey, u64)>,
}

/// The number that the last row of a shard gives, or zero.
pub open spec fn tally_at(rows: Seq<(ShardKey, u64)>, sk: ShardKey) -> u64
    decreases rows.len(),
{
    if rows.len() == 0 {
        0
    } else if rows.last().0 == sk {
        rows.last().1
    } else {
        tally_at(rows.drop_last(), sk)
    }
}

proof fn lemma_tally_update(rows: Seq<(ShardKey, u64)>, i: int, n: u64)
    requires
        0 <= i < rows.len(),
        forall|j: int| i < j < rows.len() ==> (#[trigger] rows[j]).0 != rows[i].0,
    ensures
        forall|sk: ShardKey| #[trigger]
            tally_at(rows.update(i, (rows[i].0, n)), sk) == (if sk == rows[i].0 {
                n
            } else {
                tally_at(rows, sk)
            }),
    decreases rows.len(),
{
    let key = rows[i].0;
    let new = rows.update(i, (key, n));
    let front = rows.drop_last();
    if i < rows.len() - 1 {
        assert(front[i] == rows[i]);
        lemma_tally_update(front, i, n);
        assert(new.drop_last() =~= front.update(i, (key, n)));
        assert(new.last() == rows.last());
    } else {
        assert(new.drop_last() =~= front);
    }
    assert forall|sk: ShardKey| #[trigger] tally_at(new, sk) == (if sk == key {
        n
    } else {
        tally_at(rows, sk)
    }) by {
        if i < rows.len() - 1 {
            assert(tally_at(front.update(i, (front[i].0, n)), sk) == (if sk == key {
                n
            } else {
                tally_at(front, sk)
            }));
        }
    }
}

impl ShardTally {
    /// The number of a shard.
    pub closed spec fn at(&self, sk: ShardKey) -> u64 {
        tally_at(self.rows@, sk)
    }

    /// Zero for every shard.
    pub fn new() -> (t: ShardTally)
        ensures
            forall|sk: ShardKey| #[trigger] t.at(sk) == 0,
    {
        ShardTally { rows: Vec::new() }
    }

    fn find(&self, sk: &ShardKey) -> (at: Option<usize>)
        ensures
            match at {
                Some(i) => {
                    &&& i < self.rows@.len()
                    &&& self.rows@[i as int].0 == *sk
                    &&& self.rows@[i as int].1 == self.at(*sk)
                    &&& forall|j: int| i < j < self.rows@.len() ==> (#[trigger] self.rows@[j]).0
                        != *sk
                },
                None => self.at(*sk) == 0,
            },
    {
        let mut i: usize = self.rows.len();
        assert(self.rows@.take(i as int) =~= self.rows@);
        while i > 0
            invariant
                i <= self.rows@.len(),
                forall|j: int| i <= j < self.rows@.len() ==> (#[trigger] self.rows@[j]).0 != *sk,
                tally_at(self.rows@, *sk) == tally_at(self.rows@.take(i as int), *sk),
            decreases i,
        {
            proof {
                let t = self.rows@.take(i as int);
                assert(t.last() == self.rows@[i - 1]);
                assert(t.drop_last() =~= self.rows@.take(i - 1));
            }
            if self.rows[i - 1].0 == *sk {
                return Some(i - 1);
            }
            i = i - 1;
        }
        None
    }

    /// The number of a shard.
    pub fn get(&self, sk: &ShardKey) -> (n: u64)
        ensures
            n == self.at(*sk),
    {
        match self.find(sk) {
            Some(i) => self.rows[i].1,
            None => 0,
        }
    }

    /// Sets the number of a shard.
    pub fn set(&mut self, sk: ShardKey, n: u64)
        ensures
            final(self).at(sk) == n,
            forall|k: ShardKey| #[trigger]
                final(self).at(k) == (if k == sk {
                    n
                } else {
                    old(self).at(k)
                }),
    {
        let ghost before = self.rows@;
        match self.find(&sk) {
            Some(i) => {
                self.rows.set(i, (sk, n));
                proof {
                    lemma_tally_update(before, i as int, n);
                    assert(self.rows@ =~= before.update(i as int, (before[i as int].0, n)));
                }
            },
            None => {
                self.rows.push((sk, n));
                assert(self.rows@.drop_last() =~= before);
            },
        }
    }
}

/// The count of a shard is what it was last set to, and zero before.
pub proof fn law_the_last_count_stands(rows: Seq<(ShardKey, u64)>, row: (ShardKey, u64), sk: ShardKey)
    ensures
        tally_at(Seq::empty(), sk) == 0,
        row.0 == sk ==> tally_at(rows.push(row), sk) == row.1,
        row.0 != sk ==> tally_at(rows.push(row), sk) == tally_at(rows, sk),
{
    assert(rows.push(row).drop_last() =~= rows);
}

/// What was set is what is found, for the one shard and for no other.
pub proof fn law_what_is_set_is_found(
    tally: &mut ShardTally,
    sk: ShardKey,
    n: u64,
    other: ShardKey,
    found: u64,
    before: u64,
    after: u64,
)
    requires
        other != sk,
        call_ensures(ShardTally::get, (old(tally), &other), before),
        call_ensures(ShardTally::set, (tally, sk, n), ()),
        call_ensures(ShardTally::get, (final(tally), &sk), found),
        call_ensures(ShardTally::get, (final(tally), &other), after),
    ensures
        found == n,
        after == before,
{
    assert(final(tally).at(sk) == n);
    assert(final(tally).at(other) == old(tally).at(other));
}

} // verus!
