//! Serving cheques: acknowledging what was fetched, and counting what was served.

use crate::bytes::NodeId;
use crate::table::Table;
use vstd::prelude::*;

verus! {

/// How many bytes are fetched from a provider before the next cheque, in bytes.
pub const CREDIT_BAND: u64 = 4_194_304;

/// How much a node may fetch before it has served anything, in bytes.
pub const COLD_START_GRANT: u64 = 1_073_741_824;

/// The sum, or the largest number where it is larger.
pub open spec fn capped(n: int) -> u64 {
    if n > u64::MAX {
        u64::MAX
    } else {
        n as u64
    }
}

/// What a cheque says: all that its issuer ever fetched from `server`.
#[derive(Clone, Copy, Debug)]
pub struct ChequeTerms {
    pub server: NodeId,
    pub cumulative_bytes: u64,
}

/// A cheque: who issued it and what it says, when, and under which signature.
#[derive(Clone, Copy, Debug)]
pub struct Cheque {
    pub consumer: NodeId,
    pub terms: ChequeTerms,
    pub timestamp: u64,
    pub signature: [u8; 64],
}

/// The bytes acknowledged in cheques, together.
pub open spec fn sum_rows(rows: Seq<Cheque>) -> nat
    decreases rows.len(),
{
    if rows.len() == 0 {
        0
    } else {
        sum_rows(rows.drop_last()) + rows.last().terms.cumulative_bytes as nat
    }
}

/// The cheque of a consumer.
pub open spec fn row_of(rows: Seq<Cheque>, consumer: NodeId) -> Option<Cheque>
    decreases rows.len(),
{
    if rows.len() == 0 {
        None
    } else if rows.last().consumer == consumer {
        Some(rows.last())
    } else {
        row_of(rows.drop_last(), consumer)
    }
}

/// No consumer stands in two rows.
pub open spec fn one_row_each(rows: Seq<Cheque>) -> bool {
    forall|i: int, j: int|
        0 <= i < rows.len() && 0 <= j < rows.len() && i != j ==> (#[trigger] rows[i]).consumer != (
        #[trigger] rows[j]).consumer
}

proof fn lemma_row_update(rows: Seq<Cheque>, i: int, row: Cheque)
    requires
        one_row_each(rows),
        0 <= i < rows.len(),
        row.consumer == rows[i].consumer,
    ensures
        one_row_each(rows.update(i, row)),
        sum_rows(rows.update(i, row)) == sum_rows(rows) - rows[i].terms.cumulative_bytes
            + row.terms.cumulative_bytes,
        row_of(rows, rows[i].consumer) == Some(rows[i]),
        forall|c: NodeId| #[trigger]
            row_of(rows.update(i, row), c) == (if c == row.consumer {
                Some(row)
            } else {
                row_of(rows, c)
            }),
    decreases rows.len(),
{
    let new = rows.update(i, row);
    let front = rows.drop_last();
    assert forall|a: int, b: int| 0 <= a < new.len() && 0 <= b < new.len() && a != b implies (
    #[trigger] new[a]).consumer != (#[trigger] new[b]).consumer by {
        assert(new[a].consumer == rows[a].consumer && new[b].consumer == rows[b].consumer);
    }
    if i < rows.len() - 1 {
        assert(front[i] == rows[i]);
        assert forall|a: int, b: int|
            0 <= a < front.len() && 0 <= b < front.len() && a != b implies (
        #[trigger] front[a]).consumer != (#[trigger] front[b]).consumer by {
            assert(rows[a].consumer != rows[b].consumer);
        }
        lemma_row_update(front, i, row);
        assert(new.drop_last() =~= front.update(i, row));
        assert(new.last() == rows.last());
        assert(rows[rows.len() - 1].consumer != rows[i].consumer);
    } else {
        assert(new.drop_last() =~= front);
    }
    assert forall|c: NodeId| #[trigger] row_of(new, c) == (if c == row.consumer {
        Some(row)
    } else {
        row_of(rows, c)
    }) by {
        if i < rows.len() - 1 {
            assert(row_of(front.update(i, row), c) == (if c == row.consumer {
                Some(row)
            } else {
                row_of(front, c)
            }));
        }
    }
}

proof fn lemma_row_found(rows: Seq<Cheque>, consumer: NodeId) -> (i: int)
    requires
        row_of(rows, consumer) is Some,
    ensures
        0 <= i < rows.len(),
        rows[i] == row_of(rows, consumer)->0,
        rows[i].consumer == consumer,
    decreases rows.len(),
{
    if rows.last().consumer == consumer {
        rows.len() - 1
    } else {
        lemma_row_found(rows.drop_last(), consumer)
    }
}

proof fn lemma_row_remove(rows: Seq<Cheque>, i: int)
    requires
        one_row_each(rows),
        0 <= i < rows.len(),
    ensures
        one_row_each(rows.remove(i)),
        sum_rows(rows.remove(i)) == sum_rows(rows) - rows[i].terms.cumulative_bytes,
        forall|c: NodeId| #[trigger]
            row_of(rows.remove(i), c) == (if c == rows[i].consumer {
                None
            } else {
                row_of(rows, c)
            }),
    decreases rows.len(),
{
    let key = rows[i].consumer;
    let rest = rows.remove(i);
    let front = rows.drop_last();
    assert forall|a: int, b: int| 0 <= a < rest.len() && 0 <= b < rest.len() && a != b implies (
    #[trigger] rest[a]).consumer != (#[trigger] rest[b]).consumer by {
        let x = if a < i { a } else { a + 1 };
        let y = if b < i { b } else { b + 1 };
        assert(rest[a] == rows[x] && rest[b] == rows[y]);
    }
    if i < rows.len() - 1 {
        assert(front[i] == rows[i]);
        assert forall|a: int, b: int|
            0 <= a < front.len() && 0 <= b < front.len() && a != b implies (
        #[trigger] front[a]).consumer != (#[trigger] front[b]).consumer by {
            assert(rows[a].consumer != rows[b].consumer);
        }
        lemma_row_remove(front, i);
        assert(rest.drop_last() =~= front.remove(i));
        assert(rest.last() == rows.last());
        assert(rows[rows.len() - 1].consumer != rows[i].consumer);
        assert forall|c: NodeId| #[trigger] row_of(rest, c) == (if c == key {
            None
        } else {
            row_of(rows, c)
        }) by {
            assert(row_of(front.remove(i), c) == (if c == key {
                None
            } else {
                row_of(front, c)
            }));
        }
    } else {
        assert(rest =~= front);
        assert forall|c: NodeId| #[trigger] row_of(rest, c) == (if c == key {
            None
        } else {
            row_of(rows, c)
        }) by {
            if c == key && row_of(front, c) is Some {
                let j = lemma_row_found(front, c);
                assert(rows[j].consumer == rows[i].consumer);
            }
        }
    }
}

proof fn lemma_same_rows_same_sum(a: Seq<Cheque>, b: Seq<Cheque>)
    requires
        one_row_each(a),
        one_row_each(b),
        forall|c: NodeId| #[trigger] row_of(a, c) == row_of(b, c),
    ensures
        sum_rows(a) == sum_rows(b),
    decreases a.len(),
{
    if a.len() == 0 {
        if b.len() > 0 {
            assert(row_of(a, b.last().consumer) == row_of(b, b.last().consumer));
        }
    } else {
        let last = a.len() - 1;
        let key = a[last].consumer;
        assert(row_of(a, key) == row_of(b, key));
        let i = lemma_row_found(b, key);
        lemma_row_remove(a, last);
        lemma_row_remove(b, i);
        assert forall|c: NodeId| #[trigger] row_of(a.remove(last), c) == row_of(b.remove(i), c) by {
            assert(row_of(a, c) == row_of(b, c));
        }
        lemma_same_rows_same_sum(a.remove(last), b.remove(i));
    }
}

/// A cheque that came in, and whether the consumer's signature over it holds, counts for
/// `consumer` in the book of `me`.
pub open spec fn counts(came: (Cheque, bool), me: NodeId, consumer: NodeId) -> bool {
    came.1 && came.0.terms.server == me && came.0.consumer == consumer
}

/// The cheque acknowledges more than the one that is held, where one is.
pub open spec fn outdoes(cheque: Cheque, held: Option<Cheque>) -> bool {
    held matches Some(h) ==> cheque.terms.cumulative_bytes > h.terms.cumulative_bytes
}

/// The cheque that acknowledges the most, of the one held and those that came in and count.
pub open spec fn highest(
    came: Seq<(Cheque, bool)>,
    me: NodeId,
    consumer: NodeId,
    held: Option<Cheque>,
) -> Option<Cheque>
    decreases came.len(),
{
    if came.len() == 0 {
        held
    } else {
        let so_far = highest(came.drop_last(), me, consumer, held);
        if counts(came.last(), me, consumer) && outdoes(came.last().0, so_far) {
            Some(came.last().0)
        } else {
            so_far
        }
    }
}

/// The newest cheque of each consumer.
#[derive(Debug)]
pub struct ChequeBook {
    me: NodeId,
    rows: Vec<Cheque>,
}

impl ChequeBook {
    /// Each consumer stands in one row, and each cheque names the node as the server.
    pub closed spec fn wf(&self) -> bool {
        one_row_each(self.rows@) && forall|i: int|
            0 <= i < self.rows@.len() ==> (#[trigger] self.rows@[i]).terms.server == self.me
    }

    /// Whose book it is.
    pub closed spec fn owner(&self) -> NodeId {
        self.me
    }

    /// The cheque of the consumer that is held.
    pub closed spec fn latest(&self, consumer: NodeId) -> Option<Cheque> {
        row_of(self.rows@, consumer)
    }

    /// What all consumers acknowledged, together.
    pub closed spec fn total(&self) -> nat {
        sum_rows(self.rows@)
    }

    /// An empty book of the node `me`.
    pub fn new(me: NodeId) -> (book: ChequeBook)
        ensures
            book.wf(),
            book.owner() == me,
            book.total() == 0,
            forall|c: NodeId| #[trigger] book.latest(c) is None,
    {
        ChequeBook { me, rows: Vec::new() }
    }

    fn find(&self, consumer: &NodeId) -> (at: Option<usize>)
        requires
            self.wf(),
        ensures
            match at {
                Some(i) => i < self.rows@.len() && self.rows@[i as int].consumer == *consumer,
                None => self.latest(*consumer) is None && forall|i: int|
                    0 <= i < self.rows@.len() ==> (#[trigger] self.rows@[i]).consumer != *consumer,
            },
    {
        let mut i: usize = self.rows.len();
        assert(self.rows@.take(i as int) =~= self.rows@);
        while i > 0
            invariant
                i <= self.rows@.len(),
                row_of(self.rows@, *consumer) == row_of(self.rows@.take(i as int), *consumer),
                forall|j: int|
                    i <= j < self.rows@.len() ==> (#[trigger] self.rows@[j]).consumer != *consumer,
            decreases i,
        {
            proof {
                let t = self.rows@.take(i as int);
                assert(t.last() == self.rows@[i - 1]);
                assert(t.drop_last() =~= self.rows@.take(i - 1));
            }
            if self.rows[i - 1].consumer.same(consumer) {
                return Some(i - 1);
            }
            i = i - 1;
        }
        None
    }

    /// Records a cheque, given whether its signature holds. It counts if it does, and if the
    /// cheque names this node as the server and acknowledges more than the last one of that
    /// consumer, whose place it then takes.
    pub fn record(&mut self, cheque: Cheque, signed: bool) -> (taken: bool)
        requires
            old(self).wf(),
        ensures
            final(self).wf(),
            final(self).owner() == old(self).owner(),
            taken == (counts((cheque, signed), old(self).owner(), cheque.consumer) && outdoes(
                cheque,
                old(self).latest(cheque.consumer),
            )),
            taken ==> {
                &&& forall|c: NodeId| #[trigger]
                    final(self).latest(c) == (if c == cheque.consumer {
                        Some(cheque)
                    } else {
                        old(self).latest(c)
                    })
                &&& final(self).total() == old(self).total() + cheque.terms.cumulative_bytes - (
                match old(self).latest(cheque.consumer) {
                    Some(h) => h.terms.cumulative_bytes as int,
                    None => 0,
                })
            },
            !taken ==> *final(self) == *old(self),
    {
        if !signed || !cheque.terms.server.same(&self.me) {
            return false;
        }
        let ghost before = self.rows@;
        match self.find(&cheque.consumer) {
            Some(i) => {
                proof {
                    lemma_row_update(before, i as int, cheque);
                }
                if cheque.terms.cumulative_bytes <= self.rows[i].terms.cumulative_bytes {
                    return false;
                }
                self.rows.set(i, cheque);
                assert(self.rows@ =~= before.update(i as int, cheque));
                true
            },
            None => {
                self.rows.push(cheque);
                proof {
                    assert(self.rows@.drop_last() =~= before);
                    let after = self.rows@;
                    assert forall|a: int, b: int|
                        0 <= a < after.len() && 0 <= b < after.len() && a != b implies (
                    #[trigger] after[a]).consumer != (#[trigger] after[b]).consumer by {
                        if a < before.len() {
                            assert(after[a] == before[a]);
                        }
                        if b < before.len() {
                            assert(after[b] == before[b]);
                        }
                    }
                }
                true
            },
        }
    }

    /// The cheque of each consumer, one for each, as they were recorded.
    pub fn cheques(&self) -> (list: Vec<Cheque>)
        requires
            self.wf(),
        ensures
            stands_for(list@, *self),
    {
        let mut list: Vec<Cheque> = Vec::new();
        let mut i: usize = 0;
        while i < self.rows.len()
            invariant
                i <= self.rows@.len(),
                list@ == self.rows@.take(i as int),
            decreases self.rows@.len() - i,
        {
            list.push(self.rows[i]);
            i = i + 1;
            assert(list@ =~= self.rows@.take(i as int));
        }
        proof {
            assert(self.rows@.take(i as int) =~= self.rows@);
            let l = list@;
            assert forall|j: int| 0 <= j < l.len() implies #[trigger] held_by(l[j], *self) by {
                lemma_row_update(self.rows@, j, self.rows@[j]);
            }
            assert forall|c: NodeId| #[trigger] self.latest(c) is Some implies listed(l, c) by {
                let j = lemma_row_found(self.rows@, c);
                assert(l[j].consumer == c);
            }
        }
        list
    }

    /// What this node has served, by the cheques it holds.
    pub fn total_earned(&self) -> (n: u64)
        ensures
            n == capped(self.total() as int),
    {
        let mut n: u64 = 0;
        let mut i: usize = 0;
        assert(self.rows@.take(0) =~= Seq::<Cheque>::empty());
        while i < self.rows.len()
            invariant
                i <= self.rows@.len(),
                n == capped(sum_rows(self.rows@.take(i as int)) as int),
            decreases self.rows@.len() - i,
        {
            proof {
                let next = self.rows@.take(i + 1);
                assert(next.drop_last() =~= self.rows@.take(i as int));
                assert(next.last() == self.rows@[i as int]);
            }
            n = n.saturating_add(self.rows[i].terms.cumulative_bytes);
            i = i + 1;
        }
        assert(self.rows@.take(i as int) =~= self.rows@);
        n
    }
}

/// The cheque is the one the book holds for its consumer, signature and all, and names the
/// book's node as the server.
pub open spec fn held_by(cheque: Cheque, book: ChequeBook) -> bool {
    cheque.terms.server == book.owner() && book.latest(cheque.consumer) == Some(cheque)
}

/// Some cheque of the list is of that consumer.
pub open spec fn listed(list: Seq<Cheque>, consumer: NodeId) -> bool {
    exists|i: int| 0 <= i < list.len() && (#[trigger] list[i]).consumer == consumer
}

/// The list holds what the book holds: the one cheque of each consumer.
pub open spec fn stands_for(list: Seq<Cheque>, book: ChequeBook) -> bool {
    &&& forall|i: int| 0 <= i < list.len() ==> #[trigger] held_by(list[i], book)
    &&& one_row_each(list)
    &&& forall|c: NodeId| #[trigger] book.latest(c) is Some ==> listed(list, c)
}

/// Loading cheques never takes back what a consumer acknowledged: afterwards the book holds
/// at least what it held and at least what each cheque that counts says, and nothing else.
pub proof fn law_loading_never_downgrades(
    came: Seq<(Cheque, bool)>,
    me: NodeId,
    consumer: NodeId,
    held: Option<Cheque>,
)
    ensures
        ({
            let after = highest(came, me, consumer, held);
            &&& held matches Some(h) ==> (after matches Some(m) && m.terms.cumulative_bytes
                >= h.terms.cumulative_bytes)
            &&& forall|i: int|
                0 <= i < came.len() && counts(#[trigger] came[i], me, consumer) ==> (after
                    matches Some(m) && m.terms.cumulative_bytes
                    >= came[i].0.terms.cumulative_bytes)
            &&& after == held || exists|i: int|
                0 <= i < came.len() && counts(#[trigger] came[i], me, consumer) && after == Some(
                    came[i].0,
                )
        }),
    decreases came.len(),
{
    if came.len() > 0 {
        let front = came.drop_last();
        law_loading_never_downgrades(front, me, consumer, held);
        let so_far = highest(front, me, consumer, held);
        let after = highest(came, me, consumer, held);
        assert forall|i: int|
            0 <= i < came.len() && counts(#[trigger] came[i], me, consumer) implies (after
            matches Some(m) && m.terms.cumulative_bytes >= came[i].0.terms.cumulative_bytes) by {
            if i < front.len() {
                assert(front[i] == came[i]);
            }
        }
        if after == so_far && so_far != held {
            let i = choose|i: int|
                0 <= i < front.len() && counts(#[trigger] front[i], me, consumer) && so_far
                    == Some(front[i].0);
            assert(came[i] == front[i]);
        }
    }
}

/// Cheques that came in and whose signatures all hold.
pub open spec fn all_signed(list: Seq<Cheque>) -> Seq<(Cheque, bool)> {
    list.map_values(|c: Cheque| (c, true))
}

/// A node that lost its book and loads the cheques it once gave as proof holds again what it
/// held: of each consumer the very cheque, with its time and signature.
pub proof fn law_proof_restores_the_book(book: ChequeBook, list: Seq<Cheque>, consumer: NodeId)
    requires
        stands_for(list, book),
    ensures
        highest(all_signed(list), book.owner(), consumer, None) == book.latest(consumer),
{
    let came = all_signed(list);
    law_loading_never_downgrades(came, book.owner(), consumer, None);
    let after = highest(came, book.owner(), consumer, None);
    if book.latest(consumer) is Some {
        let i = choose|i: int| 0 <= i < list.len() && (#[trigger] list[i]).consumer == consumer;
        assert(held_by(list[i], book));
        assert(counts(came[i], book.owner(), consumer));
        let j = choose|j: int|
            0 <= j < came.len() && counts(#[trigger] came[j], book.owner(), consumer) && after
                == Some(came[j].0);
        assert(held_by(list[j], book));
    } else if after is Some {
        let j = choose|j: int|
            0 <= j < came.len() && counts(#[trigger] came[j], book.owner(), consumer) && after
                == Some(came[j].0);
        assert(held_by(list[j], book));
    }
}

/// Two books that hold the same cheque of every consumer have earned the same.
pub proof fn law_same_cheques_same_earnings(a: &ChequeBook, b: &ChequeBook)
    requires
        a.wf(),
        b.wf(),
        forall|c: NodeId| #[trigger] a.latest(c) == b.latest(c),
    ensures
        a.total() == b.total(),
{
    assert forall|c: NodeId| #[trigger] row_of(a.rows@, c) == row_of(b.rows@, c) by {
        assert(a.latest(c) == b.latest(c));
    }
    lemma_same_rows_same_sum(a.rows@, b.rows@);
}

/// Whether a node that fetched `consumed` and served `earned` may fetch `bytes` more.
pub open spec fn admitted(consumed: u64, earned: nat, bytes: u64) -> bool {
    capped(consumed + bytes) <= capped(capped(earned as int) + COLD_START_GRANT)
}

/// A node that has used up its grant and what it earned may fetch nothing more, and serving
/// others reopens exactly as much as it served.
pub proof fn law_serving_reopens_headroom(consumed: u64, earned: nat, served: u64, bytes: u64)
    requires
        consumed == earned + COLD_START_GRANT,
        earned + served + COLD_START_GRANT < u64::MAX,
        consumed + bytes <= u64::MAX,
    ensures
        admitted(consumed, earned, bytes) <==> bytes == 0,
        admitted(consumed, earned + served as nat, bytes) <==> bytes <= served,
{
}

/// What one node owes and is owed.
#[derive(Debug)]
pub struct ChequeService {
    /// The cheques of those it served.
    pub book: ChequeBook,
    /// What it fetched from each provider since its last cheque.
    pub pending: Table<u64>,
    /// What it has acknowledged to each provider.
    pub issued: Table<u64>,
    /// What it fetched in all.
    pub consumed: u64,
}

/// The number in a table, zero where there is none.
pub open spec fn amount(m: Map<NodeId, u64>, k: NodeId) -> u64 {
    if m.contains_key(k) {
        m[k]
    } else {
        0
    }
}

fn amount_of(t: &Table<u64>, k: &NodeId) -> (n: u64)
    requires
        t.wf(),
    ensures
        n == amount(t@, *k),
{
    match t.get(k) {
        Some(n) => *n,
        None => 0,
    }
}

impl ChequeService {
    /// The tables are well formed, and less than a credit band is open with every provider.
    pub open spec fn wf(&self) -> bool {
        &&& self.book.wf()
        &&& self.pending.wf()
        &&& self.issued.wf()
        &&& forall|p: NodeId| #[trigger] amount(self.pending@, p) < CREDIT_BAND
    }

    /// A node that has neither served nor fetched.
    pub fn new(me: NodeId) -> (s: ChequeService)
        ensures
            s.wf(),
            s.book.owner() == me,
            s.book.total() == 0,
            forall|c: NodeId| #[trigger] s.book.latest(c) is None,
            s.pending@ == Map::<NodeId, u64>::empty(),
            s.issued@ == Map::<NodeId, u64>::empty(),
            s.consumed == 0,
    {
        ChequeService {
            book: ChequeBook::new(me),
            pending: Table::new(),
            issued: Table::new(),
            consumed: 0,
        }
    }

    /// What this node has served, by the cheques it holds.
    pub fn total_earned(&self) -> (n: u64)
        ensures
            n == capped(self.book.total() as int),
    {
        self.book.total_earned()
    }

    /// The cheques that prove what this node has served, as their consumers signed them.
    pub fn serving_proof(&self) -> (list: Vec<Cheque>)
        requires
            self.wf(),
        ensures
            stands_for(list@, self.book),
    {
        self.book.cheques()
    }

    /// Takes cheques into the book, each given with whether its signature holds, each consumer
    /// at the most that it acknowledged.
    pub fn load_cheques(&mut self, came: Vec<(Cheque, bool)>)
        requires
            old(self).wf(),
        ensures
            final(self).wf(),
            final(self).book.owner() == old(self).book.owner(),
            forall|c: NodeId| #[trigger]
                final(self).book.latest(c) == highest(
                    came@,
                    old(self).book.owner(),
                    c,
                    old(self).book.latest(c),
                ),
            final(self).pending == old(self).pending,
            final(self).issued == old(self).issued,
            final(self).consumed == old(self).consumed,
    {
        let mut i: usize = 0;
        assert(came@.take(0) =~= Seq::<(Cheque, bool)>::empty());
        while i < came.len()
            invariant
                i <= came@.len(),
                self.wf(),
                self.book.owner() == old(self).book.owner(),
                forall|c: NodeId| #[trigger]
                    self.book.latest(c) == highest(
                        came@.take(i as int),
                        old(self).book.owner(),
                        c,
                        old(self).book.latest(c),
                    ),
                self.pending == old(self).pending,
                self.issued == old(self).issued,
                self.consumed == old(self).consumed,
            decreases came@.len() - i,
        {
            proof {
                let next = came@.take(i + 1);
                assert(next.drop_last() =~= came@.take(i as int));
                assert(next.last() == came@[i as int]);
            }
            let (cheque, signed): (Cheque, bool) = came[i];
            self.book.record(cheque, signed);
            i = i + 1;
        }
        assert(came@.take(i as int) =~= came@);
    }

    /// Whether this node may fetch `bytes` more without paying: what it fetched stays within
    /// what it served and the initial grant.
    pub fn reciprocity_admits(&self, bytes: u64) -> (yes: bool)
        ensures
            yes == admitted(self.consumed, self.book.total(), bytes),
    {
        let budget: u64 = self.total_earned().saturating_add(COLD_START_GRANT);
        self.consumed.saturating_add(bytes) <= budget
    }

    /// Takes note of bytes fetched from a provider. Once they make up a credit band, all that
    /// is open is acknowledged in one cheque over everything ever fetched from it.
    pub fn on_bytes_received(&mut self, provider: NodeId, bytes: u64) -> (cheque: Option<
        ChequeTerms,
    >)
        requires
            old(self).wf(),
            amount(old(self).pending@, provider) + bytes <= u64::MAX,
        ensures
            final(self).wf(),
            final(self).book == old(self).book,
            final(self).consumed == old(self).consumed.wrapping_add(bytes),
            ({
                let open = amount(old(self).pending@, provider) + bytes;
                let acknowledged = capped(amount(old(self).issued@, provider) + open);
                if open >= CREDIT_BAND {
                    &&& cheque == Some(
                        ChequeTerms { server: provider, cumulative_bytes: acknowledged },
                    )
                    &&& final(self).pending@ == old(self).pending@.insert(provider, 0)
                    &&& final(self).issued@ == old(self).issued@.insert(provider, acknowledged)
                } else {
                    &&& cheque is None
                    &&& final(self).pending@ == old(self).pending@.insert(provider, open as u64)
                    &&& final(self).issued@ == old(self).issued@
                }
            }),
    {
        self.consumed = self.consumed.wrapping_add(bytes);
        let held: u64 = amount_of(&self.pending, &provider);
        assert(amount(old(self).pending@, provider) < CREDIT_BAND);
        let open: u64 = held + bytes;
        if open >= CREDIT_BAND {
            self.pending.insert(provider, 0);
            let so_far: u64 = amount_of(&self.issued, &provider);
            let acknowledged: u64 = so_far.saturating_add(open);
            self.issued.insert(provider, acknowledged);
            assert forall|p: NodeId| #[trigger] amount(self.pending@, p) < CREDIT_BAND by {
                assert(amount(old(self).pending@, p) < CREDIT_BAND);
            }
            Some(ChequeTerms { server: provider, cumulative_bytes: acknowledged })
        } else {
            self.pending.insert(provider, open);
            assert forall|p: NodeId| #[trigger] amount(self.pending@, p) < CREDIT_BAND by {
                assert(amount(old(self).pending@, p) < CREDIT_BAND);
            }
            None
        }
    }
}

/// Everything that was ever fetched from a provider is either acknowledged or less than a
/// credit band: a step keeps acknowledged and open together in step with what was fetched.
pub proof fn law_acknowledged_and_open_add_up(
    pending: Map<NodeId, u64>,
    issued: Map<NodeId, u64>,
    provider: NodeId,
    bytes: u64,
)
    requires
        amount(issued, provider) + amount(pending, provider) + bytes <= u64::MAX,
    ensures
        ({
            let open = amount(pending, provider) + bytes;
            let acknowledged = capped(amount(issued, provider) + open);
            let fetched = amount(issued, provider) + amount(pending, provider) + bytes;
            &&& open >= CREDIT_BAND ==> amount(issued.insert(provider, acknowledged), provider)
                + amount(pending.insert(provider, 0), provider) == fetched
            &&& open < CREDIT_BAND ==> amount(issued, provider) + amount(
                pending.insert(provider, open as u64),
                provider,
            ) == fetched
        }),
{
}

/// What was earned is the sum of the cheques: a cheque more adds what it is over.
pub proof fn law_earnings_add_up(rows: Seq<Cheque>, cheque: Cheque)
    ensures
        sum_rows(Seq::empty()) == 0,
        sum_rows(rows.push(cheque)) == sum_rows(rows) + cheque.terms.cumulative_bytes,
{
    assert(rows.push(cheque).drop_last() =~= rows);
}

/// The cheque of a consumer is the one row that it has.
pub proof fn law_a_consumer_has_its_own_row(rows: Seq<Cheque>, consumer: NodeId, cheque: Cheque)
    requires
        one_row_each(rows),
    ensures
        row_of(rows, consumer) == Some(cheque) <==> rows.contains(cheque) && cheque.consumer
            == consumer,
        row_of(rows, consumer) is None <==> forall|i: int|
            0 <= i < rows.len() ==> (#[trigger] rows[i]).consumer != consumer,
    decreases rows.len(),
{
    if rows.len() > 0 {
        let front = rows.drop_last();
        assert(one_row_each(front)) by {
            assert forall|i: int, j: int|
                0 <= i < front.len() && 0 <= j < front.len() && i != j implies (
            #[trigger] front[i]).consumer != (#[trigger] front[j]).consumer by {
                assert(rows[i].consumer != rows[j].consumer);
            }
        }
        law_a_consumer_has_its_own_row(front, consumer, cheque);
        let n = rows.len() - 1;
        if front.contains(cheque) {
            let i = choose|i: int| 0 <= i < front.len() && front[i] == cheque;
            assert(rows[i] == cheque);
            assert(rows[i].consumer != rows[n].consumer);
        }
        if rows.contains(cheque) {
            let i = choose|i: int| 0 <= i < rows.len() && rows[i] == cheque;
            if i < n {
                assert(front[i] == cheque);
            }
        }
        assert(rows[n] == rows.last());
        if rows.last().consumer != consumer {
            if forall|i: int| 0 <= i < rows.len() ==> (#[trigger] rows[i]).consumer != consumer {
                assert forall|i: int| 0 <= i < front.len() implies (#[trigger] front[i]).consumer
                    != consumer by {
                    assert(rows[i].consumer != consumer);
                }
            }
            if forall|i: int| 0 <= i < front.len() ==> (#[trigger] front[i]).consumer != consumer {
                assert forall|i: int| 0 <= i < rows.len() implies (#[trigger] rows[i]).consumer
                    != consumer by {
                    if i < n {
                        assert(front[i].consumer != consumer);
                    }
                }
            }
        }
    }
}

/// Of cheques that came one after the other, the last is taken exactly where its consumer signed
/// it, it is made out to this node, and it is over more than the one held.
pub proof fn law_only_signed_and_higher_cheques_are_taken(
    came: Seq<(Cheque, bool)>,
    cheque: Cheque,
    signed: bool,
    me: NodeId,
    consumer: NodeId,
    held: Option<Cheque>,
)
    ensures
        highest(Seq::empty(), me, consumer, held) == held,
        ({
            let was = highest(came, me, consumer, held);
            let is = highest(came.push((cheque, signed)), me, consumer, held);
            let ours = signed && cheque.terms.server == me && cheque.consumer == consumer;
            &&& ours && was is None ==> is == Some(cheque)
            &&& ours && was is Some && cheque.terms.cumulative_bytes
                > was->0.terms.cumulative_bytes ==> is == Some(cheque)
            &&& !ours ==> is == was
            &&& was is Some && cheque.terms.cumulative_bytes <= was->0.terms.cumulative_bytes
                ==> is == was
        }),
{
    assert(came.push((cheque, signed)).drop_last() =~= came);
}

/// A fetch is admitted while what was fetched stays within what was earned and a gibibyte on top.
pub proof fn law_fetching_is_within_earnings(consumed: u64, earned: nat, bytes: u64)
    requires
        earned + 1_073_741_824 < u64::MAX,
    ensures
        admitted(consumed, earned, bytes) <==> consumed + bytes <= earned + 1_073_741_824,
        CREDIT_BAND == 4 * 1_048_576,
{
}

/// What a call of `record` does: a cheque is taken exactly where its consumer signed it, it is made
/// out to this node and is over more than the one held; then it takes that one's place and the
/// earnings go up by the difference. Otherwise nothing changes.
pub proof fn law_higher_cheques_are_recorded(
    book: &mut ChequeBook,
    cheque: Cheque,
    signed: bool,
    taken: bool,
    other: NodeId,
)
    requires
        old(book).wf(),
        call_ensures(ChequeBook::record, (book, cheque, signed), taken),
        other != cheque.consumer,
    ensures
        ({
            let held = old(book).latest(cheque.consumer);
            let better = held is None || cheque.terms.cumulative_bytes
                > held->0.terms.cumulative_bytes;
            &&& taken <==> signed && cheque.terms.server == old(book).owner() && better
            &&& taken ==> final(book).latest(cheque.consumer) == Some(cheque)
            &&& taken && held is None ==> final(book).total() == old(book).total()
                + cheque.terms.cumulative_bytes
            &&& taken && held is Some ==> final(book).total() + held->0.terms.cumulative_bytes
                == old(book).total() + cheque.terms.cumulative_bytes
            &&& !taken ==> final(book).latest(cheque.consumer) == held && final(book).total()
                == old(book).total()
            &&& final(book).latest(other) == old(book).latest(other)
        }),
{
}

/// What a call of `on_bytes_received` does: once what is open makes up four mebibytes it is all
/// acknowledged, in one cheque over everything ever fetched from the provider; until then it stays
/// open. Nobody else's account is touched.
pub proof fn law_fetched_bytes_are_acknowledged(
    s: &mut ChequeService,
    provider: NodeId,
    bytes: u64,
    cheque: Option<ChequeTerms>,
    other: NodeId,
)
    requires
        old(s).wf(),
        amount(old(s).pending@, provider) + bytes <= u64::MAX,
        amount(old(s).issued@, provider) + amount(old(s).pending@, provider) + bytes <= u64::MAX,
        call_ensures(ChequeService::on_bytes_received, (s, provider, bytes), cheque),
        other != provider,
    ensures
        ({
            let open = amount(old(s).pending@, provider) + bytes;
            &&& cheque is Some <==> open >= 4_194_304
            &&& cheque matches Some(c) ==> c.server == provider && c.cumulative_bytes == amount(
                old(s).issued@,
                provider,
            ) + open
            &&& cheque is Some ==> amount(final(s).pending@, provider) == 0 && amount(
                final(s).issued@,
                provider,
            ) == amount(old(s).issued@, provider) + open
            &&& cheque is None ==> amount(final(s).pending@, provider) == open && amount(
                final(s).issued@,
                provider,
            ) == amount(old(s).issued@, provider)
        }),
        amount(final(s).pending@, other) == amount(old(s).pending@, other),
        amount(final(s).issued@, other) == amount(old(s).issued@, other),
        old(s).consumed + bytes <= u64::MAX ==> final(s).consumed == old(s).consumed + bytes,
{
}

} // verus!
