//! A map from node identifiers to values, held as rows with distinct keys.

use crate::bytes::NodeId;
use vstd::prelude::*;

verus! {

/// A map keyed by node.
#[derive(Debug)]
pub struct Table<V> {
    rows: Vec<(NodeId, V)>,
}

/// No key stands in two rows.
pub open spec fn distinct_keys<V>(rows: Seq<(NodeId, V)>) -> bool {
    forall|i: int, j: int|
        #![trigger rows[i], rows[j]]
        0 <= i < rows.len() && 0 <= j < rows.len() && rows[i].0 == rows[j].0 ==> i == j
}

/// `key` stands in row `i`.
pub open spec fn row_has<V>(rows: Seq<(NodeId, V)>, i: int, key: NodeId) -> bool {
    0 <= i < rows.len() && rows[i].0 == key
}

/// `key` stands in some row.
pub open spec fn has_key<V>(rows: Seq<(NodeId, V)>, key: NodeId) -> bool {
    exists|i: int| row_has(rows, i, key)
}

/// The map that rows with distinct keys spell.
pub open spec fn rows_map<V>(rows: Seq<(NodeId, V)>) -> Map<NodeId, V> {
    Map::new(
        |key: NodeId| has_key(rows, key),
        |key: NodeId| rows[choose|i: int| row_has(rows, i, key)].1,
    )
}

/// Every row is an entry of the map.
pub proof fn lemma_row_is_entry<V>(rows: Seq<(NodeId, V)>, i: int)
    requires
        distinct_keys(rows),
        0 <= i < rows.len(),
    ensures
        rows_map(rows).contains_key(rows[i].0),
        rows_map(rows)[rows[i].0] == rows[i].1,
{
    let key = rows[i].0;
    assert(row_has(rows, i, key));
    let j = choose|j: int| row_has(rows, j, key);
    assert(rows[j].0 == rows[i].0);
    assert(i == j);
}

/// Every entry of the map stands in a row.
pub proof fn lemma_entry_has_row<V>(rows: Seq<(NodeId, V)>, key: NodeId) -> (i: int)
    requires
        distinct_keys(rows),
        rows_map(rows).contains_key(key),
    ensures
        0 <= i < rows.len(),
        rows[i] == (key, rows_map(rows)[key]),
{
    let i = choose|i: int| row_has(rows, i, key);
    assert(row_has(rows, i, key));
    lemma_row_is_entry(rows, i);
    i
}

/// The map has as many keys as there are rows.
pub proof fn lemma_rows_len<V>(rows: Seq<(NodeId, V)>)
    requires
        distinct_keys(rows),
    ensures
        rows_map(rows).dom().finite(),
        rows_map(rows).dom().len() == rows.len(),
{
    let keys = rows.map_values(|row: (NodeId, V)| row.0);
    assert(keys.no_duplicates()) by {
        assert forall|i: int, j: int| 0 <= i < keys.len() && 0 <= j < keys.len() && i != j implies keys[i]
            != keys[j] by {
            assert(rows[i].0 == keys[i] && rows[j].0 == keys[j]);
        }
    }
    keys.unique_seq_to_set();
    vstd::seq_lib::seq_to_set_is_finite(keys);
    assert(rows_map(rows).dom() =~= keys.to_set()) by {
        assert forall|k: NodeId| rows_map(rows).dom().contains(k) <==> keys.to_set().contains(k) by {
            if rows_map(rows).dom().contains(k) {
                let i = choose|i: int| row_has(rows, i, k);
                assert(keys[i] == k);
            }
            if keys.to_set().contains(k) {
                let i = choose|i: int| 0 <= i < keys.len() && keys[i] == k;
                assert(row_has(rows, i, k));
            }
        }
    }
}

proof fn lemma_push_row<V>(rows: Seq<(NodeId, V)>, key: NodeId, value: V)
    requires
        distinct_keys(rows),
        !has_key(rows, key),
    ensures
        distinct_keys(rows.push((key, value))),
        rows_map(rows.push((key, value))) == rows_map(rows).insert(key, value),
{
    let next = rows.push((key, value));
    assert forall|i: int, j: int|
        #![trigger next[i], next[j]]
        0 <= i < next.len() && 0 <= j < next.len() && next[i].0 == next[j].0 implies i == j by {
        if i < rows.len() && j < rows.len() {
            assert(rows[i].0 == rows[j].0);
        } else if i < rows.len() {
            assert(row_has(rows, i, key));
        } else if j < rows.len() {
            assert(row_has(rows, j, key));
        }
    }
    assert forall|k: NodeId| has_key(next, k) == (has_key(rows, k) || k == key) by {
        if has_key(rows, k) {
            let i = choose|i: int| row_has(rows, i, k);
            assert(row_has(next, i, k));
        }
        if k == key {
            assert(row_has(next, rows.len() as int, k));
        }
        if has_key(next, k) {
            let i = choose|i: int| row_has(next, i, k);
            if i < rows.len() {
                assert(row_has(rows, i, k));
            }
        }
    }
    let lhs = rows_map(next);
    let rhs = rows_map(rows).insert(key, value);
    assert(lhs.dom() =~= rhs.dom());
    assert forall|k: NodeId| lhs.contains_key(k) implies lhs[k] == rhs[k] by {
        let i = lemma_entry_has_row(next, k);
        if i < rows.len() {
            lemma_row_is_entry(rows, i);
            assert(row_has(rows, i, k));
        }
    }
    assert(lhs =~= rhs);
}

proof fn lemma_set_row<V>(rows: Seq<(NodeId, V)>, i: int, value: V)
    requires
        distinct_keys(rows),
        0 <= i < rows.len(),
    ensures
        distinct_keys(rows.update(i, (rows[i].0, value))),
        rows_map(rows.update(i, (rows[i].0, value))) == rows_map(rows).insert(rows[i].0, value),
{
    let key = rows[i].0;
    let next = rows.update(i, (key, value));
    assert forall|a: int, b: int|
        #![trigger next[a], next[b]]
        0 <= a < next.len() && 0 <= b < next.len() && next[a].0 == next[b].0 implies a == b by {
        assert(rows[a].0 == next[a].0 && rows[b].0 == next[b].0);
    }
    assert forall|k: NodeId| has_key(next, k) == has_key(rows, k) by {
        if has_key(rows, k) {
            let a = choose|a: int| row_has(rows, a, k);
            assert(row_has(next, a, k));
        }
        if has_key(next, k) {
            let a = choose|a: int| row_has(next, a, k);
            assert(row_has(rows, a, k));
        }
    }
    lemma_row_is_entry(rows, i);
    let lhs = rows_map(next);
    let rhs = rows_map(rows).insert(key, value);
    assert(lhs.dom() =~= rhs.dom());
    assert forall|k: NodeId| lhs.contains_key(k) implies lhs[k] == rhs[k] by {
        let a = lemma_entry_has_row(next, k);
        lemma_row_is_entry(rows, a);
        if a == i {
            assert(k == key);
        } else {
            assert(rows[a] == next[a]);
            assert(rows[a].0 != rows[i].0);
        }
    }
    assert(lhs =~= rhs);
}

proof fn lemma_remove_row<V>(rows: Seq<(NodeId, V)>, i: int)
    requires
        distinct_keys(rows),
        0 <= i < rows.len(),
    ensures
        distinct_keys(rows.remove(i)),
        rows_map(rows.remove(i)) == rows_map(rows).remove(rows[i].0),
{
    let key = rows[i].0;
    let next = rows.remove(i);
    assert forall|a: int, b: int|
        #![trigger next[a], next[b]]
        0 <= a < next.len() && 0 <= b < next.len() && next[a].0 == next[b].0 implies a == b by {
        let ra = if a < i { a } else { a + 1 };
        let rb = if b < i { b } else { b + 1 };
        assert(next[a] == rows[ra] && next[b] == rows[rb]);
        assert(ra == rb);
    }
    assert forall|k: NodeId| has_key(next, k) == (has_key(rows, k) && k != key) by {
        if has_key(next, k) {
            let a = choose|a: int| row_has(next, a, k);
            let ra = if a < i { a } else { a + 1 };
            assert(next[a] == rows[ra]);
            assert(row_has(rows, ra, k));
            if k == key {
                assert(rows[ra].0 == rows[i].0);
            }
        }
        if has_key(rows, k) && k != key {
            let a = choose|a: int| row_has(rows, a, k);
            let na = if a < i { a } else { a - 1 };
            assert(a != i);
            assert(next[na] == rows[a]);
            assert(row_has(next, na, k));
        }
    }
    let lhs = rows_map(next);
    let rhs = rows_map(rows).remove(key);
    assert(lhs.dom() =~= rhs.dom());
    assert forall|k: NodeId| lhs.contains_key(k) implies lhs[k] == rhs[k] by {
        let a = lemma_entry_has_row(next, k);
        let ra = if a < i { a } else { a + 1 };
        assert(next[a] == rows[ra]);
        lemma_row_is_entry(rows, ra);
    }
    assert(lhs =~= rhs);
}

/// The rows that `keep` holds of, in order.
pub open spec fn kept<V>(rows: Seq<(NodeId, V)>, keep: spec_fn(NodeId, V) -> bool) -> Seq<
    (NodeId, V),
>
    decreases rows.len(),
{
    if rows.len() == 0 {
        Seq::empty()
    } else {
        let front = kept(rows.drop_last(), keep);
        if keep(rows.last().0, rows.last().1) {
            front.push(rows.last())
        } else {
            front
        }
    }
}

/// Keeping one row more.
pub proof fn lemma_kept_step<V>(
    rows: Seq<(NodeId, V)>,
    keep: spec_fn(NodeId, V) -> bool,
    i: int,
)
    requires
        0 <= i < rows.len(),
    ensures
        kept(rows.take(i + 1), keep) == if keep(rows[i].0, rows[i].1) {
            kept(rows.take(i), keep).push(rows[i])
        } else {
            kept(rows.take(i), keep)
        },
        rows.take(rows.len() as int) == rows,
        rows.take(0).len() == 0,
{
    assert(rows.take(i + 1).drop_last() =~= rows.take(i));
    assert(rows.take(i + 1).last() == rows[i]);
    assert(rows.take(rows.len() as int) =~= rows);
}

/// The kept rows are rows, and all that `keep` holds of are among them.
pub proof fn lemma_kept<V>(rows: Seq<(NodeId, V)>, keep: spec_fn(NodeId, V) -> bool)
    requires
        distinct_keys(rows),
    ensures
        distinct_keys(kept(rows, keep)),
        kept(rows, keep).len() <= rows.len(),
        forall|row: (NodeId, V)| #[trigger]
            kept(rows, keep).contains(row) <==> rows_map(rows).contains_key(row.0) && rows_map(
                rows,
            )[row.0] == row.1 && keep(row.0, row.1),
    decreases rows.len(),
{
    let out = kept(rows, keep);
    if rows.len() > 0 {
        let front = rows.drop_last();
        let n = rows.len() - 1;
        let last = rows.last();
        assert forall|i: int, j: int|
            #![trigger front[i], front[j]]
            0 <= i < front.len() && 0 <= j < front.len() && front[i].0 == front[j].0 implies i == j by {
            assert(front[i] == rows[i] && front[j] == rows[j]);
        }
        lemma_kept(front, keep);
        let fo = kept(front, keep);
        assert(!has_key(front, last.0)) by {
            if has_key(front, last.0) {
                let i = choose|i: int| row_has(front, i, last.0);
                assert(rows[i].0 == rows[n].0);
            }
        }
        lemma_push_row(front, last.0, last.1);
        assert(front.push(last) =~= rows);
        assert forall|k: int| 0 <= k < fo.len() implies (#[trigger] fo[k]).0 != last.0 by {
            assert(fo.contains(fo[k]));
        }
        assert forall|i: int, j: int|
            #![trigger out[i], out[j]]
            0 <= i < out.len() && 0 <= j < out.len() && out[i].0 == out[j].0 implies i == j by {
            if i < fo.len() && j < fo.len() {
                assert(fo[i].0 == fo[j].0);
            } else if i < fo.len() {
                assert(fo[i].0 != last.0);
            } else if j < fo.len() {
                assert(fo[j].0 != last.0);
            }
        }
        assert forall|row: (NodeId, V)| #[trigger] out.contains(row) <==> rows_map(rows).contains_key(
            row.0,
        ) && rows_map(rows)[row.0] == row.1 && keep(row.0, row.1) by {
            if out.contains(row) {
                let k = choose|k: int| 0 <= k < out.len() && out[k] == row;
                if k < fo.len() {
                    assert(fo[k] == row);
                    assert(fo.contains(row));
                }
            }
            if fo.contains(row) {
                let k = choose|k: int| 0 <= k < fo.len() && fo[k] == row;
                assert(out[k] == row);
            }
            if row == last && keep(last.0, last.1) {
                assert(out[fo.len() as int] == row);
            }
        }
    }
}

/// The keys of rows, in order.
pub open spec fn names_of<V>(rows: Seq<(NodeId, V)>) -> Seq<NodeId> {
    rows.map_values(|row: (NodeId, V)| row.0)
}

/// The kept rows are named once each, and hold what the map holds.
pub proof fn lemma_kept_names<V>(rows: Seq<(NodeId, V)>, keep: spec_fn(NodeId, V) -> bool)
    requires
        distinct_keys(rows),
    ensures
        names_of(kept(rows, keep)).no_duplicates(),
        forall|id: NodeId| #[trigger]
            names_of(kept(rows, keep)).contains(id) <==> rows_map(rows).contains_key(id) && keep(
                id,
                rows_map(rows)[id],
            ),
        forall|i: int|
            0 <= i < kept(rows, keep).len() ==> (#[trigger] kept(rows, keep)[i]).1 == rows_map(
                rows,
            )[kept(rows, keep)[i].0],
{
    lemma_kept(rows, keep);
    let out = kept(rows, keep);
    let names = names_of(out);
    assert forall|i: int, j: int| 0 <= i < names.len() && 0 <= j < names.len() && i != j implies names[i]
        != names[j] by {
        assert(out[i].0 == names[i] && out[j].0 == names[j]);
    }
    assert forall|i: int| 0 <= i < out.len() implies (#[trigger] out[i]).1 == rows_map(
        rows,
    )[out[i].0] by {
        assert(out.contains(out[i]));
    }
    assert forall|id: NodeId| #[trigger] names.contains(id) <==> rows_map(rows).contains_key(id)
        && keep(id, rows_map(rows)[id]) by {
        if names.contains(id) {
            let i = choose|i: int| 0 <= i < names.len() && names[i] == id;
            assert(out.contains(out[i]));
        }
        if rows_map(rows).contains_key(id) && keep(id, rows_map(rows)[id]) {
            assert(out.contains((id, rows_map(rows)[id])));
            let i = choose|i: int| 0 <= i < out.len() && out[i] == (id, rows_map(rows)[id]);
            assert(names[i] == id);
        }
    }
}

impl<V> View for Table<V> {
    type V = Map<NodeId, V>;

    closed spec fn view(&self) -> Map<NodeId, V> {
        rows_map(self.rows@)
    }
}

impl<V> Table<V> {
    /// The rows in the order in which they are walked.
    pub closed spec fn rows(&self) -> Seq<(NodeId, V)> {
        self.rows@
    }

    /// Each key stands in one row.
    pub closed spec fn wf(&self) -> bool {
        distinct_keys(self.rows@)
    }

    /// What well-formedness says of rows and map.
    pub proof fn lemma_rows(&self)
        requires
            self.wf(),
        ensures
            distinct_keys(self.rows()),
            self@ == rows_map(self.rows()),
            self@.dom().finite(),
            self@.dom().len() == self.rows().len(),
    {
        lemma_rows_len(self.rows@);
    }

    /// An empty table.
    pub fn new() -> (table: Table<V>)
        ensures
            table.wf(),
            table@ == Map::<NodeId, V>::empty(),
            table.rows().len() == 0,
    {
        let table = Table { rows: Vec::new() };
        proof {
            assert forall|k: NodeId| !has_key(table.rows@, k) by {
                if has_key(table.rows@, k) {
                    let i = choose|i: int| row_has(table.rows@, i, k);
                    assert(false);
                }
            }
            assert(table@ =~= Map::<NodeId, V>::empty());
        }
        table
    }

    /// The number of keys.
    pub fn len(&self) -> (len: usize)
        requires
            self.wf(),
        ensures
            len == self@.dom().len(),
            len == self.rows().len(),
    {
        proof {
            lemma_rows_len(self.rows@);
        }
        self.rows.len()
    }

    /// The row at `i` in walking order.
    pub fn row(&self, i: usize) -> (row: &(NodeId, V))
        requires
            i < self.rows().len(),
        ensures
            *row == self.rows()[i as int],
    {
        &self.rows[i]
    }

    fn find(&self, key: &NodeId) -> (at: Option<usize>)
        requires
            self.wf(),
        ensures
            match at {
                Some(i) => i < self.rows@.len() && self.rows@[i as int].0 == *key
                    && self@.contains_key(*key) && self@[*key] == self.rows@[i as int].1,
                None => !self@.contains_key(*key) && !has_key(self.rows@, *key),
            },
    {
        let mut i: usize = 0;
        while i < self.rows.len()
            invariant
                self.wf(),
                i <= self.rows@.len(),
                forall|j: int| 0 <= j < i ==> self.rows@[j].0 != *key,
            decreases self.rows@.len() - i,
        {
            if self.rows[i].0.same(key) {
                proof {
                    lemma_row_is_entry(self.rows@, i as int);
                }
                return Some(i);
            }
            i = i + 1;
        }
        proof {
            if has_key(self.rows@, *key) {
                let j = choose|j: int| row_has(self.rows@, j, *key);
                assert(self.rows@[j].0 == *key);
            }
        }
        None
    }

    /// Whether `key` is present.
    pub fn contains(&self, key: &NodeId) -> (present: bool)
        requires
            self.wf(),
        ensures
            present == self@.contains_key(*key),
    {
        self.find(key).is_some()
    }

    /// The value at `key`.
    pub fn get(&self, key: &NodeId) -> (value: Option<&V>)
        requires
            self.wf(),
        ensures
            match value {
                Some(v) => self@.contains_key(*key) && *v == self@[*key],
                None => !self@.contains_key(*key),
            },
    {
        match self.find(key) {
            Some(i) => Some(&self.rows[i].1),
            None => None,
        }
    }

    /// Maps `key` to `value`.
    pub fn insert(&mut self, key: NodeId, value: V)
        requires
            old(self).wf(),
        ensures
            final(self).wf(),
            final(self)@ == old(self)@.insert(key, value),
    {
        match self.find(&key) {
            Some(i) => {
                proof {
                    lemma_set_row(self.rows@, i as int, value);
                }
                self.rows[i] = (key, value);
            },
            None => {
                proof {
                    lemma_push_row(self.rows@, key, value);
                }
                self.rows.push((key, value));
            },
        }
    }

    /// Drops `key` and hands its value out.
    pub fn remove(&mut self, key: &NodeId) -> (value: Option<V>)
        requires
            old(self).wf(),
        ensures
            final(self).wf(),
            final(self)@ == old(self)@.remove(*key),
            match value {
                Some(v) => old(self)@.contains_key(*key) && v == old(self)@[*key],
                None => !old(self)@.contains_key(*key),
            },
    {
        match self.find(key) {
            Some(i) => {
                proof {
                    lemma_remove_row(self.rows@, i as int);
                }
                let (_, value) = self.rows.remove(i);
                Some(value)
            },
            None => {
                assert(self@.remove(*key) =~= self@);
                None
            },
        }
    }

    /// The keys, each once, in walking order.
    pub fn keys(&self) -> (keys: Vec<NodeId>)
        requires
            self.wf(),
        ensures
            keys@ == self.rows().map_values(|row: (NodeId, V)| row.0),
            keys@.no_duplicates(),
            keys@.to_set() == self@.dom(),
            keys@.len() == self@.dom().len(),
    {
        let mut keys: Vec<NodeId> = Vec::new();
        let mut i: usize = 0;
        while i < self.rows.len()
            invariant
                i <= self.rows@.len(),
                keys@ == self.rows@.take(i as int).map_values(|row: (NodeId, V)| row.0),
            decreases self.rows@.len() - i,
        {
            keys.push(self.rows[i].0);
            i = i + 1;
            assert(keys@ =~= self.rows@.take(i as int).map_values(|row: (NodeId, V)| row.0));
        }
        proof {
            assert(self.rows@.take(self.rows@.len() as int) =~= self.rows@);
            lemma_rows_len(self.rows@);
            assert forall|a: int, b: int| 0 <= a < keys@.len() && 0 <= b < keys@.len() && a
                != b implies keys@[a] != keys@[b] by {
                assert(self.rows@[a].0 == keys@[a] && self.rows@[b].0 == keys@[b]);
            }
            assert forall|k: NodeId| keys@.to_set().contains(k) <==> self@.dom().contains(k) by {
                if keys@.to_set().contains(k) {
                    let a = choose|a: int| 0 <= a < keys@.len() && keys@[a] == k;
                    assert(row_has(self.rows@, a, k));
                }
                if self@.dom().contains(k) {
                    let a = choose|a: int| row_has(self.rows@, a, k);
                    assert(keys@[a] == k);
                }
            }
            assert(keys@.to_set() =~= self@.dom());
        }
        keys
    }
}

} // verus!
