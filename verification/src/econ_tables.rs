//! What becomes of the economic position in a database: the tables that writing it leaves,
//! and what reading them gives back.

use crate::bytes::lemma_array_ext;
use crate::econ_store::{
    account_values, claim_values, from_integer, law_amounts_survive_the_database, pair_values,
    raw_accounts, raw_claims, raw_pairs, raw_singletons, read_accounts, read_claims, read_pairs,
    singleton, spells, written_accounts, written_claims, written_pairs, EconRows, EconomicSnapshot,
};
use crate::order::{lemma_lex_asymmetric, lemma_lex_irreflexive, lex_lt};
use crate::sql::as_integer;
use vstd::prelude::*;

verus! {

/// What a database holds of the economic position, table by table.
#[verifier::ext_equal]
pub struct EconTables {
    pub singletons: Set<(Seq<char>, i64)>,
    pub paid: Set<(Seq<u8>, i64)>,
    pub served: Set<(Seq<u8>, Seq<u8>, i64)>,
    pub seeding: Set<(Seq<u8>, i64)>,
    pub claims: Set<(i64, Seq<u8>)>,
}

/// What the statements that write the position `s` make of the tables: each is emptied, then
/// filled with the rows of `s`. Nothing of what was there before is left.
pub open spec fn rewritten(before: EconTables, s: EconomicSnapshot) -> EconTables {
    EconTables {
        singletons: set![
            ("pool"@, as_integer(s.pool) as i64),
            ("minted"@, as_integer(s.minted) as i64),
        ],
        paid: written_accounts(s.paid_watermarks@).to_set(),
        served: written_pairs(s.served_watermarks@).to_set(),
        seeding: written_accounts(s.seeding_next@).to_set(),
        claims: written_claims(s.claimed@).to_set(),
    }
}

/// Each item stands before those behind it, by `lt`.
pub open spec fn in_order<T>(list: Seq<T>, lt: spec_fn(T, T) -> bool) -> bool {
    forall|i: int, j: int| 0 <= i < j < list.len() ==> lt(#[trigger] list[i], #[trigger] list[j])
}

/// Rows of accounts stand in the order of the accounts.
pub open spec fn by_account<V>() -> spec_fn((Seq<u8>, V), (Seq<u8>, V)) -> bool {
    |a: (Seq<u8>, V), b: (Seq<u8>, V)| lex_lt(a.0, b.0)
}

/// Pairs stand in the order of the providers, and of the consumers for each.
pub open spec fn pair_before(p: Seq<u8>, c: Seq<u8>, q: Seq<u8>, d: Seq<u8>) -> bool {
    lex_lt(p, q) || (p == q && lex_lt(c, d))
}

/// Stored rows of pairs stand in the order of the pairs.
pub open spec fn by_stored_pair() -> spec_fn(
    (Seq<u8>, Seq<u8>, i64),
    (Seq<u8>, Seq<u8>, i64),
) -> bool {
    |a: (Seq<u8>, Seq<u8>, i64), b: (Seq<u8>, Seq<u8>, i64)| pair_before(a.0, a.1, b.0, b.1)
}

/// Rows of pairs stand in the order of the pairs.
pub open spec fn by_pair() -> spec_fn(
    ((Seq<u8>, Seq<u8>), u64),
    ((Seq<u8>, Seq<u8>), u64),
) -> bool {
    |a: ((Seq<u8>, Seq<u8>), u64), b: ((Seq<u8>, Seq<u8>), u64)|
        pair_before(a.0.0, a.0.1, b.0.0, b.0.1)
}

/// Stored claims stand in the order of the epochs, and of the providers for each.
pub open spec fn by_stored_claim() -> spec_fn((i64, Seq<u8>), (i64, Seq<u8>)) -> bool {
    |a: (i64, Seq<u8>), b: (i64, Seq<u8>)| a.0 < b.0 || (a.0 == b.0 && lex_lt(a.1, b.1))
}

/// Claims stand in the order of the epochs, and of the providers for each.
pub open spec fn by_claim() -> spec_fn((u64, Seq<u8>), (u64, Seq<u8>)) -> bool {
    |a: (u64, Seq<u8>), b: (u64, Seq<u8>)| a.0 < b.0 || (a.0 == b.0 && lex_lt(a.1, b.1))
}

/// The rows are what reading the tables gives: all of each table, and in key order, as the
/// reading statements ask.
pub open spec fn shows(tables: EconTables, rows: EconRows) -> bool {
    &&& raw_singletons(rows.singletons@).to_set() == tables.singletons
    &&& raw_accounts(rows.paid@).to_set() == tables.paid
    &&& in_order(raw_accounts(rows.paid@), by_account::<i64>())
    &&& raw_pairs(rows.served@).to_set() == tables.served
    &&& in_order(raw_pairs(rows.served@), by_stored_pair())
    &&& raw_accounts(rows.seeding@).to_set() == tables.seeding
    &&& in_order(raw_accounts(rows.seeding@), by_account::<i64>())
    &&& raw_claims(rows.claims@).to_set() == tables.claims
    &&& in_order(raw_claims(rows.claims@), by_stored_claim())
}

/// No key stands in a list of the position twice, and the epochs are ones that a database
/// integer counts.
pub open spec fn storable(s: EconomicSnapshot) -> bool {
    &&& distinct_accounts(s.paid_watermarks@)
    &&& forall|i: int, j: int|
        0 <= i < j < s.served_watermarks@.len() ==> (#[trigger] s.served_watermarks@[i]).0 != (
        #[trigger] s.served_watermarks@[j]).0
    &&& distinct_accounts(s.seeding_next@)
    &&& s.claimed@.no_duplicates()
    &&& forall|i: int| 0 <= i < s.claimed@.len() ==> (#[trigger] s.claimed@[i]).0 <= i64::MAX
}

/// No account stands in two rows.
pub open spec fn distinct_accounts(rows: Seq<([u8; 32], u64)>) -> bool {
    forall|i: int, j: int|
        0 <= i < j < rows.len() ==> (#[trigger] rows[i]).0 != (#[trigger] rows[j]).0
}

/// Two lists are equally long and contain the same.
pub open spec fn same_rows<T>(a: Seq<T>, b: Seq<T>) -> bool {
    &&& a.len() == b.len()
    &&& forall|x: T| #[trigger] a.contains(x) <==> b.contains(x)
}

/// `t` is the position `s` with each list sorted by its keys.
pub open spec fn sorted_form(t: EconomicSnapshot, s: EconomicSnapshot) -> bool {
    &&& t.pool == s.pool
    &&& t.minted == s.minted
    &&& in_order(account_values(t.paid_watermarks@), by_account::<u64>())
    &&& same_rows(account_values(t.paid_watermarks@), account_values(s.paid_watermarks@))
    &&& in_order(pair_values(t.served_watermarks@), by_pair())
    &&& same_rows(pair_values(t.served_watermarks@), pair_values(s.served_watermarks@))
    &&& in_order(account_values(t.seeding_next@), by_account::<u64>())
    &&& same_rows(account_values(t.seeding_next@), account_values(s.seeding_next@))
    &&& in_order(claim_values(t.claimed@), by_claim())
    &&& same_rows(claim_values(t.claimed@), claim_values(s.claimed@))
}

proof fn lemma_read_accounts(raw: Seq<(Seq<u8>, i64)>)
    requires
        forall|i: int| 0 <= i < raw.len() ==> (#[trigger] raw[i]).0.len() == 32,
    ensures
        read_accounts(raw).len() == raw.len(),
        forall|i: int|
            0 <= i < raw.len() ==> #[trigger] read_accounts(raw)[i] == (
                raw[i].0,
                from_integer(raw[i].1),
            ),
    decreases raw.len(),
{
    if raw.len() > 0 {
        assert(raw[raw.len() - 1].0.len() == 32);
        assert forall|i: int| 0 <= i < raw.drop_last().len() implies (
        #[trigger] raw.drop_last()[i]).0.len() == 32 by {
            assert(raw[i].0.len() == 32);
        }
        lemma_read_accounts(raw.drop_last());
        assert forall|i: int| 0 <= i < raw.len() implies #[trigger] read_accounts(raw)[i] == (
            raw[i].0,
            from_integer(raw[i].1),
        ) by {
            if i < raw.len() - 1 {
                assert(read_accounts(raw.drop_last())[i] == (
                    raw.drop_last()[i].0,
                    from_integer(raw.drop_last()[i].1),
                ));
            }
        }
    }
}

proof fn lemma_read_pairs(raw: Seq<(Seq<u8>, Seq<u8>, i64)>)
    requires
        forall|i: int|
            0 <= i < raw.len() ==> (#[trigger] raw[i]).0.len() == 32 && raw[i].1.len() == 32,
    ensures
        read_pairs(raw).len() == raw.len(),
        forall|i: int|
            0 <= i < raw.len() ==> #[trigger] read_pairs(raw)[i] == (
                (raw[i].0, raw[i].1),
                from_integer(raw[i].2),
            ),
    decreases raw.len(),
{
    if raw.len() > 0 {
        assert(raw[raw.len() - 1].0.len() == 32);
        assert forall|i: int| 0 <= i < raw.drop_last().len() implies (
        #[trigger] raw.drop_last()[i]).0.len() == 32 && raw.drop_last()[i].1.len() == 32 by {
            assert(raw[i].0.len() == 32);
        }
        lemma_read_pairs(raw.drop_last());
        assert forall|i: int| 0 <= i < raw.len() implies #[trigger] read_pairs(raw)[i] == (
            (raw[i].0, raw[i].1),
            from_integer(raw[i].2),
        ) by {
            if i < raw.len() - 1 {
                assert(read_pairs(raw.drop_last())[i] == (
                    (raw.drop_last()[i].0, raw.drop_last()[i].1),
                    from_integer(raw.drop_last()[i].2),
                ));
            }
        }
    }
}

proof fn lemma_read_claims(raw: Seq<(i64, Seq<u8>)>)
    requires
        forall|i: int| 0 <= i < raw.len() ==> (#[trigger] raw[i]).1.len() == 32,
    ensures
        read_claims(raw).len() == raw.len(),
        forall|i: int|
            0 <= i < raw.len() ==> #[trigger] read_claims(raw)[i] == (
                from_integer(raw[i].0),
                raw[i].1,
            ),
    decreases raw.len(),
{
    if raw.len() > 0 {
        assert(raw[raw.len() - 1].1.len() == 32);
        assert forall|i: int| 0 <= i < raw.drop_last().len() implies (
        #[trigger] raw.drop_last()[i]).1.len() == 32 by {
            assert(raw[i].1.len() == 32);
        }
        lemma_read_claims(raw.drop_last());
        assert forall|i: int| 0 <= i < raw.len() implies #[trigger] read_claims(raw)[i] == (
            from_integer(raw[i].0),
            raw[i].1,
        ) by {
            if i < raw.len() - 1 {
                assert(read_claims(raw.drop_last())[i] == (
                    from_integer(raw.drop_last()[i].0),
                    raw.drop_last()[i].1,
                ));
            }
        }
    }
}

/// Two lists without repetition that contain the same are equally long.
proof fn lemma_same_rows<T>(a: Seq<T>, b: Seq<T>)
    requires
        a.no_duplicates(),
        b.no_duplicates(),
        forall|x: T| #[trigger] a.contains(x) <==> b.contains(x),
    ensures
        same_rows(a, b),
{
    a.unique_seq_to_set();
    b.unique_seq_to_set();
    assert(a.to_set() =~= b.to_set()) by {
        assert forall|x: T| a.to_set().contains(x) <==> b.to_set().contains(x) by {
            assert(a.contains(x) <==> b.contains(x));
        }
    }
}

/// What is in strict order repeats nothing.
proof fn lemma_ordered_is_distinct<T>(list: Seq<T>, lt: spec_fn(T, T) -> bool)
    requires
        in_order(list, lt),
        forall|x: T| !#[trigger] lt(x, x),
    ensures
        list.no_duplicates(),
{
    assert forall|i: int, j: int| 0 <= i < list.len() && 0 <= j < list.len() && i != j implies list[i]
        != list[j] by {
        if i < j {
            assert(lt(list[i], list[j]));
        } else {
            assert(lt(list[j], list[i]));
        }
        assert(!lt(list[i], list[i]));
    }
}

/// There is one way to put items in order.
proof fn lemma_order_is_unique<T>(a: Seq<T>, b: Seq<T>, lt: spec_fn(T, T) -> bool)
    requires
        in_order(a, lt),
        in_order(b, lt),
        forall|x: T, y: T| #[trigger] lt(x, y) ==> !lt(y, x),
        forall|x: T| #[trigger] a.contains(x) <==> b.contains(x),
    ensures
        a == b,
    decreases a.len(),
{
    if a.len() == 0 {
        if b.len() > 0 {
            assert(b.contains(b[0]));
            assert(a.contains(b[0]));
        }
        assert(a =~= b);
    } else {
        let x = a.last();
        assert(a.contains(x));
        let j = choose|j: int| 0 <= j < b.len() && b[j] == x;
        let y = b.last();
        assert(b.contains(y));
        assert(a.contains(y));
        let i = choose|i: int| 0 <= i < a.len() && a[i] == y;
        if j < b.len() - 1 {
            assert(lt(b[j], b[b.len() - 1]));
            if i < a.len() - 1 {
                assert(lt(a[i], a[a.len() - 1]));
            }
            assert(lt(x, y));
            assert(!lt(y, x));
        }
        assert(x == y);
        let p = a.drop_last();
        let q = b.drop_last();
        assert forall|z: T| #[trigger] p.contains(z) <==> q.contains(z) by {
            if p.contains(z) {
                let k = choose|k: int| 0 <= k < p.len() && p[k] == z;
                assert(lt(a[k], a[a.len() - 1]));
                assert(a.contains(z));
                let m = choose|m: int| 0 <= m < b.len() && b[m] == z;
                if m == b.len() - 1 {
                    assert(lt(z, z));
                }
                assert(q[m] == z);
            }
            if q.contains(z) {
                let k = choose|k: int| 0 <= k < q.len() && q[k] == z;
                assert(lt(b[k], b[b.len() - 1]));
                assert(b.contains(z));
                assert(a.contains(z));
                let m = choose|m: int| 0 <= m < a.len() && a[m] == z;
                if m == a.len() - 1 {
                    assert(lt(z, z));
                }
                assert(p[m] == z);
            }
        }
        assert(in_order(p, lt)) by {
            assert forall|k: int, m: int| 0 <= k < m < p.len() implies lt(
                #[trigger] p[k],
                #[trigger] p[m],
            ) by {
                assert(lt(a[k], a[m]));
            }
        }
        assert(in_order(q, lt)) by {
            assert forall|k: int, m: int| 0 <= k < m < q.len() implies lt(
                #[trigger] q[k],
                #[trigger] q[m],
            ) by {
                assert(lt(b[k], b[m]));
            }
        }
        lemma_order_is_unique(p, q, lt);
        assert(a =~= p.push(x));
        assert(b =~= q.push(y));
    }
}

proof fn lemma_accounts_sorted(rows: Seq<([u8; 32], u64)>, raw: Seq<(Seq<u8>, i64)>)
    requires
        distinct_accounts(rows),
        in_order(raw, by_account::<i64>()),
        raw.to_set() == written_accounts(rows).to_set(),
    ensures
        in_order(read_accounts(raw), by_account::<u64>()),
        same_rows(read_accounts(raw), account_values(rows)),
{
    let written = written_accounts(rows);
    let values = account_values(rows);
    assert forall|x: (Seq<u8>, i64)| #[trigger] raw.contains(x) <==> written.contains(x) by {
        assert(raw.to_set().contains(x) <==> written.to_set().contains(x));
    }
    assert forall|i: int| 0 <= i < raw.len() implies (#[trigger] raw[i]).0.len() == 32 by {
        assert(raw.contains(raw[i]));
        let j = choose|j: int| 0 <= j < written.len() && written[j] == raw[i];
        assert(written[j].0 == rows[j].0@);
    }
    lemma_read_accounts(raw);
    let read = read_accounts(raw);
    assert forall|i: int, j: int| 0 <= i < j < read.len() implies by_account::<u64>()(
        #[trigger] read[i],
        #[trigger] read[j],
    ) by {
        assert(by_account::<i64>()(raw[i], raw[j]));
    }
    assert forall|x: (Seq<u8>, u64)| #[trigger] read.contains(x) <==> values.contains(x) by {
        if read.contains(x) {
            let i = choose|i: int| 0 <= i < read.len() && read[i] == x;
            assert(raw.contains(raw[i]));
            let j = choose|j: int| 0 <= j < written.len() && written[j] == raw[i];
            law_amounts_survive_the_database(rows[j].1);
            assert(values[j] == x);
        }
        if values.contains(x) {
            let j = choose|j: int| 0 <= j < values.len() && values[j] == x;
            law_amounts_survive_the_database(rows[j].1);
            assert(written.contains(written[j]));
            assert(raw.contains(written[j]));
            let i = choose|i: int| 0 <= i < raw.len() && raw[i] == written[j];
            assert(read[i] == x);
        }
    }
    assert forall|x: (Seq<u8>, u64)| !#[trigger] by_account::<u64>()(x, x) by {
        lemma_lex_irreflexive(x.0);
    }
    lemma_ordered_is_distinct(read, by_account::<u64>());
    assert forall|i: int, j: int|
        0 <= i < values.len() && 0 <= j < values.len() && i != j implies values[i] != values[j] by {
        if values[i] == values[j] {
            lemma_array_ext(rows[i].0, rows[j].0);
            assert(rows[i].0 == rows[j].0);
            if i < j {
                assert(rows[i].0 != rows[j].0);
            } else {
                assert(rows[j].0 != rows[i].0);
            }
        }
    }
    lemma_same_rows(read, values);
}

proof fn lemma_pairs_sorted(
    rows: Seq<(([u8; 32], [u8; 32]), u64)>,
    raw: Seq<(Seq<u8>, Seq<u8>, i64)>,
)
    requires
        forall|i: int, j: int|
            0 <= i < j < rows.len() ==> (#[trigger] rows[i]).0 != (#[trigger] rows[j]).0,
        in_order(raw, by_stored_pair()),
        raw.to_set() == written_pairs(rows).to_set(),
    ensures
        in_order(read_pairs(raw), by_pair()),
        same_rows(read_pairs(raw), pair_values(rows)),
{
    let written = written_pairs(rows);
    let values = pair_values(rows);
    assert forall|x: (Seq<u8>, Seq<u8>, i64)| #[trigger] raw.contains(x) <==> written.contains(
        x,
    ) by {
        assert(raw.to_set().contains(x) <==> written.to_set().contains(x));
    }
    assert forall|i: int| 0 <= i < raw.len() implies (#[trigger] raw[i]).0.len() == 32
        && raw[i].1.len() == 32 by {
        assert(raw.contains(raw[i]));
        let j = choose|j: int| 0 <= j < written.len() && written[j] == raw[i];
        assert(written[j].0 == rows[j].0.0@ && written[j].1 == rows[j].0.1@);
    }
    lemma_read_pairs(raw);
    let read = read_pairs(raw);
    assert forall|i: int, j: int| 0 <= i < j < read.len() implies by_pair()(
        #[trigger] read[i],
        #[trigger] read[j],
    ) by {
        assert(by_stored_pair()(raw[i], raw[j]));
    }
    assert forall|x: ((Seq<u8>, Seq<u8>), u64)| #[trigger] read.contains(x) <==> values.contains(
        x,
    ) by {
        if read.contains(x) {
            let i = choose|i: int| 0 <= i < read.len() && read[i] == x;
            assert(raw.contains(raw[i]));
            let j = choose|j: int| 0 <= j < written.len() && written[j] == raw[i];
            law_amounts_survive_the_database(rows[j].1);
            assert(values[j] == x);
        }
        if values.contains(x) {
            let j = choose|j: int| 0 <= j < values.len() && values[j] == x;
            law_amounts_survive_the_database(rows[j].1);
            assert(written.contains(written[j]));
            assert(raw.contains(written[j]));
            let i = choose|i: int| 0 <= i < raw.len() && raw[i] == written[j];
            assert(read[i] == x);
        }
    }
    assert forall|x: ((Seq<u8>, Seq<u8>), u64)| !#[trigger] by_pair()(x, x) by {
        lemma_lex_irreflexive(x.0.0);
        lemma_lex_irreflexive(x.0.1);
    }
    lemma_ordered_is_distinct(read, by_pair());
    assert forall|i: int, j: int|
        0 <= i < values.len() && 0 <= j < values.len() && i != j implies values[i] != values[j] by {
        if values[i] == values[j] {
            lemma_array_ext(rows[i].0.0, rows[j].0.0);
            lemma_array_ext(rows[i].0.1, rows[j].0.1);
            assert(rows[i].0 == rows[j].0);
            if i < j {
                assert(rows[i].0 != rows[j].0);
            } else {
                assert(rows[j].0 != rows[i].0);
            }
        }
    }
    lemma_same_rows(read, values);
}

proof fn lemma_claims_sorted(rows: Seq<(u64, [u8; 32])>, raw: Seq<(i64, Seq<u8>)>)
    requires
        rows.no_duplicates(),
        forall|i: int| 0 <= i < rows.len() ==> (#[trigger] rows[i]).0 <= i64::MAX,
        in_order(raw, by_stored_claim()),
        raw.to_set() == written_claims(rows).to_set(),
    ensures
        in_order(read_claims(raw), by_claim()),
        same_rows(read_claims(raw), claim_values(rows)),
{
    let written = written_claims(rows);
    let values = claim_values(rows);
    assert forall|x: (i64, Seq<u8>)| #[trigger] raw.contains(x) <==> written.contains(x) by {
        assert(raw.to_set().contains(x) <==> written.to_set().contains(x));
    }
    assert forall|i: int| 0 <= i < raw.len() implies (#[trigger] raw[i]).1.len() == 32 && raw[i].0
        >= 0 by {
        assert(raw.contains(raw[i]));
        let j = choose|j: int| 0 <= j < written.len() && written[j] == raw[i];
        assert(written[j].1 == rows[j].1@);
        assert(rows[j].0 <= i64::MAX);
    }
    lemma_read_claims(raw);
    let read = read_claims(raw);
    assert forall|i: int, j: int| 0 <= i < j < read.len() implies by_claim()(
        #[trigger] read[i],
        #[trigger] read[j],
    ) by {
        assert(by_stored_claim()(raw[i], raw[j]));
        assert(raw[i].0 >= 0 && raw[j].0 >= 0);
    }
    assert forall|x: (u64, Seq<u8>)| #[trigger] read.contains(x) <==> values.contains(x) by {
        if read.contains(x) {
            let i = choose|i: int| 0 <= i < read.len() && read[i] == x;
            assert(raw.contains(raw[i]));
            let j = choose|j: int| 0 <= j < written.len() && written[j] == raw[i];
            law_amounts_survive_the_database(rows[j].0);
            assert(values[j] == x);
        }
        if values.contains(x) {
            let j = choose|j: int| 0 <= j < values.len() && values[j] == x;
            law_amounts_survive_the_database(rows[j].0);
            assert(written.contains(written[j]));
            assert(raw.contains(written[j]));
            let i = choose|i: int| 0 <= i < raw.len() && raw[i] == written[j];
            assert(read[i] == x);
        }
    }
    assert forall|x: (u64, Seq<u8>)| !#[trigger] by_claim()(x, x) by {
        lemma_lex_irreflexive(x.1);
    }
    lemma_ordered_is_distinct(read, by_claim());
    assert forall|i: int, j: int|
        0 <= i < values.len() && 0 <= j < values.len() && i != j implies values[i] != values[j] by {
        if values[i] == values[j] {
            lemma_array_ext(rows[i].1, rows[j].1);
            assert(rows[i] == rows[j]);
        }
    }
    lemma_same_rows(read, values);
}

/// A key that stands in one row reads as the value of that row.
proof fn lemma_singleton(rows: Seq<(Seq<char>, i64)>, key: Seq<char>, v: i64)
    requires
        rows.contains((key, v)),
        forall|w: i64| #[trigger] rows.contains((key, w)) ==> w == v,
    ensures
        singleton(rows, key) == from_integer(v),
    decreases rows.len(),
{
    let last = rows.last();
    assert(rows[rows.len() - 1] == last);
    if last.0 == key {
        assert(rows.contains((key, last.1)));
    } else {
        let front = rows.drop_last();
        let i = choose|i: int| 0 <= i < rows.len() && rows[i] == (key, v);
        assert(front[i] == (key, v));
        assert forall|w: i64| #[trigger] front.contains((key, w)) implies w == v by {
            let j = choose|j: int| 0 <= j < front.len() && front[j] == (key, w);
            assert(rows[j] == (key, w));
            assert(rows.contains((key, w)));
        }
        lemma_singleton(front, key, v);
    }
}

/// A position that is written and read back is what it was, with each list in key order,
/// whatever the database held before and in whatever order the lists were written.
pub proof fn law_positions_survive_the_database(
    before: EconTables,
    s: EconomicSnapshot,
    rows: EconRows,
    t: EconomicSnapshot,
)
    requires
        storable(s),
        shows(rewritten(before, s), rows),
        spells(rows, t),
    ensures
        sorted_form(t, s),
{
    lemma_accounts_sorted(s.paid_watermarks@, raw_accounts(rows.paid@));
    lemma_pairs_sorted(s.served_watermarks@, raw_pairs(rows.served@));
    lemma_accounts_sorted(s.seeding_next@, raw_accounts(rows.seeding@));
    lemma_claims_sorted(s.claimed@, raw_claims(rows.claims@));
    let singles = raw_singletons(rows.singletons@);
    let stored = rewritten(before, s).singletons;
    let pool = as_integer(s.pool) as i64;
    let minted = as_integer(s.minted) as i64;
    reveal_strlit("pool");
    reveal_strlit("minted");
    assert("pool"@.len() != "minted"@.len());
    assert forall|x: (Seq<char>, i64)| #[trigger] singles.contains(x) <==> stored.contains(x) by {
        assert(singles.to_set().contains(x) <==> stored.contains(x));
    }
    assert(singles.contains(("pool"@, pool)));
    assert(singles.contains(("minted"@, minted)));
    lemma_singleton(singles, "pool"@, pool);
    lemma_singleton(singles, "minted"@, minted);
    law_amounts_survive_the_database(s.pool);
    law_amounts_survive_the_database(s.minted);
}

/// Two positions with the same rows, written in whatever orders, are read back as the same
/// rows in the same order, so what is computed over them in sequence is the same.
pub proof fn law_row_order_comes_from_the_keys(
    s: EconomicSnapshot,
    r: EconomicSnapshot,
    t: EconomicSnapshot,
    u: EconomicSnapshot,
)
    requires
        same_rows(account_values(s.paid_watermarks@), account_values(r.paid_watermarks@)),
        same_rows(pair_values(s.served_watermarks@), pair_values(r.served_watermarks@)),
        same_rows(account_values(s.seeding_next@), account_values(r.seeding_next@)),
        same_rows(claim_values(s.claimed@), claim_values(r.claimed@)),
        sorted_form(t, s),
        sorted_form(u, r),
    ensures
        account_values(t.paid_watermarks@) == account_values(u.paid_watermarks@),
        pair_values(t.served_watermarks@) == pair_values(u.served_watermarks@),
        account_values(t.seeding_next@) == account_values(u.seeding_next@),
        claim_values(t.claimed@) == claim_values(u.claimed@),
{
    assert forall|x: (Seq<u8>, u64), y: (Seq<u8>, u64)| #[trigger]
        by_account::<u64>()(x, y) implies !by_account::<u64>()(y, x) by {
        lemma_lex_asymmetric(x.0, y.0);
    }
    assert forall|x: ((Seq<u8>, Seq<u8>), u64), y: ((Seq<u8>, Seq<u8>), u64)| #[trigger]
        by_pair()(x, y) implies !by_pair()(y, x) by {
        lemma_lex_irreflexive(x.0.0);
        if lex_lt(x.0.0, y.0.0) {
            lemma_lex_asymmetric(x.0.0, y.0.0);
        } else {
            lemma_lex_asymmetric(x.0.1, y.0.1);
        }
    }
    assert forall|x: (u64, Seq<u8>), y: (u64, Seq<u8>)| #[trigger] by_claim()(
        x,
        y,
    ) implies !by_claim()(y, x) by {
        if x.0 == y.0 {
            lemma_lex_asymmetric(x.1, y.1);
        }
    }
    let p = account_values(t.paid_watermarks@);
    let q = account_values(u.paid_watermarks@);
    assert forall|x: (Seq<u8>, u64)| #[trigger] p.contains(x) <==> q.contains(x) by {
        assert(account_values(s.paid_watermarks@).contains(x) <==> account_values(
            r.paid_watermarks@,
        ).contains(x));
    }
    lemma_order_is_unique(p, q, by_account::<u64>());
    let p = pair_values(t.served_watermarks@);
    let q = pair_values(u.served_watermarks@);
    assert forall|x: ((Seq<u8>, Seq<u8>), u64)| #[trigger] p.contains(x) <==> q.contains(x) by {
        assert(pair_values(s.served_watermarks@).contains(x) <==> pair_values(
            r.served_watermarks@,
        ).contains(x));
    }
    lemma_order_is_unique(p, q, by_pair());
    let p = account_values(t.seeding_next@);
    let q = account_values(u.seeding_next@);
    assert forall|x: (Seq<u8>, u64)| #[trigger] p.contains(x) <==> q.contains(x) by {
        assert(account_values(s.seeding_next@).contains(x) <==> account_values(
            r.seeding_next@,
        ).contains(x));
    }
    lemma_order_is_unique(p, q, by_account::<u64>());
    let p = claim_values(t.claimed@);
    let q = claim_values(u.claimed@);
    assert forall|x: (u64, Seq<u8>)| #[trigger] p.contains(x) <==> q.contains(x) by {
        assert(claim_values(s.claimed@).contains(x) <==> claim_values(r.claimed@).contains(x));
    }
    lemma_order_is_unique(p, q, by_claim());
}

} // verus!
