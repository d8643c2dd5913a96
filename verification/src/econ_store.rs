//! The economic position in a database: how it is written, and what is read back.

use crate::sql::{as_integer, push_integer, signed_decimal};
use crate::parse::same_text;
use crate::text::{exactly32, hex_encode, hex_text};
use vstd::prelude::*;
use vstd::string::*;

verus! {

/// The namespace of the economic database.
pub const ECON_NAMESPACE: &'static str = "econ";

/// Reads the single values.
pub const SELECT_SINGLETONS: &'static str = "SELECT k,v FROM econ_singleton";

/// Reads what each account has paid, in key order.
pub const SELECT_PAID: &'static str = "SELECT account,v FROM econ_paid_wm ORDER BY account";

/// Reads what each provider has served each consumer, in key order.
pub const SELECT_SERVED: &'static str =
    "SELECT provider,consumer,v FROM econ_served_wm ORDER BY provider,consumer";

/// Reads when each account is next granted its allowance, in key order.
pub const SELECT_SEEDING: &'static str =
    "SELECT account,next_epoch FROM econ_seeding ORDER BY account";

/// Reads the claimed rewards, in key order.
pub const SELECT_CLAIMS: &'static str =
    "SELECT epoch,provider FROM econ_claims ORDER BY epoch,provider";

/// The economic position of the network.
#[derive(Debug)]
pub struct EconomicSnapshot {
    pub pool: u64,
    pub minted: u64,
    pub paid_watermarks: Vec<([u8; 32], u64)>,
    pub served_watermarks: Vec<(([u8; 32], [u8; 32]), u64)>,
    pub seeding_next: Vec<([u8; 32], u64)>,
    pub claimed: Vec<(u64, [u8; 32])>,
}

/// The tables, and the statements that empty them.
pub open spec fn schema_text() -> Seq<char> {
    "CREATE TABLE IF NOT EXISTS econ_singleton(k TEXT PRIMARY KEY, v INTEGER NOT NULL);CREATE TABLE IF NOT EXISTS econ_paid_wm(account BLOB PRIMARY KEY, v INTEGER NOT NULL);CREATE TABLE IF NOT EXISTS econ_served_wm(provider BLOB NOT NULL, consumer BLOB NOT NULL, v INTEGER NOT NULL, PRIMARY KEY(provider, consumer));CREATE TABLE IF NOT EXISTS econ_seeding(account BLOB PRIMARY KEY, next_epoch INTEGER NOT NULL);CREATE TABLE IF NOT EXISTS econ_claims(epoch INTEGER NOT NULL, provider BLOB NOT NULL, PRIMARY KEY(epoch, provider));"@
        + "DELETE FROM econ_singleton;DELETE FROM econ_paid_wm;DELETE FROM econ_served_wm;DELETE FROM econ_seeding;DELETE FROM econ_claims;"@
}

/// The statement that writes a row of an account.
pub open spec fn account_text(head: Seq<char>, row: ([u8; 32], u64)) -> Seq<char> {
    head + hex_text(row.0@) + "',"@ + signed_decimal(as_integer(row.1)) + ");"@
}

/// The statements that write rows of accounts, in order.
pub open spec fn accounts_text(head: Seq<char>, rows: Seq<([u8; 32], u64)>) -> Seq<char>
    decreases rows.len(),
{
    if rows.len() == 0 {
        Seq::empty()
    } else {
        accounts_text(head, rows.drop_last()) + account_text(head, rows.last())
    }
}

/// The statement that writes a row of a pair.
pub open spec fn pair_text(row: (([u8; 32], [u8; 32]), u64)) -> Seq<char> {
    "INSERT INTO econ_served_wm VALUES (x'"@ + hex_text(row.0.0@) + "',x'"@ + hex_text(row.0.1@)
        + "',"@ + signed_decimal(as_integer(row.1)) + ");"@
}

/// The statements that write rows of pairs, in order.
pub open spec fn pairs_text(rows: Seq<(([u8; 32], [u8; 32]), u64)>) -> Seq<char>
    decreases rows.len(),
{
    if rows.len() == 0 {
        Seq::empty()
    } else {
        pairs_text(rows.drop_last()) + pair_text(rows.last())
    }
}

/// The statement that writes a claim.
pub open spec fn claim_text(row: (u64, [u8; 32])) -> Seq<char> {
    "INSERT INTO econ_claims VALUES ("@ + signed_decimal(as_integer(row.0)) + ",x'"@ + hex_text(
        row.1@,
    ) + "');"@
}

/// The statements that write claims, in order.
pub open spec fn claims_text(rows: Seq<(u64, [u8; 32])>) -> Seq<char>
    decreases rows.len(),
{
    if rows.len() == 0 {
        Seq::empty()
    } else {
        claims_text(rows.drop_last()) + claim_text(rows.last())
    }
}

/// The statements that write the whole position.
pub open spec fn persist_text(s: EconomicSnapshot) -> Seq<char> {
    schema_text() + "INSERT INTO econ_singleton VALUES ('pool',"@ + signed_decimal(
        as_integer(s.pool),
    ) + "),('minted',"@ + signed_decimal(as_integer(s.minted)) + ");"@ + accounts_text(
        "INSERT INTO econ_paid_wm VALUES (x'"@,
        s.paid_watermarks@,
    ) + pairs_text(s.served_watermarks@) + accounts_text(
        "INSERT INTO econ_seeding VALUES (x'"@,
        s.seeding_next@,
    ) + claims_text(s.claimed@)
}

fn push_accounts(out: &mut String, head: &str, rows: &[([u8; 32], u64)])
    ensures
        final(out)@ == old(out)@ + accounts_text(head@, rows@),
{
    let ghost start = out@;
    let mut i: usize = 0;
    assert(rows@.take(0) =~= Seq::<([u8; 32], u64)>::empty());
    assert(out@ =~= start + accounts_text(head@, rows@.take(0)));
    while i < rows.len()
        invariant
            i <= rows@.len(),
            out@ == start + accounts_text(head@, rows@.take(i as int)),
        decreases rows@.len() - i,
    {
        proof {
            let next = rows@.take(i + 1);
            assert(next.drop_last() =~= rows@.take(i as int));
            assert(next.last() == rows@[i as int]);
        }
        let (account, v) = rows[i];
        out.append(head);
        out.append(hex_encode(account.as_slice()).as_str());
        out.append("',");
        push_integer(out, v);
        out.append(");");
        assert(out@ =~= start + accounts_text(head@, rows@.take(i + 1)));
        i = i + 1;
    }
    assert(rows@.take(i as int) =~= rows@);
}

/// The statements that write the whole position, in place of what was there.
pub fn persist_sql(snap: &EconomicSnapshot) -> (sql: String)
    ensures
        sql@ == persist_text(*snap),
{
    let mut out = String::from_str(
        "CREATE TABLE IF NOT EXISTS econ_singleton(k TEXT PRIMARY KEY, v INTEGER NOT NULL);CREATE TABLE IF NOT EXISTS econ_paid_wm(account BLOB PRIMARY KEY, v INTEGER NOT NULL);CREATE TABLE IF NOT EXISTS econ_served_wm(provider BLOB NOT NULL, consumer BLOB NOT NULL, v INTEGER NOT NULL, PRIMARY KEY(provider, consumer));CREATE TABLE IF NOT EXISTS econ_seeding(account BLOB PRIMARY KEY, next_epoch INTEGER NOT NULL);CREATE TABLE IF NOT EXISTS econ_claims(epoch INTEGER NOT NULL, provider BLOB NOT NULL, PRIMARY KEY(epoch, provider));",
    );
    out.append(
        "DELETE FROM econ_singleton;DELETE FROM econ_paid_wm;DELETE FROM econ_served_wm;DELETE FROM econ_seeding;DELETE FROM econ_claims;",
    );
    out.append("INSERT INTO econ_singleton VALUES ('pool',");
    push_integer(&mut out, snap.pool);
    out.append("),('minted',");
    push_integer(&mut out, snap.minted);
    out.append(");");
    push_accounts(
        &mut out,
        "INSERT INTO econ_paid_wm VALUES (x'",
        snap.paid_watermarks.as_slice(),
    );
    let ghost start = out@;
    let mut i: usize = 0;
    assert(snap.served_watermarks@.take(0) =~= Seq::<(([u8; 32], [u8; 32]), u64)>::empty());
    assert(out@ =~= start + pairs_text(snap.served_watermarks@.take(0)));
    while i < snap.served_watermarks.len()
        invariant
            i <= snap.served_watermarks@.len(),
            out@ == start + pairs_text(snap.served_watermarks@.take(i as int)),
        decreases snap.served_watermarks@.len() - i,
    {
        proof {
            let next = snap.served_watermarks@.take(i + 1);
            assert(next.drop_last() =~= snap.served_watermarks@.take(i as int));
            assert(next.last() == snap.served_watermarks@[i as int]);
        }
        let ((provider, consumer), v) = snap.served_watermarks[i];
        out.append("INSERT INTO econ_served_wm VALUES (x'");
        out.append(hex_encode(provider.as_slice()).as_str());
        out.append("',x'");
        out.append(hex_encode(consumer.as_slice()).as_str());
        out.append("',");
        push_integer(&mut out, v);
        out.append(");");
        assert(out@ =~= start + pairs_text(snap.served_watermarks@.take(i + 1)));
        i = i + 1;
    }
    assert(snap.served_watermarks@.take(i as int) =~= snap.served_watermarks@);
    push_accounts(
        &mut out,
        "INSERT INTO econ_seeding VALUES (x'",
        snap.seeding_next.as_slice(),
    );
    let ghost mid = out@;
    let mut j: usize = 0;
    assert(snap.claimed@.take(0) =~= Seq::<(u64, [u8; 32])>::empty());
    assert(out@ =~= mid + claims_text(snap.claimed@.take(0)));
    while j < snap.claimed.len()
        invariant
            j <= snap.claimed@.len(),
            out@ == mid + claims_text(snap.claimed@.take(j as int)),
        decreases snap.claimed@.len() - j,
    {
        proof {
            let next = snap.claimed@.take(j + 1);
            assert(next.drop_last() =~= snap.claimed@.take(j as int));
            assert(next.last() == snap.claimed@[j as int]);
        }
        let (epoch, provider) = snap.claimed[j];
        out.append("INSERT INTO econ_claims VALUES (");
        push_integer(&mut out, epoch);
        out.append(",x'");
        out.append(hex_encode(provider.as_slice()).as_str());
        out.append("');");
        assert(out@ =~= mid + claims_text(snap.claimed@.take(j + 1)));
        j = j + 1;
    }
    assert(snap.claimed@.take(j as int) =~= snap.claimed@);
    out
}

/// The amount that a database integer stands for.
pub open spec fn from_integer(v: i64) -> u64 {
    if v >= 0 {
        v as u64
    } else {
        (v + 0x1_0000_0000_0000_0000) as u64
    }
}

fn amount(v: i64) -> (n: u64)
    ensures
        n == from_integer(v),
{
    if v >= 0 {
        v as u64
    } else {
        0xffff_ffff_ffff_ffff - (-(v + 1)) as u64
    }
}

/// Rows of accounts as they come out of the database.
pub open spec fn raw_accounts(rows: Seq<(Vec<u8>, i64)>) -> Seq<(Seq<u8>, i64)> {
    rows.map_values(|r: (Vec<u8>, i64)| (r.0@, r.1))
}

/// Rows of pairs as they come out of the database.
pub open spec fn raw_pairs(rows: Seq<(Vec<u8>, Vec<u8>, i64)>) -> Seq<(Seq<u8>, Seq<u8>, i64)> {
    rows.map_values(|r: (Vec<u8>, Vec<u8>, i64)| (r.0@, r.1@, r.2))
}

/// Claims as they come out of the database.
pub open spec fn raw_claims(rows: Seq<(i64, Vec<u8>)>) -> Seq<(i64, Seq<u8>)> {
    rows.map_values(|r: (i64, Vec<u8>)| (r.0, r.1@))
}

/// The rows with a key of 32 bytes.
pub open spec fn read_accounts(rows: Seq<(Seq<u8>, i64)>) -> Seq<(Seq<u8>, u64)>
    decreases rows.len(),
{
    if rows.len() == 0 {
        Seq::empty()
    } else {
        let front = read_accounts(rows.drop_last());
        let (k, v) = rows.last();
        if k.len() == 32 {
            front.push((k, from_integer(v)))
        } else {
            front
        }
    }
}

/// The rows with keys of 32 bytes.
pub open spec fn read_pairs(rows: Seq<(Seq<u8>, Seq<u8>, i64)>) -> Seq<((Seq<u8>, Seq<u8>), u64)>
    decreases rows.len(),
{
    if rows.len() == 0 {
        Seq::empty()
    } else {
        let front = read_pairs(rows.drop_last());
        let (p, c, v) = rows.last();
        if p.len() == 32 && c.len() == 32 {
            front.push(((p, c), from_integer(v)))
        } else {
            front
        }
    }
}

/// The claims with a provider of 32 bytes.
pub open spec fn read_claims(rows: Seq<(i64, Seq<u8>)>) -> Seq<(u64, Seq<u8>)>
    decreases rows.len(),
{
    if rows.len() == 0 {
        Seq::empty()
    } else {
        let front = read_claims(rows.drop_last());
        let (e, p) = rows.last();
        if p.len() == 32 {
            front.push((from_integer(e), p))
        } else {
            front
        }
    }
}

/// The last value under a key, zero where there is none.
pub open spec fn singleton(rows: Seq<(Seq<char>, i64)>, key: Seq<char>) -> u64
    decreases rows.len(),
{
    if rows.len() == 0 {
        0
    } else if rows.last().0 == key {
        from_integer(rows.last().1)
    } else {
        singleton(rows.drop_last(), key)
    }
}

/// Single values as they come out of the database.
pub open spec fn raw_singletons(rows: Seq<(String, i64)>) -> Seq<(Seq<char>, i64)> {
    rows.map_values(|r: (String, i64)| (r.0@, r.1))
}

/// Rows of accounts as values.
pub open spec fn account_values(rows: Seq<([u8; 32], u64)>) -> Seq<(Seq<u8>, u64)> {
    rows.map_values(|r: ([u8; 32], u64)| (r.0@, r.1))
}

/// Rows of pairs as values.
pub open spec fn pair_values(rows: Seq<(([u8; 32], [u8; 32]), u64)>) -> Seq<
    ((Seq<u8>, Seq<u8>), u64),
> {
    rows.map_values(|r: (([u8; 32], [u8; 32]), u64)| ((r.0.0@, r.0.1@), r.1))
}

/// Claims as values.
pub open spec fn claim_values(rows: Seq<(u64, [u8; 32])>) -> Seq<(u64, Seq<u8>)> {
    rows.map_values(|r: (u64, [u8; 32])| (r.0, r.1@))
}

/// What the database holds, table by table, in the order in which it was read.
#[derive(Debug)]
pub struct EconRows {
    pub singletons: Vec<(String, i64)>,
    pub paid: Vec<(Vec<u8>, i64)>,
    pub served: Vec<(Vec<u8>, Vec<u8>, i64)>,
    pub seeding: Vec<(Vec<u8>, i64)>,
    pub claims: Vec<(i64, Vec<u8>)>,
}

fn load_accounts(rows: &[(Vec<u8>, i64)]) -> (list: Vec<([u8; 32], u64)>)
    ensures
        account_values(list@) == read_accounts(raw_accounts(rows@)),
{
    let mut list: Vec<([u8; 32], u64)> = Vec::new();
    let mut i: usize = 0;
    assert(raw_accounts(rows@.take(0)) =~= Seq::<(Seq<u8>, i64)>::empty());
    assert(account_values(list@) =~= read_accounts(raw_accounts(rows@.take(0))));
    while i < rows.len()
        invariant
            i <= rows@.len(),
            account_values(list@) == read_accounts(raw_accounts(rows@.take(i as int))),
        decreases rows@.len() - i,
    {
        proof {
            let next = raw_accounts(rows@.take(i + 1));
            assert(next.drop_last() =~= raw_accounts(rows@.take(i as int)));
            assert(next.last() == (rows@[i as int].0@, rows@[i as int].1));
        }
        let ghost before = account_values(list@);
        if let Some(account) = exactly32(rows[i].0.as_slice()) {
            let v: u64 = amount(rows[i].1);
            list.push((account, v));
            assert(account_values(list@) =~= before.push((account@, v)));
        }
        i = i + 1;
    }
    assert(rows@.take(i as int) =~= rows@);
    list
}

/// The rows spell the position `snap`. A row whose key is not 32 bytes counts for nothing.
pub open spec fn spells(rows: EconRows, snap: EconomicSnapshot) -> bool {
    &&& snap.pool == singleton(raw_singletons(rows.singletons@), "pool"@)
    &&& snap.minted == singleton(raw_singletons(rows.singletons@), "minted"@)
    &&& account_values(snap.paid_watermarks@) == read_accounts(raw_accounts(rows.paid@))
    &&& pair_values(snap.served_watermarks@) == read_pairs(raw_pairs(rows.served@))
    &&& account_values(snap.seeding_next@) == read_accounts(raw_accounts(rows.seeding@))
    &&& claim_values(snap.claimed@) == read_claims(raw_claims(rows.claims@))
}

/// The position that rows spell. A row whose key is not 32 bytes is skipped.
pub fn load(rows: &EconRows) -> (snap: EconomicSnapshot)
    ensures
        spells(*rows, snap),
{
    let mut pool: u64 = 0;
    let mut minted: u64 = 0;
    let mut i: usize = 0;
    proof {
        reveal_strlit("pool");
        reveal_strlit("minted");
        assert("pool"@.len() != "minted"@.len());
    }
    assert(raw_singletons(rows.singletons@.take(0)) =~= Seq::<(Seq<char>, i64)>::empty());
    while i < rows.singletons.len()
        invariant
            i <= rows.singletons@.len(),
            "pool"@ != "minted"@,
            pool == singleton(raw_singletons(rows.singletons@.take(i as int)), "pool"@),
            minted == singleton(raw_singletons(rows.singletons@.take(i as int)), "minted"@),
        decreases rows.singletons@.len() - i,
    {
        proof {
            let next = raw_singletons(rows.singletons@.take(i + 1));
            assert(next.drop_last() =~= raw_singletons(rows.singletons@.take(i as int)));
            assert(next.last() == (rows.singletons@[i as int].0@, rows.singletons@[i as int].1));
        }
        if same_text(rows.singletons[i].0.as_str(), "pool") {
            pool = amount(rows.singletons[i].1);
        } else if same_text(rows.singletons[i].0.as_str(), "minted") {
            minted = amount(rows.singletons[i].1);
        }
        i = i + 1;
    }
    assert(rows.singletons@.take(i as int) =~= rows.singletons@);
    let paid_watermarks = load_accounts(rows.paid.as_slice());
    let mut served_watermarks: Vec<(([u8; 32], [u8; 32]), u64)> = Vec::new();
    let mut j: usize = 0;
    assert(raw_pairs(rows.served@.take(0)) =~= Seq::<(Seq<u8>, Seq<u8>, i64)>::empty());
    assert(pair_values(served_watermarks@) =~= read_pairs(raw_pairs(rows.served@.take(0))));
    while j < rows.served.len()
        invariant
            j <= rows.served@.len(),
            pair_values(served_watermarks@) == read_pairs(raw_pairs(rows.served@.take(j as int))),
        decreases rows.served@.len() - j,
    {
        let row = &rows.served[j];
        proof {
            let next = raw_pairs(rows.served@.take(j + 1));
            assert(next.drop_last() =~= raw_pairs(rows.served@.take(j as int)));
            assert(next.last() == (row.0@, row.1@, row.2));
        }
        let ghost before = pair_values(served_watermarks@);
        match (exactly32(row.0.as_slice()), exactly32(row.1.as_slice())) {
            (Some(p), Some(c)) => {
                let v: u64 = amount(row.2);
                served_watermarks.push(((p, c), v));
                assert(pair_values(served_watermarks@) =~= before.push(((p@, c@), v)));
            },
            _ => {},
        }
        j = j + 1;
    }
    assert(rows.served@.take(j as int) =~= rows.served@);
    let seeding_next = load_accounts(rows.seeding.as_slice());
    let mut claimed: Vec<(u64, [u8; 32])> = Vec::new();
    let mut k: usize = 0;
    assert(raw_claims(rows.claims@.take(0)) =~= Seq::<(i64, Seq<u8>)>::empty());
    assert(claim_values(claimed@) =~= read_claims(raw_claims(rows.claims@.take(0))));
    while k < rows.claims.len()
        invariant
            k <= rows.claims@.len(),
            claim_values(claimed@) == read_claims(raw_claims(rows.claims@.take(k as int))),
        decreases rows.claims@.len() - k,
    {
        let row = &rows.claims[k];
        proof {
            let next = raw_claims(rows.claims@.take(k + 1));
            assert(next.drop_last() =~= raw_claims(rows.claims@.take(k as int)));
            assert(next.last() == (row.0, row.1@));
        }
        let ghost before = claim_values(claimed@);
        if let Some(p) = exactly32(row.1.as_slice()) {
            let e: u64 = amount(row.0);
            claimed.push((e, p));
            assert(claim_values(claimed@) =~= before.push((e, p@)));
        }
        k = k + 1;
    }
    assert(rows.claims@.take(k as int) =~= rows.claims@);
    EconomicSnapshot { pool, minted, paid_watermarks, served_watermarks, seeding_next, claimed }
}

/// The rows that the database holds of accounts once they are written.
pub open spec fn written_accounts(rows: Seq<([u8; 32], u64)>) -> Seq<(Seq<u8>, i64)> {
    rows.map_values(|r: ([u8; 32], u64)| (r.0@, as_integer(r.1) as i64))
}

/// The rows that the database holds of pairs once they are written.
pub open spec fn written_pairs(rows: Seq<(([u8; 32], [u8; 32]), u64)>) -> Seq<
    (Seq<u8>, Seq<u8>, i64),
> {
    rows.map_values(
        |r: (([u8; 32], [u8; 32]), u64)| (r.0.0@, r.0.1@, as_integer(r.1) as i64),
    )
}

/// The rows that the database holds of claims once they are written.
pub open spec fn written_claims(rows: Seq<(u64, [u8; 32])>) -> Seq<(i64, Seq<u8>)> {
    rows.map_values(|r: (u64, [u8; 32])| (as_integer(r.0) as i64, r.1@))
}

/// An amount reads back as itself, whatever its size.
pub proof fn law_amounts_survive_the_database(v: u64)
    ensures
        from_integer(as_integer(v) as i64) == v,
{
}

/// What was written of accounts reads back as it was.
pub proof fn law_accounts_survive_the_database(rows: Seq<([u8; 32], u64)>)
    ensures
        read_accounts(written_accounts(rows)) == account_values(rows),
    decreases rows.len(),
{
    if rows.len() == 0 {
        assert(account_values(rows) =~= Seq::empty());
        assert(written_accounts(rows) =~= Seq::empty());
    } else {
        law_accounts_survive_the_database(rows.drop_last());
        law_amounts_survive_the_database(rows.last().1);
        let w = written_accounts(rows);
        assert(w.drop_last() =~= written_accounts(rows.drop_last()));
        assert(account_values(rows) =~= account_values(rows.drop_last()).push(
            (rows.last().0@, rows.last().1),
        ));
    }
}

/// What was written of pairs reads back as it was.
pub proof fn law_pairs_survive_the_database(rows: Seq<(([u8; 32], [u8; 32]), u64)>)
    ensures
        read_pairs(written_pairs(rows)) == pair_values(rows),
    decreases rows.len(),
{
    if rows.len() == 0 {
        assert(pair_values(rows) =~= Seq::empty());
        assert(written_pairs(rows) =~= Seq::empty());
    } else {
        law_pairs_survive_the_database(rows.drop_last());
        law_amounts_survive_the_database(rows.last().1);
        let w = written_pairs(rows);
        assert(w.drop_last() =~= written_pairs(rows.drop_last()));
        assert(pair_values(rows) =~= pair_values(rows.drop_last()).push(
            ((rows.last().0.0@, rows.last().0.1@), rows.last().1),
        ));
    }
}

/// What was written of claims reads back as it was.
pub proof fn law_claims_survive_the_database(rows: Seq<(u64, [u8; 32])>)
    ensures
        read_claims(written_claims(rows)) == claim_values(rows),
    decreases rows.len(),
{
    if rows.len() == 0 {
        assert(claim_values(rows) =~= Seq::empty());
        assert(written_claims(rows) =~= Seq::empty());
    } else {
        law_claims_survive_the_database(rows.drop_last());
        law_amounts_survive_the_database(rows.last().0);
        let w = written_claims(rows);
        assert(w.drop_last() =~= written_claims(rows.drop_last()));
        assert(claim_values(rows) =~= claim_values(rows.drop_last()).push(
            (rows.last().0, rows.last().1@),
        ));
    }
}

/// The statements of two lists of rows are those of the one and those of the other; the
/// statement of a row tells its account and its amount.
pub proof fn law_every_account_is_written(
    head: Seq<char>,
    rows: Seq<([u8; 32], u64)>,
    row: ([u8; 32], u64),
)
    ensures
        accounts_text(head, Seq::empty()).len() == 0,
        accounts_text(head, rows.push(row)) == accounts_text(head, rows) + head + hex_text(row.0@)
            + "',"@ + signed_decimal(as_integer(row.1)) + ");"@,
{
    assert(rows.push(row).drop_last() =~= rows);
    assert(accounts_text(head, rows.push(row)) =~= accounts_text(head, rows) + head + hex_text(
        row.0@,
    ) + "',"@ + signed_decimal(as_integer(row.1)) + ");"@);
}

/// Every pair and every claim is written, in order, with all that it tells.
pub proof fn law_every_pair_and_claim_is_written(
    pairs: Seq<(([u8; 32], [u8; 32]), u64)>,
    pair: (([u8; 32], [u8; 32]), u64),
    claims: Seq<(u64, [u8; 32])>,
    claim: (u64, [u8; 32]),
)
    ensures
        pairs_text(Seq::empty()).len() == 0,
        claims_text(Seq::empty()).len() == 0,
        pairs_text(pairs.push(pair)) == pairs_text(pairs) + "INSERT INTO econ_served_wm VALUES (x'"@
            + hex_text(pair.0.0@) + "',x'"@ + hex_text(pair.0.1@) + "',"@ + signed_decimal(
            as_integer(pair.1),
        ) + ");"@,
        claims_text(claims.push(claim)) == claims_text(claims) + "INSERT INTO econ_claims VALUES ("@
            + signed_decimal(as_integer(claim.0)) + ",x'"@ + hex_text(claim.1@) + "');"@,
{
    assert(pairs.push(pair).drop_last() =~= pairs);
    assert(claims.push(claim).drop_last() =~= claims);
    assert(pairs_text(pairs.push(pair)) =~= pairs_text(pairs)
        + "INSERT INTO econ_served_wm VALUES (x'"@ + hex_text(pair.0.0@) + "',x'"@ + hex_text(
        pair.0.1@,
    ) + "',"@ + signed_decimal(as_integer(pair.1)) + ");"@);
    assert(claims_text(claims.push(claim)) =~= claims_text(claims)
        + "INSERT INTO econ_claims VALUES ("@ + signed_decimal(as_integer(claim.0)) + ",x'"@
        + hex_text(claim.1@) + "');"@);
}

/// Rows are read back one for one, but for those whose key is not of 32 bytes, which are left
/// out; of singletons the last of a name counts, and zero where there is none.
pub proof fn law_rows_are_read_one_for_one(
    accounts: Seq<(Seq<u8>, i64)>,
    account: (Seq<u8>, i64),
    pairs: Seq<(Seq<u8>, Seq<u8>, i64)>,
    pair: (Seq<u8>, Seq<u8>, i64),
    claims: Seq<(i64, Seq<u8>)>,
    claim: (i64, Seq<u8>),
    singles: Seq<(Seq<char>, i64)>,
    single: (Seq<char>, i64),
    key: Seq<char>,
)
    ensures
        read_accounts(Seq::empty()).len() == 0,
        read_pairs(Seq::empty()).len() == 0,
        read_claims(Seq::empty()).len() == 0,
        singleton(Seq::empty(), key) == 0,
        account.0.len() == 32 ==> read_accounts(accounts.push(account)) == read_accounts(
            accounts,
        ).push((account.0, from_integer(account.1))),
        account.0.len() != 32 ==> read_accounts(accounts.push(account)) == read_accounts(accounts),
        pair.0.len() == 32 && pair.1.len() == 32 ==> read_pairs(pairs.push(pair)) == read_pairs(
            pairs,
        ).push(((pair.0, pair.1), from_integer(pair.2))),
        pair.0.len() != 32 || pair.1.len() != 32 ==> read_pairs(pairs.push(pair)) == read_pairs(
            pairs,
        ),
        claim.1.len() == 32 ==> read_claims(claims.push(claim)) == read_claims(claims).push(
            (from_integer(claim.0), claim.1),
        ),
        claim.1.len() != 32 ==> read_claims(claims.push(claim)) == read_claims(claims),
        single.0 == key ==> singleton(singles.push(single), key) == from_integer(single.1),
        single.0 != key ==> singleton(singles.push(single), key) == singleton(singles, key),
{
    assert(accounts.push(account).drop_last() =~= accounts);
    assert(pairs.push(pair).drop_last() =~= pairs);
    assert(claims.push(claim).drop_last() =~= claims);
    assert(singles.push(single).drop_last() =~= singles);
}

/// The whole position is written: the pool and what was minted, what was paid, served and seeded,
/// and every claim.
pub proof fn law_the_whole_position_is_written(snap: EconomicSnapshot, sql: String)
    requires
        call_ensures(persist_sql, (&snap,), sql),
    ensures
        exists|schema: Seq<char>| #[trigger]
            (schema + "INSERT INTO econ_singleton VALUES ('pool',"@ + signed_decimal(
                as_integer(snap.pool),
            ) + "),('minted',"@ + signed_decimal(as_integer(snap.minted)) + ");"@ + accounts_text(
                "INSERT INTO econ_paid_wm VALUES (x'"@,
                snap.paid_watermarks@,
            ) + pairs_text(snap.served_watermarks@) + accounts_text(
                "INSERT INTO econ_seeding VALUES (x'"@,
                snap.seeding_next@,
            ) + claims_text(snap.claimed@)) == sql@,
{
    let schema = schema_text();
    assert((schema + "INSERT INTO econ_singleton VALUES ('pool',"@ + signed_decimal(
        as_integer(snap.pool),
    ) + "),('minted',"@ + signed_decimal(as_integer(snap.minted)) + ");"@ + accounts_text(
        "INSERT INTO econ_paid_wm VALUES (x'"@,
        snap.paid_watermarks@,
    ) + pairs_text(snap.served_watermarks@) + accounts_text(
        "INSERT INTO econ_seeding VALUES (x'"@,
        snap.seeding_next@,
    ) + claims_text(snap.claimed@)) == sql@);
}

} // verus!
