//! SQL text: literals that hold untrusted text, and the statements that the node writes.

use crate::headreg::shard::HeadEntry;
use crate::random::lemma_same_items;
use crate::text::{decimal, hex_encode, hex_text, push_decimal};
use vstd::prelude::*;
use vstd::string::*;

verus! {

/// A character as it stands inside a quoted literal: a quote is doubled.
pub open spec fn quoted_char(c: char) -> Seq<char> {
    if c == '\'' {
        seq!['\'', '\'']
    } else {
        seq![c]
    }
}

/// A text as it stands inside a quoted literal.
pub open spec fn quoted(s: Seq<char>) -> Seq<char>
    decreases s.len(),
{
    if s.len() == 0 {
        Seq::empty()
    } else {
        quoted_char(s[0]) + quoted(s.skip(1))
    }
}

/// The quoted literal of a text.
pub open spec fn text_literal(s: Seq<char>) -> Seq<char> {
    seq!['\''] + quoted(s) + seq!['\'']
}

/// What a reader of SQL makes of the text behind an opening quote: the literal's content,
/// and what follows the closing quote. A doubled quote is a quote of the content.
pub open spec fn read_literal(t: Seq<char>) -> Option<(Seq<char>, Seq<char>)>
    decreases t.len(),
{
    if t.len() == 0 {
        None
    } else if t[0] != '\'' {
        match read_literal(t.skip(1)) {
            Some((body, rest)) => Some((seq![t[0]] + body, rest)),
            None => None,
        }
    } else if t.len() > 1 && t[1] == '\'' {
        match read_literal(t.skip(2)) {
            Some((body, rest)) => Some((seq!['\''] + body, rest)),
            None => None,
        }
    } else {
        Some((Seq::empty(), t.skip(1)))
    }
}

/// Whatever a text holds, its literal reads back as that text and ends where it should: no
/// text can end its own literal early and go on as SQL.
pub proof fn law_literals_cannot_be_escaped(s: Seq<char>, rest: Seq<char>)
    requires
        rest.len() > 0 ==> rest[0] != '\'',
    ensures
        read_literal((text_literal(s) + rest).skip(1)) == Some((s, rest)),
{
    let t = (text_literal(s) + rest).skip(1);
    assert(t =~= quoted(s) + seq!['\''] + rest);
    lemma_reads_back(s, rest);
}

proof fn lemma_reads_back(s: Seq<char>, rest: Seq<char>)
    requires
        rest.len() > 0 ==> rest[0] != '\'',
    ensures
        read_literal(quoted(s) + seq!['\''] + rest) == Some((s, rest)),
    decreases s.len(),
{
    let t = quoted(s) + seq!['\''] + rest;
    if s.len() == 0 {
        assert(t =~= seq!['\''] + rest);
        assert(t.skip(1) =~= rest);
        assert(s =~= Seq::<char>::empty());
    } else {
        let c = s[0];
        let tail = s.skip(1);
        lemma_reads_back(tail, rest);
        let inner = quoted(tail) + seq!['\''] + rest;
        assert(t =~= quoted_char(c) + inner);
        assert(seq![c] + tail =~= s);
        if c == '\'' {
            assert(t[0] == '\'' && t[1] == '\'');
            assert(t.skip(2) =~= inner);
        } else {
            assert(t[0] == c);
            assert(t.skip(1) =~= inner);
        }
    }
}

proof fn lemma_quoted_push(s: Seq<char>, c: char)
    ensures
        quoted(s.push(c)) == quoted(s) + quoted_char(c),
    decreases s.len(),
{
    if s.len() == 0 {
        reveal_with_fuel(quoted, 2);
        let one = s.push(c);
        assert(one.skip(1).len() == 0);
        assert(one[0] == c);
        assert(quoted(one) =~= quoted_char(c));
        assert(quoted(one) =~= quoted(s) + quoted_char(c));
    } else {
        lemma_quoted_push(s.skip(1), c);
        assert(s.push(c).skip(1) =~= s.skip(1).push(c));
        assert(quoted(s.push(c)) =~= quoted(s) + quoted_char(c));
    }
}

/// Appends a text as it stands inside a quoted literal.
pub fn push_quoted(out: &mut String, s: &str)
    ensures
        final(out)@ == old(out)@ + quoted(s@),
{
    let ghost mut done: Seq<char> = Seq::empty();
    assert(out@ =~= old(out)@ + quoted(done));
    for c in it: s.chars()
        invariant
            it.seq() == s@,
            done == s@.take(it.index() as int),
            out@ == old(out)@ + quoted(done),
    {
        if c == '\'' {
            out.push('\'');
            out.push('\'');
        } else {
            out.push(c);
        }
        proof {
            lemma_quoted_push(done, c);
            let next = s@.take(it.index() as int + 1);
            assert(next =~= done.push(c));
            assert(out@ =~= old(out)@ + quoted(next));
            done = next;
        }
    }
    assert(done =~= s@);
}

/// A text with its quotes doubled.
pub fn sql_esc(s: &str) -> (escaped: String)
    ensures
        escaped@ == quoted(s@),
{
    let mut out = String::new();
    push_quoted(&mut out, s);
    assert(out@ =~= quoted(s@));
    out
}

/// The quoted literal of a text.
pub fn textlit(s: &str) -> (literal: String)
    ensures
        literal@ == text_literal(s@),
{
    let mut out = String::new();
    out.push('\'');
    push_quoted(&mut out, s);
    out.push('\'');
    assert(out@ =~= text_literal(s@));
    out
}

/// The literal of 32 bytes.
pub open spec fn blob_literal(b: Seq<u8>) -> Seq<char> {
    "X'"@ + hex_text(b) + "'"@
}

/// The literal of 32 bytes.
pub fn hexlit(b: &[u8; 32]) -> (literal: String)
    ensures
        literal@ == blob_literal(b@),
{
    let mut out = String::from_str("X'");
    out.append(hex_encode(b.as_slice()).as_str());
    out.append("'");
    out
}

/// The statement that makes the table of heads.
pub const CREATE_HEADS: &'static str =
    "CREATE TABLE IF NOT EXISTS heads (owner BLOB NOT NULL, name TEXT NOT NULL, cid BLOB NOT NULL, version INTEGER NOT NULL, PRIMARY KEY (owner, name))";

/// The statement that writes a head unless a version as new is there.
pub open spec fn upsert_text(e: HeadEntry) -> Seq<char> {
    "INSERT INTO heads(owner,name,cid,version) VALUES("@ + blob_literal(e.owner@) + ","@
        + text_literal(e.name@) + ","@ + blob_literal(e.cid@) + ","@ + decimal(e.version as nat)
        + ") ON CONFLICT(owner,name) DO UPDATE SET cid=excluded.cid, version=excluded.version WHERE excluded.version > heads.version"@
}

/// The statement that writes a head unless a version as new is there.
pub fn upsert_sql(e: &HeadEntry) -> (sql: String)
    ensures
        sql@ == upsert_text(*e),
{
    let mut out = String::from_str("INSERT INTO heads(owner,name,cid,version) VALUES(");
    out.append(hexlit(&e.owner).as_str());
    out.append(",");
    out.append(textlit(e.name.as_str()).as_str());
    out.append(",");
    out.append(hexlit(&e.cid).as_str());
    out.append(",");
    push_decimal(&mut out, e.version);
    out.append(
        ") ON CONFLICT(owner,name) DO UPDATE SET cid=excluded.cid, version=excluded.version WHERE excluded.version > heads.version",
    );
    out
}

/// Under what a table of heads holds a head: its owner and its name.
pub open spec fn head_key(e: HeadEntry) -> ([u8; 32], Seq<char>) {
    (e.owner, e.name@)
}

/// What the statement that writes the head `e` makes of a table of heads, by its guard: a row
/// with a version as new stays, and otherwise the row is that of `e`. Versions are taken to
/// be ones that a database integer holds.
pub open spec fn upserted(
    heads: Map<([u8; 32], Seq<char>), ([u8; 32], u64)>,
    e: HeadEntry,
) -> Map<([u8; 32], Seq<char>), ([u8; 32], u64)> {
    let key = head_key(e);
    if heads.contains_key(key) && heads[key].1 >= e.version {
        heads
    } else {
        heads.insert(key, (e.cid, e.version))
    }
}

/// What the statements that write the heads of a list, in order, make of a table of heads.
pub open spec fn upserted_all(
    heads: Map<([u8; 32], Seq<char>), ([u8; 32], u64)>,
    list: Seq<HeadEntry>,
) -> Map<([u8; 32], Seq<char>), ([u8; 32], u64)>
    decreases list.len(),
{
    if list.len() == 0 {
        heads
    } else {
        upserted(upserted_all(heads, list.drop_last()), list.last())
    }
}

/// The entry `i` of a list is of that key.
pub open spec fn is_of(list: Seq<HeadEntry>, i: int, key: ([u8; 32], Seq<char>)) -> bool {
    0 <= i < list.len() && head_key(list[i]) == key
}

/// Writing heads leaves each name at its newest version: at the one it had, or at one that was
/// written and is newer than that, and at none older than any of these. Names that were not
/// written keep their rows.
pub proof fn law_upserts_leave_the_newest(
    heads: Map<([u8; 32], Seq<char>), ([u8; 32], u64)>,
    list: Seq<HeadEntry>,
    key: ([u8; 32], Seq<char>),
)
    ensures
        ({
            let after = upserted_all(heads, list);
            &&& after.contains_key(key) <==> heads.contains_key(key) || exists|i: int| #[trigger]
                is_of(list, i, key)
            &&& heads.contains_key(key) ==> after[key].1 >= heads[key].1
            &&& forall|i: int| #[trigger] is_of(list, i, key) ==> after[key].1 >= list[i].version
            &&& after.contains_key(key) ==> (heads.contains_key(key) && after[key] == heads[key])
                || exists|i: int| #[trigger]
                is_of(list, i, key) && after[key] == (list[i].cid, list[i].version) && (
                heads.contains_key(key) ==> list[i].version > heads[key].1)
        }),
    decreases list.len(),
{
    if list.len() > 0 {
        let front = list.drop_last();
        let n = list.len() - 1;
        let before = upserted_all(heads, front);
        let after = upserted_all(heads, list);
        law_upserts_leave_the_newest(heads, front, key);
        assert forall|i: int| #[trigger] is_of(list, i, key) implies after.contains_key(key)
            && after[key].1 >= list[i].version by {
            if i < n {
                assert(is_of(front, i, key));
            }
        }
        if before.contains_key(key) && exists|i: int| #[trigger] is_of(front, i, key) {
            let i = choose|i: int| #[trigger] is_of(front, i, key);
            assert(is_of(list, i, key));
        }
        if after.contains_key(key) && !(heads.contains_key(key) && after[key] == heads[key]) {
            if before.contains_key(key) && after[key] == before[key] {
                let i = choose|i: int| #[trigger]
                    is_of(front, i, key) && before[key] == (front[i].cid, front[i].version) && (
                    heads.contains_key(key) ==> front[i].version > heads[key].1);
                assert(is_of(list, i, key));
                assert(list[i] == front[i]);
            } else {
                assert(is_of(list, n, key));
            }
        }
    }
}

/// In which order heads are written makes no difference, as long as a name is not written
/// twice at the same version.
pub proof fn law_upserts_commute(
    heads: Map<([u8; 32], Seq<char>), ([u8; 32], u64)>,
    a: Seq<HeadEntry>,
    b: Seq<HeadEntry>,
)
    requires
        a.to_multiset() == b.to_multiset(),
        forall|i: int, j: int|
            0 <= i < a.len() && 0 <= j < a.len() && i != j && head_key(#[trigger] a[i]) == head_key(
                #[trigger] a[j],
            ) ==> a[i].version != a[j].version,
    ensures
        upserted_all(heads, a) == upserted_all(heads, b),
{
    let x = upserted_all(heads, a);
    let y = upserted_all(heads, b);
    lemma_same_items(a, b);
    assert forall|key: ([u8; 32], Seq<char>)| #[trigger] x.contains_key(key) == y.contains_key(key)
        && (x.contains_key(key) ==> x[key] == y[key]) by {
        law_upserts_leave_the_newest(heads, a, key);
        law_upserts_leave_the_newest(heads, b, key);
        assert forall|i: int| #[trigger] is_of(a, i, key) implies exists|j: int| #[trigger]
            is_of(b, j, key) && b[j] == a[i] by {
            assert(a.contains(a[i]));
            let j = choose|j: int| 0 <= j < b.len() && b[j] == a[i];
            assert(is_of(b, j, key));
        }
        assert forall|j: int| #[trigger] is_of(b, j, key) implies exists|i: int| #[trigger]
            is_of(a, i, key) && a[i] == b[j] by {
            assert(b.contains(b[j]));
            assert(a.contains(b[j]));
            let i = choose|i: int| 0 <= i < a.len() && a[i] == b[j];
            assert(is_of(a, i, key));
        }
        if x.contains_key(key) && x[key] != y[key] {
            assert(x[key].1 == y[key].1);
            let i = choose|i: int| #[trigger]
                is_of(a, i, key) && x[key] == (a[i].cid, a[i].version);
            let j = choose|j: int| #[trigger]
                is_of(b, j, key) && y[key] == (b[j].cid, b[j].version);
            let k = choose|k: int| #[trigger] is_of(a, k, key) && a[k] == b[j];
            assert(a[i].version == a[k].version);
            assert(i == k);
        }
    }
    assert(x =~= y);
}

/// `v` in decimal, with a sign where it is negative.
pub open spec fn signed_decimal(v: int) -> Seq<char> {
    if v < 0 {
        seq!['-'] + decimal((-v) as nat)
    } else {
        decimal(v as nat)
    }
}

/// What a database integer makes of an amount: the amount itself up to the largest there
/// is, and negative numbers beyond.
pub open spec fn as_integer(v: u64) -> int {
    if v <= i64::MAX {
        v as int
    } else {
        v - 0x1_0000_0000_0000_0000
    }
}

/// Appends an amount as a database integer.
pub fn push_integer(out: &mut String, v: u64)
    ensures
        final(out)@ == old(out)@ + signed_decimal(as_integer(v)),
{
    if v <= 0x7fff_ffff_ffff_ffff {
        push_decimal(out, v);
    } else {
        out.push('-');
        push_decimal(out, 0xffff_ffff_ffff_ffff - v + 1);
        assert(out@ =~= old(out)@ + signed_decimal(as_integer(v)));
    }
}

/// The statements that list published content in the owner's index.
pub open spec fn owned_text(cid: Seq<char>, now: u64) -> Seq<char> {
    "CREATE TABLE IF NOT EXISTS owned(cid TEXT PRIMARY KEY, published_at INTEGER);\nINSERT OR IGNORE INTO owned(cid, published_at) VALUES ("@
        + text_literal(cid) + ", "@ + decimal(now as nat) + ");"@
}

/// The statements that list published content in the owner's index.
pub fn owned_add_sql(cid: &str, now: u64) -> (sql: String)
    ensures
        sql@ == owned_text(cid@, now),
{
    let mut out = String::from_str(
        "CREATE TABLE IF NOT EXISTS owned(cid TEXT PRIMARY KEY, published_at INTEGER);\nINSERT OR IGNORE INTO owned(cid, published_at) VALUES (",
    );
    out.append(textlit(cid).as_str());
    out.append(", ");
    push_decimal(&mut out, now);
    out.append(");");
    out
}

/// The statement that takes content off the owner's index.
pub fn owned_remove_sql(cid: &str) -> (sql: String)
    ensures
        sql@ == "DELETE FROM owned WHERE cid = "@ + text_literal(cid@) + ";"@,
{
    let mut out = String::from_str("DELETE FROM owned WHERE cid = ");
    out.append(textlit(cid).as_str());
    out.append(";");
    out
}

/// The statements that list a deployed app, in place of an earlier one of its name.
pub open spec fn apps_text(name: Seq<char>, cid: Seq<char>, version: u64, now: u64) -> Seq<char> {
    "CREATE TABLE IF NOT EXISTS apps(name TEXT PRIMARY KEY, cid TEXT, version INTEGER, deployed_at INTEGER);\nINSERT INTO apps(name, cid, version, deployed_at) VALUES ("@
        + text_literal(name) + ", "@ + text_literal(cid) + ", "@ + decimal(version as nat) + ", "@
        + decimal(now as nat)
        + ")\nON CONFLICT(name) DO UPDATE SET cid = excluded.cid, version = excluded.version, deployed_at = excluded.deployed_at;"@
}

/// The statements that list a deployed app, in place of an earlier one of its name.
pub fn apps_add_sql(name: &str, cid: &str, version: u64, now: u64) -> (sql: String)
    ensures
        sql@ == apps_text(name@, cid@, version, now),
{
    let mut out = String::from_str(
        "CREATE TABLE IF NOT EXISTS apps(name TEXT PRIMARY KEY, cid TEXT, version INTEGER, deployed_at INTEGER);\nINSERT INTO apps(name, cid, version, deployed_at) VALUES (",
    );
    out.append(textlit(name).as_str());
    out.append(", ");
    out.append(textlit(cid).as_str());
    out.append(", ");
    push_decimal(&mut out, version);
    out.append(", ");
    push_decimal(&mut out, now);
    out.append(
        ")\nON CONFLICT(name) DO UPDATE SET cid = excluded.cid, version = excluded.version, deployed_at = excluded.deployed_at;",
    );
    out
}

/// Quoting doubles every single quote and leaves every other character as it is.
pub proof fn law_quotes_are_doubled(a: Seq<char>, c: char)
    ensures
        quoted(Seq::empty()).len() == 0,
        c == '\'' ==> quoted(seq![c] + a) == seq!['\'', '\''] + quoted(a),
        c != '\'' ==> quoted(seq![c] + a) == seq![c] + quoted(a),
        text_literal(a)[0] == '\'',
        text_literal(a).last() == '\'',
        text_literal(a).len() == quoted(a).len() + 2,
{
    assert((seq![c] + a).skip(1) =~= a);
}

/// A number is stored as the signed number of the same 64 bits.
pub proof fn law_numbers_are_stored_by_their_bits(v: u64)
    ensures
        i64::MIN <= as_integer(v) <= i64::MAX,
        as_integer(v) == v || as_integer(v) + 0x1_0000_0000_0000_0000 == v,
{
}

/// An entry replaces what is stored under its owner and name exactly where nothing is, or where
/// its version is the higher; and it touches nothing else.
pub proof fn law_an_upsert_touches_its_own_row(
    heads: Map<([u8; 32], Seq<char>), ([u8; 32], u64)>,
    e: HeadEntry,
    other: ([u8; 32], Seq<char>),
)
    requires
        other != (e.owner, e.name@),
    ensures
        ({
            let after = upserted(heads, e);
            let key = (e.owner, e.name@);
            &&& after.contains_key(key)
            &&& !heads.contains_key(key) || e.version > heads[key].1 ==> after[key] == (
                e.cid,
                e.version,
            )
            &&& heads.contains_key(key) && e.version <= heads[key].1 ==> after[key] == heads[key]
            &&& after.contains_key(other) <==> heads.contains_key(other)
            &&& heads.contains_key(other) ==> after[other] == heads[other]
        }),
{
}

/// A head replaces a stored one only where its version is the higher: the statement says so at its
/// end, and tells owner, name, content and version in this order before.
pub proof fn law_upserts_guard_the_version(e: HeadEntry, sql: String)
    requires
        call_ensures(upsert_sql, (&e,), sql),
    ensures
        exists|before: Seq<char>, middle: Seq<char>|
            {
                &&& #[trigger] (before + blob_literal(e.owner@) + ","@ + text_literal(e.name@) + ","@
                    + blob_literal(e.cid@) + ","@ + decimal(e.version as nat) + middle)
                    + " WHERE excluded.version > heads.version"@ == sql@
            },
{
    let before = "INSERT INTO heads(owner,name,cid,version) VALUES("@;
    let end = ") ON CONFLICT(owner,name) DO UPDATE SET cid=excluded.cid, version=excluded.version WHERE excluded.version > heads.version"@;
    let middle =
        ") ON CONFLICT(owner,name) DO UPDATE SET cid=excluded.cid, version=excluded.version"@;
    let guard = " WHERE excluded.version > heads.version"@;
    reveal_strlit(
        ") ON CONFLICT(owner,name) DO UPDATE SET cid=excluded.cid, version=excluded.version WHERE excluded.version > heads.version",
    );
    reveal_strlit(
        ") ON CONFLICT(owner,name) DO UPDATE SET cid=excluded.cid, version=excluded.version",
    );
    reveal_strlit(" WHERE excluded.version > heads.version");
    assert(end =~= middle + guard);
    let told = before + blob_literal(e.owner@) + ","@ + text_literal(e.name@) + ","@ + blob_literal(
        e.cid@,
    ) + ","@ + decimal(e.version as nat);
    assert((told + middle) + guard =~= told + end);
    assert((before + blob_literal(e.owner@) + ","@ + text_literal(e.name@) + ","@ + blob_literal(
        e.cid@,
    ) + ","@ + decimal(e.version as nat) + middle) + guard == sql@);
}

/// The statements that keep one's own lists tell what is kept, quoted, and when: content that is
/// listed already stays as it is, and an app that is listed is replaced.
pub proof fn law_own_lists_tell_what_is_kept(
    cid: &str,
    name: &str,
    version: u64,
    now: u64,
    owned: String,
    apps: String,
)
    requires
        call_ensures(owned_add_sql, (cid, now), owned),
        call_ensures(apps_add_sql, (name, cid, version, now), apps),
    ensures
        exists|head: Seq<char>| #[trigger]
            (head + "INSERT OR IGNORE INTO owned(cid, published_at) VALUES ("@ + text_literal(cid@)
                + ", "@ + decimal(now as nat) + ");"@) == owned@,
        exists|head: Seq<char>| #[trigger]
            (head + "INSERT INTO apps(name, cid, version, deployed_at) VALUES ("@ + text_literal(
                name@,
            ) + ", "@ + text_literal(cid@) + ", "@ + decimal(version as nat) + ", "@ + decimal(
                now as nat,
            )
                + ")\nON CONFLICT(name) DO UPDATE SET cid = excluded.cid, version = excluded.version, deployed_at = excluded.deployed_at;"@)
                == apps@,
{
    reveal_strlit(
        "CREATE TABLE IF NOT EXISTS owned(cid TEXT PRIMARY KEY, published_at INTEGER);\nINSERT OR IGNORE INTO owned(cid, published_at) VALUES (",
    );
    reveal_strlit(
        "CREATE TABLE IF NOT EXISTS owned(cid TEXT PRIMARY KEY, published_at INTEGER);\n",
    );
    reveal_strlit("INSERT OR IGNORE INTO owned(cid, published_at) VALUES (");
    let a = "CREATE TABLE IF NOT EXISTS owned(cid TEXT PRIMARY KEY, published_at INTEGER);\n"@;
    assert(a + "INSERT OR IGNORE INTO owned(cid, published_at) VALUES ("@
        =~= "CREATE TABLE IF NOT EXISTS owned(cid TEXT PRIMARY KEY, published_at INTEGER);\nINSERT OR IGNORE INTO owned(cid, published_at) VALUES ("@);
    assert((a + "INSERT OR IGNORE INTO owned(cid, published_at) VALUES ("@ + text_literal(cid@)
        + ", "@ + decimal(now as nat) + ");"@) == owned@);
    reveal_strlit(
        "CREATE TABLE IF NOT EXISTS apps(name TEXT PRIMARY KEY, cid TEXT, version INTEGER, deployed_at INTEGER);\nINSERT INTO apps(name, cid, version, deployed_at) VALUES (",
    );
    reveal_strlit(
        "CREATE TABLE IF NOT EXISTS apps(name TEXT PRIMARY KEY, cid TEXT, version INTEGER, deployed_at INTEGER);\n",
    );
    reveal_strlit("INSERT INTO apps(name, cid, version, deployed_at) VALUES (");
    let b =
        "CREATE TABLE IF NOT EXISTS apps(name TEXT PRIMARY KEY, cid TEXT, version INTEGER, deployed_at INTEGER);\n"@;
    assert(b + "INSERT INTO apps(name, cid, version, deployed_at) VALUES ("@
        =~= "CREATE TABLE IF NOT EXISTS apps(name TEXT PRIMARY KEY, cid TEXT, version INTEGER, deployed_at INTEGER);\nINSERT INTO apps(name, cid, version, deployed_at) VALUES ("@);
    let tail =
        ")\nON CONFLICT(name) DO UPDATE SET cid = excluded.cid, version = excluded.version, deployed_at = excluded.deployed_at;"@;
    assert((b + "INSERT INTO apps(name, cid, version, deployed_at) VALUES ("@ + text_literal(name@)
        + ", "@ + text_literal(cid@) + ", "@ + decimal(version as nat) + ", "@ + decimal(
        now as nat,
    ) + tail) == apps@);
}

} // verus!
