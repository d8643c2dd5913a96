//! A short-lived memory of names resolved over the network.

use crate::bytes::same32;
use crate::parse::same_text;
use vstd::prelude::*;
use vstd::string::*;

verus! {

/// How long a resolved name is remembered, in milliseconds.
pub const RESOLVE_CACHE_TTL_MS: u64 = 3_000;

/// What a name stands for: content and version.
pub type Head = ([u8; 32], u64);

/// A remembered name.
#[derive(Debug)]
pub struct CacheRow {
    pub rtype: u8,
    pub owner: [u8; 32],
    pub name: String,
    pub head: Head,
    pub expiry: u64,
}

/// What a row is looked up by.
#[verifier::ext_equal]
pub struct NameKey {
    pub rtype: u8,
    pub owner: [u8; 32],
    pub name: Seq<char>,
}

impl CacheRow {
    /// What the row is looked up by.
    pub open spec fn key(self) -> NameKey {
        NameKey { rtype: self.rtype, owner: self.owner, name: self.name@ }
    }
}

/// The memory.
#[derive(Debug)]
pub struct ResolveCache {
    rows: Vec<CacheRow>,
}

/// What rows remember of a key, and until when: the last row decides.
pub open spec fn remembered(rows: Seq<CacheRow>, key: NameKey) -> Option<(Head, u64)>
    decreases rows.len(),
{
    if rows.len() == 0 {
        None
    } else if rows.last().key() == key {
        Some((rows.last().head, rows.last().expiry))
    } else {
        remembered(rows.drop_last(), key)
    }
}

/// What a memory is worth at `now`: nothing once it has expired.
pub open spec fn fresh(memory: Option<(Head, u64)>, now: u64) -> Option<Head> {
    match memory {
        Some((head, expiry)) => if expiry > now {
            Some(head)
        } else {
            None
        },
        None => None,
    }
}

/// What was remembered at `now` is served until three seconds later, and not from then on.
pub proof fn law_memory_expires(head: Head, now: u64, later: u64)
    requires
        now + RESOLVE_CACHE_TTL_MS <= u64::MAX,
    ensures
        fresh(Some((head, (now + RESOLVE_CACHE_TTL_MS) as u64)), later) == (if later < now
            + RESOLVE_CACHE_TTL_MS {
            Some(head)
        } else {
            None
        }),
{
}

impl ResolveCache {
    /// What is remembered of a key, and until when.
    pub closed spec fn holds(&self, key: NameKey) -> Option<(Head, u64)> {
        remembered(self.rows@, key)
    }

    /// An empty memory.
    pub fn new() -> (cache: ResolveCache)
        ensures
            forall|key: NameKey| #[trigger] cache.holds(key) is None,
    {
        ResolveCache { rows: Vec::new() }
    }

    fn matches_row(row: &CacheRow, rtype: u8, owner: &[u8; 32], name: &str) -> (same: bool)
        ensures
            same == (row.key() == NameKey { rtype, owner: *owner, name: name@ }),
    {
        let same = row.rtype == rtype && same32(&row.owner, owner) && same_text(
            row.name.as_str(),
            name,
        );
        proof {
            let key = NameKey { rtype, owner: *owner, name: name@ };
            if same {
                assert(row.key() =~= key);
            }
        }
        same
    }

    /// What the key was last resolved to, while that is fresh at `now`.
    pub fn get(&self, rtype: u8, owner: &[u8; 32], name: &str, now: u64) -> (head: Option<Head>)
        ensures
            head == fresh(self.holds(NameKey { rtype, owner: *owner, name: name@ }), now),
    {
        let ghost key = NameKey { rtype, owner: *owner, name: name@ };
        let mut i: usize = self.rows.len();
        assert(self.rows@.take(i as int) =~= self.rows@);
        while i > 0
            invariant
                i <= self.rows@.len(),
                key == (NameKey { rtype, owner: *owner, name: name@ }),
                remembered(self.rows@, key) == remembered(self.rows@.take(i as int), key),
            decreases i,
        {
            let row = &self.rows[i - 1];
            proof {
                let t = self.rows@.take(i as int);
                assert(t.last() == *row);
                assert(t.drop_last() =~= self.rows@.take(i - 1));
            }
            if Self::matches_row(row, rtype, owner, name) {
                return if row.expiry > now {
                    Some(row.head)
                } else {
                    None
                };
            }
            i = i - 1;
        }
        None
    }

    /// Forgets the key.
    pub fn invalidate(&mut self, rtype: u8, owner: &[u8; 32], name: &str)
        ensures
            final(self).holds(NameKey { rtype, owner: *owner, name: name@ }) is None,
            forall|key: NameKey| #[trigger]
                final(self).holds(key) == (if key == (NameKey { rtype, owner: *owner, name: name@ }) {
                    None
                } else {
                    old(self).holds(key)
                }),
    {
        let ghost gone = NameKey { rtype, owner: *owner, name: name@ };
        let mut kept: Vec<CacheRow> = Vec::new();
        let mut rows: Vec<CacheRow> = Vec::new();
        std::mem::swap(&mut rows, &mut self.rows);
        let ghost all = rows@;
        let ghost mut done: int = 0;
        assert(all.take(0) =~= Seq::<CacheRow>::empty());
        for row in it: rows
            invariant
                it.seq() == all,
                done == it.index(),
                gone == (NameKey { rtype, owner: *owner, name: name@ }),
                forall|key: NameKey| #[trigger]
                    remembered(kept@, key) == (if key == gone {
                        None
                    } else {
                        remembered(all.take(done), key)
                    }),
        {
            let ghost before = kept@;
            let drop = Self::matches_row(&row, rtype, owner, name);
            proof {
                let next = all.take(done + 1);
                assert(next.drop_last() =~= all.take(done));
                assert(next.last() == row);
            }
            if !drop {
                kept.push(row);
                assert(kept@.drop_last() =~= before);
            }
            proof {
                let next = all.take(done + 1);
                assert forall|key: NameKey| #[trigger] remembered(kept@, key) == (if key == gone {
                    None
                } else {
                    remembered(next, key)
                }) by {
                    assert(remembered(before, key) == (if key == gone {
                        None
                    } else {
                        remembered(all.take(done), key)
                    }));
                }
                done = done + 1;
            }
        }
        assert(all.take(done) =~= all);
        self.rows = kept;
    }

    /// Remembers what the key was resolved to at `now`.
    pub fn put(&mut self, rtype: u8, owner: [u8; 32], name: &str, head: Head, now: u64)
        requires
            now + RESOLVE_CACHE_TTL_MS <= u64::MAX,
        ensures
            final(self).holds(NameKey { rtype, owner, name: name@ }) == Some(
                (head, (now + RESOLVE_CACHE_TTL_MS) as u64),
            ),
            forall|key: NameKey| #[trigger]
                final(self).holds(key) == (if key == (NameKey { rtype, owner, name: name@ }) {
                    Some((head, (now + RESOLVE_CACHE_TTL_MS) as u64))
                } else {
                    old(self).holds(key)
                }),
    {
        self.invalidate(rtype, &owner, name);
        let ghost cleared = *self;
        let ghost before = self.rows@;
        self.rows.push(
            CacheRow {
                rtype,
                owner,
                name: String::from_str(name),
                head,
                expiry: now + RESOLVE_CACHE_TTL_MS,
            },
        );
        proof {
            let key0 = NameKey { rtype, owner, name: name@ };
            assert(self.rows@.last().key() =~= key0);
            assert(self.rows@.drop_last() =~= before);
            assert forall|key: NameKey| #[trigger] self.holds(key) == (if key == key0 {
                Some((head, (now + RESOLVE_CACHE_TTL_MS) as u64))
            } else {
                old(self).holds(key)
            }) by {
                assert(cleared.holds(key) == remembered(before, key));
            }
        }
    }
}

/// What was remembered of a name last is what is known of it, for three seconds; other names are
/// not touched by it.
pub proof fn law_the_last_memory_counts(rows: Seq<CacheRow>, row: CacheRow, key: NameKey, now: u64)
    requires
        now + 3_000 <= u64::MAX,
    ensures
        remembered(Seq::empty(), key) is None,
        row.key() == key ==> remembered(rows.push(row), key) == Some((row.head, row.expiry)),
        row.key() != key ==> remembered(rows.push(row), key) == remembered(rows, key),
        row.key().rtype == row.rtype,
        row.key().owner == row.owner,
        row.key().name == row.name@,
        fresh(None, now) is None,
        fresh(Some((row.head, row.expiry)), now) is Some <==> now < row.expiry,
        now + RESOLVE_CACHE_TTL_MS == now + 3_000,
{
    assert(rows.push(row).drop_last() =~= rows);
}

/// What calls on the cache come to: what was put is found under its type, owner and name for three
/// seconds, and not after; what is invalidated is not found at all; and other names are found as
/// before.
pub proof fn law_what_is_put_is_found(
    cache: &mut ResolveCache,
    cleared: &mut ResolveCache,
    rtype: u8,
    owner: [u8; 32],
    name: &str,
    head: Head,
    at: u64,
    now: u64,
    found: Option<Head>,
    gone: Option<Head>,
    other: NameKey,
)
    requires
        at + 3_000 <= u64::MAX,
        call_ensures(ResolveCache::put, (cache, rtype, owner, name, head, at), ()),
        call_ensures(ResolveCache::get, (final(cache), rtype, &owner, name, now), found),
        call_ensures(ResolveCache::invalidate, (cleared, rtype, &owner, name), ()),
        call_ensures(ResolveCache::get, (final(cleared), rtype, &owner, name, now), gone),
        other != (NameKey { rtype, owner, name: name@ }),
    ensures
        now < at + 3_000 ==> found == Some(head),
        now >= at + 3_000 ==> found is None,
        gone is None,
        final(cache).holds(other) == old(cache).holds(other),
        final(cleared).holds(other) == old(cleared).holds(other),
{
    let key = NameKey { rtype, owner, name: name@ };
    assert(final(cache).holds(key) == Some((head, (at + RESOLVE_CACHE_TTL_MS) as u64)));
    assert(final(cleared).holds(key) is None);
}

} // verus!
