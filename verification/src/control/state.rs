//! The figures that the node keeps for its status page.

use crate::anchor::{AnchorResolution, ECONOMY_EGRESS_ANCHOR, TOKEN_ANCHOR};
use crate::control::params::{node_of, parse_node_id};
use crate::control::report::{copy_content, copy_peers, AnchorRow, ContentInfo, Economy, EventStats,
    PeerStatus, Reciprocity};
use crate::economy_egress::MyView;
use crate::headreg::settle::passed;
use crate::parse::same_text;
use crate::text::{hex_encode, hex_text};
use vstd::prelude::*;
use vstd::string::*;

verus! {

/// How many events the feed keeps.
pub const FEED_LEN: usize = 40;

/// How many events a subscriber may fall behind.
pub const EVENT_CAPACITY: usize = 256;

/// What the health scan has found and done.
#[derive(Clone, Copy, Debug, PartialEq, Eq, Structural)]
pub struct Health {
    pub scanned: usize,
    pub at_risk: usize,
    pub repaired: u64,
    pub distributed: u64,
    pub scaled: u64,
    pub degraded: u64,
    pub fading: u64,
    pub offloaded: u64,
    pub surplus: usize,
}

/// What the store holds.
#[derive(Clone, Copy, Debug, PartialEq, Eq, Structural)]
pub struct Storage {
    pub cids: u64,
    pub pieces: u64,
    pub pinned: u64,
    pub bytes: u64,
}

/// The results of one pass of the health scan.
#[derive(Clone, Copy, Debug)]
pub struct ScanResult {
    pub scanned: usize,
    pub at_risk: usize,
    pub repaired: u64,
    pub degraded: u64,
    pub fading: usize,
    pub offloaded: u64,
    pub surplus: usize,
}

/// The number of events of a tag.
pub open spec fn count_in(rows: Seq<(String, u64)>, tag: Seq<char>) -> nat
    decreases rows.len(),
{
    if rows.len() == 0 {
        0
    } else {
        count_in(rows.drop_last(), tag) + (if rows.last().0@ == tag {
            rows.last().1 as nat
        } else {
            0
        })
    }
}

/// The number of all events.
pub open spec fn count_all(rows: Seq<(String, u64)>) -> nat
    decreases rows.len(),
{
    if rows.len() == 0 {
        0
    } else {
        count_all(rows.drop_last()) + rows.last().1 as nat
    }
}

/// No tag stands in two rows.
pub open spec fn tags_once(rows: Seq<(String, u64)>) -> bool {
    forall|i: int, j: int|
        0 <= i < rows.len() && 0 <= j < rows.len() && i != j ==> (#[trigger] rows[i]).0@ != (
        #[trigger] rows[j]).0@
}

proof fn lemma_count_update(rows: Seq<(String, u64)>, i: int, row: (String, u64))
    requires
        0 <= i < rows.len(),
        row.0@ == rows[i].0@,
    ensures
        count_all(rows.update(i, row)) == count_all(rows) - rows[i].1 + row.1,
        forall|tag: Seq<char>| #[trigger]
            count_in(rows.update(i, row), tag) == count_in(rows, tag) + (if tag == rows[i].0@ {
                row.1 - rows[i].1
            } else {
                0
            }),
    decreases rows.len(),
{
    let new = rows.update(i, row);
    let front = rows.drop_last();
    if i < rows.len() - 1 {
        lemma_count_update(front, i, row);
        assert(new.drop_last() =~= front.update(i, row));
        assert(new.last() == rows.last());
    } else {
        assert(new.drop_last() =~= front);
    }
    assert forall|tag: Seq<char>| #[trigger] count_in(new, tag) == count_in(rows, tag) + (if tag
        == rows[i].0@ {
        row.1 - rows[i].1
    } else {
        0
    }) by {
        if i < rows.len() - 1 {
            assert(count_in(front.update(i, row), tag) == count_in(front, tag) + (if tag
                == front[i].0@ {
                row.1 - front[i].1
            } else {
                0
            }));
        }
    }
}

proof fn lemma_row_bounded(rows: Seq<(String, u64)>, i: int)
    requires
        0 <= i < rows.len(),
    ensures
        rows[i].1 <= count_all(rows),
    decreases rows.len(),
{
    if i < rows.len() - 1 {
        lemma_row_bounded(rows.drop_last(), i);
    }
}

/// The numbers of events, by tag.
#[derive(Debug)]
pub struct EventCounts {
    rows: Vec<(String, u64)>,
}

impl EventCounts {
    /// Each tag stands in one row, and the total is a number.
    pub closed spec fn wf(&self) -> bool {
        tags_once(self.rows@) && count_all(self.rows@) <= u64::MAX
    }

    /// The number of events of a tag.
    pub closed spec fn count(&self, tag: Seq<char>) -> nat {
        count_in(self.rows@, tag)
    }

    /// The number of all events.
    pub closed spec fn sum(&self) -> nat {
        count_all(self.rows@)
    }

    /// No events.
    pub fn new() -> (c: EventCounts)
        ensures
            c.wf(),
            c.sum() == 0,
            forall|tag: Seq<char>| #[trigger] c.count(tag) == 0,
    {
        EventCounts { rows: Vec::new() }
    }

    /// Counts an event.
    pub fn count_event(&mut self, tag: &str)
        requires
            old(self).wf(),
            old(self).sum() < u64::MAX,
        ensures
            final(self).wf(),
            final(self).sum() == old(self).sum() + 1,
            forall|t: Seq<char>| #[trigger]
                final(self).count(t) == old(self).count(t) + (if t == tag@ {
                    1int
                } else {
                    0
                }),
    {
        let ghost before = self.rows@;
        let mut i: usize = 0;
        while i < self.rows.len()
            invariant
                i <= self.rows@.len(),
                self.rows@ == before,
                tags_once(before),
                count_all(before) < u64::MAX,
                forall|j: int| 0 <= j < i ==> (#[trigger] before[j]).0@ != tag@,
                *old(self) == *self,
            decreases self.rows@.len() - i,
        {
            if same_text(self.rows[i].0.as_str(), tag) {
                let n: u64 = self.rows[i].1;
                let name = self.rows[i].0.clone();
                proof {
                    lemma_row_bounded(before, i as int);
                    lemma_count_update(before, i as int, (name, (n + 1) as u64));
                }
                let ghost row = (name, (n + 1) as u64);
                self.rows.set(i, (name, n + 1));
                proof {
                    let after = self.rows@;
                    assert(after =~= before.update(i as int, row));
                    assert forall|a: int, b: int|
                        0 <= a < after.len() && 0 <= b < after.len() && a != b implies (
                    #[trigger] after[a]).0@ != (#[trigger] after[b]).0@ by {
                        assert(after[a].0@ == before[a].0@ && after[b].0@ == before[b].0@);
                    }
                }
                return ;
            }
            i = i + 1;
        }
        self.rows.push((String::from_str(tag), 1));
        proof {
            let after = self.rows@;
            assert(after.drop_last() =~= before);
            assert forall|a: int, b: int|
                0 <= a < after.len() && 0 <= b < after.len() && a != b implies (
            #[trigger] after[a]).0@ != (#[trigger] after[b]).0@ by {
                if a < before.len() {
                    assert(after[a] == before[a]);
                }
                if b < before.len() {
                    assert(after[b] == before[b]);
                }
            }
        }
    }

    /// What is reported of the events.
    pub fn stats(&self, subscribers: usize) -> (s: EventStats)
        requires
            self.wf(),
        ensures
            s.total == self.sum(),
            tags_once(s.by_tag@),
            forall|tag: Seq<char>| #[trigger] count_in(s.by_tag@, tag) == self.count(tag),
            s.subscribers == subscribers,
            s.capacity == EVENT_CAPACITY,
    {
        let mut by_tag: Vec<(String, u64)> = Vec::new();
        let mut total: u64 = 0;
        let mut i: usize = 0;
        assert(self.rows@.take(0) =~= Seq::<(String, u64)>::empty());
        while i < self.rows.len()
            invariant
                i <= self.rows@.len(),
                self.wf(),
                by_tag@ == self.rows@.take(i as int),
                total == count_all(self.rows@.take(i as int)),
            decreases self.rows@.len() - i,
        {
            proof {
                let next = self.rows@.take(i + 1);
                assert(next.drop_last() =~= self.rows@.take(i as int));
                assert(next.last() == self.rows@[i as int]);
                lemma_count_prefix(self.rows@, i + 1);
            }
            let (tag, n) = (self.rows[i].0.clone(), self.rows[i].1);
            by_tag.push((tag, n));
            total = total + n;
            i = i + 1;
            assert(by_tag@ =~= self.rows@.take(i as int));
        }
        assert(self.rows@.take(i as int) =~= self.rows@);
        EventStats { total, by_tag, subscribers, capacity: EVENT_CAPACITY }
    }
}

proof fn lemma_count_prefix(rows: Seq<(String, u64)>, i: int)
    requires
        0 <= i <= rows.len(),
    ensures
        count_all(rows.take(i)) <= count_all(rows),
    decreases rows.len(),
{
    if i == rows.len() {
        assert(rows.take(i) =~= rows);
    } else {
        lemma_count_prefix(rows.drop_last(), i);
        assert(rows.drop_last().take(i) =~= rows.take(i));
    }
}

/// The last `n` of a list.
pub open spec fn last_of(s: Seq<Seq<char>>, n: int) -> Seq<Seq<char>> {
    if s.len() <= n {
        s
    } else {
        s.skip(s.len() - n)
    }
}

/// The views of texts.
pub open spec fn texts(v: Seq<String>) -> Seq<Seq<char>> {
    v.map_values(|s: String| s@)
}

/// Whether a table shows the peer as live.
pub open spec fn is_live(rows: Seq<PeerStatus>, id: Seq<char>) -> bool {
    exists|i: int| 0 <= i < rows.len() && (#[trigger] rows[i]).alive && rows[i].id@ == id
}

/// The peer is live in one table and in no row of another, and its name is an identity.
pub open spec fn came(now: Seq<PeerStatus>, before: Seq<PeerStatus>, name: Seq<char>) -> bool {
    is_live(now, name) && !is_live(before, name) && node_of(name) is Some
}

/// `names` are the peers that came, each once.
pub open spec fn names_arrivals(
    now: Seq<PeerStatus>,
    before: Seq<PeerStatus>,
    names: Seq<Seq<char>>,
) -> bool {
    names.no_duplicates() && forall|name: Seq<char>| #[trigger]
        names.contains(name) <==> came(now, before, name)
}

/// `ids` are the identities of the peers that came, one for each of them.
pub open spec fn are_arrivals(
    now: Seq<PeerStatus>,
    before: Seq<PeerStatus>,
    ids: Seq<[u8; 32]>,
) -> bool {
    exists|names: Seq<Seq<char>>| #[trigger]
        names_arrivals(now, before, names) && ids.len() == names.len() && forall|k: int|
            0 <= k < ids.len() ==> node_of(names[k]) == Some((#[trigger] ids[k])@)
}

/// Whether one of the first `n` rows shows the peer as live.
fn live_among(rows: &Vec<PeerStatus>, n: usize, id: &str) -> (yes: bool)
    requires
        n <= rows@.len(),
    ensures
        yes == is_live(rows@.take(n as int), id@),
{
    let mut i: usize = 0;
    while i < n
        invariant
            i <= n <= rows@.len(),
            forall|j: int| 0 <= j < i ==> !((#[trigger] rows@[j]).alive && rows@[j].id@ == id@),
        decreases n - i,
    {
        if rows[i].alive && same_text(rows[i].id.as_str(), id) {
            assert(rows@.take(n as int)[i as int].alive);
            return true;
        }
        i = i + 1;
    }
    false
}

/// The identities of the peers that are live in one table and in no row of another.
fn newly_live(now: &Vec<PeerStatus>, before: &Vec<PeerStatus>) -> (ids: Vec<[u8; 32]>)
    ensures
        are_arrivals(now@, before@, ids@),
{
    let mut ids: Vec<[u8; 32]> = Vec::new();
    let ghost mut names: Seq<Seq<char>> = Seq::empty();
    let mut i: usize = 0;
    while i < now.len()
        invariant
            i <= now@.len(),
            names_arrivals(now@.take(i as int), before@, names),
            ids@.len() == names.len(),
            forall|k: int| 0 <= k < ids@.len() ==> node_of(names[k]) == Some((#[trigger] ids@[k])@),
        decreases now@.len() - i,
    {
        let ghost done = now@.take(i as int);
        let ghost next = now@.take(i + 1);
        let ghost here = now@[i as int];
        let ghost was = names;
        proof {
            assert(before@.take(before@.len() as int) =~= before@);
            assert forall|name: Seq<char>| #[trigger] is_live(next, name) <==> is_live(done, name) || (
            here.alive && here.id@ == name) by {
                if is_live(done, name) {
                    let j = choose|j: int|
                        0 <= j < done.len() && (#[trigger] done[j]).alive && done[j].id@ == name;
                    assert(next[j] == done[j]);
                }
                if here.alive && here.id@ == name {
                    assert(next[i as int] == here);
                }
                if is_live(next, name) {
                    let j = choose|j: int|
                        0 <= j < next.len() && (#[trigger] next[j]).alive && next[j].id@ == name;
                    if j < i {
                        assert(done[j] == next[j]);
                    }
                }
            }
        }
        if now[i].alive && !live_among(before, before.len(), now[i].id.as_str()) && !live_among(
            now,
            i,
            now[i].id.as_str(),
        ) {
            if let Some(n) = parse_node_id(now[i].id.as_str()) {
                ids.push(n);
                proof {
                    names = names.push(here.id@);
                    assert(!was.contains(here.id@));
                    assert forall|a: int, b: int|
                        0 <= a < names.len() && 0 <= b < names.len() && a != b implies names[a]
                        != names[b] by {
                        if a < was.len() && b < was.len() {
                            assert(was[a] != was[b]);
                        } else if a < was.len() {
                            assert(was.contains(was[a]));
                        } else if b < was.len() {
                            assert(was.contains(was[b]));
                        }
                    }
                }
            }
        }
        proof {
            assert forall|name: Seq<char>| #[trigger] names.contains(name) <==> came(
                next,
                before@,
                name,
            ) by {
                assert(is_live(next, name) <==> is_live(done, name) || (here.alive && here.id@
                    == name));
                assert(was.contains(name) <==> came(done, before@, name));
                if was.contains(name) {
                    let k = choose|k: int| 0 <= k < was.len() && was[k] == name;
                    assert(names[k] == name);
                }
                if names.contains(name) && !was.contains(name) {
                    let k = choose|k: int| 0 <= k < names.len() && names[k] == name;
                    assert(k == was.len());
                }
                if names.len() > was.len() {
                    assert(names[was.len() as int] == here.id@);
                }
            }
        }
        i = i + 1;
    }
    assert(now@.take(i as int) =~= now@);
    ids
}

/// What the node reports of itself.
#[derive(Debug)]
pub struct Status {
    pub node_id: String,
    pub boot_stage: String,
    pub reach: String,
    pub relays: String,
    pub listen: String,
    pub uptime_secs: u64,
    pub passive_peers: u32,
    pub census: u32,
    pub storage: Storage,
    pub providing: u64,
    pub hosting_cids: u64,
    pub content: Vec<ContentInfo>,
    pub health: Health,
    pub tag_streams: Vec<(String, u64)>,
    pub scan_queue: usize,
    pub scan_due: usize,
    pub peers: Vec<PeerStatus>,
    /// Newest first.
    pub recent_events: Vec<String>,
    pub event_stats: EventStats,
    pub economy: Economy,
}

/// The names of the kinds of streams, by their numbers.
pub open spec fn stream_names() -> Seq<(int, Seq<char>)> {
    seq![
        (1int, "ping"@),
        (2int, "member"@),
        (3int, "piece"@),
        (4int, "sqlpage"@),
        (5int, "invoke"@),
        (6int, "registry"@),
        (7int, "dht"@),
        (8int, "board"@),
        (9int, "sign_solicit"@),
        (10int, "cheque"@),
    ]
}

/// The named kinds of streams that there were any of, with their numbers.
pub open spec fn seen_streams(names: Seq<(int, Seq<char>)>, counts: Seq<u64>) -> Seq<
    (Seq<char>, u64),
>
    decreases names.len(),
{
    if names.len() == 0 {
        Seq::empty()
    } else {
        let front = seen_streams(names.drop_last(), counts);
        let (i, name) = names.last();
        if counts[i] > 0 {
            front.push((name, counts[i]))
        } else {
            front
        }
    }
}

/// Rows of names and numbers as values.
pub open spec fn row_values(rows: Seq<(String, u64)>) -> Seq<(Seq<char>, u64)> {
    rows.map_values(|r: (String, u64)| (r.0@, r.1))
}

fn push_stream(out: &mut Vec<(String, u64)>, name: &str, n: u64)
    ensures
        row_values(final(out)@) == (if n > 0 {
            row_values(old(out)@).push((name@, n))
        } else {
            row_values(old(out)@)
        }),
{
    if n > 0 {
        out.push((String::from_str(name), n));
        assert(row_values(out@) =~= row_values(old(out)@).push((name@, n)));
    }
}

/// The named kinds of streams that there were any of. `counts` has one number for each kind.
pub fn tag_streams(counts: &[u64]) -> (rows: Vec<(String, u64)>)
    requires
        counts@.len() > 10,
    ensures
        row_values(rows@) == seen_streams(stream_names(), counts@),
{
    let mut rows: Vec<(String, u64)> = Vec::new();
    assert(row_values(rows@) =~= Seq::<(Seq<char>, u64)>::empty());
    push_stream(&mut rows, "ping", counts[1]);
    push_stream(&mut rows, "member", counts[2]);
    push_stream(&mut rows, "piece", counts[3]);
    push_stream(&mut rows, "sqlpage", counts[4]);
    push_stream(&mut rows, "invoke", counts[5]);
    push_stream(&mut rows, "registry", counts[6]);
    push_stream(&mut rows, "dht", counts[7]);
    push_stream(&mut rows, "board", counts[8]);
    push_stream(&mut rows, "sign_solicit", counts[9]);
    push_stream(&mut rows, "cheque", counts[10]);
    proof {
        reveal_with_fuel(seen_streams, 11);
        let n = stream_names();
        assert(n.drop_last() =~= n.take(9));
        assert(n.take(9).drop_last() =~= n.take(8));
        assert(n.take(8).drop_last() =~= n.take(7));
        assert(n.take(7).drop_last() =~= n.take(6));
        assert(n.take(6).drop_last() =~= n.take(5));
        assert(n.take(5).drop_last() =~= n.take(4));
        assert(n.take(4).drop_last() =~= n.take(3));
        assert(n.take(3).drop_last() =~= n.take(2));
        assert(n.take(2).drop_last() =~= n.take(1));
        assert(n.take(1).drop_last() =~= n.take(0));
    }
    rows
}

/// The rows of the anchors that are pinned.
pub open spec fn anchor_shown(row: AnchorRow, name: Seq<char>, res: AnchorResolution) -> bool {
    row.name@ == name && row.cid@ == hex_text(res.cid@) && row.interface_version
        == res.interface_version
}

fn anchor_row(name: &str, res: &AnchorResolution) -> (row: AnchorRow)
    ensures
        anchor_shown(row, name@, *res),
{
    AnchorRow {
        name: String::from_str(name),
        cid: hex_encode(res.cid.as_slice()),
        interface_version: res.interface_version as i64,
    }
}

/// The rows of the two anchors, as far as they are pinned: the value program first.
pub fn anchor_rows(token: &Option<AnchorResolution>, egress: &Option<AnchorResolution>) -> (rows: Vec<
    AnchorRow,
>)
    ensures
        match (*token, *egress) {
            (Some(t), Some(e)) => rows@.len() == 2 && anchor_shown(rows@[0], TOKEN_ANCHOR@, t)
                && anchor_shown(rows@[1], ECONOMY_EGRESS_ANCHOR@, e),
            (Some(t), None) => rows@.len() == 1 && anchor_shown(rows@[0], TOKEN_ANCHOR@, t),
            (None, Some(e)) => rows@.len() == 1 && anchor_shown(
                rows@[0],
                ECONOMY_EGRESS_ANCHOR@,
                e,
            ),
            (None, None) => rows@.len() == 0,
        },
{
    let mut rows: Vec<AnchorRow> = Vec::new();
    if let Some(t) = token {
        rows.push(anchor_row(TOKEN_ANCHOR, t));
    }
    if let Some(e) = egress {
        rows.push(anchor_row(ECONOMY_EGRESS_ANCHOR, e));
    }
    rows
}

/// The economy as the node reports it, out of what the parts of the node say.
pub fn derive_economy(
    balance: u64,
    my: MyView,
    pool_total: u64,
    total_supply: u64,
    verification: (u64, u64),
    reciprocity: Reciprocity,
    anchors: Vec<AnchorRow>,
) -> (e: Economy)
    ensures
        e == (Economy {
            balance,
            reward_owed: my.owed,
            reward_settled: my.settled_bytes,
            pool: my.pool,
            pool_total,
            total_supply,
            subscription_bytes: my.subscription_bytes,
            verified: verification.0,
            mismatched: verification.1,
            reciprocity: Some(reciprocity),
            anchors,
        }),
{
    Economy {
        balance,
        reward_owed: my.owed,
        reward_settled: my.settled_bytes,
        pool: my.pool,
        pool_total,
        total_supply,
        subscription_bytes: my.subscription_bytes,
        verified: verification.0,
        mismatched: verification.1,
        reciprocity: Some(reciprocity),
        anchors,
    }
}

/// The figures of the node.
#[derive(Debug)]
pub struct State {
    pub node_id: String,
    pub boot_stage: String,
    pub reach: String,
    pub relays: String,
    pub listen: String,
    pub started_ms: u64,
    pub peers: Vec<PeerStatus>,
    pub passive_peers: u32,
    pub census: u32,
    pub storage: Storage,
    pub providing: u64,
    pub hosting_cids: u64,
    pub content: Vec<ContentInfo>,
    pub health: Health,
    pub scan_queue: usize,
    pub scan_due: usize,
    /// Oldest first.
    pub recent_events: Vec<String>,
    pub event_counts: EventCounts,
    /// What was last derived of the economy.
    pub economy: Option<Economy>,
}

/// What a change of the peer table amounts to.
#[derive(Debug)]
pub struct PeerChange {
    pub connected: Vec<[u8; 32]>,
    pub disconnected: Vec<[u8; 32]>,
}

impl State {
    /// The counts of events are well formed, and the feed is no longer than it may be.
    pub open spec fn wf(&self) -> bool {
        self.event_counts.wf() && self.recent_events@.len() <= FEED_LEN
    }

    /// The figures of a node that starts at `now`.
    pub fn new(node_id: String, reach: String, relays: String, listen: String, now: u64) -> (s:
        State)
        ensures
            s.wf(),
            s.node_id == node_id,
            s.reach == reach,
            s.relays == relays,
            s.listen == listen,
            s.boot_stage@ == "booting"@,
            s.started_ms == now,
            s.peers@.len() == 0,
            s.passive_peers == 0,
            s.census == 0,
            s.storage == (Storage { cids: 0, pieces: 0, pinned: 0, bytes: 0 }),
            s.providing == 0,
            s.hosting_cids == 0,
            s.content@.len() == 0,
            s.health == (Health {
                scanned: 0,
                at_risk: 0,
                repaired: 0,
                distributed: 0,
                scaled: 0,
                degraded: 0,
                fading: 0,
                offloaded: 0,
                surplus: 0,
            }),
            s.scan_queue == 0,
            s.scan_due == 0,
            s.recent_events@.len() == 0,
            s.event_counts.sum() == 0,
            s.economy is None,
    {
        State {
            node_id,
            boot_stage: String::from_str("booting"),
            reach,
            relays,
            listen,
            started_ms: now,
            peers: Vec::new(),
            passive_peers: 0,
            census: 0,
            storage: Storage { cids: 0, pieces: 0, pinned: 0, bytes: 0 },
            providing: 0,
            hosting_cids: 0,
            content: Vec::new(),
            health: Health {
                scanned: 0,
                at_risk: 0,
                repaired: 0,
                distributed: 0,
                scaled: 0,
                degraded: 0,
                fading: 0,
                offloaded: 0,
                surplus: 0,
            },
            scan_queue: 0,
            scan_due: 0,
            recent_events: Vec::new(),
            event_counts: EventCounts::new(),
            economy: None,
        }
    }

    /// Notes how far the node has come in starting.
    pub fn set_boot_stage(&mut self, stage: &str)
        ensures
            final(self).boot_stage@ == stage@,
            *final(self) == (State { boot_stage: final(self).boot_stage, ..*old(self) }),
    {
        self.boot_stage = String::from_str(stage);
    }

    /// Adds an event to the feed, which keeps the last forty.
    pub fn push_event(&mut self, desc: String)
        requires
            old(self).wf(),
        ensures
            final(self).wf(),
            texts(final(self).recent_events@) == last_of(
                texts(old(self).recent_events@).push(desc@),
                FEED_LEN as int,
            ),
            *final(self) == (State { recent_events: final(self).recent_events, ..*old(self) }),
    {
        let ghost before = self.recent_events@;
        let ghost d = desc;
        self.recent_events.push(desc);
        if self.recent_events.len() > FEED_LEN {
            let _ = self.recent_events.remove(0);
        }
        proof {
            assert(texts(before.push(d)) =~= texts(before).push(d@));
            assert(texts(self.recent_events@) =~= last_of(
                texts(before).push(d@),
                FEED_LEN as int,
            ));
        }
    }

    /// Adds an event to the feed and counts it.
    pub fn record_event(&mut self, desc: String, tag: &str)
        requires
            old(self).wf(),
            old(self).event_counts.sum() < u64::MAX,
        ensures
            final(self).wf(),
            texts(final(self).recent_events@) == last_of(
                texts(old(self).recent_events@).push(desc@),
                FEED_LEN as int,
            ),
            final(self).event_counts.sum() == old(self).event_counts.sum() + 1,
            forall|t: Seq<char>| #[trigger]
                final(self).event_counts.count(t) == old(self).event_counts.count(t) + (if t
                    == tag@ {
                    1int
                } else {
                    0
                }),
            *final(self) == (State {
                recent_events: final(self).recent_events,
                event_counts: final(self).event_counts,
                ..*old(self)
            }),
    {
        self.push_event(desc);
        self.event_counts.count_event(tag);
    }

    /// Notes what the store holds.
    pub fn set_storage(&mut self, storage: Storage)
        ensures
            *final(self) == (State { storage, ..*old(self) }),
    {
        self.storage = storage;
    }

    /// Notes how many contents this node provides.
    pub fn set_providing(&mut self, n: u64)
        ensures
            *final(self) == (State { providing: n, ..*old(self) }),
    {
        self.providing = n;
    }

    /// Notes the list of content.
    pub fn set_content(&mut self, content: Vec<ContentInfo>)
        ensures
            *final(self) == (State { content, ..*old(self) }),
    {
        self.content = content;
    }

    /// Notes the results of a pass of the health scan: what was found replaces what was found
    /// before, what was done adds up.
    pub fn set_scan(&mut self, r: ScanResult)
        requires
            old(self).health.repaired + r.repaired <= u64::MAX,
            old(self).health.degraded + r.degraded <= u64::MAX,
            old(self).health.offloaded + r.offloaded <= u64::MAX,
        ensures
            *final(self) == (State {
                health: Health {
                    scanned: r.scanned,
                    at_risk: r.at_risk,
                    repaired: (old(self).health.repaired + r.repaired) as u64,
                    distributed: old(self).health.distributed,
                    scaled: old(self).health.scaled,
                    degraded: (old(self).health.degraded + r.degraded) as u64,
                    fading: r.fading as u64,
                    offloaded: (old(self).health.offloaded + r.offloaded) as u64,
                    surplus: r.surplus,
                },
                ..*old(self)
            }),
    {
        let h = self.health;
        self.health = Health {
            scanned: r.scanned,
            at_risk: r.at_risk,
            repaired: h.repaired + r.repaired,
            distributed: h.distributed,
            scaled: h.scaled,
            degraded: h.degraded + r.degraded,
            fading: r.fading as u64,
            offloaded: h.offloaded + r.offloaded,
            surplus: r.surplus,
        };
    }

    /// Notes repairs that were done outside a pass of the scan.
    pub fn add_repaired(&mut self, n: u64)
        requires
            old(self).health.repaired + n <= u64::MAX,
        ensures
            *final(self) == (State {
                health: Health {
                    repaired: (old(self).health.repaired + n) as u64,
                    ..old(self).health
                },
                ..*old(self)
            }),
    {
        self.health = Health { repaired: self.health.repaired + n, ..self.health };
    }

    /// Notes how many contents wait to be scanned, and how many of them are due.
    pub fn set_scan_queue(&mut self, total: usize, due: usize)
        ensures
            *final(self) == (State { scan_queue: total, scan_due: due, ..*old(self) }),
    {
        self.scan_queue = total;
        self.scan_due = due;
    }

    /// Notes pieces that were moved and pieces that were made.
    pub fn set_flow(&mut self, moved: u64, scaled: u64)
        requires
            old(self).health.distributed + moved <= u64::MAX,
            old(self).health.scaled + scaled <= u64::MAX,
        ensures
            *final(self) == (State {
                health: Health {
                    distributed: (old(self).health.distributed + moved) as u64,
                    scaled: (old(self).health.scaled + scaled) as u64,
                    ..old(self).health
                },
                ..*old(self)
            }),
    {
        self.health = Health {
            distributed: self.health.distributed + moved,
            scaled: self.health.scaled + scaled,
            ..self.health
        };
    }

    /// Replaces the peer table, and says who came and who went, each once: a peer that is live
    /// now and was not has come, one that was and is not has gone.
    pub fn set_peers(&mut self, peers: Vec<PeerStatus>, passive: u32, census: u32) -> (change:
        PeerChange)
        ensures
            *final(self) == (State { peers, passive_peers: passive, census, ..*old(self) }),
            are_arrivals(peers@, old(self).peers@, change.connected@),
            are_arrivals(old(self).peers@, peers@, change.disconnected@),
    {
        let connected = newly_live(&peers, &self.peers);
        let disconnected = newly_live(&self.peers, &peers);
        self.peers = peers;
        self.passive_peers = passive;
        self.census = census;
        PeerChange { connected, disconnected }
    }

    /// What the node reports of itself at `now`. The economy is as it was last derived, and
    /// blank before that.
    pub fn snapshot(&self, now: u64, counts: &[u64], subscribers: usize) -> (s: Status)
        requires
            self.wf(),
            counts@.len() > 10,
        ensures
            s.node_id@ == self.node_id@,
            s.boot_stage@ == self.boot_stage@,
            s.reach@ == self.reach@,
            s.relays@ == self.relays@,
            s.listen@ == self.listen@,
            s.uptime_secs == passed(now, self.started_ms) / 1000,
            s.passive_peers == self.passive_peers,
            s.census == self.census,
            s.storage == self.storage,
            s.providing == self.providing,
            s.hosting_cids == self.hosting_cids,
            s.content@ == self.content@,
            s.health == self.health,
            row_values(s.tag_streams@) == seen_streams(stream_names(), counts@),
            s.scan_queue == self.scan_queue,
            s.scan_due == self.scan_due,
            s.peers@ == self.peers@,
            texts(s.recent_events@) == texts(self.recent_events@).reverse(),
            s.event_stats.total == self.event_counts.sum(),
            tags_once(s.event_stats.by_tag@),
            forall|tag: Seq<char>| #[trigger]
                count_in(s.event_stats.by_tag@, tag) == self.event_counts.count(tag),
            s.event_stats.subscribers == subscribers,
            s.event_stats.capacity == EVENT_CAPACITY,
            match self.economy {
                Some(e) => s.economy.same_as(e),
                None => s.economy.balance == 0 && s.economy.reward_owed == 0
                    && s.economy.reward_settled == 0 && s.economy.pool == 0
                    && s.economy.pool_total == 0 && s.economy.total_supply == 0
                    && s.economy.subscription_bytes == 0 && s.economy.verified == 0
                    && s.economy.mismatched == 0 && s.economy.reciprocity is None
                    && s.economy.anchors@.len() == 0,
            },
    {
        let mut recent_events: Vec<String> = Vec::new();
        let mut i: usize = self.recent_events.len();
        let ghost all = texts(self.recent_events@);
        assert(texts(recent_events@) =~= all.skip(all.len() as int).reverse());
        while i > 0
            invariant
                i <= self.recent_events@.len(),
                all == texts(self.recent_events@),
                texts(recent_events@) == all.skip(i as int).reverse(),
            decreases i,
        {
            let ghost before = texts(recent_events@);
            let e = self.recent_events[i - 1].clone();
            recent_events.push(e);
            i = i - 1;
            assert(texts(recent_events@) =~= before.push(all[i as int]));
            assert(texts(recent_events@) =~= all.skip(i as int).reverse());
        }
        assert(all.skip(0) =~= all);
        let economy = match &self.economy {
            Some(e) => e.clone(),
            None => Economy::default(),
        };
        Status {
            node_id: self.node_id.clone(),
            boot_stage: self.boot_stage.clone(),
            reach: self.reach.clone(),
            relays: self.relays.clone(),
            listen: self.listen.clone(),
            uptime_secs: now.saturating_sub(self.started_ms) / 1000,
            passive_peers: self.passive_peers,
            census: self.census,
            storage: self.storage,
            providing: self.providing,
            hosting_cids: self.hosting_cids,
            content: copy_content(&self.content),
            health: self.health,
            tag_streams: tag_streams(counts),
            scan_queue: self.scan_queue,
            scan_due: self.scan_due,
            peers: copy_peers(&self.peers),
            recent_events,
            event_stats: self.event_counts.stats(subscribers),
            economy,
        }
    }
}

/// The storage that the public figures show as free.
pub fn storage_available(capacity: u64, used: u64) -> (free: u64)
    ensures
        free == (if capacity >= used {
            (capacity - used) as u64
        } else {
            0
        }),
{
    capacity.saturating_sub(used)
}

/// Events are counted under their tag, and all together.
pub proof fn law_events_are_counted_by_tag(rows: Seq<(String, u64)>, row: (String, u64), tag: Seq<char>)
    ensures
        count_in(Seq::empty(), tag) == 0,
        count_all(Seq::empty()) == 0,
        row.0@ == tag ==> count_in(rows.push(row), tag) == count_in(rows, tag) + row.1,
        row.0@ != tag ==> count_in(rows.push(row), tag) == count_in(rows, tag),
        count_all(rows.push(row)) == count_all(rows) + row.1,
{
    assert(rows.push(row).drop_last() =~= rows);
}

/// The feed keeps the last entries, forty at most, in order.
pub proof fn law_the_feed_keeps_the_last(s: Seq<Seq<char>>, n: int, i: int)
    requires
        n >= 0,
        0 <= i < last_of(s, n).len(),
    ensures
        s.len() <= n ==> last_of(s, n).len() == s.len(),
        s.len() > n ==> last_of(s, n).len() == n,
        last_of(s, n)[i] == s[s.len() - last_of(s, n).len() + i],
        FEED_LEN == 40,
{
}

/// Who arrives answers now and did not before, and every such node whose identity can be read
/// arrives, once.
pub proof fn law_arrivals_were_not_there_before(
    now: Seq<PeerStatus>,
    before: Seq<PeerStatus>,
    ids: Seq<[u8; 32]>,
    k: int,
    i: int,
)
    requires
        are_arrivals(now, before, ids),
    ensures
        0 <= k < ids.len() ==> exists|j: int|
            0 <= j < now.len() && (#[trigger] now[j]).alive && node_of(now[j].id@) == Some(ids[k]@),
        0 <= i < now.len() && now[i].alive && node_of(now[i].id@) is Some && (forall|j: int|
            0 <= j < before.len() && (#[trigger] before[j]).alive ==> before[j].id@ != now[i].id@)
            ==> exists|m: int|
            0 <= m < ids.len() && Some((#[trigger] ids[m])@) == node_of(now[i].id@),
{
    let names = choose|names: Seq<Seq<char>>| #[trigger]
        names_arrivals(now, before, names) && ids.len() == names.len() && forall|k: int|
            0 <= k < ids.len() ==> node_of(names[k]) == Some((#[trigger] ids[k])@);
    if 0 <= k < ids.len() {
        assert(node_of(names[k]) == Some(ids[k]@));
        assert(names.contains(names[k]));
        assert(came(now, before, names[k]));
        let j = choose|j: int|
            0 <= j < now.len() && (#[trigger] now[j]).alive && now[j].id@ == names[k];
        assert(now[j].alive);
    }
    if 0 <= i < now.len() && now[i].alive && node_of(now[i].id@) is Some && (forall|j: int|
        0 <= j < before.len() && (#[trigger] before[j]).alive ==> before[j].id@ != now[i].id@) {
        assert(is_live(now, now[i].id@));
        assert(!is_live(before, now[i].id@));
        assert(came(now, before, now[i].id@));
        assert(names.contains(now[i].id@));
        let m = choose|m: int| 0 <= m < names.len() && names[m] == now[i].id@;
        assert(Some(ids[m]@) == node_of(names[m]));
    }
}

/// A kind of stream is shown exactly where there was one, with its count; each has its own number.
pub proof fn law_streams_that_were_seen_are_shown(
    names: Seq<(int, Seq<char>)>,
    at: int,
    name: Seq<char>,
    counts: Seq<u64>,
)
    ensures
        seen_streams(Seq::empty(), counts).len() == 0,
        counts[at] > 0 ==> seen_streams(names.push((at, name)), counts) == seen_streams(
            names,
            counts,
        ).push((name, counts[at])),
        counts[at] == 0 ==> seen_streams(names.push((at, name)), counts) == seen_streams(
            names,
            counts,
        ),
        stream_names().len() == 10,
        forall|i: int| 0 <= i < 10 ==> (#[trigger] stream_names()[i]).0 == i + 1,
{
    assert(names.push((at, name)).drop_last() =~= names);
}

/// What calls on the state come to: a look at the peers tells who came and who went since the last
/// one, and keeps the table; nothing else changes.
pub proof fn law_peers_come_and_go(
    s: &mut State,
    peers: Vec<PeerStatus>,
    passive: u32,
    census: u32,
    change: PeerChange,
    k: int,
)
    requires
        call_ensures(State::set_peers, (s, peers, passive, census), change),
    ensures
        final(s).peers == peers,
        final(s).passive_peers == passive,
        final(s).census == census,
        final(s).health == old(s).health,
        final(s).content == old(s).content,
        0 <= k < change.connected@.len() ==> exists|j: int|
            0 <= j < peers@.len() && (#[trigger] peers@[j]).alive && node_of(peers@[j].id@) == Some(
                change.connected@[k]@,
            ),
        0 <= k < change.disconnected@.len() ==> exists|j: int|
            0 <= j < old(s).peers@.len() && (#[trigger] old(s).peers@[j]).alive && node_of(
                old(s).peers@[j].id@,
            ) == Some(change.disconnected@[k]@),
{
    law_arrivals_were_not_there_before(peers@, old(s).peers@, change.connected@, k, 0);
    law_arrivals_were_not_there_before(old(s).peers@, peers@, change.disconnected@, k, 0);
}

/// What scans report: counts of the last scan replace those before, and what was done adds up.
pub proof fn law_repairs_add_up(s: &mut State, r: ScanResult)
    requires
        call_ensures(State::set_scan, (s, r), ()),
        old(s).health.repaired + r.repaired <= u64::MAX,
        old(s).health.degraded + r.degraded <= u64::MAX,
        old(s).health.offloaded + r.offloaded <= u64::MAX,
    ensures
        final(s).health.scanned == r.scanned,
        final(s).health.at_risk == r.at_risk,
        final(s).health.fading == r.fading,
        final(s).health.surplus == r.surplus,
        final(s).health.repaired == old(s).health.repaired + r.repaired,
        final(s).health.degraded == old(s).health.degraded + r.degraded,
        final(s).health.offloaded == old(s).health.offloaded + r.offloaded,
        final(s).health.distributed == old(s).health.distributed,
        final(s).health.scaled == old(s).health.scaled,
        final(s).peers == old(s).peers,
{
}

/// Storage that is free is what is left of the capacity, and none where more is used.
pub proof fn law_free_storage_is_what_is_left(capacity: u64, used: u64, free: u64)
    requires
        call_ensures(storage_available, (capacity, used), free),
    ensures
        used <= capacity ==> free + used == capacity,
        used >= capacity ==> free == 0,
{
}

/// What is shown of the economy is what was derived, each figure in its place.
pub proof fn law_the_economy_is_shown_as_derived(
    balance: u64,
    my: MyView,
    pool_total: u64,
    total_supply: u64,
    verification: (u64, u64),
    reciprocity: Reciprocity,
    anchors: Vec<AnchorRow>,
    e: Economy,
)
    requires
        call_ensures(
            derive_economy,
            (balance, my, pool_total, total_supply, verification, reciprocity, anchors),
            e,
        ),
    ensures
        e.balance == balance,
        e.reward_owed == my.owed,
        e.reward_settled == my.settled_bytes,
        e.subscription_bytes == my.subscription_bytes,
        e.pool == my.pool,
        e.pool_total == pool_total,
        e.total_supply == total_supply,
        e.verified == verification.0,
        e.mismatched == verification.1,
        e.reciprocity == Some(reciprocity),
        e.anchors == anchors,
{
}

/// An event is the last entry of the feed, and counted once, under its own tag.
pub proof fn law_events_are_fed_and_counted(s: &mut State, desc: String, tag: &str, other: Seq<char>)
    requires
        old(s).wf(),
        old(s).event_counts.sum() < u64::MAX,
        call_ensures(State::record_event, (s, desc, tag), ()),
        other != tag@,
    ensures
        final(s).recent_events@.len() > 0,
        final(s).recent_events@.last()@ == desc@,
        final(s).recent_events@.len() <= 40,
        final(s).event_counts.sum() == old(s).event_counts.sum() + 1,
        final(s).event_counts.count(tag@) == old(s).event_counts.count(tag@) + 1,
        final(s).event_counts.count(other) == old(s).event_counts.count(other),
        final(s).peers == old(s).peers,
{
    let all = texts(old(s).recent_events@).push(desc@);
    let feed = texts(final(s).recent_events@);
    assert(feed == last_of(all, 40));
    assert(feed.len() == final(s).recent_events@.len());
    assert(feed.last() == all.last());
    assert(feed[feed.len() - 1] == final(s).recent_events@[feed.len() - 1]@);
}

/// What was moved and repaired adds up, each figure by itself.
pub proof fn law_flows_add_up(s: &mut State, moved: u64, scaled: u64, r: &mut State, n: u64)
    requires
        old(s).health.distributed + moved <= u64::MAX,
        old(s).health.scaled + scaled <= u64::MAX,
        old(r).health.repaired + n <= u64::MAX,
        call_ensures(State::set_flow, (s, moved, scaled), ()),
        call_ensures(State::add_repaired, (r, n), ()),
    ensures
        final(s).health.distributed == old(s).health.distributed + moved,
        final(s).health.scaled == old(s).health.scaled + scaled,
        final(s).health.repaired == old(s).health.repaired,
        final(r).health.repaired == old(r).health.repaired + n,
        final(r).health.distributed == old(r).health.distributed,
        final(r).health.scanned == old(r).health.scanned,
{
}

} // verus!
