//! What the node reports of itself.

use vstd::prelude::*;

verus! {

/// One row of the peer table.
#[derive(Debug)]
pub struct PeerStatus {
    pub id: String,
    pub addrs: String,
    pub alive: bool,
    pub rtt_us: Option<u64>,
    pub skew_ms: Option<u64>,
    pub last_seen_unix: Option<u64>,
    pub consecutive_failures: u32,
}

impl Clone for PeerStatus {
    fn clone(&self) -> (copy: PeerStatus)
        ensures
            copy == *self,
    {
        PeerStatus {
            id: self.id.clone(),
            addrs: self.addrs.clone(),
            alive: self.alive,
            rtt_us: self.rtt_us,
            skew_ms: self.skew_ms,
            last_seen_unix: self.last_seen_unix,
            consecutive_failures: self.consecutive_failures,
        }
    }
}

/// One row of the content list: network counts and this node's relation to it.
#[derive(Debug)]
pub struct ContentInfo {
    pub cid: String,
    pub providers: usize,
    pub pinned: usize,
    /// Sum of what providers say they hold.
    pub pieces: usize,
    pub wants: usize,
    /// Pieces needed to decode; zero where this node holds none.
    pub k: usize,
    /// Durability floor; zero where this node holds none.
    pub floor: usize,
    pub local_pieces: usize,
    pub local_pinned: bool,
    pub local_wanted: bool,
    /// This node refuses to host the content.
    pub local_tombstoned: bool,
    /// File or folder name, where the content decodes as a manifest.
    pub name: Option<String>,
    pub size: u64,
    pub is_dir: bool,
    pub mime: Option<String>,
    pub published_at: Option<u64>,
    pub publisher: Option<String>,
    pub comment: Option<String>,
}

fn copy_text(text: &Option<String>) -> (copy: Option<String>)
    ensures
        copy == *text,
{
    match text {
        Some(t) => Some(t.clone()),
        None => None,
    }
}

impl Clone for ContentInfo {
    fn clone(&self) -> (copy: ContentInfo)
        ensures
            copy == *self,
    {
        ContentInfo {
            cid: self.cid.clone(),
            providers: self.providers,
            pinned: self.pinned,
            pieces: self.pieces,
            wants: self.wants,
            k: self.k,
            floor: self.floor,
            local_pieces: self.local_pieces,
            local_pinned: self.local_pinned,
            local_wanted: self.local_wanted,
            local_tombstoned: self.local_tombstoned,
            name: copy_text(&self.name),
            size: self.size,
            is_dir: self.is_dir,
            mime: copy_text(&self.mime),
            published_at: self.published_at,
            publisher: copy_text(&self.publisher),
            comment: copy_text(&self.comment),
        }
    }
}

/// Event-bus activity.
#[derive(Debug)]
pub struct EventStats {
    pub total: u64,
    /// Count per event tag, each tag once.
    pub by_tag: Vec<(String, u64)>,
    pub subscribers: usize,
    pub capacity: usize,
}

/// One pinned program anchor.
#[derive(Debug)]
pub struct AnchorRow {
    pub name: String,
    pub cid: String,
    pub interface_version: i64,
}

impl Clone for AnchorRow {
    fn clone(&self) -> (copy: AnchorRow)
        ensures
            copy == *self,
    {
        AnchorRow {
            name: self.name.clone(),
            cid: self.cid.clone(),
            interface_version: self.interface_version,
        }
    }
}

/// What a node has served and fetched.
#[derive(Clone, Copy, Debug, PartialEq, Eq, Structural)]
pub struct Reciprocity {
    pub earned: u64,
    pub consumed: u64,
}

/// The economy as one node sees it.
#[derive(Debug)]
pub struct Economy {
    pub balance: u64,
    /// Earned by serving and not claimed.
    pub reward_owed: u64,
    /// Served bytes that count for rewards.
    pub reward_settled: u64,
    /// What of the pool is not owed to anyone.
    pub pool: u64,
    /// All that the pool holds.
    pub pool_total: u64,
    /// Every token there is.
    pub total_supply: u64,
    /// Bytes that this node may still fetch.
    pub subscription_bytes: u64,
    /// Epochs whose record this node found to be right.
    pub verified: u64,
    /// Epochs whose record it found to be wrong.
    pub mismatched: u64,
    pub reciprocity: Option<Reciprocity>,
    pub anchors: Vec<AnchorRow>,
}

impl Default for Economy {
    fn default() -> (e: Economy)
        ensures
            e.balance == 0,
            e.reward_owed == 0,
            e.reward_settled == 0,
            e.pool == 0,
            e.pool_total == 0,
            e.total_supply == 0,
            e.subscription_bytes == 0,
            e.verified == 0,
            e.mismatched == 0,
            e.reciprocity is None,
            e.anchors@ == Seq::<AnchorRow>::empty(),
    {
        Economy {
            balance: 0,
            reward_owed: 0,
            reward_settled: 0,
            pool: 0,
            pool_total: 0,
            total_supply: 0,
            subscription_bytes: 0,
            verified: 0,
            mismatched: 0,
            reciprocity: None,
            anchors: Vec::new(),
        }
    }
}

/// A copy of a list of rows.
pub fn copy_anchors(rows: &Vec<AnchorRow>) -> (copy: Vec<AnchorRow>)
    ensures
        copy@ == rows@,
{
    let mut copy: Vec<AnchorRow> = Vec::new();
    let mut i: usize = 0;
    while i < rows.len()
        invariant
            i <= rows@.len(),
            copy@ == rows@.take(i as int),
        decreases rows@.len() - i,
    {
        copy.push(rows[i].clone());
        i = i + 1;
        assert(copy@ =~= rows@.take(i as int));
    }
    assert(copy@ =~= rows@);
    copy
}

/// A copy of the peer table.
pub fn copy_peers(rows: &Vec<PeerStatus>) -> (copy: Vec<PeerStatus>)
    ensures
        copy@ == rows@,
{
    let mut copy: Vec<PeerStatus> = Vec::new();
    let mut i: usize = 0;
    while i < rows.len()
        invariant
            i <= rows@.len(),
            copy@ == rows@.take(i as int),
        decreases rows@.len() - i,
    {
        copy.push(rows[i].clone());
        i = i + 1;
        assert(copy@ =~= rows@.take(i as int));
    }
    assert(copy@ =~= rows@);
    copy
}

/// A copy of the content list.
pub fn copy_content(rows: &Vec<ContentInfo>) -> (copy: Vec<ContentInfo>)
    ensures
        copy@ == rows@,
{
    let mut copy: Vec<ContentInfo> = Vec::new();
    let mut i: usize = 0;
    while i < rows.len()
        invariant
            i <= rows@.len(),
            copy@ == rows@.take(i as int),
        decreases rows@.len() - i,
    {
        copy.push(rows[i].clone());
        i = i + 1;
        assert(copy@ =~= rows@.take(i as int));
    }
    assert(copy@ =~= rows@);
    copy
}

impl Economy {
    /// Whether two views say the same.
    pub open spec fn same_as(self, other: Economy) -> bool {
        &&& self.anchors@ == other.anchors@
        &&& self == (Economy { anchors: self.anchors, ..other })
    }
}

impl Clone for Economy {
    fn clone(&self) -> (copy: Economy)
        ensures
            copy.same_as(*self),
    {
        Economy {
            balance: self.balance,
            reward_owed: self.reward_owed,
            reward_settled: self.reward_settled,
            pool: self.pool,
            pool_total: self.pool_total,
            total_supply: self.total_supply,
            subscription_bytes: self.subscription_bytes,
            verified: self.verified,
            mismatched: self.mismatched,
            reciprocity: self.reciprocity,
            anchors: copy_anchors(&self.anchors),
        }
    }
}

} // verus!
