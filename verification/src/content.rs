//! The content that the user has chosen, as against what the node hosts for others.

use crate::idset::lists;
use vstd::prelude::*;

verus! {

/// What is longer than this is no manifest, and is not read for a name.
pub const MAX_MANIFEST_BYTES: u64 = 65_536;

/// How many names are fetched over the network in one pass.
pub const MAX_NAME_FETCHES: u32 = 4;

/// What the local store says of content.
#[derive(Debug)]
pub struct LocalContent {
    /// All content of which something is held.
    pub held: Vec<[u8; 32]>,
    pub pinned: Vec<[u8; 32]>,
    pub wanted: Vec<[u8; 32]>,
    pub banned: Vec<[u8; 32]>,
    /// What belongs to the node itself: programs, databases.
    pub system: Vec<[u8; 32]>,
}

impl LocalContent {
    /// The user has chosen the content: wanted or banned it, or pinned what is held.
    pub open spec fn chosen(&self, cid: [u8; 32]) -> bool {
        &&& !self.system@.contains(cid)
        &&& self.wanted@.contains(cid) || self.banned@.contains(cid) || (self.held@.contains(cid)
            && self.pinned@.contains(cid))
    }

    /// The content is held for the network alone.
    pub open spec fn hosted(&self, cid: [u8; 32]) -> bool {
        &&& !self.system@.contains(cid)
        &&& !self.pinned@.contains(cid)
        &&& !self.wanted@.contains(cid)
        &&& !self.banned@.contains(cid)
    }
}

/// How many of `cids` are held for the network alone.
pub open spec fn hosted_count(store: LocalContent, cids: Seq<[u8; 32]>) -> nat
    decreases cids.len(),
{
    if cids.len() == 0 {
        0
    } else {
        hosted_count(store, cids.drop_last()) + (if store.hosted(cids.last()) {
            1nat
        } else {
            0
        })
    }
}

fn add_once(out: &mut Vec<[u8; 32]>, cid: [u8; 32], system: &Vec<[u8; 32]>)
    requires
        old(out)@.no_duplicates(),
    ensures
        final(out)@.no_duplicates(),
        forall|x: [u8; 32]| #[trigger]
            final(out)@.contains(x) <==> old(out)@.contains(x) || (x == cid && !system@.contains(
                cid,
            )),
{
    if lists(system.as_slice(), &cid) || lists(out.as_slice(), &cid) {
        return ;
    }
    let ghost before = out@;
    out.push(cid);
    proof {
        assert forall|x: [u8; 32]| #[trigger] out@.contains(x) <==> before.contains(x) || x
            == cid by {
            if before.contains(x) {
                let p = choose|p: int| 0 <= p < before.len() && before[p] == x;
                assert(out@[p] == x);
            }
            assert(out@[before.len() as int] == cid);
            if out@.contains(x) && x != cid {
                let p = choose|p: int| 0 <= p < out@.len() && out@[p] == x;
                assert(before[p] == x);
            }
        }
    }
}

fn add_list(out: &mut Vec<[u8; 32]>, list: &Vec<[u8; 32]>, system: &Vec<[u8; 32]>)
    requires
        old(out)@.no_duplicates(),
    ensures
        final(out)@.no_duplicates(),
        forall|x: [u8; 32]| #[trigger]
            final(out)@.contains(x) <==> old(out)@.contains(x) || (list@.contains(x)
                && !system@.contains(x)),
{
    let mut i: usize = 0;
    let ghost start = out@;
    while i < list.len()
        invariant
            i <= list@.len(),
            start == old(out)@,
            out@.no_duplicates(),
            forall|x: [u8; 32]| #[trigger]
                out@.contains(x) <==> start.contains(x) || (list@.take(i as int).contains(x)
                    && !system@.contains(x)),
        decreases list@.len() - i,
    {
        let ghost before = out@;
        add_once(out, list[i], system);
        proof {
            let done = list@.take(i as int);
            let next = list@.take(i + 1);
            let cid = list@[i as int];
            assert forall|x: [u8; 32]| #[trigger] out@.contains(x) <==> start.contains(x) || (
            next.contains(x) && !system@.contains(x)) by {
                assert(before.contains(x) <==> start.contains(x) || (done.contains(x)
                    && !system@.contains(x)));
                assert(next =~= done.push(cid));
                assert(next[i as int] == cid);
                if done.contains(x) {
                    let p = choose|p: int| 0 <= p < done.len() && done[p] == x;
                    assert(next[p] == x);
                }
                if next.contains(x) && x != cid {
                    let p = choose|p: int| 0 <= p < next.len() && next[p] == x;
                    assert(done[p] == x);
                }
            }
        }
        i = i + 1;
    }
    assert(list@.take(i as int) =~= list@);
}

impl LocalContent {
    fn held_pinned(&self) -> (both: Vec<[u8; 32]>)
        ensures
            forall|x: [u8; 32]| #[trigger]
                both@.contains(x) <==> self.held@.contains(x) && self.pinned@.contains(x),
    {
        let mut both: Vec<[u8; 32]> = Vec::new();
        let mut i: usize = 0;
        while i < self.held.len()
            invariant
                i <= self.held@.len(),
                forall|x: [u8; 32]| #[trigger]
                    both@.contains(x) <==> self.held@.take(i as int).contains(x)
                        && self.pinned@.contains(x),
            decreases self.held@.len() - i,
        {
            let ghost before = both@;
            let cid = self.held[i];
            let ghost done = self.held@.take(i as int);
            let ghost next = self.held@.take(i + 1);
            if lists(self.pinned.as_slice(), &cid) {
                both.push(cid);
                assert(both@[before.len() as int] == cid);
            }
            proof {
                assert(next =~= done.push(cid));
                assert(next[i as int] == cid);
                assert forall|x: [u8; 32]| #[trigger] both@.contains(x) <==> next.contains(x)
                    && self.pinned@.contains(x) by {
                    assert(before.contains(x) <==> done.contains(x) && self.pinned@.contains(x));
                    if done.contains(x) {
                        let p = choose|p: int| 0 <= p < done.len() && done[p] == x;
                        assert(next[p] == x);
                    }
                    if next.contains(x) && x != cid {
                        let p = choose|p: int| 0 <= p < next.len() && next[p] == x;
                        assert(done[p] == x);
                    }
                    if before.contains(x) {
                        let p = choose|p: int| 0 <= p < before.len() && before[p] == x;
                        assert(both@[p] == x);
                    }
                    if both@.contains(x) && x != cid {
                        let p = choose|p: int| 0 <= p < both@.len() && both@[p] == x;
                        assert(before[p] == x);
                    }
                }
            }
            i = i + 1;
        }
        assert(self.held@.take(i as int) =~= self.held@);
        both
    }

    /// The content that the user has chosen, each once.
    pub fn curated(&self) -> (cids: Vec<[u8; 32]>)
        ensures
            cids@.no_duplicates(),
            forall|x: [u8; 32]| #[trigger] cids@.contains(x) <==> self.chosen(x),
    {
        let mut out: Vec<[u8; 32]> = Vec::new();
        let both = self.held_pinned();
        add_list(&mut out, &self.wanted, &self.system);
        add_list(&mut out, &self.banned, &self.system);
        add_list(&mut out, &both, &self.system);
        out
    }

    /// How much content is held for the network alone.
    pub fn hosting(&self) -> (n: u64)
        requires
            self.held@.len() <= u64::MAX,
        ensures
            n == hosted_count(*self, self.held@),
    {
        let mut n: u64 = 0;
        let mut i: usize = 0;
        assert(self.held@.take(0) =~= Seq::<[u8; 32]>::empty());
        while i < self.held.len()
            invariant
                i <= self.held@.len(),
                self.held@.len() <= u64::MAX,
                n <= i,
                n == hosted_count(*self, self.held@.take(i as int)),
            decreases self.held@.len() - i,
        {
            proof {
                let next = self.held@.take(i + 1);
                assert(next.drop_last() =~= self.held@.take(i as int));
                assert(next.last() == self.held@[i as int]);
            }
            let cid = self.held[i];
            if !lists(self.system.as_slice(), &cid) && !lists(self.pinned.as_slice(), &cid)
                && !lists(self.wanted.as_slice(), &cid) && !lists(self.banned.as_slice(), &cid) {
                n = n + 1;
            }
            i = i + 1;
        }
        assert(self.held@.take(i as int) =~= self.held@);
        n
    }

    /// The chosen content without what is a part of other chosen content. What is banned
    /// always stays, so that the ban can be taken back.
    pub fn listed(&self, curated: &Vec<[u8; 32]>, referenced: &Vec<[u8; 32]>) -> (cids: Vec<
        [u8; 32],
    >)
        ensures
            cids@ == curated@.filter(
                |x: [u8; 32]| self.banned@.contains(x) || !referenced@.contains(x),
            ),
    {
        let mut out: Vec<[u8; 32]> = Vec::new();
        let ghost keep = |x: [u8; 32]| self.banned@.contains(x) || !referenced@.contains(x);
        let mut i: usize = 0;
        assert(curated@.take(0) =~= Seq::<[u8; 32]>::empty());
        proof {
            reveal(Seq::filter);
        }
        while i < curated.len()
            invariant
                i <= curated@.len(),
                keep == (|x: [u8; 32]| self.banned@.contains(x) || !referenced@.contains(x)),
                out@ == curated@.take(i as int).filter(keep),
            decreases curated@.len() - i,
        {
            proof {
                reveal(Seq::filter);
                let next = curated@.take(i + 1);
                assert(next.drop_last() =~= curated@.take(i as int));
                assert(next.last() == curated@[i as int]);
            }
            let cid = curated[i];
            if lists(self.banned.as_slice(), &cid) || !lists(referenced.as_slice(), &cid) {
                out.push(cid);
            }
            i = i + 1;
        }
        assert(curated@.take(i as int) =~= curated@);
        out
    }
}

/// Held content that is not the node's own is either shown to the user or counted as hosted,
/// never both.
pub proof fn law_content_is_shown_or_counted(store: LocalContent, cid: [u8; 32])
    requires
        store.held@.contains(cid),
        !store.system@.contains(cid),
    ensures
        store.chosen(cid) != store.hosted(cid),
{
}

/// A ban never drops out of the list, whatever refers to the banned content.
pub proof fn law_bans_stay_listed(
    store: LocalContent,
    curated: Seq<[u8; 32]>,
    referenced: Seq<[u8; 32]>,
    cid: [u8; 32],
)
    requires
        forall|x: [u8; 32]| #[trigger] curated.contains(x) <==> store.chosen(x),
        store.banned@.contains(cid),
        !store.system@.contains(cid),
    ensures
        curated.filter(
            |x: [u8; 32]| store.banned@.contains(x) || !referenced.contains(x),
        ).contains(cid),
{
    broadcast use vstd::seq_lib::group_filter_ensures;

    let keep = |x: [u8; 32]| store.banned@.contains(x) || !referenced.contains(x);
    assert(curated.contains(cid));
    let i = choose|i: int| 0 <= i < curated.len() && curated[i] == cid;
    assert(keep(curated[i]));
    assert(curated.filter(keep).contains(curated[i]));
}

/// Where the name of content comes from.
#[derive(Clone, Copy, Debug, PartialEq, Eq, Structural)]
pub enum NameStep {
    /// The content is too long to be a manifest, or its name is known.
    Skip,
    /// The manifest was read from local pieces.
    Local,
    /// The manifest is fetched over the network.
    Fetch,
    /// Enough was fetched in this pass.
    Later,
}

/// Decides where the name of content comes from. `total_len` is its length, where known, and
/// `fetches` how many names this pass has fetched.
pub fn name_step(total_len: Option<u64>, cached: bool, decoded: bool, fetches: u32) -> (step:
    NameStep)
    ensures
        step == (if cached || (total_len is Some && total_len->0 > MAX_MANIFEST_BYTES) {
            NameStep::Skip
        } else if decoded {
            NameStep::Local
        } else if fetches < MAX_NAME_FETCHES {
            NameStep::Fetch
        } else {
            NameStep::Later
        }),
{
    let big = match total_len {
        Some(n) => n > MAX_MANIFEST_BYTES,
        None => false,
    };
    if cached || big {
        NameStep::Skip
    } else if decoded {
        NameStep::Local
    } else if fetches < MAX_NAME_FETCHES {
        NameStep::Fetch
    } else {
        NameStep::Later
    }
}

/// What is listed of local content: what was banned or wanted, and what is both held and pinned;
/// of the system's own content nothing.
pub proof fn law_choices_are_listed(store: LocalContent, cid: [u8; 32])
    ensures
        store.system@.contains(cid) ==> !store.chosen(cid) && !store.hosted(cid),
        !store.system@.contains(cid) && store.banned@.contains(cid) ==> store.chosen(cid),
        !store.system@.contains(cid) && store.wanted@.contains(cid) ==> store.chosen(cid),
        !store.system@.contains(cid) && store.held@.contains(cid) && store.pinned@.contains(cid)
            ==> store.chosen(cid),
        store.chosen(cid) && !store.held@.contains(cid) ==> store.banned@.contains(cid)
            || store.wanted@.contains(cid),
        store.chosen(cid) && !store.pinned@.contains(cid) ==> store.banned@.contains(cid)
            || store.wanted@.contains(cid),
        store.hosted(cid) ==> !store.pinned@.contains(cid) && !store.wanted@.contains(cid)
            && !store.banned@.contains(cid),
{
}

/// What is hosted for others is counted one by one.
pub proof fn law_hosted_content_is_counted(
    store: LocalContent,
    cids: Seq<[u8; 32]>,
    cid: [u8; 32],
)
    ensures
        hosted_count(store, Seq::empty()) == 0,
        store.system@.contains(cid) || store.pinned@.contains(cid) || store.wanted@.contains(cid)
            || store.banned@.contains(cid) ==> hosted_count(store, cids.push(cid)) == hosted_count(
            store,
            cids,
        ),
        !store.system@.contains(cid) && !store.pinned@.contains(cid) && !store.wanted@.contains(cid)
            && !store.banned@.contains(cid) ==> hosted_count(store, cids.push(cid))
            == hosted_count(store, cids) + 1,
{
    assert(cids.push(cid).drop_last() =~= cids);
}

/// Where a name comes from: nowhere for what is longer than 64 kibibytes or known already, from
/// local pieces where they tell it, and over the network for four of them in a pass.
pub proof fn law_names_come_from_near_first(
    total_len: Option<u64>,
    cached: bool,
    decoded: bool,
    fetches: u32,
    step: NameStep,
)
    requires
        call_ensures(name_step, (total_len, cached, decoded, fetches), step),
    ensures
        step == NameStep::Skip <==> cached || (total_len is Some && total_len->0 > 64 * 1024),
        step == NameStep::Local ==> decoded,
        step == NameStep::Fetch ==> !decoded && fetches < 4,
        step == NameStep::Later ==> !decoded && fetches >= 4,
        !cached && total_len is None && decoded ==> step == NameStep::Local,
{
}

/// What calls of the store list: what the user chose, once each, and of it what was banned or what
/// nothing else refers to.
pub proof fn law_listings_leave_out_what_is_referenced(
    store: LocalContent,
    curated: Vec<[u8; 32]>,
    referenced: Vec<[u8; 32]>,
    cids: Vec<[u8; 32]>,
    cid: [u8; 32],
)
    requires
        call_ensures(LocalContent::curated, (&store,), curated),
        call_ensures(LocalContent::listed, (&store, &curated, &referenced), cids),
    ensures
        curated@.no_duplicates(),
        curated@.contains(cid) <==> !store.system@.contains(cid) && (store.banned@.contains(cid)
            || store.wanted@.contains(cid) || (store.pinned@.contains(cid) && store.held@.contains(
            cid,
        ))),
        cids@.contains(cid) <==> curated@.contains(cid) && (store.banned@.contains(cid)
            || !referenced@.contains(cid)),
{
    let keep = |x: [u8; 32]| store.banned@.contains(x) || !referenced@.contains(x);
    assert(curated@.contains(cid) <==> store.chosen(cid));
    assert(cids@ == curated@.filter(keep));
    if cids@.contains(cid) {
        curated@.lemma_filter_contains_rev(keep, cid);
        let i = choose|i: int| 0 <= i < cids@.len() && cids@[i] == cid;
        curated@.lemma_filter_pred(keep, i);
    }
    if curated@.contains(cid) && keep(cid) {
        let i = choose|i: int| 0 <= i < curated@.len() && curated@[i] == cid;
        curated@.lemma_filter_contains(keep, i);
    }
}

} // verus!
