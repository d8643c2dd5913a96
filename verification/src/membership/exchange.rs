//! Exchanges that the node starts: joining, asking for links, syncing member sets,
//! gossiping news, and mixing backups.

use crate::bytes::{same32, NodeId};
use crate::membership::gossip::{counted_down, lists_links, sample, sampled};
use crate::membership::handler::{
    farewell, is_census_hash, is_member_set, linked, readable, reports_taken, samples, Action,
    Message,
};
use crate::membership::lifecycle::pruned;
use crate::membership::member::{entry_of, MemberEntry, PeerAddr};
use crate::membership::node::{offered, reasserted, Membership, EPIDEMIC_FANOUT};
use crate::membership::overlay::{clone_addrs, Overlay};
use crate::random::{choose_one, random_ratio};
use vstd::prelude::*;

verus! {

/// `a` is where a link of `o` leads.
pub open spec fn is_link(o: Overlay, a: PeerAddr) -> bool {
    exists|id: NodeId| #[trigger] o.active.contains_key(id) && o.active[id].addr == a
}

/// `delta` is the news of `o`: the queued members in wire form, each once.
pub open spec fn is_news(o: Overlay, delta: Seq<MemberEntry>) -> bool {
    &&& delta.len() == o.dirty.dom().intersect(o.members.dom()).len()
    &&& forall|e: MemberEntry| #[trigger]
        delta.contains(e) <==> o.dirty.contains_key(e.id) && o.members.contains_key(e.id) && e
            == entry_of(e.id, o.members[e.id])
}

/// `pool` is what may be sent on in a shuffle with `target`: the address of each link that
/// does not lead to the target, then the backups.
pub open spec fn is_shuffle_pool(o: Overlay, target: PeerAddr, pool: Seq<PeerAddr>) -> bool {
    exists|links: Seq<PeerAddr>| #[trigger]
        lists_links(o.active, Some(target.id), links) && pool == links + o.passive
}

/// `sample` is a random sample, of at most `k`, of what may be sent on in a shuffle with
/// `target`.
pub open spec fn mixes(
    o: Overlay,
    target: PeerAddr,
    k: usize,
    sample: Seq<Option<PeerAddr>>,
) -> bool {
    exists|pool: Seq<PeerAddr>| #[trigger]
        is_shuffle_pool(o, target, pool) && samples(pool, k as nat, sample)
}

/// `targets` is a random sample of the links of `o`, of as many as a gossip round goes to.
pub open spec fn gossips_to(o: Overlay, targets: Seq<PeerAddr>) -> bool {
    exists|links: Seq<PeerAddr>| #[trigger]
        lists_links(o.active, None, links) && sampled(links, EPIDEMIC_FANOUT as nat, targets)
}

/// How a shuffle reply is taken in: its sample is kept as backups, then its reports merged.
pub open spec fn reply_taken(
    before: Membership,
    theirs: Seq<Option<PeerAddr>>,
    members: Seq<MemberEntry>,
    now: u64,
    after: Membership,
    wake: bool,
) -> bool {
    exists|slots: Seq<int>, mid: Membership|
        #![trigger offered(before.views@, before.me.id, before.cfg, theirs, slots, mid.views@)]
        offered(before.views@, before.me.id, before.cfg, theirs, slots, mid.views@)
            && mid.same_but_views(before) && reports_taken(mid, members, now, after, wake)
}

/// The node after silent members were forgotten.
pub open spec fn forgot(before: Membership, now: u64, after: Membership) -> bool {
    after.same_but_views(before) && after.views@ == pruned(
        before.views@,
        before.me.id,
        now,
        before.cfg.dead_retention_ms,
    )
}

impl Membership {
    /// The request that enters the network through a contact.
    pub fn join_request(&self) -> (message: Message)
        ensures
            message == (Message::Join { origin: Some(self.me) }),
    {
        Message::Join { origin: Some(self.me.clone()) }
    }

    /// What comes of a join request: a contact that took it becomes a link, and its member
    /// set is to be pulled.
    pub fn on_joined(&mut self, contact: PeerAddr, delivered: bool) -> (out: (Vec<Action>, bool))
        requires
            old(self).wf(),
            delivered ==> old(self).link_fits(contact),
        ensures
            final(self).wf(),
            out.1 == delivered,
            if delivered {
                exists|evicted: Option<PeerAddr>| #[trigger]
                    linked(*old(self), contact, *final(self), evicted) && out.0@ == farewell(
                        evicted,
                    )
            } else {
                *final(self) == *old(self) && out.0@.len() == 0
            },
    {
        let mut actions: Vec<Action> = Vec::new();
        if delivered {
            let evicted = self.add_active(contact);
            if let Some(to) = evicted.clone() {
                actions.push(Action::Send { to, message: Message::Disconnect });
            }
            assert(actions@ =~= farewell(evicted));
        }
        (actions, delivered)
    }

    /// The request for a link; urgent while the node has none.
    pub fn link_request(&self) -> (message: Message)
        requires
            self.wf(),
        ensures
            message == (Message::Neighbor {
                origin: Some(self.me),
                high_priority: self.views@.active.dom().len() == 0,
            }),
    {
        Message::Neighbor {
            origin: Some(self.me.clone()),
            high_priority: self.views.active.len() == 0,
        }
    }

    /// What comes of a link request: a candidate that grants it becomes a link, and its
    /// member set is to be pulled.
    pub fn on_link_reply(&mut self, candidate: PeerAddr, reply: &Option<Message>) -> (out: (
        Vec<Action>,
        bool,
    ))
        requires
            old(self).wf(),
            *reply matches Some(Message::NeighborReply { accepted }) && accepted ==> old(
                self,
            ).link_fits(candidate),
        ensures
            final(self).wf(),
            out.1 == (*reply matches Some(Message::NeighborReply { accepted }) && accepted),
            if out.1 {
                exists|evicted: Option<PeerAddr>| #[trigger]
                    linked(*old(self), candidate, *final(self), evicted) && out.0@ == farewell(
                        evicted,
                    )
            } else {
                *final(self) == *old(self) && out.0@.len() == 0
            },
    {
        let granted = match reply {
            Some(Message::NeighborReply { accepted }) => *accepted,
            _ => false,
        };
        self.on_joined(candidate, granted)
    }

    /// The request that exchanges member sets.
    pub fn sync_request(&mut self, now: u64) -> (message: Message)
        requires
            old(self).wf(),
        ensures
            final(self).wf(),
            final(self).same_but_views(*old(self)),
            final(self).views@ == reasserted(
                old(self).views@,
                old(self).me,
                old(self).self_incarnation,
                now,
            ),
            message matches Message::MemberSync { members } && is_member_set(
                final(self).views@,
                members@,
            ),
    {
        self.refresh_self(now);
        Message::MemberSync { members: self.views.member_entries() }
    }

    /// What comes of a member exchange: the reports in the reply are taken in.
    pub fn on_sync_reply(&mut self, reply: &Option<Message>, now: u64) -> (wake: bool)
        requires
            old(self).wf(),
        ensures
            final(self).wf(),
            match *reply {
                Some(Message::MemberSync { members }) => reports_taken(
                    *old(self),
                    members@,
                    now,
                    *final(self),
                    wake,
                ),
                _ => *final(self) == *old(self) && !wake,
            },
    {
        match reply {
            Some(Message::MemberSync { members }) => self.merge_members(members.as_slice(), now),
            _ => false,
        }
    }

    /// A random link to compare census hashes with.
    pub fn digest_target(&self) -> (target: Option<PeerAddr>)
        requires
            self.wf(),
        ensures
            match target {
                Some(a) => is_link(self.views@, a),
                None => self.views@.active.dom().len() == 0,
            },
    {
        let links = self.views.link_addrs();
        match choose_one(links.as_slice()) {
            Some(a) => Some(a.clone()),
            None => None,
        }
    }

    /// The request that compares census hashes.
    pub fn digest_request(&self) -> (message: Message)
        requires
            self.wf(),
        ensures
            message matches Message::Digest { hash } && is_census_hash(self.views@, hash),
    {
        Message::Digest { hash: self.views.members_digest() }
    }

    /// The round of gossip: the news, and up to three random links to tell it. Nothing
    /// where there is no news.
    pub fn epidemic_push(&mut self, now: u64) -> (push: Option<(Vec<PeerAddr>, Message)>)
        requires
            old(self).wf(),
        ensures
            final(self).wf(),
            final(self).same_but_views(*old(self)),
            ({
                let fresh = reasserted(
                    old(self).views@,
                    old(self).me,
                    old(self).self_incarnation,
                    now,
                );
                &&& final(self).views@ == (Overlay { dirty: counted_down(fresh.dirty), ..fresh })
                &&& match push {
                    Some((targets, message)) => {
                        &&& message matches Message::MemberSync { members } && is_news(
                            fresh,
                            members@,
                        ) && members@.len() > 0
                        &&& gossips_to(fresh, targets@)
                    },
                    None => is_news(fresh, Seq::empty()),
                }
            }),
    {
        self.refresh_self(now);
        let delta = self.views.take_delta();
        if delta.len() == 0 {
            assert(delta@ =~= Seq::<MemberEntry>::empty());
            return None;
        }
        let targets = sample(self.views.link_addrs(), EPIDEMIC_FANOUT);
        Some((targets, Message::MemberSync { members: delta }))
    }

    /// The addresses that may be sent on in a shuffle with `target`.
    pub fn shuffle_pool(&self, target: &PeerAddr) -> (pool: Vec<PeerAddr>)
        requires
            self.wf(),
        ensures
            is_shuffle_pool(self.views@, *target, pool@),
    {
        let mut pool = self.views.link_addrs_but(Some(target.id));
        let ghost links = pool@;
        let mut backups = clone_addrs(&self.views.passive);
        pool.append(&mut backups);
        assert(pool@ =~= links + self.views@.passive);
        pool
    }

    /// Plans a shuffle: most often with a random link, one time in three with a random
    /// backup, so as to reach beyond the clique. Nothing where there is nobody.
    pub fn plan_shuffle(&mut self, now: u64) -> (plan: Option<(PeerAddr, Message)>)
        requires
            old(self).wf(),
        ensures
            final(self).wf(),
            final(self).same_but_views(*old(self)),
            final(self).views@ == reasserted(
                old(self).views@,
                old(self).me,
                old(self).self_incarnation,
                now,
            ),
            match plan {
                Some((target, message)) => {
                    &&& is_link(old(self).views@, target) || old(self).views@.passive.contains(
                        target,
                    )
                    &&& message matches Message::Shuffle { origin, sample, members } && origin
                        == Some(old(self).me) && members@.len() == 0 && mixes(
                        old(self).views@,
                        target,
                        old(self).cfg.shuffle_sample,
                        sample@,
                    )
                },
                None => old(self).views@.active.dom().len() == 0,
            },
    {
        self.refresh_self(now);
        let mix_passive = self.views.passive.len() > 0 && random_ratio(1, 3);
        let target: Option<PeerAddr> = if mix_passive {
            match choose_one(self.views.passive.as_slice()) {
                Some(a) => Some(a.clone()),
                None => None,
            }
        } else {
            self.digest_target()
        };
        match target {
            None => None,
            Some(target) => {
                let pool = self.shuffle_pool(&target);
                let ghost all = pool@;
                let picked = sample(pool, self.cfg.shuffle_sample);
                let ours = readable(&picked);
                assert(is_shuffle_pool(old(self).views@, target, all));
                assert(samples(all, self.cfg.shuffle_sample as nat, ours@));
                let origin = Some(self.me.clone());
                Some((target, Message::Shuffle { origin, sample: ours, members: Vec::new() }))
            },
        }
    }

    /// Ends a shuffle: takes in the reply, where there was one, and forgets members that
    /// were silent for too long.
    pub fn on_shuffle_reply(&mut self, reply: Option<Message>, now: u64) -> (wake: bool)
        requires
            old(self).wf(),
            reply matches Some(Message::ShuffleReply { sample, members }) ==> old(self).backups_fit(
                sample@,
            ),
        ensures
            final(self).wf(),
            exists|mid: Membership| #[trigger]
                forgot(mid, now, *final(self)) && match reply {
                    Some(Message::ShuffleReply { sample, members }) => reply_taken(
                        *old(self),
                        sample@,
                        members@,
                        now,
                        mid,
                        wake,
                    ),
                    _ => mid == *old(self) && !wake,
                },
    {
        let mut wake = false;
        match reply {
            Some(Message::ShuffleReply { sample, members }) => {
                self.offer_all(&sample);
                let ghost kept = *self;
                wake = self.merge_members(members.as_slice(), now);
                assert(reports_taken(kept, members@, now, *self, wake));
                assert(reply_taken(*old(self), sample@, members@, now, *self, wake));
            },
            _ => {},
        }
        let ghost mid = *self;
        self.prune_members(now);
        assert(forgot(mid, now, *self));
        wake
    }
}

/// Whether the census hash in `reply` differs from `mine`, so that the member sets must be
/// exchanged.
pub fn digest_differs(reply: &Option<Message>, mine: &[u8; 32]) -> (differs: bool)
    ensures
        differs == (*reply matches Some(Message::Digest { hash }) && hash != *mine),
{
    match reply {
        Some(Message::Digest { hash }) => !same32(hash, mine),
        _ => false,
    }
}

} // verus!
