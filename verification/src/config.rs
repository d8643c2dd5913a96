//! The configuration of a node, and what its arguments make of it.

use crate::membership::member::PeerAddr;
use crate::parse::{is_hex32, parse32, same_text, split_at_first, split_once, trim, trimmed, views};
use crate::control::params::refused;
use crate::text::hex_bytes;
use vstd::prelude::*;
use vstd::string::*;

verus! {

/// How a node is reached.
#[derive(Clone, Copy, Debug, PartialEq, Eq, Structural)]
pub enum Reach {
    /// By direct sockets alone.
    LocalOnly,
    /// Through relays, too.
    Relayed,
}

/// The configuration of a node. The storage that it offers is kept beside it.
#[derive(Debug)]
pub struct Config {
    pub reach: String,
    pub heartbeat_secs: u64,
    pub listen_port: u16,
    pub dashboard_port: u16,
    pub public_stats_port: u16,
    pub relay_urls: Vec<String>,
    pub fallback_relays: bool,
    pub relay_operator_urls: Vec<String>,
    pub peers: Vec<String>,
    pub erasure_k: usize,
    pub durability_threshold: usize,
    pub probe_timeout_secs: u64,
    pub scale_threshold: u32,
    pub degrade_threshold: u32,
    pub fade_grace_secs: u64,
    pub pace_delay_secs: u64,
    pub eviction_cooldown_secs: u64,
    pub health_scan_secs: u64,
    pub reannounce_secs: u64,
    pub governance_governors: Vec<String>,
    pub governance_threshold: usize,
    pub routing_dht: bool,
    pub dht_seeds: Vec<String>,
}

/// The threshold of governance where none is configured.
pub fn one() -> (n: usize)
    ensures
        n == 1,
{
    1
}

impl Default for Config {
    fn default() -> (c: Config)
        ensures
            c.reach@ == "local"@,
            c.heartbeat_secs == 5,
            c.listen_port == 0,
            c.dashboard_port == 9945,
            c.public_stats_port == 0,
            views(c.relay_urls@) == seq!["https://relay1.zeph.craft.ec"@],
            c.fallback_relays,
            c.relay_operator_urls@.len() == 0,
            c.peers@.len() == 0,
            c.erasure_k == 8,
            c.durability_threshold == 8,
            c.probe_timeout_secs == 2,
            c.scale_threshold == 20,
            c.degrade_threshold == 5,
            c.fade_grace_secs == 86_400,
            c.pace_delay_secs == 1,
            c.eviction_cooldown_secs == 2_592_000,
            c.health_scan_secs == 30,
            c.reannounce_secs == 120,
            c.governance_governors@.len() == 0,
            c.governance_threshold == 1,
            !c.routing_dht,
            c.dht_seeds@.len() == 0,
    {
        let mut relay_urls: Vec<String> = Vec::new();
        relay_urls.push(String::from_str("https://relay1.zeph.craft.ec"));
        assert(views(relay_urls@) =~= seq!["https://relay1.zeph.craft.ec"@]);
        Config {
            reach: String::from_str("local"),
            heartbeat_secs: 5,
            listen_port: 0,
            dashboard_port: 9945,
            public_stats_port: 0,
            relay_urls,
            fallback_relays: true,
            relay_operator_urls: Vec::new(),
            peers: Vec::new(),
            erasure_k: 8,
            durability_threshold: 8,
            probe_timeout_secs: 2,
            scale_threshold: 20,
            degrade_threshold: 5,
            fade_grace_secs: 86_400,
            pace_delay_secs: 1,
            eviction_cooldown_secs: 2_592_000,
            health_scan_secs: 30,
            reannounce_secs: 120,
            governance_governors: Vec::new(),
            governance_threshold: one(),
            routing_dht: false,
            dht_seeds: Vec::new(),
        }
    }
}

/// What the arguments of a run set.
#[derive(Debug)]
pub struct RunArgs {
    pub peers: Vec<String>,
    pub reach: Option<String>,
    pub heartbeat_secs: Option<u64>,
    pub listen_port: Option<u16>,
    pub dashboard_port: Option<u16>,
    pub public_stats_port: Option<u16>,
    pub relay_urls: Vec<String>,
    pub no_fallback_relays: bool,
}

/// A value that an argument replaces where it is given.
pub open spec fn replaced<T>(arg: Option<T>, configured: T) -> T {
    match arg {
        Some(v) => v,
        None => configured,
    }
}

impl Config {
    /// Applies arguments: each replaces what is configured, but peers are added to it.
    pub fn apply(&mut self, args: RunArgs)
        ensures
            final(self).peers@ == old(self).peers@ + args.peers@,
            *final(self) == (Config {
                reach: replaced(args.reach, old(self).reach),
                heartbeat_secs: replaced(args.heartbeat_secs, old(self).heartbeat_secs),
                listen_port: replaced(args.listen_port, old(self).listen_port),
                dashboard_port: replaced(args.dashboard_port, old(self).dashboard_port),
                public_stats_port: replaced(args.public_stats_port, old(self).public_stats_port),
                relay_urls: if args.relay_urls@.len() > 0 {
                    args.relay_urls
                } else {
                    old(self).relay_urls
                },
                fallback_relays: old(self).fallback_relays && !args.no_fallback_relays,
                peers: final(self).peers,
                ..*old(self)
            }),
    {
        if let Some(reach) = args.reach {
            self.reach = reach;
        }
        if let Some(hb) = args.heartbeat_secs {
            self.heartbeat_secs = hb;
        }
        if let Some(port) = args.listen_port {
            self.listen_port = port;
        }
        if let Some(port) = args.dashboard_port {
            self.dashboard_port = port;
        }
        if let Some(port) = args.public_stats_port {
            self.public_stats_port = port;
        }
        if args.relay_urls.len() > 0 {
            self.relay_urls = args.relay_urls;
        }
        if args.no_fallback_relays {
            self.fallback_relays = false;
        }
        let mut more = args.peers;
        self.peers.append(&mut more);
    }
}

/// Reads how the node is to be reached.
pub fn reach_of(text: &str) -> (r: Result<Reach, String>)
    ensures
        if text@ == "local"@ {
            r == Ok::<Reach, String>(Reach::LocalOnly)
        } else if text@ == "relayed"@ {
            r == Ok::<Reach, String>(Reach::Relayed)
        } else {
            refused(r, "invalid reach `"@ + text@ + "`: expected \"local\" or \"relayed\""@)
        },
{
    if same_text(text, "local") {
        Ok(Reach::LocalOnly)
    } else if same_text(text, "relayed") {
        Ok(Reach::Relayed)
    } else {
        let mut m = String::from_str("invalid reach `");
        m.append(text);
        m.append("`: expected \"local\" or \"relayed\"");
        Err(m)
    }
}

/// Whether a list has an address of the node.
pub open spec fn has_node(peers: Seq<PeerAddr>, id: crate::bytes::NodeId) -> bool {
    exists|i: int| 0 <= i < peers.len() && (#[trigger] peers[i]).id == id
}

/// A list with the seeds added whose nodes it does not have yet.
pub open spec fn seeded(peers: Seq<PeerAddr>, seeds: Seq<PeerAddr>) -> Seq<PeerAddr>
    decreases seeds.len(),
{
    if seeds.len() == 0 {
        peers
    } else {
        let front = seeded(peers, seeds.drop_last());
        if has_node(front, seeds.last().id) {
            front
        } else {
            front.push(seeds.last())
        }
    }
}

/// Adds the seeds to the peers to start from, but for nodes that are there already. So a node
/// that was cut off always has somebody to come back to.
pub fn with_seeds(peers: Vec<PeerAddr>, seeds: &[PeerAddr]) -> (all: Vec<PeerAddr>)
    ensures
        all@ == seeded(peers@, seeds@),
{
    let mut all = peers;
    let ghost start = all@;
    let mut i: usize = 0;
    assert(seeds@.take(0) =~= Seq::<PeerAddr>::empty());
    while i < seeds.len()
        invariant
            i <= seeds@.len(),
            all@ == seeded(start, seeds@.take(i as int)),
        decreases seeds@.len() - i,
    {
        proof {
            let next = seeds@.take(i + 1);
            assert(next.drop_last() =~= seeds@.take(i as int));
            assert(next.last() == seeds@[i as int]);
        }
        let mut known = false;
        let mut j: usize = 0;
        while j < all.len()
            invariant
                j <= all@.len(),
                i < seeds@.len(),
                known == has_node(all@.take(j as int), seeds@[i as int].id),
            decreases all@.len() - j,
        {
            proof {
                let done = all@.take(j as int);
                let next = all@.take(j + 1);
                let id = seeds@[i as int].id;
                assert(next =~= done.push(all@[j as int]));
                if has_node(done, id) {
                    let k = choose|k: int| 0 <= k < done.len() && (#[trigger] done[k]).id == id;
                    assert(next[k].id == id);
                }
                if has_node(next, id) {
                    let k = choose|k: int| 0 <= k < next.len() && (#[trigger] next[k]).id == id;
                    if k < done.len() {
                        assert(done[k].id == id);
                    }
                }
                if all@[j as int].id == id {
                    assert(next[j as int].id == id);
                }
            }
            if all[j].id.same(&seeds[i].id) {
                known = true;
            }
            j = j + 1;
        }
        assert(all@.take(j as int) =~= all@);
        if !known {
            all.push(seeds[i].clone());
        }
        i = i + 1;
    }
    assert(seeds@.take(i as int) =~= seeds@);
    all
}

/// Every seed's node is among the peers to start from.
pub proof fn law_seeds_are_kept(peers: Seq<PeerAddr>, seeds: Seq<PeerAddr>, i: int)
    requires
        0 <= i < seeds.len(),
    ensures
        has_node(seeded(peers, seeds), seeds[i].id),
    decreases seeds.len(),
{
    let front = seeded(peers, seeds.drop_last());
    let all = seeded(peers, seeds);
    if i < seeds.len() - 1 {
        law_seeds_are_kept(peers, seeds.drop_last(), i);
        let id = seeds[i].id;
        let k = choose|k: int| 0 <= k < front.len() && (#[trigger] front[k]).id == id;
        assert(all[k].id == id);
    } else if !has_node(front, seeds.last().id) {
        assert(all[front.len() as int].id == seeds[i].id);
    }
}

/// The governors that a list names: the entries that are 32 bytes in hexadecimal.
pub open spec fn governors_of(list: Seq<String>) -> Seq<Seq<u8>>
    decreases list.len(),
{
    if list.len() == 0 {
        Seq::empty()
    } else {
        let front = governors_of(list.drop_last());
        let t = trimmed(list.last()@);
        if is_hex32(t) {
            front.push(hex_bytes(t))
        } else {
            front
        }
    }
}

/// Reads the governors that are configured; what is none is skipped.
pub fn parse_governors(list: &[String]) -> (ids: Vec<[u8; 32]>)
    ensures
        ids@.map_values(|a: [u8; 32]| a@) == governors_of(list@),
{
    let mut ids: Vec<[u8; 32]> = Vec::new();
    let ghost f = |a: [u8; 32]| a@;
    let mut i: usize = 0;
    assert(list@.take(0) =~= Seq::<String>::empty());
    assert(ids@.map_values(f) =~= governors_of(list@.take(0)));
    while i < list.len()
        invariant
            i <= list@.len(),
            f == (|a: [u8; 32]| a@),
            ids@.map_values(f) == governors_of(list@.take(i as int)),
        decreases list@.len() - i,
    {
        proof {
            let next = list@.take(i + 1);
            assert(next.drop_last() =~= list@.take(i as int));
            assert(next.last() == list@[i as int]);
        }
        let ghost before = ids@.map_values(f);
        if let Some(id) = parse32(trim(list[i].as_str()).as_str()) {
            ids.push(id);
            assert(ids@.map_values(f) =~= before.push(id@));
        }
        i = i + 1;
    }
    assert(list@.take(i as int) =~= list@);
    ids
}

/// The identity in front of the at sign of a seed; the whole entry where there is none.
pub open spec fn seed_part(entry: Seq<char>) -> Seq<char> {
    match split_at_first(entry, '@') {
        Some((id, _)) => id,
        None => entry,
    }
}

/// Reads the identity of a seed.
pub fn seed_id(entry: &str) -> (id: Option<[u8; 32]>)
    ensures
        match id {
            Some(a) => is_hex32(seed_part(entry@)) && a@ == hex_bytes(seed_part(entry@)),
            None => !is_hex32(seed_part(entry@)),
        },
{
    match split_once(entry, '@') {
        Some((id, _)) => parse32(id.as_str()),
        None => parse32(entry),
    }
}

/// Texts joined by a comma and a space.
pub open spec fn joined(list: Seq<String>) -> Seq<char>
    decreases list.len(),
{
    if list.len() == 0 {
        Seq::empty()
    } else if list.len() == 1 {
        list[0]@
    } else {
        joined(list.drop_last()) + ", "@ + list.last()@
    }
}

/// What is shown of the relays.
pub fn relays_text(reach: Reach, urls: &[String], fallback: bool) -> (text: String)
    ensures
        text@ == (match reach {
            Reach::LocalOnly => "none (local)"@,
            Reach::Relayed => joined(urls@) + (if fallback {
                " + n0 fallback"@
            } else {
                " (exclusive)"@
            }),
        }),
{
    match reach {
        Reach::LocalOnly => String::from_str("none (local)"),
        Reach::Relayed => {
            let mut text = String::new();
            let mut i: usize = 0;
            assert(urls@.take(0) =~= Seq::<String>::empty());
            while i < urls.len()
                invariant
                    i <= urls@.len(),
                    text@ == joined(urls@.take(i as int)),
                decreases urls@.len() - i,
            {
                proof {
                    let next = urls@.take(i + 1);
                    assert(next.drop_last() =~= urls@.take(i as int));
                    assert(next.last() == urls@[i as int]);
                    if i == 0 {
                        assert(text@ =~= Seq::<char>::empty());
                    }
                }
                if i > 0 {
                    text.append(", ");
                }
                text.append(urls[i].as_str());
                i = i + 1;
                assert(text@ =~= joined(urls@.take(i as int)));
            }
            assert(urls@.take(i as int) =~= urls@);
            if fallback {
                text.append(" + n0 fallback");
            } else {
                text.append(" (exclusive)");
            }
            text
        },
    }
}

/// An argument that is given counts, and what is configured where none is.
pub proof fn law_arguments_replace_the_configuration<T>(given: T, configured: T)
    ensures
        replaced(Some(given), configured) == given,
        replaced(None, configured) == configured,
{
}

/// The peers that were given stay, in front and in order, and each seed is added behind them
/// unless its node is there already.
pub proof fn law_given_peers_stay_in_front(peers: Seq<PeerAddr>, seeds: Seq<PeerAddr>, seed: PeerAddr)
    ensures
        seeded(peers, Seq::empty()) == peers,
        seeded(peers, seeds).len() >= peers.len(),
        seeded(peers, seeds).take(peers.len() as int) == peers,
        (exists|i: int|
            0 <= i < seeded(peers, seeds).len() && (#[trigger] seeded(peers, seeds)[i]).id
                == seed.id) ==> seeded(peers, seeds.push(seed)) == seeded(peers, seeds),
        !(exists|i: int|
            0 <= i < seeded(peers, seeds).len() && (#[trigger] seeded(peers, seeds)[i]).id
                == seed.id) ==> seeded(peers, seeds.push(seed)) == seeded(peers, seeds).push(seed),
    decreases seeds.len(),
{
    assert(seeds.push(seed).drop_last() =~= seeds);
    if seeds.len() == 0 {
        assert(peers.take(peers.len() as int) =~= peers);
    } else {
        let front = seeded(peers, seeds.drop_last());
        law_given_peers_stay_in_front(peers, seeds.drop_last(), seed);
        assert(front.push(seeds.last()).take(peers.len() as int) =~= front.take(
            peers.len() as int,
        ));
    }
}

/// Every governor whose identity can be read, blanks aside, is one, in order; other entries are
/// left out.
pub proof fn law_readable_governors_count(list: Seq<String>, entry: String)
    ensures
        governors_of(Seq::empty()).len() == 0,
        is_hex32(trimmed(entry@)) ==> governors_of(list.push(entry)) == governors_of(list).push(
            hex_bytes(trimmed(entry@)),
        ),
        !is_hex32(trimmed(entry@)) ==> governors_of(list.push(entry)) == governors_of(list),
{
    assert(list.push(entry).drop_last() =~= list);
}

/// The identity of a seed is all that stands before its first at sign.
pub proof fn law_seeds_are_named_before_the_at_sign(id: Seq<char>, rest: Seq<char>)
    requires
        !id.contains('@'),
    ensures
        seed_part(id + seq!['@'] + rest) == id,
        seed_part(id) == id,
{
    crate::parse::law_parted_texts_read_back(id, rest, '@');
    crate::parse::law_texts_part_at_the_first_place(id, '@');
}

/// Texts are joined in order, with a comma and a blank between any two and nowhere else.
pub proof fn law_commas_stand_between(list: Seq<String>, last: String)
    ensures
        joined(Seq::empty()).len() == 0,
        joined(seq![last]) == last@,
        list.len() > 0 ==> joined(list.push(last)) == joined(list) + seq![',', ' '] + last@,
{
    reveal_strlit(", ");
    assert(", "@ =~= seq![',', ' ']);
    assert(list.push(last).drop_last() =~= list);
}

/// What arguments make of the configuration: each that is given counts and leaves the rest as it
/// was, peers are added behind those configured, and relays can be switched off but not on.
pub proof fn law_arguments_count_where_given(c: &mut Config, args: RunArgs)
    requires
        call_ensures(Config::apply, (c, args), ()),
    ensures
        final(c).peers@ == old(c).peers@ + args.peers@,
        args.reach is Some ==> Some(final(c).reach) == args.reach,
        args.reach is None ==> final(c).reach == old(c).reach,
        args.heartbeat_secs is Some ==> Some(final(c).heartbeat_secs) == args.heartbeat_secs,
        args.heartbeat_secs is None ==> final(c).heartbeat_secs == old(c).heartbeat_secs,
        args.listen_port is Some ==> Some(final(c).listen_port) == args.listen_port,
        args.listen_port is None ==> final(c).listen_port == old(c).listen_port,
        args.dashboard_port is Some ==> Some(final(c).dashboard_port) == args.dashboard_port,
        args.dashboard_port is None ==> final(c).dashboard_port == old(c).dashboard_port,
        args.public_stats_port is Some ==> Some(final(c).public_stats_port)
            == args.public_stats_port,
        args.public_stats_port is None ==> final(c).public_stats_port == old(c).public_stats_port,
        args.relay_urls@.len() > 0 ==> final(c).relay_urls == args.relay_urls,
        args.relay_urls@.len() == 0 ==> final(c).relay_urls == old(c).relay_urls,
        final(c).fallback_relays <==> old(c).fallback_relays && !args.no_fallback_relays,
{
}

/// How a node is reached is said by one of two words, and by no other.
pub proof fn law_reach_is_one_of_two_words(text: &str, r: Result<Reach, String>)
    requires
        call_ensures(reach_of, (text,), r),
    ensures
        r is Ok && r->Ok_0 == Reach::LocalOnly <==> text@ == "local"@,
        r is Ok && r->Ok_0 == Reach::Relayed <==> text@ == "relayed"@,
{
    reveal_strlit("local");
    reveal_strlit("relayed");
    assert("local"@.len() != "relayed"@.len());
}

} // verus!
