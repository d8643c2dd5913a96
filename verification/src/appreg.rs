//! The registry of app names that a node keeps for itself.

use crate::bytes::same32;
use crate::control::params::{refuse, refused};
use crate::parse::same_text;
use crate::headreg::shard::HeadEntry;
use crate::text::{hex_encode, hex_text};
use vstd::prelude::*;

verus! {

/// The name that a node announces its registry under. The control character keeps it apart
/// from the names of apps.
pub const REGISTRY_HEAD_NAME: &'static str = "\u{1}registry-head";

/// Which program computes the next state of the registry.
#[derive(Clone, Copy, Debug)]
pub enum RegistryProgram {
    /// The native one.
    Native,
    /// The one at this address.
    Wasm([u8; 32]),
}

/// Whether an entry is of the name of the owner.
pub open spec fn is_of(e: HeadEntry, owner: [u8; 32], name: Seq<char>) -> bool {
    e.owner == owner && e.name@ == name
}

/// The first entry of the name of the owner.
pub open spec fn entry_of_name(entries: Seq<HeadEntry>, owner: [u8; 32], name: Seq<char>) -> Option<
    [u8; 32],
>
    decreases entries.len(),
{
    if entries.len() == 0 {
        None
    } else if is_of(entries[0], owner, name) {
        Some(entries[0].cid)
    } else {
        entry_of_name(entries.skip(1), owner, name)
    }
}

/// The registry of app names that a node keeps for itself.
#[derive(Clone, Copy, Debug)]
pub struct AppRegistry;

impl AppRegistry {
    /// The program to run: the one that governance set, unless that is the native one.
    pub fn program(set: &Option<[u8; 32]>, native: &[u8; 32]) -> (p: RegistryProgram)
        ensures
            p == (match *set {
                Some(cid) => if cid == *native {
                    RegistryProgram::Native
                } else {
                    RegistryProgram::Wasm(cid)
                },
                None => RegistryProgram::Native,
            }),
    {
        match set {
            Some(cid) => if same32(cid, native) {
                RegistryProgram::Native
            } else {
                RegistryProgram::Wasm(*cid)
            },
            None => RegistryProgram::Native,
        }
    }

    /// Whether the registry is announced again: not while it is empty.
    pub fn republish(entries: usize) -> (yes: bool)
        ensures
            yes == (entries > 0),
    {
        entries > 0
    }

    /// What a name of an owner stands for in a registry.
    pub fn resolve(entries: &[HeadEntry], owner: &[u8; 32], name: &str) -> (cid: Option<[u8; 32]>)
        ensures
            cid == entry_of_name(entries@, *owner, name@),
    {
        let mut i: usize = 0;
        assert(entries@.skip(0) =~= entries@);
        while i < entries.len()
            invariant
                i <= entries@.len(),
                entry_of_name(entries@, *owner, name@) == entry_of_name(
                    entries@.skip(i as int),
                    *owner,
                    name@,
                ),
            decreases entries@.len() - i,
        {
            assert(entries@.skip(i as int)[0] == entries@[i as int]);
            assert(entries@.skip(i as int).skip(1) =~= entries@.skip(i + 1));
            if same32(&entries[i].owner, owner) && same_text(entries[i].name.as_str(), name) {
                return Some(entries[i].cid);
            }
            i = i + 1;
        }
        None
    }

    /// What registering comes to: the root of the state that the program made of the
    /// submission, or an error where it made none.
    pub fn register(root: Option<[u8; 32]>) -> (r: Result<[u8; 32], String>)
        ensures
            match root {
                Some(x) => r == Ok::<[u8; 32], String>(x),
                None => refused(r, "registry program rejected the submission"@),
            },
    {
        match root {
            Some(x) => Ok(x),
            None => refuse("registry program rejected the submission"),
        }
    }

    /// How many names there are, and the root of the state in hexadecimal.
    pub fn summary(entries: usize, root: &[u8; 32]) -> (s: (usize, String))
        ensures
            s.0 == entries,
            s.1@ == hex_text(root@),
    {
        (entries, hex_encode(root.as_slice()))
    }
}

/// A name stands for the content of the first entry of its owner under it, and for nothing where
/// there is none.
pub proof fn law_names_stand_for_their_first_entry(
    entries: Seq<HeadEntry>,
    e: HeadEntry,
    owner: [u8; 32],
    name: Seq<char>,
)
    ensures
        entry_of_name(Seq::empty(), owner, name) is None,
        e.owner == owner && e.name@ == name ==> entry_of_name(seq![e] + entries, owner, name)
            == Some(e.cid),
        e.owner != owner || e.name@ != name ==> entry_of_name(seq![e] + entries, owner, name)
            == entry_of_name(entries, owner, name),
{
    assert((seq![e] + entries).skip(1) =~= entries);
}

/// The registry runs the program that governance set, and the native one where that is it or none
/// was set; it is announced again where it holds something.
pub proof fn law_the_registry_runs_what_governance_set(
    cid: [u8; 32],
    native: [u8; 32],
    set: RegistryProgram,
    unset: RegistryProgram,
    entries: usize,
    yes: bool,
)
    requires
        call_ensures(AppRegistry::program, (&Some(cid), &native), set),
        call_ensures(AppRegistry::program, (&None, &native), unset),
        call_ensures(AppRegistry::republish, (entries,), yes),
    ensures
        cid == native ==> set is Native,
        cid != native ==> set == RegistryProgram::Wasm(cid),
        unset is Native,
        yes <==> entries >= 1,
{
}

} // verus!
