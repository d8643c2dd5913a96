//! Making the protocol programs known on a new network.

use crate::bytes::{same32, Cid};
use crate::digest::blake3_digest;
use vstd::prelude::*;

verus! {

/// The address of a program: the hash of its code.
pub fn program_cid(wasm: &[u8]) -> (cid: [u8; 32])
    ensures
        cid@ == blake3_digest(wasm@),
{
    Cid::of(wasm).0
}

/// What publishing a program showed.
#[derive(Clone, Copy, Debug, PartialEq, Eq, Structural)]
pub enum Published {
    /// It is there, at its address.
    Done,
    /// It is there, at another address.
    Mismatch,
    Failed,
}

/// What publishing a program showed, by the address that it came out at.
pub fn published(expected: &[u8; 32], at: &Option<[u8; 32]>) -> (p: Published)
    ensures
        p == (match *at {
            Some(cid) => if cid == *expected {
                Published::Done
            } else {
                Published::Mismatch
            },
            None => Published::Failed,
        }),
{
    match at {
        Some(cid) => if same32(cid, expected) {
            Published::Done
        } else {
            Published::Mismatch
        },
        None => Published::Failed,
    }
}

/// Whether a program is to be pinned to its anchor: by a governor, where the anchor does not
/// stand at it already. So a second activation pins nothing.
pub fn pins(is_governor: bool, pinned: &Option<[u8; 32]>, cid: &[u8; 32]) -> (pin: bool)
    ensures
        pin == (is_governor && *pinned != Some(*cid)),
{
    if !is_governor {
        return false;
    }
    match pinned {
        Some(p) => !same32(p, cid),
        None => true,
    }
}

/// A program counts as published exactly where it lies at its own digest; and a governor pins it
/// exactly where something else is pinned, or nothing.
pub proof fn law_programs_lie_at_their_digest(
    wasm: &[u8],
    cid: [u8; 32],
    at: Option<[u8; 32]>,
    p: Published,
    is_governor: bool,
    pin: bool,
)
    requires
        call_ensures(program_cid, (wasm,), cid),
        call_ensures(published, (&cid, &at), p),
        call_ensures(pins, (is_governor, &at, &cid), pin),
    ensures
        cid@ == blake3_digest(wasm@),
        p is Done <==> at == Some(cid),
        p is Failed <==> at is None,
        pin <==> is_governor && !(p is Done),
{
}

} // verus!
