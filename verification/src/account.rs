//! Program accounts: single-writer state that only its program advances.

use crate::bytes::Cid;
use crate::digest::blake3_digest;
use crate::text::{hex_encode, hex_text};
use vstd::prelude::*;
use vstd::string::*;

verus! {

/// What an accepted transition leaves behind.
#[derive(Clone, Copy, Debug)]
pub struct AdvanceResult {
    pub account: [u8; 32],
    pub new_root: [u8; 32],
}

/// Why a transition did not happen.
#[derive(Clone, Copy, Debug, PartialEq, Eq, Structural)]
pub enum AdvanceError {
    /// The program returned no new state.
    Rejected,
}

impl AdvanceError {
    /// The error as a text.
    pub fn message(&self) -> (text: String)
        ensures
            text@ == "program rejected the request"@,
    {
        String::from_str("program rejected the request")
    }
}

/// What a program's output means: an empty output rejects the request, anything else
/// is the account's next state.
pub fn next_state(output: Vec<u8>) -> (state: Result<Vec<u8>, AdvanceError>)
    ensures
        output@.len() == 0 ==> state == Err::<Vec<u8>, AdvanceError>(AdvanceError::Rejected),
        output@.len() > 0 ==> (state matches Ok(s) && s == output),
{
    if output.len() == 0 {
        Err(AdvanceError::Rejected)
    } else {
        Ok(output)
    }
}

/// What a node does with the accounts of programs.
#[derive(Clone, Copy, Debug)]
pub struct ProgramAccountStore;

impl ProgramAccountStore {
    /// The name of the file that an account's state is kept in.
    pub fn state_path(account: &[u8; 32]) -> (name: String)
        ensures
            name@ == hex_text(account@) + ".state"@,
    {
        let mut name = hex_encode(account.as_slice());
        name.append(".state");
        name
    }

    /// What an account is after its program ran: refused where the output is empty, else at
    /// the state that the output is, under the hash of that state.
    pub fn advance(account: [u8; 32], output: Vec<u8>) -> (r: Result<
        (Vec<u8>, AdvanceResult),
        AdvanceError,
    >)
        ensures
            match r {
                Ok((state, result)) => {
                    &&& output@.len() > 0
                    &&& state == output
                    &&& result.account == account
                    &&& result.new_root@ == blake3_digest(output@)
                },
                Err(AdvanceError::Rejected) => output@.len() == 0,
            },
    {
        match next_state(output) {
            Ok(state) => {
                let new_root = Cid::of(state.as_slice()).0;
                Ok((state, AdvanceResult { account, new_root }))
            },
            Err(e) => Err(e),
        }
    }
}

/// An account moves on to what its program put out, whole, and under the digest of it; a program
/// that puts out nothing has refused.
pub proof fn law_accounts_move_on_to_their_output(
    account: [u8; 32],
    output: Vec<u8>,
    r: Result<(Vec<u8>, AdvanceResult), AdvanceError>,
    state: Result<Vec<u8>, AdvanceError>,
)
    requires
        call_ensures(ProgramAccountStore::advance, (account, output), r),
        call_ensures(next_state, (output,), state),
    ensures
        r is Ok <==> output@.len() > 0,
        state is Ok <==> output@.len() > 0,
        r is Ok ==> ({
            let (next, result) = r->Ok_0;
            &&& next == output
            &&& state->Ok_0 == output
            &&& result.account == account
            &&& result.new_root@ == crate::digest::blake3_digest(output@)
        }),
{
}

} // verus!
