//! The dashboard's requests: who may make them, and what they ask for.

use crate::control::method::{action_named, action_of, CidOp};
use crate::control::params::{node_of, parse_cid, parse_node_id};
use crate::parse::{is_hex32, same_text, trim, trimmed};
use crate::random::random_bytes32;
use crate::text::{hex_bytes, hex_decode, hex_encode, hex_text, is_hex, law_hex_round_trip};
use vstd::prelude::*;
use vstd::string::*;

verus! {

/// Why a request is refused.
#[derive(Debug)]
pub enum HttpFault {
    /// The token is not the right one.
    Unauthorized,
    BadRequest(String),
    Internal(String),
}

impl HttpFault {
    /// The status code of the refusal.
    pub fn code(&self) -> (code: u16)
        ensures
            code == (match *self {
                HttpFault::Unauthorized => 401u16,
                HttpFault::BadRequest(_) => 400u16,
                HttpFault::Internal(_) => 500u16,
            }),
    {
        match self {
            HttpFault::Unauthorized => 401,
            HttpFault::BadRequest(_) => 400,
            HttpFault::Internal(_) => 500,
        }
    }

    /// The text of the refusal.
    pub fn message(&self) -> (text: String)
        ensures
            text@ == (match *self {
                HttpFault::Unauthorized => "invalid token"@,
                HttpFault::BadRequest(t) => t@,
                HttpFault::Internal(t) => t@,
            }),
    {
        match self {
            HttpFault::Unauthorized => String::from_str("invalid token"),
            HttpFault::BadRequest(t) => t.clone(),
            HttpFault::Internal(t) => t.clone(),
        }
    }
}

/// Whether a request was refused as a bad one, with the text.
pub open spec fn bad<T>(r: Result<T, HttpFault>, text: Seq<char>) -> bool {
    r matches Err(HttpFault::BadRequest(t)) && t@ == text
}

fn bad_request<T>(text: &str) -> (r: Result<T, HttpFault>)
    ensures
        bad(r, text@),
{
    Err(HttpFault::BadRequest(String::from_str(text)))
}

/// Whether a request carries the token. Nothing is answered to one that does not.
pub fn authorize(given: &str, token: &str) -> (r: Result<(), HttpFault>)
    ensures
        r == (if given@ == token@ {
            Ok::<(), HttpFault>(())
        } else {
            Err(HttpFault::Unauthorized)
        }),
{
    if same_text(given, token) {
        Ok(())
    } else {
        Err(HttpFault::Unauthorized)
    }
}

/// The token that bytes make.
pub fn token_of(bytes: &[u8; 32]) -> (token: String)
    ensures
        token@ == hex_text(bytes@),
{
    hex_encode(bytes.as_slice())
}

/// A new token: 64 hexadecimal digits, drawn at random.
pub fn new_token() -> (token: String)
    ensures
        token@.len() == 64,
        is_hex(token@),
{
    let bytes = random_bytes32();
    proof {
        law_hex_round_trip(bytes@);
    }
    token_of(&bytes)
}

/// The token that a file holds, white space at the ends aside.
pub fn stored_token(file: &str) -> (token: String)
    ensures
        token@ == trimmed(file@),
{
    trim(file)
}

/// Reads an action on content: the token, then the content, then the operation.
pub fn api_action(given: &str, token: &str, op: &str, cid: &str) -> (r: Result<
    (CidOp, [u8; 32]),
    HttpFault,
>)
    ensures
        if given@ != token@ {
            r == Err::<(CidOp, [u8; 32]), HttpFault>(HttpFault::Unauthorized)
        } else if !is_hex32(cid@) {
            bad(r, "bad cid"@)
        } else {
            match action_named(op@) {
                Some(o) => r matches Ok(q) && q.0 == o && q.1@ == hex_bytes(cid@),
                None => bad(r, "unknown op "@ + op@),
            }
        },
{
    if !same_text(given, token) {
        return Err(HttpFault::Unauthorized);
    }
    match parse_cid(cid) {
        None => bad_request("bad cid"),
        Some(c) => match action_of(op) {
            Ok(o) => Ok((o, c)),
            Err(text) => Err(HttpFault::BadRequest(text)),
        },
    }
}

/// Code that the dashboard calls.
#[derive(Clone, Copy, Debug)]
pub struct CodeCall {
    pub wasm_cid: [u8; 32],
    pub caller: [u8; 32],
}

/// Reads a call of code: the token, then the code, then who this node is.
pub fn api_invoke(given: &str, token: &str, wasm: &str, self_hex: &str) -> (r: Result<
    CodeCall,
    HttpFault,
>)
    ensures
        if given@ != token@ {
            r == Err::<CodeCall, HttpFault>(HttpFault::Unauthorized)
        } else if !is_hex32(wasm@) {
            bad(r, "bad wasm cid"@)
        } else {
            match node_of(self_hex@) {
                Some(id) => r matches Ok(c) && c.wasm_cid@ == hex_bytes(wasm@) && c.caller@ == id,
                None => r matches Err(HttpFault::Internal(t)) && t@ == "self id"@,
            }
        },
{
    if !same_text(given, token) {
        return Err(HttpFault::Unauthorized);
    }
    match parse_cid(wasm) {
        None => bad_request("bad wasm cid"),
        Some(wasm_cid) => match parse_node_id(self_hex) {
            Some(caller) => Ok(CodeCall { wasm_cid, caller }),
            None => Err(HttpFault::Internal(String::from_str("self id"))),
        },
    }
}

/// The database of an app.
pub fn app_namespace(app: &str) -> (ns: String)
    ensures
        ns@ == "app."@ + app@,
{
    let mut ns = String::from_str("app.");
    ns.append(app);
    ns
}

/// Whose database a query reads: of the owner given, or of this node where none is.
pub fn api_sql(given: &str, token: &str, owner: &str, self_hex: &str) -> (r: Result<
    [u8; 32],
    HttpFault,
>)
    ensures
        if given@ != token@ {
            r == Err::<[u8; 32], HttpFault>(HttpFault::Unauthorized)
        } else {
            let id = if trimmed(owner@).len() == 0 {
                node_of(self_hex@)
            } else {
                node_of(trimmed(owner@))
            };
            match id {
                Some(n) => r matches Ok(o) && o@ == n,
                None => bad(r, "bad owner id"@),
            }
        },
{
    if !same_text(given, token) {
        return Err(HttpFault::Unauthorized);
    }
    let t = trim(owner);
    let id = if t.as_str().unicode_len() == 0 {
        parse_node_id(self_hex)
    } else {
        parse_node_id(t.as_str())
    };
    match id {
        Some(n) => Ok(n),
        None => bad_request("bad owner id"),
    }
}

/// Reads code to deploy: its name without white space at the ends, and its bytes.
pub fn api_deploy(given: &str, token: &str, name: &str, wasm: &str) -> (r: Result<
    (String, Vec<u8>),
    HttpFault,
>)
    ensures
        if given@ != token@ {
            r == Err::<(String, Vec<u8>), HttpFault>(HttpFault::Unauthorized)
        } else if !is_hex(trimmed(wasm@)) {
            bad(r, "wasm must be hex"@)
        } else if trimmed(wasm@).len() == 0 {
            bad(r, "empty wasm"@)
        } else {
            r matches Ok(q) && q.0@ == trimmed(name@) && q.1@ == hex_bytes(trimmed(wasm@))
        },
{
    if !same_text(given, token) {
        return Err(HttpFault::Unauthorized);
    }
    match hex_decode(trim(wasm).as_str()) {
        None => bad_request("wasm must be hex"),
        Some(bytes) => if bytes.len() == 0 {
            bad_request("empty wasm")
        } else {
            Ok((trim(name), bytes))
        },
    }
}

/// Nothing is done without the right token, whatever else a request says.
pub proof fn law_nothing_is_done_without_the_token(
    given: &str,
    token: &str,
    op: &str,
    cid: &str,
    wasm: &str,
    owner: &str,
    name: &str,
    self_hex: &str,
    plain: Result<(), HttpFault>,
    action: Result<(CidOp, [u8; 32]), HttpFault>,
    call: Result<CodeCall, HttpFault>,
    sql: Result<[u8; 32], HttpFault>,
    deploy: Result<(String, Vec<u8>), HttpFault>,
)
    requires
        call_ensures(authorize, (given, token), plain),
        call_ensures(api_action, (given, token, op, cid), action),
        call_ensures(api_invoke, (given, token, wasm, self_hex), call),
        call_ensures(api_sql, (given, token, owner, self_hex), sql),
        call_ensures(api_deploy, (given, token, name, wasm), deploy),
    ensures
        plain is Ok <==> given@ == token@,
        given@ != token@ ==> plain is Err && plain->Err_0 == HttpFault::Unauthorized && action
            is Err && action->Err_0 == HttpFault::Unauthorized && call is Err && call->Err_0
            == HttpFault::Unauthorized && sql is Err && sql->Err_0 == HttpFault::Unauthorized
            && deploy is Err && deploy->Err_0 == HttpFault::Unauthorized,
        given@ == token@ ==> (action is Err ==> action->Err_0 is BadRequest) && (sql is Err
            ==> sql->Err_0 is BadRequest) && (deploy is Err ==> deploy->Err_0 is BadRequest),
{
}

/// An action is done to the very content that is named, and code is called in the name of this
/// node.
pub proof fn law_actions_name_their_content(
    token: &str,
    op: &str,
    cid: &str,
    c: Seq<u8>,
    which: CidOp,
    action: Result<(CidOp, [u8; 32]), HttpFault>,
    self_hex: &str,
    me: Seq<u8>,
    call: Result<CodeCall, HttpFault>,
)
    requires
        c.len() == 32,
        me.len() == 32,
        cid@ == hex_text(c),
        self_hex@ == hex_text(me),
        action_named(op@) == Some(which),
        call_ensures(api_action, (token, token, op, cid), action),
        call_ensures(api_invoke, (token, token, cid, self_hex), call),
    ensures
        action is Ok,
        ({
            let (did, to) = action->Ok_0;
            did == which && to@ == c
        }),
        call is Ok && call->Ok_0.wasm_cid@ == c && call->Ok_0.caller@ == me,
{
    law_hex_round_trip(c);
    crate::control::params::law_hex_fields_read_back(me);
}

/// The codes that refusals are answered with.
pub proof fn law_refusals_have_their_code(fault: HttpFault, code: u16)
    requires
        call_ensures(HttpFault::code, (&fault,), code),
    ensures
        fault is Unauthorized <==> code == 401,
        fault is BadRequest <==> code == 400,
        fault is Internal <==> code == 500,
{
}

} // verus!
