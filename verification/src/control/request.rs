//! What requests ask for: their parameters, checked, or the reason for refusing them.

use crate::control::method::CidOp;
use crate::control::params::{hex32_fault, hex32_value, hex_field_ok, hex_field_value, node_of,
    parse_cid, parse_hex32, parse_hex_bytes, parse_node_id, refuse, refused, text_of, Params};
use crate::parse::{is_hex32, parse32, split, split_all, split_at_first, split_once, trim, trimmed,
    views};
use crate::text::{hex_bytes, hex_decode, is_hex};
use vstd::prelude::*;
use vstd::string::*;
use vstd::utf8::encode_utf8;

verus! {

/// Publishing a path.
#[derive(Debug)]
pub struct PublishRequest {
    pub path: String,
    pub pin: bool,
    pub private: bool,
}

/// Reads a request to publish. Content is pinned and public unless it says otherwise.
pub fn rpc_publish(p: &Params) -> (r: Result<PublishRequest, String>)
    ensures
        match p.text_at("path"@) {
            None => refused(r, "publish needs a 'path'"@),
            Some(path) => r matches Ok(q) && q.path@ == path && q.pin == (p.flag_at("pin"@)
                != Some(false)) && q.private == (p.flag_at("private"@) == Some(true)),
        },
{
    match p.text("path") {
        None => refuse("publish needs a 'path'"),
        Some(path) => {
            let pin = match p.flag("pin") {
                Some(b) => b,
                None => true,
            };
            let private = match p.flag("private") {
                Some(b) => b,
                None => false,
            };
            Ok(PublishRequest { path, pin, private })
        },
    }
}

/// What is published.
#[derive(Clone, Copy, Debug, PartialEq, Eq, Structural)]
pub enum PublishKind {
    Folder,
    PrivateFile,
    File,
}

/// How a path is published. A folder cannot be published privately.
pub fn publish_kind(is_dir: bool, private: bool) -> (r: Result<PublishKind, String>)
    ensures
        if is_dir && private {
            refused(r, "private publish supports files only (phase 2)"@)
        } else {
            r == Ok::<PublishKind, String>(
                if is_dir {
                    PublishKind::Folder
                } else if private {
                    PublishKind::PrivateFile
                } else {
                    PublishKind::File
                },
            )
        },
{
    if is_dir {
        if private {
            refuse("private publish supports files only (phase 2)")
        } else {
            Ok(PublishKind::Folder)
        }
    } else if private {
        Ok(PublishKind::PrivateFile)
    } else {
        Ok(PublishKind::File)
    }
}

/// The owner that a request is about: the one named, or this node.
pub open spec fn owner_of(given: Option<Seq<char>>, self_hex: Seq<char>) -> Option<Seq<u8>> {
    match given {
        Some(h) => node_of(h),
        None => node_of(self_hex),
    }
}

/// What a request is refused with whose owner cannot be read.
pub open spec fn owner_fault(given: Option<Seq<char>>) -> Seq<char> {
    match given {
        Some(_) => "owner must be 64 hex chars"@,
        None => "self node id unparseable"@,
    }
}

/// Reads the owner that a request is about.
pub fn owner(p: &Params, self_hex: &str) -> (r: Result<[u8; 32], String>)
    ensures
        match owner_of(p.text_at("owner"@), self_hex@) {
            Some(id) => r matches Ok(o) && o@ == id,
            None => refused(r, owner_fault(p.text_at("owner"@))),
        },
{
    match p.text("owner") {
        Some(h) => match parse_node_id(h.as_str()) {
            Some(n) => Ok(n),
            None => refuse("owner must be 64 hex chars"),
        },
        None => match parse_node_id(self_hex) {
            Some(n) => Ok(n),
            None => refuse("self node id unparseable"),
        },
    }
}

/// Fetching content to a path.
#[derive(Debug)]
pub struct GetRequest {
    pub cid: [u8; 32],
    pub output: String,
    /// Offset and length, where only a part is wanted.
    pub range: Option<(u64, u64)>,
}

/// Reads a request to fetch content. A part is fetched if both its offset and its length are
/// given.
pub fn rpc_get(p: &Params) -> (r: Result<GetRequest, String>)
    ensures
        match (p.text_at("cid"@), p.text_at("output"@)) {
            (Some(cid), Some(output)) => if is_hex32(cid) {
                &&& r matches Ok(q)
                &&& q.cid@ == hex_bytes(cid)
                &&& q.output@ == output
                &&& q.range == (match (p.number_at("offset"@), p.number_at("length"@)) {
                    (Some(a), Some(b)) => Some((a, b)),
                    _ => None,
                })
            } else {
                refused(r, "cid must be 64 hex chars"@)
            },
            _ => refused(r, "get needs 'cid' and 'output'"@),
        },
{
    match (p.text("cid"), p.text("output")) {
        (Some(hex), Some(output)) => match parse_cid(hex.as_str()) {
            Some(cid) => {
                let range = match (p.number("offset"), p.number("length")) {
                    (Some(a), Some(b)) => Some((a, b)),
                    _ => None,
                };
                Ok(GetRequest { cid, output, range })
            },
            None => refuse("cid must be 64 hex chars"),
        },
        _ => refuse("get needs 'cid' and 'output'"),
    }
}

/// How content is fetched.
#[derive(Clone, Copy, Debug, PartialEq, Eq, Structural)]
pub enum GetRoute {
    /// The part of a private file.
    PrivateRange,
    /// The part of a public file.
    PublicRange,
    /// A private file, decrypted.
    Private,
    /// The file or the folder that a manifest describes.
    Restore,
    /// The bytes as they are.
    Raw,
}

/// How content is fetched, by whether a part is wanted and what the content is.
pub fn get_route(range: bool, is_envelope: bool, is_manifest: bool) -> (route: GetRoute)
    ensures
        route == (if range {
            if is_envelope {
                GetRoute::PrivateRange
            } else {
                GetRoute::PublicRange
            }
        } else if is_envelope {
            GetRoute::Private
        } else if is_manifest {
            GetRoute::Restore
        } else {
            GetRoute::Raw
        }),
{
    if range {
        if is_envelope {
            GetRoute::PrivateRange
        } else {
            GetRoute::PublicRange
        }
    } else if is_envelope {
        GetRoute::Private
    } else if is_manifest {
        GetRoute::Restore
    } else {
        GetRoute::Raw
    }
}

/// Reads the content that an operation is about.
pub fn rpc_cid_op(p: &Params, op: CidOp) -> (r: Result<[u8; 32], String>)
    ensures
        match p.text_at("cid"@) {
            Some(hex) if is_hex32(hex) => r matches Ok(c) && c@ == hex_bytes(hex),
            _ => refused(r, op.called() + " needs a valid 'cid'"@),
        },
{
    if let Some(hex) = p.text("cid") {
        if let Some(cid) = parse_cid(hex.as_str()) {
            return Ok(cid);
        }
    }
    let mut text = op.name();
    text.append(" needs a valid 'cid'");
    Err(text)
}

/// Reads a request to comment on content; an empty comment is none.
pub fn rpc_setmeta(p: &Params) -> (r: Result<([u8; 32], Option<String>), String>)
    ensures
        match p.text_at("cid"@) {
            Some(hex) if is_hex32(hex) => {
                &&& r matches Ok(q)
                &&& q.0@ == hex_bytes(hex)
                &&& text_of(q.1) == (match p.text_at("comment"@) {
                    Some(c) if c.len() > 0 => Some(c),
                    _ => None,
                })
            },
            _ => refused(r, "setmeta needs a valid 'cid'"@),
        },
{
    if let Some(hex) = p.text("cid") {
        if let Some(cid) = parse_cid(hex.as_str()) {
            let comment = match p.text("comment") {
                Some(c) => if c.as_str().unicode_len() > 0 {
                    Some(c)
                } else {
                    None
                },
                None => None,
            };
            return Ok((cid, comment));
        }
    }
    refuse("setmeta needs a valid 'cid'")
}

/// Two texts that a request must have.
fn both(p: &Params, a: &str, b: &str, fault: &str) -> (r: Result<(String, String), String>)
    ensures
        match (p.text_at(a@), p.text_at(b@)) {
            (Some(x), Some(y)) => r matches Ok(q) && q.0@ == x && q.1@ == y,
            _ => refused(r, fault@),
        },
{
    match (p.text(a), p.text(b)) {
        (Some(x), Some(y)) => Ok((x, y)),
        _ => refuse(fault),
    }
}

/// Reads a request to run statements: the database and the statements.
pub fn rpc_sql_exec(p: &Params) -> (r: Result<(String, String), String>)
    ensures
        match (p.text_at("ns"@), p.text_at("sql"@)) {
            (Some(ns), Some(sql)) => r matches Ok(q) && q.0@ == ns && q.1@ == sql,
            _ => refused(r, "sql_exec needs 'ns' and 'sql'"@),
        },
{
    both(p, "ns", "sql", "sql_exec needs 'ns' and 'sql'")
}

/// A query of a database.
#[derive(Debug)]
pub struct QueryRequest {
    pub owner: [u8; 32],
    pub ns: String,
    pub sql: String,
}

/// Reads a query: of this node's own database, or of another owner's.
pub fn rpc_sql_query(p: &Params, self_hex: &str) -> (r: Result<QueryRequest, String>)
    ensures
        match (p.text_at("ns"@), p.text_at("sql"@)) {
            (Some(ns), Some(sql)) => match owner_of(p.text_at("owner"@), self_hex@) {
                Some(id) => r matches Ok(q) && q.owner@ == id && q.ns@ == ns && q.sql@ == sql,
                None => refused(r, owner_fault(p.text_at("owner"@))),
            },
            _ => refused(r, "sql_query needs 'ns' and 'sql'"@),
        },
{
    match (p.text("ns"), p.text("sql")) {
        (Some(ns), Some(sql)) => match owner(p, self_hex) {
            Ok(owner) => Ok(QueryRequest { owner, ns, sql }),
            Err(e) => Err(e),
        },
        _ => refuse("sql_query needs 'ns' and 'sql'"),
    }
}

/// Reads a request to compact a database.
pub fn rpc_sql_compact(p: &Params) -> (r: Result<String, String>)
    ensures
        match p.text_at("ns"@) {
            Some(ns) => r matches Ok(q) && q@ == ns,
            None => refused(r, "sql_compact needs 'ns'"@),
        },
{
    match p.text("ns") {
        Some(ns) => Ok(ns),
        None => refuse("sql_compact needs 'ns'"),
    }
}

/// Reads a request to rebuild a database: whose, and which.
pub fn rpc_sql_recover(p: &Params, self_hex: &str) -> (r: Result<([u8; 32], String), String>)
    ensures
        match p.text_at("ns"@) {
            Some(ns) => match owner_of(p.text_at("owner"@), self_hex@) {
                Some(id) => r matches Ok(q) && q.0@ == id && q.1@ == ns,
                None => refused(r, owner_fault(p.text_at("owner"@))),
            },
            None => refused(r, "sql_recover needs 'ns'"@),
        },
{
    match p.text("ns") {
        Some(ns) => match owner(p, self_hex) {
            Ok(o) => Ok((o, ns)),
            Err(e) => Err(e),
        },
        None => refuse("sql_recover needs 'ns'"),
    }
}

/// Reads a program to publish.
pub fn rpc_publish_program(p: &Params) -> (r: Result<Vec<u8>, String>)
    ensures
        match p.text_at("wasm"@) {
            None => refused(r, "publish_program needs 'wasm' hex"@),
            Some(h) => if is_hex(trimmed(h)) {
                r matches Ok(b) && b@ == hex_bytes(trimmed(h))
            } else {
                refused(r, "bad wasm hex"@)
            },
        },
{
    match p.text("wasm") {
        None => refuse("publish_program needs 'wasm' hex"),
        Some(h) => match hex_decode(trim(h.as_str()).as_str()) {
            Some(b) => Ok(b),
            None => refuse("bad wasm hex"),
        },
    }
}

/// A run of a program on an account.
#[derive(Debug)]
pub struct AdvanceRequest {
    pub program: [u8; 32],
    pub seed: Vec<u8>,
    pub request: Vec<u8>,
}

/// Reads a request to advance an account.
pub fn rpc_program_advance(p: &Params) -> (r: Result<AdvanceRequest, String>)
    ensures
        ({
            let program = p.text_at("program"@);
            let seed = p.text_at("seed"@);
            let request = p.text_at("request"@);
            match hex32_fault(program) {
                Some(text) => refused(r, text),
                None => if !hex_field_ok(seed) {
                    refused(r, "bad seed hex"@)
                } else if !hex_field_ok(request) {
                    refused(r, "bad request hex"@)
                } else {
                    &&& r matches Ok(q)
                    &&& q.program@ == hex32_value(program)
                    &&& q.seed@ == hex_field_value(seed)
                    &&& q.request@ == hex_field_value(request)
                },
            }
        }),
{
    let program = match parse_hex32(&p.text("program")) {
        Ok(a) => a,
        Err(e) => {
            return Err(e);
        },
    };
    let seed = match parse_hex_bytes(&p.text("seed")) {
        Ok(b) => b,
        Err(_) => {
            return refuse("bad seed hex");
        },
    };
    match parse_hex_bytes(&p.text("request")) {
        Ok(request) => Ok(AdvanceRequest { program, seed, request }),
        Err(_) => refuse("bad request hex"),
    }
}

/// Reads a request for the state of an account: the program and the seed.
pub fn rpc_program_resolve(p: &Params) -> (r: Result<([u8; 32], Vec<u8>), String>)
    ensures
        ({
            let program = p.text_at("program"@);
            let seed = p.text_at("seed"@);
            match hex32_fault(program) {
                Some(text) => refused(r, text),
                None => if !hex_field_ok(seed) {
                    refused(r, "bad seed hex"@)
                } else {
                    r matches Ok(q) && q.0@ == hex32_value(program) && q.1@ == hex_field_value(seed)
                },
            }
        }),
{
    let program = match parse_hex32(&p.text("program")) {
        Ok(a) => a,
        Err(e) => {
            return Err(e);
        },
    };
    match parse_hex_bytes(&p.text("seed")) {
        Ok(seed) => Ok((program, seed)),
        Err(_) => refuse("bad seed hex"),
    }
}

/// Reads 32 bytes, white space at the ends aside.
fn trimmed32(text: &str) -> (a: Option<[u8; 32]>)
    ensures
        match a {
            Some(b) => is_hex32(trimmed(text@)) && b@ == hex_bytes(trimmed(text@)),
            None => !is_hex32(trimmed(text@)),
        },
{
    parse32(trim(text).as_str())
}

/// Reads a request to resolve a name.
pub fn rpc_resolve_name(p: &Params) -> (r: Result<([u8; 32], String), String>)
    ensures
        match (p.text_at("owner"@), p.text_at("name"@)) {
            (Some(o), Some(n)) => if is_hex32(trimmed(o)) {
                r matches Ok(q) && q.0@ == hex_bytes(trimmed(o)) && q.1@ == n
            } else {
                refused(r, "owner must be 64 hex chars"@)
            },
            _ => refused(r, "resolve_name needs 'owner' and 'name'"@),
        },
{
    match (p.text("owner"), p.text("name")) {
        (Some(o), Some(name)) => match trimmed32(o.as_str()) {
            Some(owner) => Ok((owner, name)),
            None => refuse("owner must be 64 hex chars"),
        },
        _ => refuse("resolve_name needs 'owner' and 'name'"),
    }
}

/// Reads a request to resolve an anchor.
pub fn rpc_anchor_resolve(p: &Params) -> (r: Result<String, String>)
    ensures
        match p.text_at("name"@) {
            Some(n) => r matches Ok(q) && q@ == n,
            None => refused(r, "anchor_resolve needs a 'name'"@),
        },
{
    match p.text("name") {
        Some(n) => Ok(n),
        None => refuse("anchor_resolve needs a 'name'"),
    }
}

/// Reads the account that a balance is asked of: the one named, or this node's.
pub fn rpc_ledger_balance(p: &Params, self_hex: &str) -> (r: Result<[u8; 32], String>)
    ensures
        match p.text_at("account"@) {
            Some(h) => if is_hex32(trimmed(h)) {
                r matches Ok(a) && a@ == hex_bytes(trimmed(h))
            } else {
                refused(r, "account must be 64 hex chars"@)
            },
            None => match node_of(self_hex@) {
                Some(id) => r matches Ok(a) && a@ == id,
                None => refused(r, "self node id unparseable"@),
            },
        },
{
    match p.text("account") {
        Some(h) => match trimmed32(h.as_str()) {
            Some(a) => Ok(a),
            None => refuse("account must be 64 hex chars"),
        },
        None => match parse_node_id(self_hex) {
            Some(n) => Ok(n),
            None => refuse("self node id unparseable"),
        },
    }
}

/// Reads an amount to pay.
pub fn rpc_ledger_pay(p: &Params) -> (r: Result<u64, String>)
    ensures
        match p.number_at("amount"@) {
            Some(n) => r == Ok::<u64, String>(n),
            None => refused(r, "pay needs 'amount'"@),
        },
{
    match p.number("amount") {
        Some(n) => Ok(n),
        None => refuse("pay needs 'amount'"),
    }
}

/// Reads an epoch whose reward is claimed.
pub fn rpc_ledger_reward_claim(p: &Params) -> (r: Result<u64, String>)
    ensures
        match p.number_at("epoch"@) {
            Some(n) => r == Ok::<u64, String>(n),
            None => refused(r, "reward_claim needs 'epoch'"@),
        },
{
    match p.number("epoch") {
        Some(n) => Ok(n),
        None => refuse("reward_claim needs 'epoch'"),
    }
}

/// An epoch that is settled by hand.
#[derive(Clone, Copy, Debug)]
pub struct SettleRequest {
    pub me: [u8; 32],
    pub epoch: u64,
    pub pool: u64,
    pub bytes: u64,
}

/// Reads a request to settle an epoch by hand.
pub fn rpc_ledger_settle_epoch(p: &Params, self_hex: &str) -> (r: Result<SettleRequest, String>)
    ensures
        match (p.number_at("epoch"@), p.number_at("pool"@), p.number_at("bytes"@)) {
            (Some(epoch), Some(pool), Some(bytes)) => match node_of(self_hex@) {
                Some(id) => r matches Ok(q) && q.me@ == id && q.epoch == epoch && q.pool == pool
                    && q.bytes == bytes,
                None => refused(r, "self node id unparseable"@),
            },
            _ => refused(r, "settle_epoch needs 'epoch', 'pool', and 'bytes'"@),
        },
{
    match (p.number("epoch"), p.number("pool"), p.number("bytes")) {
        (Some(epoch), Some(pool), Some(bytes)) => match parse_node_id(self_hex) {
            Some(me) => Ok(SettleRequest { me, epoch, pool, bytes }),
            None => refuse("self node id unparseable"),
        },
        _ => refuse("settle_epoch needs 'epoch', 'pool', and 'bytes'"),
    }
}

/// Reads a transfer: to whom, and how much.
pub fn rpc_ledger_transfer(p: &Params) -> (r: Result<([u8; 32], u64), String>)
    ensures
        match (p.text_at("to"@), p.number_at("amount"@)) {
            (Some(to), Some(amount)) => if is_hex32(trimmed(to)) {
                r matches Ok(q) && q.0@ == hex_bytes(trimmed(to)) && q.1 == amount
            } else {
                refused(r, "to must be 64 hex chars"@)
            },
            _ => refused(r, "transfer needs 'to' (64 hex) and 'amount'"@),
        },
{
    match (p.text("to"), p.number("amount")) {
        (Some(to), Some(amount)) => match trimmed32(to.as_str()) {
            Some(a) => Ok((a, amount)),
            None => refuse("to must be 64 hex chars"),
        },
        _ => refuse("transfer needs 'to' (64 hex) and 'amount'"),
    }
}

/// Reads a claim of a debit: of whose account, and at which place.
pub fn rpc_ledger_claim(p: &Params) -> (r: Result<([u8; 32], u64), String>)
    ensures
        match (p.text_at("debit_account"@), p.number_at("debit_nonce"@)) {
            (Some(from), Some(nonce)) => if is_hex32(trimmed(from)) {
                r matches Ok(q) && q.0@ == hex_bytes(trimmed(from)) && q.1 == nonce
            } else {
                refused(r, "debit_account must be 64 hex chars"@)
            },
            _ => refused(r, "claim needs 'debit_account' (64 hex) and 'debit_nonce'"@),
        },
{
    match (p.text("debit_account"), p.number("debit_nonce")) {
        (Some(from), Some(nonce)) => match trimmed32(from.as_str()) {
            Some(a) => Ok((a, nonce)),
            None => refuse("debit_account must be 64 hex chars"),
        },
        _ => refuse("claim needs 'debit_account' (64 hex) and 'debit_nonce'"),
    }
}

/// Reads what is deployed: the path, and the name where one is given.
pub fn rpc_deploy(p: &Params) -> (r: Result<(String, Option<String>), String>)
    ensures
        match p.text_at("path"@) {
            Some(path) => r matches Ok(q) && q.0@ == path && text_of(q.1) == p.text_at("name"@),
            None => refused(r, "deploy needs a 'path'"@),
        },
{
    match p.text("path") {
        Some(path) => Ok((path, p.text("name"))),
        None => refuse("deploy needs a 'path'"),
    }
}

/// A change that governors decide on.
#[derive(Debug)]
pub enum GovAction {
    AddGovernor([u8; 32]),
    RemoveGovernor([u8; 32]),
    SetThreshold(u64),
    SetProgram { name: String, cid: [u8; 32] },
    SetConfig { key: String, value: i64 },
}

/// Whether `r` is what the parameters of a proposal say.
pub open spec fn gov_action(p: Params, r: Result<GovAction, String>) -> bool {
    match p.text_at("action"@) {
        Some(a) if a == "add"@ => match hex32_fault(p.text_at("governor"@)) {
            Some(text) => refused(r, text),
            None => r matches Ok(GovAction::AddGovernor(g)) && g@ == hex32_value(
                p.text_at("governor"@),
            ),
        },
        Some(a) if a == "remove"@ => match hex32_fault(p.text_at("governor"@)) {
            Some(text) => refused(r, text),
            None => r matches Ok(GovAction::RemoveGovernor(g)) && g@ == hex32_value(
                p.text_at("governor"@),
            ),
        },
        Some(a) if a == "threshold"@ => match p.number_at("value"@) {
            Some(n) => r matches Ok(GovAction::SetThreshold(t)) && t == n,
            None => refused(r, "missing value"@),
        },
        Some(a) if a == "set_program"@ => match p.text_at("name"@) {
            None => refused(r, "missing name"@),
            Some(n) => match hex32_fault(p.text_at("cid"@)) {
                Some(text) => refused(r, text),
                None => r matches Ok(GovAction::SetProgram { name, cid }) && name@ == n && cid@
                    == hex32_value(p.text_at("cid"@)),
            },
        },
        Some(a) if a == "set_config"@ => match p.text_at("key"@) {
            None => refused(r, "missing key"@),
            Some(k) => match p.signed_at("value"@) {
                Some(v) => r matches Ok(GovAction::SetConfig { key, value }) && key@ == k && value
                    == v,
                None => refused(r, "missing value"@),
            },
        },
        _ => refused(r, "unknown action (add|remove|threshold|set_program|set_config)"@),
    }
}

/// Reads the change that a proposal is for.
pub fn parse_gov_action(p: &Params) -> (r: Result<GovAction, String>)
    ensures
        gov_action(*p, r),
{
    let action = match p.text("action") {
        Some(a) => a,
        None => {
            return refuse("unknown action (add|remove|threshold|set_program|set_config)");
        },
    };
    if crate::parse::same_text(action.as_str(), "add") {
        match parse_hex32(&p.text("governor")) {
            Ok(g) => Ok(GovAction::AddGovernor(g)),
            Err(e) => Err(e),
        }
    } else if crate::parse::same_text(action.as_str(), "remove") {
        match parse_hex32(&p.text("governor")) {
            Ok(g) => Ok(GovAction::RemoveGovernor(g)),
            Err(e) => Err(e),
        }
    } else if crate::parse::same_text(action.as_str(), "threshold") {
        match p.number("value") {
            Some(n) => Ok(GovAction::SetThreshold(n)),
            None => refuse("missing value"),
        }
    } else if crate::parse::same_text(action.as_str(), "set_program") {
        match p.text("name") {
            None => refuse("missing name"),
            Some(name) => match parse_hex32(&p.text("cid")) {
                Ok(cid) => Ok(GovAction::SetProgram { name, cid }),
                Err(e) => Err(e),
            },
        }
    } else if crate::parse::same_text(action.as_str(), "set_config") {
        match p.text("key") {
            None => refuse("missing key"),
            Some(key) => match p.signed("value") {
                Some(value) => Ok(GovAction::SetConfig { key, value }),
                None => refuse("missing value"),
            },
        }
    } else {
        refuse("unknown action (add|remove|threshold|set_program|set_config)")
    }
}

/// Reads a proposal: only a governor may make one.
pub fn rpc_gov_propose(p: &Params, is_governor: bool) -> (r: Result<GovAction, String>)
    ensures
        if is_governor {
            gov_action(*p, r)
        } else {
            refused(r, "this node is not a governor"@)
        },
{
    if !is_governor {
        return refuse("this node is not a governor");
    }
    parse_gov_action(p)
}

/// Reads the bytes of an approval that is handed on.
fn approval(p: &Params, missing: &str) -> (r: Result<Vec<u8>, String>)
    ensures
        match p.text_at("approval"@) {
            None => refused(r, missing@),
            Some(h) => if is_hex(trimmed(h)) {
                r matches Ok(b) && b@ == hex_bytes(trimmed(h))
            } else {
                refused(r, "bad approval hex"@)
            },
        },
{
    match p.text("approval") {
        None => refuse(missing),
        Some(h) => match hex_decode(trim(h.as_str()).as_str()) {
            Some(b) => Ok(b),
            None => refuse("bad approval hex"),
        },
    }
}

/// Reads an approval to be signed.
pub fn rpc_gov_sign(p: &Params) -> (r: Result<Vec<u8>, String>)
    ensures
        match p.text_at("approval"@) {
            None => refused(r, "gov_sign needs 'approval' hex"@),
            Some(h) => if is_hex(trimmed(h)) {
                r matches Ok(b) && b@ == hex_bytes(trimmed(h))
            } else {
                refused(r, "bad approval hex"@)
            },
        },
{
    approval(p, "gov_sign needs 'approval' hex")
}

/// Reads an approval to be appended to the chain.
pub fn rpc_gov_submit(p: &Params) -> (r: Result<Vec<u8>, String>)
    ensures
        match p.text_at("approval"@) {
            None => refused(r, "gov_submit needs 'approval' hex"@),
            Some(h) => if is_hex(trimmed(h)) {
                r matches Ok(b) && b@ == hex_bytes(trimmed(h))
            } else {
                refused(r, "bad approval hex"@)
            },
        },
{
    approval(p, "gov_submit needs 'approval' hex")
}

/// The quorum that a program is given.
#[derive(Debug)]
pub struct QuorumRequest {
    pub program: [u8; 32],
    pub members: Vec<[u8; 32]>,
    pub threshold: u64,
}

/// The entries of a list that are not blank, trimmed.
pub open spec fn entries(parts: Seq<Seq<char>>) -> Seq<Seq<char>>
    decreases parts.len(),
{
    if parts.len() == 0 {
        parts
    } else {
        let front = entries(parts.drop_last());
        if trimmed(parts.last()).len() > 0 {
            front.push(trimmed(parts.last()))
        } else {
            front
        }
    }
}

/// The first entry that is not 32 bytes in hexadecimal.
pub open spec fn first_bad(list: Seq<Seq<char>>) -> Option<Seq<char>>
    decreases list.len(),
{
    if list.len() == 0 {
        None
    } else {
        match first_bad(list.drop_last()) {
            Some(b) => Some(b),
            None => if is_hex32(list.last()) {
                None
            } else {
                Some(list.last())
            },
        }
    }
}

/// The bytes of each entry.
pub open spec fn member_bytes(list: Seq<Seq<char>>) -> Seq<Seq<u8>> {
    list.map_values(|s: Seq<char>| hex_bytes(s))
}

/// The views of byte arrays.
pub open spec fn array_views(v: Seq<[u8; 32]>) -> Seq<Seq<u8>> {
    v.map_values(|a: [u8; 32]| a@)
}

/// The entries of a list of members.
pub open spec fn listed(text: Seq<char>) -> Seq<Seq<char>> {
    entries(split_all(text, ','))
}

/// Reads a list of members, separated by commas. Blank entries are skipped.
pub fn parse_members(text: &str) -> (r: Result<Vec<[u8; 32]>, String>)
    ensures
        match first_bad(listed(text@)) {
            Some(bad) => refused(r, "bad member hex: "@ + bad),
            None => r matches Ok(m) && array_views(m@) == member_bytes(listed(text@)),
        },
{
    let parts = split(text, ',');
    let ghost all = views(parts@);
    let mut members: Vec<[u8; 32]> = Vec::new();
    let mut i: usize = 0;
    assert(all.take(0) =~= Seq::<Seq<char>>::empty());
    assert(array_views(members@) =~= member_bytes(entries(all.take(0))));
    while i < parts.len()
        invariant
            i <= parts@.len(),
            all == views(parts@),
            all == split_all(text@, ','),
            first_bad(entries(all.take(i as int))) is None,
            array_views(members@) == member_bytes(entries(all.take(i as int))),
        decreases parts@.len() - i,
    {
        let ghost done = entries(all.take(i as int));
        let ghost next = entries(all.take(i + 1));
        proof {
            assert(all.take(i + 1).drop_last() =~= all.take(i as int));
            assert(all.take(i + 1).last() == parts@[i as int]@);
        }
        let t = trim(parts[i].as_str());
        if t.as_str().unicode_len() > 0 {
            assert(next == done.push(t@));
            assert(next.drop_last() =~= done);
            match parse32(t.as_str()) {
                Some(m) => {
                    let ghost before = array_views(members@);
                    members.push(m);
                    assert(array_views(members@) =~= before.push(m@));
                    assert(member_bytes(next) =~= member_bytes(done).push(hex_bytes(t@)));
                },
                None => {
                    proof {
                        lemma_first_bad_stays(all, i + 1);
                    }
                    let mut text = String::from_str("bad member hex: ");
                    text.append(t.as_str());
                    return Err(text);
                },
            }
        }
        i = i + 1;
    }
    assert(all.take(i as int) =~= all);
    Ok(members)
}

proof fn lemma_first_bad_stays(all: Seq<Seq<char>>, i: int)
    requires
        0 <= i <= all.len(),
        first_bad(entries(all.take(i))) is Some,
    ensures
        first_bad(entries(all)) == first_bad(entries(all.take(i))),
    decreases all.len() - i,
{
    if i == all.len() {
        assert(all.take(i) =~= all);
    } else {
        let next = all.take(i + 1);
        assert(next.drop_last() =~= all.take(i));
        let e = entries(next);
        if trimmed(next.last()).len() > 0 {
            assert(e.drop_last() =~= entries(all.take(i)));
        }
        lemma_first_bad_stays(all, i + 1);
    }
}

/// Reads a request to give a program a quorum. Where no threshold is given, all members must
/// agree.
pub fn rpc_attest_bootstrap(p: &Params) -> (r: Result<QuorumRequest, String>)
    ensures
        match hex32_fault(p.text_at("program"@)) {
            Some(text) => refused(r, text),
            None => match p.text_at("members"@) {
                None => refused(r, "attest_bootstrap needs 'members' (comma-separated hex)"@),
                Some(list) => match first_bad(listed(list)) {
                    Some(bad) => refused(r, "bad member hex: "@ + bad),
                    None => {
                        &&& r matches Ok(q)
                        &&& q.program@ == hex32_value(p.text_at("program"@))
                        &&& array_views(q.members@) == member_bytes(listed(list))
                        &&& q.threshold == (match p.number_at("threshold"@) {
                            Some(n) => n,
                            None => q.members@.len() as u64,
                        })
                    },
                },
            },
        },
{
    let program = match parse_hex32(&p.text("program")) {
        Ok(a) => a,
        Err(e) => {
            return Err(e);
        },
    };
    let list = match p.text("members") {
        Some(l) => l,
        None => {
            return refuse("attest_bootstrap needs 'members' (comma-separated hex)");
        },
    };
    match parse_members(list.as_str()) {
        Ok(members) => {
            let threshold: u64 = match p.number("threshold") {
                Some(n) => n,
                None => members.len() as u64,
            };
            Ok(QuorumRequest { program, members, threshold })
        },
        Err(e) => Err(e),
    }
}

/// Reads a program and a statement about it.
fn statement(p: &Params, missing: &str) -> (r: Result<([u8; 32], Vec<u8>), String>)
    ensures
        match hex32_fault(p.text_at("program"@)) {
            Some(text) => refused(r, text),
            None => match p.text_at("statement"@) {
                None => refused(r, missing@),
                Some(s) => r matches Ok(q) && q.0@ == hex32_value(p.text_at("program"@)) && q.1@
                    == encode_utf8(s),
            },
        },
{
    let program = match parse_hex32(&p.text("program")) {
        Ok(a) => a,
        Err(e) => {
            return Err(e);
        },
    };
    match p.text("statement") {
        None => refuse(missing),
        Some(s) => Ok((program, utf8(s.as_str()))),
    }
}

/// The bytes of a text.
pub fn utf8(text: &str) -> (bytes: Vec<u8>)
    ensures
        bytes@ == encode_utf8(text@),
{
    let mut bytes: Vec<u8> = Vec::new();
    crate::bytes::push_all(&mut bytes, text.as_bytes());
    assert(bytes@ =~= encode_utf8(text@));
    bytes
}

/// Reads a statement to be proposed to a program's quorum.
pub fn rpc_attest_propose(p: &Params) -> (r: Result<([u8; 32], Vec<u8>), String>)
    ensures
        match hex32_fault(p.text_at("program"@)) {
            Some(text) => refused(r, text),
            None => match p.text_at("statement"@) {
                None => refused(r, "attest_propose needs 'statement'"@),
                Some(s) => r matches Ok(q) && q.0@ == hex32_value(p.text_at("program"@)) && q.1@
                    == encode_utf8(s),
            },
        },
{
    statement(p, "attest_propose needs 'statement'")
}

/// Reads an attestation to be signed. What is no hexadecimal cannot be read at all.
pub fn rpc_attest_cosign(p: &Params) -> (r: Result<Vec<u8>, String>)
    ensures
        match p.text_at("attestation"@) {
            None => refused(r, "attest_cosign needs 'attestation' hex"@),
            Some(h) => if is_hex(trimmed(h)) {
                r matches Ok(b) && b@ == hex_bytes(trimmed(h))
            } else {
                refused(r, "undecodable attestation"@)
            },
        },
{
    match p.text("attestation") {
        None => refuse("attest_cosign needs 'attestation' hex"),
        Some(h) => match hex_decode(trim(h.as_str()).as_str()) {
            Some(b) => Ok(b),
            None => refuse("undecodable attestation"),
        },
    }
}

/// Reads an attestation to be appended to a program's chain.
pub fn rpc_attest_submit(p: &Params) -> (r: Result<([u8; 32], Vec<u8>), String>)
    ensures
        match hex32_fault(p.text_at("program"@)) {
            Some(text) => refused(r, text),
            None => match p.text_at("attestation"@) {
                Some(h) if is_hex(trimmed(h)) => r matches Ok(q) && q.0@ == hex32_value(
                    p.text_at("program"@),
                ) && q.1@ == hex_bytes(trimmed(h)),
                _ => refused(r, "attest_submit needs a decodable 'attestation' hex"@),
            },
        },
{
    let program = match parse_hex32(&p.text("program")) {
        Ok(a) => a,
        Err(e) => {
            return Err(e);
        },
    };
    if let Some(h) = p.text("attestation") {
        if let Some(b) = hex_decode(trim(h.as_str()).as_str()) {
            return Ok((program, b));
        }
    }
    refuse("attest_submit needs a decodable 'attestation' hex")
}

/// A question whether a statement is authorised.
#[derive(Debug)]
pub struct AuthorityRequest {
    pub owner: [u8; 32],
    pub program: [u8; 32],
    pub statement: Vec<u8>,
}

/// Reads the owner of a quorum: the one named, or this node.
fn quorum_owner(p: &Params, me: &[u8; 32]) -> (r: Result<[u8; 32], String>)
    ensures
        match p.text_at("owner"@) {
            Some(o) => match node_of(o) {
                Some(id) => r matches Ok(n) && n@ == id,
                None => refused(r, "owner must be 64 hex chars"@),
            },
            None => r == Ok::<[u8; 32], String>(*me),
        },
{
    match p.text("owner") {
        Some(o) => match parse_node_id(o.as_str()) {
            Some(n) => Ok(n),
            None => refuse("owner must be 64 hex chars"),
        },
        None => Ok(*me),
    }
}

/// Reads a question whether a statement is authorised.
pub fn rpc_attest_status(p: &Params, me: &[u8; 32]) -> (r: Result<AuthorityRequest, String>)
    ensures
        match hex32_fault(p.text_at("program"@)) {
            Some(text) => refused(r, text),
            None => match p.text_at("statement"@) {
                None => refused(r, "attest_status needs 'statement'"@),
                Some(s) => match p.text_at("owner"@) {
                    Some(o) if node_of(o) is None => refused(r, "owner must be 64 hex chars"@),
                    other => {
                        &&& r matches Ok(q)
                        &&& q.program@ == hex32_value(p.text_at("program"@))
                        &&& q.statement@ == encode_utf8(s)
                        &&& q.owner@ == (match other {
                            Some(o) => node_of(o)->0,
                            None => me@,
                        })
                    },
                },
            },
        },
{
    match statement(p, "attest_status needs 'statement'") {
        Ok((program, statement)) => match quorum_owner(p, me) {
            Ok(owner) => Ok(AuthorityRequest { owner, program, statement }),
            Err(e) => Err(e),
        },
        Err(e) => Err(e),
    }
}

/// A log of ordered writes that is asked for.
#[derive(Clone, Copy, Debug)]
pub struct LogRequest {
    pub owner: [u8; 32],
    pub program: [u8; 32],
    pub account: [u8; 32],
}

/// Reads a request for a log of ordered writes.
pub fn rpc_sequence_log(p: &Params, me: &[u8; 32]) -> (r: Result<LogRequest, String>)
    ensures
        match hex32_fault(p.text_at("program"@)) {
            Some(text) => refused(r, text),
            None => match hex32_fault(p.text_at("account"@)) {
                Some(text) => refused(r, text),
                None => match p.text_at("owner"@) {
                    Some(o) if node_of(o) is None => refused(r, "owner must be 64 hex chars"@),
                    other => {
                        &&& r matches Ok(q)
                        &&& q.program@ == hex32_value(p.text_at("program"@))
                        &&& q.account@ == hex32_value(p.text_at("account"@))
                        &&& q.owner@ == (match other {
                            Some(o) => node_of(o)->0,
                            None => me@,
                        })
                    },
                },
            },
        },
{
    let program = match parse_hex32(&p.text("program")) {
        Ok(a) => a,
        Err(e) => {
            return Err(e);
        },
    };
    let account = match parse_hex32(&p.text("account")) {
        Ok(a) => a,
        Err(e) => {
            return Err(e);
        },
    };
    match quorum_owner(p, me) {
        Ok(owner) => Ok(LogRequest { owner, program, account }),
        Err(e) => Err(e),
    }
}

/// Whose app a name is: the publisher before the slash and the app behind it, or this node's
/// own.
pub open spec fn app_named(name: Seq<char>, self_hex: Seq<char>) -> (Option<Seq<u8>>, Seq<char>) {
    match split_at_first(name, '/') {
        Some((p, n)) => (node_of(p), n),
        None => (node_of(self_hex), name),
    }
}

/// An app by its publisher and its name.
#[derive(Debug)]
pub struct AppName {
    pub publisher: [u8; 32],
    pub name: String,
}

/// Reads the name of an app.
pub fn parse_app(name: &str, self_hex: &str) -> (r: Result<AppName, String>)
    ensures
        match app_named(name@, self_hex@) {
            (Some(id), n) => r matches Ok(a) && a.publisher@ == id && a.name@ == n,
            (None, _) => refused(r, "name: bad publisher (expected <hex>/<app>)"@),
        },
{
    match split_once(name, '/') {
        Some((ph, n)) => match parse_node_id(ph.as_str()) {
            Some(publisher) => Ok(AppName { publisher, name: n }),
            None => refuse("name: bad publisher (expected <hex>/<app>)"),
        },
        None => match parse_node_id(self_hex) {
            Some(publisher) => Ok(AppName { publisher, name: String::from_str(name) }),
            None => refuse("name: bad publisher (expected <hex>/<app>)"),
        },
    }
}

/// What is invoked.
#[derive(Debug)]
pub enum InvokeTarget {
    /// The program behind an anchor.
    Anchor(String),
    /// The app of a name: as it was given, and as it reads.
    Named { full: String, app: AppName },
    /// The code at an address.
    Code([u8; 32]),
}

/// An invocation: what, which function, on what input, and in which namespace if one is
/// given.
#[derive(Debug)]
pub struct InvokePlan {
    pub target: InvokeTarget,
    pub func: String,
    pub input: Vec<u8>,
    pub app_ns: Option<String>,
}

/// The text of a name where it is not empty.
pub open spec fn filled(p: Params, key: Seq<char>) -> Option<Seq<char>> {
    match p.text_at(key) {
        Some(t) if t.len() > 0 => Some(t),
        _ => None,
    }
}

fn filled_text(p: &Params, key: &str) -> (text: Option<String>)
    ensures
        text_of(text) == filled(*p, key@),
{
    match p.text(key) {
        Some(t) => if t.as_str().unicode_len() > 0 {
            Some(t)
        } else {
            None
        },
        None => None,
    }
}

/// Whether `r` is what the parameters of an invocation say: the anchor first, then the name,
/// then the address.
pub open spec fn invocation(p: Params, self_hex: Seq<char>, r: Result<InvokePlan, String>) -> bool {
    let func = match p.text_at("func"@) {
        Some(f) => f,
        None => "run"@,
    };
    let input = match p.text_at("input"@) {
        Some(t) => encode_utf8(t),
        None => Seq::empty(),
    };
    let rest = |q: InvokePlan|
        q.func@ == func && q.input@ == input && text_of(q.app_ns) == filled(p, "app_ns"@);
    match filled(p, "anchor"@) {
        Some(a) => r matches Ok(q) && rest(q) && (q.target matches InvokeTarget::Anchor(n) && n@
            == a),
        None => match filled(p, "name"@) {
            Some(name) => match app_named(name, self_hex) {
                (Some(id), n) => r matches Ok(q) && rest(q) && (
                q.target matches InvokeTarget::Named { full, app } && full@ == name
                    && app.publisher@ == id && app.name@ == n),
                (None, _) => refused(r, "name: bad publisher (expected <hex>/<app>)"@),
            },
            None => {
                let hex = match p.text_at("wasm_cid"@) {
                    Some(h) => h,
                    None => Seq::empty(),
                };
                if is_hex32(hex) {
                    r matches Ok(q) && rest(q) && (q.target matches InvokeTarget::Code(c) && c@
                        == hex_bytes(hex))
                } else {
                    refused(r, "provide 'name' or a 64-hex 'wasm_cid'"@)
                }
            },
        },
    }
}

/// Reads an invocation.
pub fn rpc_invoke(p: &Params, self_hex: &str) -> (r: Result<InvokePlan, String>)
    ensures
        invocation(*p, self_hex@, r),
{
    let func = match p.text("func") {
        Some(f) => f,
        None => String::from_str("run"),
    };
    let input: Vec<u8> = match p.text("input") {
        Some(t) => utf8(t.as_str()),
        None => Vec::new(),
    };
    proof {
        if p.text_at("input"@) is None {
            assert(input@ =~= Seq::<u8>::empty());
        }
    }
    let app_ns = filled_text(p, "app_ns");
    if let Some(anchor) = filled_text(p, "anchor") {
        return Ok(InvokePlan { target: InvokeTarget::Anchor(anchor), func, input, app_ns });
    }
    if let Some(name) = filled_text(p, "name") {
        return match parse_app(name.as_str(), self_hex) {
            Ok(app) => Ok(
                InvokePlan {
                    target: InvokeTarget::Named { full: name, app },
                    func,
                    input,
                    app_ns,
                },
            ),
            Err(e) => Err(e),
        };
    }
    let hex = match p.text("wasm_cid") {
        Some(h) => h,
        None => String::new(),
    };
    match parse_cid(hex.as_str()) {
        Some(cid) => Ok(InvokePlan { target: InvokeTarget::Code(cid), func, input, app_ns }),
        None => refuse("provide 'name' or a 64-hex 'wasm_cid'"),
    }
}

/// What is called, and whose quorum it may consult.
#[derive(Debug)]
pub struct Invocation {
    pub wasm_cid: [u8; 32],
    pub app_ns: String,
    /// The owner that the registry vouches for; none for code called by its address.
    pub program_owner: Option<[u8; 32]>,
}

/// The namespace that an invocation runs in: the one given, or the default.
fn namespace(given: &Option<String>, default: &str) -> (ns: String)
    ensures
        ns@ == (match text_of(*given) {
            Some(t) => t,
            None => default@,
        }),
{
    match given {
        Some(ns) => ns.clone(),
        None => String::from_str(default),
    }
}

/// What the invocation of an app calls, given what the registry resolved its name to. The
/// owner is the one the name resolved under, never one that the caller gave.
pub fn invoke_named(
    full: &str,
    app: &AppName,
    app_ns: &Option<String>,
    found: &Option<[u8; 32]>,
) -> (r: Result<Invocation, String>)
    ensures
        match *found {
            Some(cid) => {
                &&& r matches Ok(i)
                &&& i.wasm_cid == cid
                &&& i.program_owner == Some(app.publisher)
                &&& i.app_ns@ == (match text_of(*app_ns) {
                    Some(ns) => ns,
                    None => app.name@,
                })
            },
            None => refused(r, "app '"@ + full@ + "' not found (deploy it first?)"@),
        },
{
    match found {
        Some(cid) => Ok(
            Invocation {
                wasm_cid: *cid,
                app_ns: namespace(app_ns, app.name.as_str()),
                program_owner: Some(app.publisher),
            },
        ),
        None => {
            let mut text = String::from_str("app '");
            text.append(full);
            text.append("' not found (deploy it first?)");
            Err(text)
        },
    }
}

/// What the invocation of code by its address calls. Nobody vouches for its owner.
pub fn invoke_code(cid: [u8; 32], app_ns: &Option<String>) -> (i: Invocation)
    ensures
        i.wasm_cid == cid,
        i.program_owner is None,
        i.app_ns@ == (match text_of(*app_ns) {
            Some(ns) => ns,
            None => ""@,
        }),
{
    Invocation { wasm_cid: cid, app_ns: namespace(app_ns, ""), program_owner: None }
}

/// Who owns what a request is about: the node that it names, and this node where it names none.
pub proof fn law_requests_are_about_their_owner(id: Seq<u8>, me: Seq<u8>)
    requires
        id.len() == 32,
        me.len() == 32,
    ensures
        owner_of(Some(crate::text::hex_text(id)), crate::text::hex_text(me)) == Some(id),
        owner_of(None, crate::text::hex_text(me)) == Some(me),
{
    crate::control::params::law_hex_fields_read_back(id);
    crate::control::params::law_hex_fields_read_back(me);
}

/// A proposal to seat or unseat a governor is for the very governor that it names.
pub proof fn law_governors_are_proposed_by_name(
    p: Params,
    g: Seq<u8>,
    r: Result<GovAction, String>,
)
    requires
        g.len() == 32,
        p.text_at("governor"@) == Some(crate::text::hex_text(g)),
        gov_action(p, r),
    ensures
        p.text_at("action"@) == Some("add"@) ==> r is Ok && r->Ok_0 is AddGovernor
            && r->Ok_0->AddGovernor_0@ == g,
        p.text_at("action"@) == Some("remove"@) ==> r is Ok && r->Ok_0 is RemoveGovernor
            && r->Ok_0->RemoveGovernor_0@ == g,
{
    crate::control::params::law_hex_fields_read_back(g);
    reveal_strlit("add");
    reveal_strlit("remove");
    assert("remove"@.len() != "add"@.len());
}

/// A proposal changes what it says and nothing else: the threshold to its number, a program to
/// its content, a setting to its value.
pub proof fn law_proposals_say_what_they_change(p: Params, r: Result<GovAction, String>)
    requires
        gov_action(p, r),
    ensures
        r is Ok && r->Ok_0 is AddGovernor ==> p.text_at("action"@) == Some("add"@),
        r is Ok && r->Ok_0 is RemoveGovernor ==> p.text_at("action"@) == Some("remove"@),
        r is Ok && r->Ok_0 is SetThreshold ==> p.text_at("action"@) == Some("threshold"@)
            && p.number_at("value"@) == Some(r->Ok_0->SetThreshold_0),
        r is Ok && r->Ok_0 is SetProgram ==> p.text_at("action"@) == Some("set_program"@)
            && p.text_at("name"@) == Some(r->Ok_0->SetProgram_name@) && p.text_at("cid"@) is Some
            && is_hex32(trimmed(p.text_at("cid"@)->0)) && r->Ok_0->SetProgram_cid@ == hex_bytes(
            trimmed(p.text_at("cid"@)->0),
        ),
        r is Ok && r->Ok_0 is SetConfig ==> p.text_at("action"@) == Some("set_config"@)
            && p.text_at("key"@) == Some(r->Ok_0->SetConfig_key@) && p.signed_at("value"@) == Some(
            r->Ok_0->SetConfig_value,
        ),
        p.text_at("action"@) is None ==> r is Err,
{
}

proof fn lemma_entries(a: Seq<Seq<char>>, b: Seq<Seq<char>>)
    ensures
        entries(a + b) == entries(a) + entries(b),
    decreases b.len(),
{
    if b.len() == 0 {
        assert(a + b =~= a);
        assert(entries(a) + entries(b) =~= entries(a));
    } else {
        assert((a + b).drop_last() =~= a + b.drop_last());
        assert((a + b).last() == b.last());
        lemma_entries(a, b.drop_last());
        assert(entries(a + b) =~= entries(a) + entries(b));
    }
}

/// A list is read between its commas, without blanks around its entries; an entry that is blank is
/// none.
pub proof fn law_lists_are_read_between_commas(entry: Seq<char>, rest: Seq<char>)
    requires
        !entry.contains(','),
    ensures
        trimmed(entry).len() > 0 ==> listed(entry + seq![','] + rest) == seq![trimmed(entry)]
            + listed(rest),
        trimmed(entry).len() == 0 ==> listed(entry + seq![','] + rest) == listed(rest),
        trimmed(entry).len() > 0 ==> listed(entry) == seq![trimmed(entry)],
        trimmed(entry).len() == 0 ==> listed(entry).len() == 0,
{
    crate::parse::law_parted_texts_read_back(entry, rest, ',');
    let one = seq![entry];
    assert(one.drop_last() =~= Seq::empty());
    assert(entries(one.drop_last()) =~= Seq::empty());
    assert(one.last() == entry);
    lemma_entries(one, split_all(rest, ','));
    if trimmed(entry).len() > 0 {
        assert(entries(one) =~= seq![trimmed(entry)]);
    } else {
        assert(entries(one) =~= Seq::empty());
        assert(entries(one) + listed(rest) =~= listed(rest));
    }
}

/// A list of members is refused for the first entry that is no identity, and only for such a one.
pub proof fn law_the_first_bad_entry_is_told(list: Seq<Seq<char>>)
    ensures
        first_bad(list) is None <==> forall|i: int|
            0 <= i < list.len() ==> is_hex32(#[trigger] list[i]),
        first_bad(list) matches Some(b) ==> exists|i: int|
            {
                &&& 0 <= i < list.len()
                &&& #[trigger] list[i] == b
                &&& !is_hex32(b)
                &&& forall|k: int| 0 <= k < i ==> is_hex32(#[trigger] list[k])
            },
        member_bytes(list).len() == list.len(),
        forall|i: int|
            0 <= i < list.len() ==> #[trigger] member_bytes(list)[i] == hex_bytes(list[i]),
    decreases list.len(),
{
    if list.len() > 0 {
        let front = list.drop_last();
        let n = list.len() - 1;
        law_the_first_bad_entry_is_told(front);
        if let Some(b) = first_bad(front) {
            let i = choose|i: int|
                {
                    &&& 0 <= i < front.len()
                    &&& #[trigger] front[i] == b
                    &&& !is_hex32(b)
                    &&& forall|k: int| 0 <= k < i ==> is_hex32(#[trigger] front[k])
                };
            assert(list[i] == b);
            assert forall|k: int| 0 <= k < i implies is_hex32(#[trigger] list[k]) by {
                assert(is_hex32(front[k]));
            }
        } else {
            assert forall|k: int| 0 <= k < n implies is_hex32(#[trigger] list[k]) by {
                assert(is_hex32(front[k]));
            }
            assert(list[n] == list.last());
        }
    }
}

/// An app is named by its publisher, a slash and its name, which may hold more of them; and by its
/// name alone where it is one's own.
pub proof fn law_apps_are_named_by_publisher(publisher: Seq<u8>, me: Seq<u8>, name: Seq<char>)
    requires
        publisher.len() == 32,
        me.len() == 32,
    ensures
        app_named(
            crate::text::hex_text(publisher) + seq!['/'] + name,
            crate::text::hex_text(me),
        ) == (Some(publisher), name),
        !name.contains('/') ==> app_named(name, crate::text::hex_text(me)) == (Some(me), name),
{
    let hex = crate::text::hex_text(publisher);
    crate::control::params::law_hex_fields_read_back(publisher);
    crate::control::params::law_hex_fields_read_back(me);
    crate::text::law_hex_round_trip(publisher);
    assert(!hex.contains('/')) by {
        if hex.contains('/') {
            let k = choose|k: int| 0 <= k < hex.len() && hex[k] == '/';
            assert(crate::text::hex_value(hex[k]) >= 0);
        }
    }
    crate::parse::law_parted_texts_read_back(hex, name, '/');
    crate::parse::law_texts_part_at_the_first_place(name, '/');
}

/// What is invoked: the anchor where one is given, else the app of the name, else the code at the
/// address; and one of them must be. The function is the one given, and the input its text.
pub proof fn law_anchors_come_before_names_and_code(
    p: Params,
    self_hex: Seq<char>,
    r: Result<InvokePlan, String>,
)
    requires
        invocation(p, self_hex, r),
    ensures
        ({
            let anchor = p.text_at("anchor"@);
            let name = p.text_at("name"@);
            let code = p.text_at("wasm_cid"@);
            let by_anchor = anchor is Some && anchor->0.len() > 0;
            let by_name = name is Some && name->0.len() > 0;
            &&& by_anchor ==> r is Ok && r->Ok_0.target is Anchor && r->Ok_0.target->Anchor_0@
                == anchor->0
            &&& !by_anchor && by_name && r is Ok ==> r->Ok_0.target is Named
                && r->Ok_0.target->full@ == name->0
            &&& !by_anchor && !by_name && code is Some && is_hex32(code->0) ==> r is Ok
                && r->Ok_0.target is Code && r->Ok_0.target->Code_0@ == hex_bytes(code->0)
            &&& !by_anchor && !by_name && code is None ==> r is Err
            &&& r is Ok && p.text_at("func"@) is Some ==> r->Ok_0.func@ == p.text_at("func"@)->0
            &&& r is Ok && p.text_at("func"@) is None ==> r->Ok_0.func@ == seq!['r', 'u', 'n']
            &&& r is Ok && p.text_at("input"@) is Some ==> r->Ok_0.input@ == encode_utf8(
                p.text_at("input"@)->0,
            )
            &&& r is Ok && p.text_at("input"@) is None ==> r->Ok_0.input@.len() == 0
            &&& r is Ok && r->Ok_0.app_ns is Some ==> p.text_at("app_ns"@) == Some(
                r->Ok_0.app_ns->0@,
            ) && r->Ok_0.app_ns->0@.len() > 0
            &&& r is Ok && p.text_at("app_ns"@) is Some && p.text_at("app_ns"@)->0.len() > 0
                ==> r->Ok_0.app_ns is Some
        }),
{
    reveal_strlit("run");
    assert("run"@ =~= seq!['r', 'u', 'n']);
}

/// What is published is pinned unless that is declined, and private only where that is asked for;
/// a folder cannot be private.
pub proof fn law_published_items_are_pinned(
    p: Params,
    r: Result<PublishRequest, String>,
    is_dir: bool,
    private: bool,
    kind: Result<PublishKind, String>,
)
    requires
        call_ensures(rpc_publish, (&p,), r),
        call_ensures(publish_kind, (is_dir, private), kind),
    ensures
        r is Ok <==> p.text_at("path"@) is Some,
        r is Ok ==> Some(r->Ok_0.path@) == p.text_at("path"@),
        r is Ok && p.flag_at("pin"@) is None ==> r->Ok_0.pin,
        r is Ok ==> (p.flag_at("pin"@) matches Some(b) ==> r->Ok_0.pin == b),
        r is Ok && p.flag_at("private"@) is None ==> !r->Ok_0.private,
        r is Ok ==> (p.flag_at("private"@) matches Some(b) ==> r->Ok_0.private == b),
        kind is Err <==> is_dir && private,
        kind is Ok ==> (kind->Ok_0 is Folder <==> is_dir) && (kind->Ok_0 is PrivateFile <==> private),
{
}

/// A request for content names it and where it goes; a part of it is asked for by offset and
/// length together. Private content is fetched as such, and a manifest is restored where all of it
/// is asked for.
pub proof fn law_content_is_fetched_as_what_it_is(
    p: Params,
    cid: Seq<u8>,
    output: Seq<char>,
    r: Result<GetRequest, String>,
    range: bool,
    is_envelope: bool,
    is_manifest: bool,
    way: GetRoute,
)
    requires
        cid.len() == 32,
        p.text_at("cid"@) == Some(crate::text::hex_text(cid)),
        p.text_at("output"@) == Some(output),
        call_ensures(rpc_get, (&p,), r),
        call_ensures(get_route, (range, is_envelope, is_manifest), way),
    ensures
        r is Ok && r->Ok_0.cid@ == cid && r->Ok_0.output@ == output,
        r->Ok_0.range is Some <==> p.number_at("offset"@) is Some && p.number_at("length"@) is Some,
        r->Ok_0.range matches Some((a, b)) ==> p.number_at("offset"@) == Some(a) && p.number_at(
            "length"@,
        ) == Some(b),
        way is PrivateRange || way is Private <==> is_envelope,
        way is PrivateRange || way is PublicRange <==> range,
        way is Restore <==> !range && !is_envelope && is_manifest,
        way is Raw <==> !range && !is_envelope && !is_manifest,
{
    crate::text::law_hex_round_trip(cid);
}

/// What requests to the ledger come to: a transfer goes to the account that is named, a claim is of
/// the debit that is named, and both and a payment are of the very numbers.
pub proof fn law_ledger_requests_are_taken_literally(
    p: Params,
    account: Seq<u8>,
    transfer: Result<([u8; 32], u64), String>,
    claim: Result<([u8; 32], u64), String>,
    pay: Result<u64, String>,
    reward: Result<u64, String>,
)
    requires
        account.len() == 32,
        call_ensures(rpc_ledger_transfer, (&p,), transfer),
        call_ensures(rpc_ledger_claim, (&p,), claim),
        call_ensures(rpc_ledger_pay, (&p,), pay),
        call_ensures(rpc_ledger_reward_claim, (&p,), reward),
    ensures
        p.text_at("to"@) == Some(crate::text::hex_text(account)) ==> (p.number_at("amount"@) matches
            Some(n) ==> transfer is Ok && transfer->Ok_0.0@ == account && transfer->Ok_0.1 == n),
        p.text_at("to"@) is None || p.number_at("amount"@) is None ==> transfer is Err,
        p.text_at("debit_account"@) == Some(crate::text::hex_text(account)) ==> (p.number_at(
            "debit_nonce"@,
        ) matches Some(n) ==> claim is Ok && claim->Ok_0.0@ == account && claim->Ok_0.1 == n),
        p.text_at("debit_account"@) is None || p.number_at("debit_nonce"@) is None ==> claim is Err,
        pay is Ok <==> p.number_at("amount"@) is Some,
        pay is Ok ==> Some(pay->Ok_0) == p.number_at("amount"@),
        reward is Ok <==> p.number_at("epoch"@) is Some,
        reward is Ok ==> Some(reward->Ok_0) == p.number_at("epoch"@),
{
    crate::control::params::law_hex_fields_read_back(account);
}

/// The balance that is asked for is that of the account that is named, and of this node where none
/// is; an epoch is settled in the name of this node, by the very numbers.
pub proof fn law_balances_are_of_the_account_named(
    p: Params,
    account: Seq<u8>,
    self_hex: &str,
    me: Seq<u8>,
    balance: Result<[u8; 32], String>,
    settle: Result<SettleRequest, String>,
)
    requires
        account.len() == 32,
        me.len() == 32,
        self_hex@ == crate::text::hex_text(me),
        call_ensures(rpc_ledger_balance, (&p, self_hex), balance),
        call_ensures(rpc_ledger_settle_epoch, (&p, self_hex), settle),
    ensures
        p.text_at("account"@) == Some(crate::text::hex_text(account)) ==> balance is Ok
            && balance->Ok_0@ == account,
        p.text_at("account"@) is None ==> balance is Ok && balance->Ok_0@ == me,
        settle is Ok <==> p.number_at("epoch"@) is Some && p.number_at("pool"@) is Some
            && p.number_at("bytes"@) is Some,
        settle is Ok ==> settle->Ok_0.me@ == me && p.number_at("epoch"@) == Some(
            settle->Ok_0.epoch,
        ) && p.number_at("pool"@) == Some(settle->Ok_0.pool) && p.number_at("bytes"@) == Some(
            settle->Ok_0.bytes,
        ),
{
    crate::control::params::law_hex_fields_read_back(account);
    crate::control::params::law_hex_fields_read_back(me);
}

/// Queries are of the database that is named, of the owner that is named or of this node; what is
/// written goes to one's own.
pub proof fn law_queries_are_of_the_owner(
    p: Params,
    id: Seq<u8>,
    self_hex: &str,
    me: Seq<u8>,
    exec: Result<(String, String), String>,
    query: Result<QueryRequest, String>,
    recover: Result<([u8; 32], String), String>,
)
    requires
        id.len() == 32,
        me.len() == 32,
        self_hex@ == crate::text::hex_text(me),
        call_ensures(rpc_sql_exec, (&p,), exec),
        call_ensures(rpc_sql_query, (&p, self_hex), query),
        call_ensures(rpc_sql_recover, (&p, self_hex), recover),
    ensures
        exec is Ok <==> p.text_at("ns"@) is Some && p.text_at("sql"@) is Some,
        exec is Ok ==> p.text_at("ns"@) == Some(exec->Ok_0.0@) && p.text_at("sql"@) == Some(
            exec->Ok_0.1@,
        ),
        query is Ok ==> p.text_at("ns"@) == Some(query->Ok_0.ns@) && p.text_at("sql"@) == Some(
            query->Ok_0.sql@,
        ),
        p.text_at("ns"@) is Some && p.text_at("sql"@) is Some && p.text_at("owner"@) == Some(
            crate::text::hex_text(id),
        ) ==> query is Ok && query->Ok_0.owner@ == id,
        p.text_at("ns"@) is Some && p.text_at("sql"@) is Some && p.text_at("owner"@) is None
            ==> query is Ok && query->Ok_0.owner@ == me,
        p.text_at("ns"@) is None ==> exec is Err && query is Err && recover is Err,
        recover is Ok ==> p.text_at("ns"@) == Some(recover->Ok_0.1@),
        p.text_at("ns"@) is Some && p.text_at("owner"@) is None ==> recover is Ok
            && recover->Ok_0.0@ == me,
{
    law_requests_are_about_their_owner(id, me);
}

/// Only a governor proposes; a program and the bytes of requests to it are taken as they are given.
pub proof fn law_only_governors_propose(
    p: Params,
    proposal: Result<GovAction, String>,
    program: Seq<u8>,
    seed: Seq<u8>,
    request: Seq<u8>,
    advance: Result<AdvanceRequest, String>,
    find: Result<([u8; 32], Vec<u8>), String>,
)
    requires
        call_ensures(rpc_gov_propose, (&p, false), proposal),
        program.len() == 32,
        p.text_at("program"@) == Some(crate::text::hex_text(program)),
        p.text_at("seed"@) == Some(crate::text::hex_text(seed)),
        p.text_at("request"@) == Some(crate::text::hex_text(request)),
        call_ensures(rpc_program_advance, (&p,), advance),
        call_ensures(rpc_program_resolve, (&p,), find),
    ensures
        proposal is Err,
        advance is Ok && advance->Ok_0.program@ == program && advance->Ok_0.seed@ == seed
            && advance->Ok_0.request@ == request,
        find is Ok && find->Ok_0.0@ == program && find->Ok_0.1@ == seed,
{
    crate::control::params::law_hex_fields_read_back(program);
    crate::control::params::law_hex_fields_read_back(seed);
    crate::control::params::law_hex_fields_read_back(request);
}

/// What is invoked by name is the code that was found under it, in the name of its publisher and in
/// a namespace of its own unless one is given; code by its address has no publisher.
pub proof fn law_named_apps_run_in_their_namespace(
    full: &str,
    app: AppName,
    given: Option<String>,
    cid: [u8; 32],
    found: Result<Invocation, String>,
    lost: Result<Invocation, String>,
    code: Invocation,
)
    requires
        call_ensures(invoke_named, (full, &app, &given, &Some(cid)), found),
        call_ensures(invoke_named, (full, &app, &given, &None), lost),
        call_ensures(invoke_code, (cid, &given), code),
    ensures
        found is Ok && found->Ok_0.wasm_cid == cid && found->Ok_0.program_owner == Some(
            app.publisher,
        ),
        given is None ==> found->Ok_0.app_ns@ == app.name@,
        given matches Some(ns) ==> found->Ok_0.app_ns@ == ns@ && code.app_ns@ == ns@,
        lost is Err,
        code.wasm_cid == cid,
        code.program_owner is None,
        given is None ==> code.app_ns@.len() == 0,
{
    reveal_strlit("");
}

/// A list of members that are all identities is read as these, in order; one entry that is none
/// has the whole list refused.
pub proof fn law_members_are_read_in_order(
    text: &str,
    r: Result<Vec<[u8; 32]>, String>,
    i: int,
)
    requires
        call_ensures(parse_members, (text,), r),
        0 <= i < listed(text@).len(),
    ensures
        !is_hex32(listed(text@)[i]) ==> r is Err,
        r is Ok ==> r->Ok_0@.len() == listed(text@).len() && r->Ok_0@[i]@ == hex_bytes(
            listed(text@)[i],
        ),
        (forall|k: int| 0 <= k < listed(text@).len() ==> is_hex32(#[trigger] listed(text@)[k]))
            ==> r is Ok,
{
    law_the_first_bad_entry_is_told(listed(text@));
    if r is Ok {
        let m = r->Ok_0@;
        assert(array_views(m) == member_bytes(listed(text@)));
        assert(array_views(m).len() == m.len());
        assert(array_views(m)[i] == m[i]@);
    }
}

/// What requests about statements come to: they are about the program that is named and the text of
/// the statement, and about the quorum of the owner that is named, or of this node. A quorum that
/// is given without a threshold decides by all its members.
pub proof fn law_statements_are_about_their_program(
    p: Params,
    program: Seq<u8>,
    text: Seq<char>,
    id: Seq<u8>,
    me: [u8; 32],
    propose: Result<([u8; 32], Vec<u8>), String>,
    status: Result<AuthorityRequest, String>,
    quorum: Result<QuorumRequest, String>,
)
    requires
        program.len() == 32,
        id.len() == 32,
        p.text_at("program"@) == Some(crate::text::hex_text(program)),
        p.text_at("statement"@) == Some(text),
        call_ensures(rpc_attest_propose, (&p,), propose),
        call_ensures(rpc_attest_status, (&p, &me), status),
        call_ensures(rpc_attest_bootstrap, (&p,), quorum),
    ensures
        propose is Ok && propose->Ok_0.0@ == program && propose->Ok_0.1@ == encode_utf8(text),
        p.text_at("owner"@) is None ==> status is Ok && status->Ok_0.owner@ == me@,
        p.text_at("owner"@) == Some(crate::text::hex_text(id)) ==> status is Ok
            && status->Ok_0.owner@ == id,
        status is Ok ==> status->Ok_0.program@ == program && status->Ok_0.statement@ == encode_utf8(
            text,
        ),
        quorum is Ok ==> quorum->Ok_0.program@ == program,
        quorum is Ok && p.number_at("threshold"@) is None && quorum->Ok_0.members@.len()
            <= u64::MAX ==> quorum->Ok_0.threshold == quorum->Ok_0.members@.len(),
        quorum is Ok ==> (p.number_at("threshold"@) matches Some(n) ==> quorum->Ok_0.threshold == n),
{
    crate::control::params::law_hex_fields_read_back(program);
    crate::control::params::law_hex_fields_read_back(id);
}

} // verus!
