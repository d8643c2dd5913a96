//! Anchors: names that governance pins to network-owned programs.

use vstd::prelude::*;
use vstd::string::*;

verus! {

/// The anchor of the value program.
pub const TOKEN_ANCHOR: &'static str = "token";

/// The anchor of the egress-valuation program.
pub const ECONOMY_EGRESS_ANCHOR: &'static str = "economy-egress";

/// The program that governance pins to a name, and its interface version.
#[derive(Clone, Copy, Debug)]
pub struct AnchorResolution {
    pub cid: [u8; 32],
    pub interface_version: u32,
}

/// The configuration key that holds an anchor's interface version.
pub fn iface_key(name: &str) -> (key: String)
    ensures
        key@ == "anchor:"@ + name@ + ":iface"@,
{
    let mut key = String::from_str("anchor:");
    key.append(name);
    key.append(":iface");
    key
}

/// The interface version that a configured value stands for: its low 32 bits, or one
/// where it is unset or negative.
pub open spec fn iface_version(configured: Option<i64>) -> u32 {
    match configured {
        Some(v) => if v >= 0 {
            v as u32
        } else {
            1
        },
        None => 1,
    }
}

/// A call of a program.
#[derive(Debug)]
pub struct InvokeRequest {
    pub app_ns: String,
    pub wasm_cid: [u8; 32],
    pub func: String,
    pub input: Vec<u8>,
}

/// Finds the programs behind anchors.
#[derive(Clone, Copy, Debug)]
pub struct AnchorDispatcher;

impl AnchorDispatcher {
    /// What an anchor resolves to, from what governance pins to its name and what is
    /// configured at its [`iface_key`].
    pub fn resolve(pinned: Option<[u8; 32]>, configured: Option<i64>) -> (resolution: Option<
        AnchorResolution,
    >)
        ensures
            match resolution {
                Some(r) => pinned == Some(r.cid) && r.interface_version == iface_version(configured),
                None => pinned is None,
            },
    {
        match pinned {
            None => None,
            Some(cid) => {
                let interface_version: u32 = match configured {
                    Some(v) => if v >= 0 {
                        v as u32
                    } else {
                        1
                    },
                    None => 1,
                };
                Some(AnchorResolution { cid, interface_version })
            },
        }
    }

    /// The call of the program that is anchored at a name, or an error that says that none is.
    pub fn invoke_anchor(
        name: &str,
        func: &str,
        input: Vec<u8>,
        resolution: &Option<AnchorResolution>,
    ) -> (r: Result<InvokeRequest, String>)
        ensures
            match r {
                Ok(req) => {
                    &&& resolution matches Some(res)
                    &&& req.wasm_cid == res.cid
                    &&& req.app_ns@ == name@
                    &&& req.func@ == func@
                    &&& req.input == input
                },
                Err(text) => *resolution is None && text@ == "no program anchored at `"@ + name@ + "`"@,
            },
    {
        match resolution {
            Some(res) => Ok(
                InvokeRequest {
                    app_ns: String::from_str(name),
                    wasm_cid: res.cid,
                    func: String::from_str(func),
                    input,
                },
            ),
            None => {
                let mut text = String::from_str("no program anchored at `");
                text.append(name);
                text.append("`");
                Err(text)
            },
        }
    }
}

/// The version of an interface is the one configured, and the first where none is or a negative
/// one.
pub proof fn law_interfaces_start_at_one(v: i64)
    ensures
        iface_version(None) == 1,
        v < 0 ==> iface_version(Some(v)) == 1,
        0 <= v <= u32::MAX ==> iface_version(Some(v)) == v,
{
}

/// An anchor stands for the program that is pinned to it, and for nothing where none is; it is
/// invoked in a namespace of its own name, with the very function and input.
pub proof fn law_anchors_stand_for_what_is_pinned(
    pinned: Option<[u8; 32]>,
    configured: Option<i64>,
    resolution: Option<AnchorResolution>,
    name: &str,
    func: &str,
    input: Vec<u8>,
    r: Result<InvokeRequest, String>,
)
    requires
        call_ensures(AnchorDispatcher::resolve, (pinned, configured), resolution),
        call_ensures(AnchorDispatcher::invoke_anchor, (name, func, input, &resolution), r),
    ensures
        resolution is Some <==> pinned is Some,
        r is Ok <==> pinned is Some,
        resolution matches Some(a) ==> Some(a.cid) == pinned,
        r matches Ok(q) ==> Some(q.wasm_cid) == pinned && q.app_ns@ == name@ && q.func@ == func@
            && q.input == input,
{
}

} // verus!
