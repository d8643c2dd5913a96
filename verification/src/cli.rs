//! What the command line asks of the running node.

use crate::control::params::{refuse, refused};
use crate::parse::{
    chars_of, i64_of, parse_i64, split_at_first, split_once, text_between, trim, trimmed,
};
use vstd::prelude::*;
use vstd::string::*;

verus! {

/// The first `n` characters of a text, or all of it.
pub fn trunc(s: &str, n: usize) -> (t: String)
    ensures
        t@ == (if n < s@.len() {
            s@.take(n as int)
        } else {
            s@
        }),
{
    let chars = chars_of(s);
    let end: usize = if n < chars.len() {
        n
    } else {
        chars.len()
    };
    let t = text_between(chars.as_slice(), 0, end);
    assert(t@ =~= s@.take(end as int));
    assert(end == s@.len() ==> t@ =~= s@);
    t
}

/// The ending of a noun for `n` things.
pub fn plural(n: usize) -> (ending: String)
    ensures
        ending@ == (if n == 1 {
            ""@
        } else {
            "s"@
        }),
{
    if n == 1 {
        String::from_str("")
    } else {
        String::from_str("s")
    }
}

/// A governance change, as it is sent to the node.
#[derive(Debug)]
pub enum Proposal {
    Add(String),
    Remove(String),
    Threshold(u64),
    SetProgram { name: String, cid: String },
    SetConfig { key: String, value: i64 },
}

/// What the command line gave of a governance change.
#[derive(Debug)]
pub struct ProposalArgs {
    pub add: Option<String>,
    pub remove: Option<String>,
    pub threshold: Option<u64>,
    /// `name=cid`
    pub set_program: Option<String>,
    /// `key=value`
    pub set_config: Option<String>,
}

/// What `name=cid` proposes.
pub open spec fn proposes_program(text: Seq<char>, r: Result<Proposal, String>) -> bool {
    match split_at_first(text, '=') {
        Some((a, b)) => r is Ok && r->Ok_0 is SetProgram && r->Ok_0->name@ == a && r->Ok_0->cid@
            == b,
        None => refused(r, "--set-program name=cid"@),
    }
}

/// What `key=value` proposes.
pub open spec fn proposes_config(text: Seq<char>, r: Result<Proposal, String>) -> bool {
    match split_at_first(text, '=') {
        Some((a, b)) => match i64_of(trimmed(b)) {
            Some(n) => r is Ok && r->Ok_0 is SetConfig && r->Ok_0->key@ == a && r->Ok_0->value
                == n,
            None => refused(r, "--set-config value must be an integer"@),
        },
        None => refused(r, "--set-config key=value"@),
    }
}

/// The change that the options ask for: the first that is given, in the order of the fields.
pub fn gov_proposal(args: ProposalArgs) -> (r: Result<Proposal, String>)
    ensures
        match (args.add, args.remove, args.threshold, args.set_program, args.set_config) {
            (Some(id), _, _, _, _) => r == Ok::<Proposal, String>(Proposal::Add(id)),
            (None, Some(id), _, _, _) => r == Ok::<Proposal, String>(Proposal::Remove(id)),
            (None, None, Some(t), _, _) => r == Ok::<Proposal, String>(Proposal::Threshold(t)),
            (None, None, None, Some(p), _) => proposes_program(p@, r),
            (None, None, None, None, Some(c)) => proposes_config(c@, r),
            (None, None, None, None, None) => refused(
                r,
                "give one of --add/--remove/--threshold/--set-program/--set-config"@,
            ),
        },
{
    if let Some(id) = args.add {
        return Ok(Proposal::Add(id));
    }
    if let Some(id) = args.remove {
        return Ok(Proposal::Remove(id));
    }
    if let Some(t) = args.threshold {
        return Ok(Proposal::Threshold(t));
    }
    if let Some(text) = args.set_program {
        return match split_once(text.as_str(), '=') {
            Some((name, cid)) => Ok(Proposal::SetProgram { name, cid }),
            None => refuse("--set-program name=cid"),
        };
    }
    if let Some(text) = args.set_config {
        return match split_once(text.as_str(), '=') {
            Some((key, value)) => {
                let number = trim(value.as_str());
                match parse_i64(number.as_str()) {
                    Some(value) => Ok(Proposal::SetConfig { key, value }),
                    None => refuse("--set-config value must be an integer"),
                }
            },
            None => refuse("--set-config key=value"),
        };
    }
    refuse("give one of --add/--remove/--threshold/--set-program/--set-config")
}

/// The owner and the name that `owner/name` stands for: the text is split at the first slash.
pub fn resolve_target(name: &str) -> (r: Result<(String, String), String>)
    ensures
        match split_at_first(name@, '/') {
            Some((a, b)) => r is Ok && r->Ok_0.0@ == a && r->Ok_0.1@ == b,
            None => refused(r, "name: bad publisher (expected <hex>/<app>)"@),
        },
{
    match split_once(name, '/') {
        Some((owner, app)) => Ok((owner, app)),
        None => refuse("name: bad publisher (expected <hex>/<app>)"),
    }
}

/// What an invocation is called when it is reported: by its name, else by its namespace. One
/// that gives neither a name nor code is refused.
pub fn invoke_label(name: Option<&str>, app: Option<&str>, wasm: Option<&str>) -> (r: Result<
    String,
    String,
>)
    ensures
        match (name, app, wasm) {
            (None, _, None) => refused(r, "provide --name <app> or --wasm <cid>"@),
            (Some(n), _, _) => r is Ok && r->Ok_0@ == n@,
            (None, Some(a), Some(_)) => r is Ok && r->Ok_0@ == a@,
            (None, None, Some(_)) => r is Ok && r->Ok_0@ == "app"@,
        },
{
    match (name, app, wasm) {
        (None, _, None) => refuse("provide --name <app> or --wasm <cid>"),
        (Some(n), _, _) => Ok(String::from_str(n)),
        (None, Some(a), Some(_)) => Ok(String::from_str(a)),
        (None, None, Some(_)) => Ok(String::from_str("app")),
    }
}

/// A program is proposed by its name, the sign of equality and its content: the name is all that
/// stands before the first such sign. Without one nothing is proposed.
pub proof fn law_programs_are_proposed_by_name(
    name: Seq<char>,
    cid: Seq<char>,
    r: Result<Proposal, String>,
)
    requires
        !name.contains('='),
    ensures
        proposes_program(name + seq!['='] + cid, r) ==> r is Ok && r->Ok_0 is SetProgram
            && r->Ok_0->name@ == name && r->Ok_0->cid@ == cid,
        proposes_program(name, r) ==> r is Err,
{
    crate::parse::law_parted_texts_read_back(name, cid, '=');
    crate::parse::law_texts_part_at_the_first_place(name, '=');
}

/// A setting is proposed by its key, the sign of equality and a whole number.
pub proof fn law_settings_are_proposed_by_key(
    key: Seq<char>,
    value: Seq<char>,
    r: Result<Proposal, String>,
)
    requires
        !key.contains('='),
    ensures
        proposes_config(key + seq!['='] + value, r) && i64_of(trimmed(value)) is Some ==> r is Ok
            && r->Ok_0 is SetConfig && r->Ok_0->key@ == key && Some(r->Ok_0->value) == i64_of(
            trimmed(value),
        ),
        proposes_config(key + seq!['='] + value, r) && i64_of(trimmed(value)) is None ==> r is Err,
        proposes_config(key, r) ==> r is Err,
{
    crate::parse::law_parted_texts_read_back(key, value, '=');
    crate::parse::law_texts_part_at_the_first_place(key, '=');
}

/// The change that the options ask for is the first that is given, as it is given; and where none
/// is given nothing is proposed.
pub proof fn law_the_first_option_counts(args: ProposalArgs, r: Result<Proposal, String>)
    requires
        call_ensures(gov_proposal, (args,), r),
    ensures
        args.add matches Some(id) ==> r is Ok && r->Ok_0 == Proposal::Add(id),
        args.add is None ==> (args.remove matches Some(id) ==> r is Ok && r->Ok_0
            == Proposal::Remove(id)),
        args.add is None && args.remove is None ==> (args.threshold matches Some(t) ==> r is Ok
            && r->Ok_0 == Proposal::Threshold(t)),
        args.add is None && args.remove is None && args.threshold is None && args.set_program
            is None && args.set_config is None ==> r is Err,
        r is Ok && r->Ok_0 is SetProgram ==> args.set_program is Some && args.add is None
            && args.remove is None && args.threshold is None,
        r is Ok && r->Ok_0 is SetConfig ==> args.set_config is Some && args.set_program is None,
{
}

/// A text is cut to its first characters and no other; and one is singular.
pub proof fn law_texts_are_cut_at_the_end(s: &str, n: usize, t: String, k: usize, ending: String)
    requires
        call_ensures(trunc, (s, n), t),
        call_ensures(plural, (k,), ending),
    ensures
        t@.len() <= n,
        t@ == s@.take(t@.len() as int),
        s@.len() <= n ==> t@ == s@,
        s@.len() > n ==> t@.len() == n,
        k == 1 ==> ending@.len() == 0,
        k != 1 ==> ending@ == seq!['s'],
{
    reveal_strlit("");
    reveal_strlit("s");
    assert("s"@ =~= seq!['s']);
    assert(t@ =~= s@.take(t@.len() as int));
}

} // verus!
