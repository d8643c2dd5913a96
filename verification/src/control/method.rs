//! The methods of the control interface.

use crate::parse::same_text;
use vstd::prelude::*;
use vstd::string::*;

verus! {

/// What is done to content.
#[derive(Clone, Copy, Debug, PartialEq, Eq, Structural)]
pub enum CidOp {
    Pin,
    Unpin,
    Want,
    Unwant,
    Fetch,
    Delete,
    Ban,
    Unban,
    DelMeta,
}

impl CidOp {
    /// The name that an operation is called by.
    pub open spec fn called(self) -> Seq<char> {
        match self {
            CidOp::Pin => "pin"@,
            CidOp::Unpin => "unpin"@,
            CidOp::Want => "want"@,
            CidOp::Unwant => "unwant"@,
            CidOp::Fetch => "fetch"@,
            CidOp::Delete => "delete"@,
            CidOp::Ban => "ban"@,
            CidOp::Unban => "unban"@,
            CidOp::DelMeta => "delmeta"@,
        }
    }

    /// The name that the operation is called by.
    pub fn name(&self) -> (name: String)
        ensures
            name@ == self.called(),
    {
        match self {
            CidOp::Pin => String::from_str("pin"),
            CidOp::Unpin => String::from_str("unpin"),
            CidOp::Want => String::from_str("want"),
            CidOp::Unwant => String::from_str("unwant"),
            CidOp::Fetch => String::from_str("fetch"),
            CidOp::Delete => String::from_str("delete"),
            CidOp::Ban => String::from_str("ban"),
            CidOp::Unban => String::from_str("unban"),
            CidOp::DelMeta => String::from_str("delmeta"),
        }
    }
}

/// A method of the control interface.
#[derive(Clone, Copy, Debug, PartialEq, Eq, Structural)]
pub enum Method {
    CidOp(CidOp),
    Status,
    Identity,
    Publish,
    Files,
    Get,
    Invoke,
    Deploy,
    PublishProgram,
    ProgramAdvance,
    ProgramResolve,
    ResolveName,
    AnchorResolve,
    LedgerBalance,
    LedgerTransfer,
    LedgerClaim,
    LedgerPay,
    LedgerRewardClaim,
    LedgerSettleEpoch,
    LedgerVerification,
    Gov,
    GovPropose,
    GovSign,
    GovSubmit,
    AttestBootstrap,
    AttestPropose,
    AttestCosign,
    AttestSubmit,
    AttestStatus,
    SequenceLog,
    Programs,
    Config,
    Committee,
    AttestList,
    Board,
    Apps,
    Setmeta,
    SqlExec,
    SqlQuery,
    SqlRecover,
    SqlCompact,
}

/// The method of a name.
pub open spec fn method_named(name: Seq<char>) -> Option<Method> {
    if name == "status"@ {
        Some(Method::Status)
    } else if name == "identity"@ {
        Some(Method::Identity)
    } else if name == "publish"@ {
        Some(Method::Publish)
    } else if name == "files"@ {
        Some(Method::Files)
    } else if name == "get"@ {
        Some(Method::Get)
    } else if name == "pin"@ {
        Some(Method::CidOp(CidOp::Pin))
    } else if name == "unpin"@ {
        Some(Method::CidOp(CidOp::Unpin))
    } else if name == "want"@ {
        Some(Method::CidOp(CidOp::Want))
    } else if name == "unwant"@ {
        Some(Method::CidOp(CidOp::Unwant))
    } else if name == "fetch"@ {
        Some(Method::CidOp(CidOp::Fetch))
    } else if name == "delete"@ {
        Some(Method::CidOp(CidOp::Delete))
    } else if name == "ban"@ {
        Some(Method::CidOp(CidOp::Ban))
    } else if name == "unban"@ {
        Some(Method::CidOp(CidOp::Unban))
    } else if name == "invoke"@ {
        Some(Method::Invoke)
    } else if name == "deploy"@ {
        Some(Method::Deploy)
    } else if name == "publish_program"@ {
        Some(Method::PublishProgram)
    } else if name == "program_advance"@ {
        Some(Method::ProgramAdvance)
    } else if name == "program_resolve"@ {
        Some(Method::ProgramResolve)
    } else if name == "resolve_name"@ {
        Some(Method::ResolveName)
    } else if name == "anchor_resolve"@ {
        Some(Method::AnchorResolve)
    } else if name == "ledger_balance"@ {
        Some(Method::LedgerBalance)
    } else if name == "ledger_transfer"@ {
        Some(Method::LedgerTransfer)
    } else if name == "ledger_claim"@ {
        Some(Method::LedgerClaim)
    } else if name == "ledger_pay"@ {
        Some(Method::LedgerPay)
    } else if name == "ledger_reward_claim"@ {
        Some(Method::LedgerRewardClaim)
    } else if name == "ledger_settle_epoch"@ {
        Some(Method::LedgerSettleEpoch)
    } else if name == "ledger_verification"@ {
        Some(Method::LedgerVerification)
    } else if name == "gov"@ {
        Some(Method::Gov)
    } else if name == "gov_propose"@ {
        Some(Method::GovPropose)
    } else if name == "gov_sign"@ {
        Some(Method::GovSign)
    } else if name == "gov_submit"@ {
        Some(Method::GovSubmit)
    } else if name == "attest_bootstrap"@ {
        Some(Method::AttestBootstrap)
    } else if name == "attest_propose"@ {
        Some(Method::AttestPropose)
    } else if name == "attest_cosign"@ {
        Some(Method::AttestCosign)
    } else if name == "attest_submit"@ {
        Some(Method::AttestSubmit)
    } else if name == "attest_status"@ {
        Some(Method::AttestStatus)
    } else if name == "sequence_log"@ {
        Some(Method::SequenceLog)
    } else if name == "programs"@ {
        Some(Method::Programs)
    } else if name == "config"@ {
        Some(Method::Config)
    } else if name == "committee"@ {
        Some(Method::Committee)
    } else if name == "attest_list"@ {
        Some(Method::AttestList)
    } else if name == "board"@ {
        Some(Method::Board)
    } else if name == "apps"@ {
        Some(Method::Apps)
    } else if name == "setmeta"@ {
        Some(Method::Setmeta)
    } else if name == "delmeta"@ {
        Some(Method::CidOp(CidOp::DelMeta))
    } else if name == "sql_exec"@ {
        Some(Method::SqlExec)
    } else if name == "sql_query"@ {
        Some(Method::SqlQuery)
    } else if name == "sql_recover"@ {
        Some(Method::SqlRecover)
    } else if name == "sql_compact"@ {
        Some(Method::SqlCompact)
    } else {
        None
    }
}

/// The method of a request; none where it names none that there is.
pub fn method_of(name: Option<&str>) -> (method: Option<Method>)
    ensures
        method == (match name {
            Some(n) => method_named(n@),
            None => None,
        }),
{
    let n = match name {
        Some(n) => n,
        None => {
            return None;
        },
    };
    if same_text(n, "status") {
        Some(Method::Status)
    } else if same_text(n, "identity") {
        Some(Method::Identity)
    } else if same_text(n, "publish") {
        Some(Method::Publish)
    } else if same_text(n, "files") {
        Some(Method::Files)
    } else if same_text(n, "get") {
        Some(Method::Get)
    } else if same_text(n, "pin") {
        Some(Method::CidOp(CidOp::Pin))
    } else if same_text(n, "unpin") {
        Some(Method::CidOp(CidOp::Unpin))
    } else if same_text(n, "want") {
        Some(Method::CidOp(CidOp::Want))
    } else if same_text(n, "unwant") {
        Some(Method::CidOp(CidOp::Unwant))
    } else if same_text(n, "fetch") {
        Some(Method::CidOp(CidOp::Fetch))
    } else if same_text(n, "delete") {
        Some(Method::CidOp(CidOp::Delete))
    } else if same_text(n, "ban") {
        Some(Method::CidOp(CidOp::Ban))
    } else if same_text(n, "unban") {
        Some(Method::CidOp(CidOp::Unban))
    } else if same_text(n, "invoke") {
        Some(Method::Invoke)
    } else if same_text(n, "deploy") {
        Some(Method::Deploy)
    } else if same_text(n, "publish_program") {
        Some(Method::PublishProgram)
    } else if same_text(n, "program_advance") {
        Some(Method::ProgramAdvance)
    } else if same_text(n, "program_resolve") {
        Some(Method::ProgramResolve)
    } else if same_text(n, "resolve_name") {
        Some(Method::ResolveName)
    } else if same_text(n, "anchor_resolve") {
        Some(Method::AnchorResolve)
    } else if same_text(n, "ledger_balance") {
        Some(Method::LedgerBalance)
    } else if same_text(n, "ledger_transfer") {
        Some(Method::LedgerTransfer)
    } else if same_text(n, "ledger_claim") {
        Some(Method::LedgerClaim)
    } else if same_text(n, "ledger_pay") {
        Some(Method::LedgerPay)
    } else if same_text(n, "ledger_reward_claim") {
        Some(Method::LedgerRewardClaim)
    } else if same_text(n, "ledger_settle_epoch") {
        Some(Method::LedgerSettleEpoch)
    } else if same_text(n, "ledger_verification") {
        Some(Method::LedgerVerification)
    } else if same_text(n, "gov") {
        Some(Method::Gov)
    } else if same_text(n, "gov_propose") {
        Some(Method::GovPropose)
    } else if same_text(n, "gov_sign") {
        Some(Method::GovSign)
    } else if same_text(n, "gov_submit") {
        Some(Method::GovSubmit)
    } else if same_text(n, "attest_bootstrap") {
        Some(Method::AttestBootstrap)
    } else if same_text(n, "attest_propose") {
        Some(Method::AttestPropose)
    } else if same_text(n, "attest_cosign") {
        Some(Method::AttestCosign)
    } else if same_text(n, "attest_submit") {
        Some(Method::AttestSubmit)
    } else if same_text(n, "attest_status") {
        Some(Method::AttestStatus)
    } else if same_text(n, "sequence_log") {
        Some(Method::SequenceLog)
    } else if same_text(n, "programs") {
        Some(Method::Programs)
    } else if same_text(n, "config") {
        Some(Method::Config)
    } else if same_text(n, "committee") {
        Some(Method::Committee)
    } else if same_text(n, "attest_list") {
        Some(Method::AttestList)
    } else if same_text(n, "board") {
        Some(Method::Board)
    } else if same_text(n, "apps") {
        Some(Method::Apps)
    } else if same_text(n, "setmeta") {
        Some(Method::Setmeta)
    } else if same_text(n, "delmeta") {
        Some(Method::CidOp(CidOp::DelMeta))
    } else if same_text(n, "sql_exec") {
        Some(Method::SqlExec)
    } else if same_text(n, "sql_query") {
        Some(Method::SqlQuery)
    } else if same_text(n, "sql_recover") {
        Some(Method::SqlRecover)
    } else if same_text(n, "sql_compact") {
        Some(Method::SqlCompact)
    } else {
        None
    }
}

/// The operation of a name, out of those that the dashboard offers.
pub open spec fn action_named(name: Seq<char>) -> Option<CidOp> {
    if name == "pin"@ {
        Some(CidOp::Pin)
    } else if name == "unpin"@ {
        Some(CidOp::Unpin)
    } else if name == "want"@ {
        Some(CidOp::Want)
    } else if name == "unwant"@ {
        Some(CidOp::Unwant)
    } else if name == "fetch"@ {
        Some(CidOp::Fetch)
    } else if name == "delete"@ {
        Some(CidOp::Delete)
    } else if name == "ban"@ {
        Some(CidOp::Ban)
    } else if name == "unban"@ {
        Some(CidOp::Unban)
    } else {
        None
    }
}

/// The operation that a dashboard action asks for, or an error that names it.
pub fn action_of(op: &str) -> (r: Result<CidOp, String>)
    ensures
        match action_named(op@) {
            Some(o) => r == Ok::<CidOp, String>(o),
            None => r matches Err(text) && text@ == "unknown op "@ + op@,
        },
{
    if same_text(op, "pin") {
        Ok(CidOp::Pin)
    } else if same_text(op, "unpin") {
        Ok(CidOp::Unpin)
    } else if same_text(op, "want") {
        Ok(CidOp::Want)
    } else if same_text(op, "unwant") {
        Ok(CidOp::Unwant)
    } else if same_text(op, "fetch") {
        Ok(CidOp::Fetch)
    } else if same_text(op, "delete") {
        Ok(CidOp::Delete)
    } else if same_text(op, "ban") {
        Ok(CidOp::Ban)
    } else if same_text(op, "unban") {
        Ok(CidOp::Unban)
    } else {
        let mut text = String::from_str("unknown op ");
        text.append(op);
        Err(text)
    }
}

/// What a request is answered that names no method.
pub const METHOD_NOT_FOUND: i64 = -32601;

/// What a request is answered that cannot be read.
pub const PARSE_ERROR: i64 = -32700;

/// What a request is answered that failed.
pub const REQUEST_FAILED: i64 = -32000;

/// No two names call the same method, so that each method is called by one name only.
pub proof fn law_methods_have_one_name(a: Seq<char>, b: Seq<char>)
    requires
        method_named(a) is Some,
        method_named(a) == method_named(b),
    ensures
        a == b,
{
}

/// A name that calls an operation on content is the name of that operation.
pub proof fn law_operations_are_called_by_name(name: Seq<char>, op: CidOp)
    ensures
        method_named(name) == Some(Method::CidOp(op)) ==> name == op.called(),
        action_named(name) == Some(op) ==> name == op.called(),
        action_named(name) != Some(CidOp::DelMeta),
{
}

/// Every operation that the page offers is called by its name.
pub proof fn law_every_action_is_offered(op: CidOp)
    requires
        op != CidOp::DelMeta,
    ensures
        action_named(op.called()) == Some(op),
{
    reveal_strlit("pin");
    reveal_strlit("unpin");
    reveal_strlit("want");
    reveal_strlit("unwant");
    reveal_strlit("fetch");
    reveal_strlit("delete");
    reveal_strlit("ban");
    reveal_strlit("unban");
    assert("pin"@[0] != "ban"@[0]);
    assert("unpin"@[2] != "unban"@[2]);
    assert("unpin"@[0] != "fetch"@[0]);
    assert("unban"@[0] != "fetch"@[0]);
    assert("unwant"@[0] != "delete"@[0]);
}

/// What calls a method is its name: of whatever method a name calls, it is the name that the
/// method has.
pub proof fn law_names_call_their_method(name: Seq<char>)
    ensures
        match method_named(name) {
            Some(Method::Status) => name == "status"@,
            Some(Method::Identity) => name == "identity"@,
            Some(Method::Publish) => name == "publish"@,
            Some(Method::Files) => name == "files"@,
            Some(Method::Get) => name == "get"@,
            Some(Method::Invoke) => name == "invoke"@,
            Some(Method::Deploy) => name == "deploy"@,
            Some(Method::PublishProgram) => name == "publish_program"@,
            Some(Method::ProgramAdvance) => name == "program_advance"@,
            Some(Method::ProgramResolve) => name == "program_resolve"@,
            Some(Method::ResolveName) => name == "resolve_name"@,
            Some(Method::AnchorResolve) => name == "anchor_resolve"@,
            Some(Method::LedgerBalance) => name == "ledger_balance"@,
            Some(Method::LedgerTransfer) => name == "ledger_transfer"@,
            Some(Method::LedgerClaim) => name == "ledger_claim"@,
            Some(Method::LedgerPay) => name == "ledger_pay"@,
            Some(Method::LedgerRewardClaim) => name == "ledger_reward_claim"@,
            Some(Method::LedgerSettleEpoch) => name == "ledger_settle_epoch"@,
            Some(Method::LedgerVerification) => name == "ledger_verification"@,
            Some(Method::Gov) => name == "gov"@,
            Some(Method::GovPropose) => name == "gov_propose"@,
            Some(Method::GovSign) => name == "gov_sign"@,
            Some(Method::GovSubmit) => name == "gov_submit"@,
            Some(Method::AttestBootstrap) => name == "attest_bootstrap"@,
            Some(Method::AttestPropose) => name == "attest_propose"@,
            Some(Method::AttestCosign) => name == "attest_cosign"@,
            Some(Method::AttestSubmit) => name == "attest_submit"@,
            Some(Method::AttestStatus) => name == "attest_status"@,
            Some(Method::SequenceLog) => name == "sequence_log"@,
            Some(Method::Programs) => name == "programs"@,
            Some(Method::Config) => name == "config"@,
            Some(Method::Committee) => name == "committee"@,
            Some(Method::AttestList) => name == "attest_list"@,
            Some(Method::Board) => name == "board"@,
            Some(Method::Apps) => name == "apps"@,
            Some(Method::Setmeta) => name == "setmeta"@,
            Some(Method::SqlExec) => name == "sql_exec"@,
            Some(Method::SqlQuery) => name == "sql_query"@,
            Some(Method::SqlRecover) => name == "sql_recover"@,
            Some(Method::SqlCompact) => name == "sql_compact"@,
            Some(Method::CidOp(op)) => name == op.called(),
            None => true,
        },
{
}

} // verus!
