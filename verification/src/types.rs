//! Replicated log entries, what applying them gives, and the identifiers
//! around them.

use vstd::prelude::*;
use crate::model::{Compare, Mutation, MutationResult, RangeOp, RangeResult, TxnOp, TxnResult};
use crate::text;

verus! {

/// Cluster-unique node identifier.
pub type NodeId = u64;

/// Lease identifier.
pub type LeaseId = i64;

/// Marker of the consensus type configuration.
#[derive(Debug, Clone, Copy, PartialEq, Eq, Structural)]
pub struct TypeConfig;

/// Position of an entry in the replicated log.
#[derive(Debug, Clone, Copy, PartialEq, Eq, Structural)]
pub struct LogId {
    pub term: u64,
    pub node_id: u64,
    pub index: u64,
}

/// A cluster-membership change forwarded to the leader.
#[derive(Debug)]
pub enum MembershipChange {
    /// Add a node as a learner reachable at an address.
    AddLearner { node_id: NodeId, addr: String },
    /// Replace the voter set.
    SetVoters { voters: Vec<NodeId> },
}

/// What granting a lease gave.
#[derive(Debug, Clone, Copy, PartialEq, Eq, Structural)]
pub struct LeaseGrantResult {
    pub id: LeaseId,
    pub ttl_secs: i64,
    pub revision: i64,
}

/// What revoking a lease gave.
#[derive(Debug, Clone, Copy, PartialEq, Eq, Structural)]
pub struct LeaseRevokeResult {
    pub revision: i64,
    pub deleted_keys: i64,
}

/// What a lease has left.
#[derive(Debug)]
pub struct LeaseTtlResult {
    pub id: LeaseId,
    pub granted_ttl_secs: i64,
    pub remaining_ttl_secs: i64,
    pub keys: Vec<Vec<u8>>,
}

/// A replicated entry.
#[derive(Debug)]
pub enum FastetcdLogEntry {
    Apply { mutations: Vec<Mutation> },
    Txn { compares: Vec<Compare>, success: Vec<TxnOp>, failure: Vec<TxnOp> },
    Compact { rev: i64 },
    LeaseGrant { id: LeaseId, ttl_secs: i64, now_unix: i64 },
    LeaseRevoke { id: LeaseId },
    LeaseKeepAlive { id: LeaseId, now_unix: i64 },
    Noop,
}

/// What applying an entry gave.
#[derive(Debug)]
pub enum FastetcdLogResponse {
    Apply { revision: i64, results: Vec<MutationResult> },
    Txn(TxnResult),
    Compact { compact_rev: i64 },
    LeaseGrant(LeaseGrantResult),
    LeaseRevoke(LeaseRevokeResult),
    LeaseKeepAlive(LeaseTtlResult),
    Noop { revision: i64 },
}

impl FastetcdLogResponse {
    /// The revision a response header carries for this outcome; a
    /// keep-alive has none and gives zero.
    pub open spec fn revision(self) -> i64 {
        match self {
            FastetcdLogResponse::Apply { revision, .. } => revision,
            FastetcdLogResponse::Txn(t) => t.revision,
            FastetcdLogResponse::Compact { compact_rev } => compact_rev,
            FastetcdLogResponse::LeaseGrant(g) => g.revision,
            FastetcdLogResponse::LeaseRevoke(r) => r.revision,
            FastetcdLogResponse::LeaseKeepAlive(_) => 0,
            FastetcdLogResponse::Noop { revision } => revision,
        }
    }

    /// The revision a response header carries for this outcome.
    pub fn header_revision(&self) -> (r: i64)
        ensures
            r == self.revision(),
    {
        match self {
            FastetcdLogResponse::Apply { revision, .. } => *revision,
            FastetcdLogResponse::Txn(t) => t.revision,
            FastetcdLogResponse::Compact { compact_rev } => *compact_rev,
            FastetcdLogResponse::LeaseGrant(g) => g.revision,
            FastetcdLogResponse::LeaseRevoke(r) => r.revision,
            FastetcdLogResponse::LeaseKeepAlive(_) => 0,
            FastetcdLogResponse::Noop { revision } => *revision,
        }
    }

    /// The name of the outcome's kind.
    pub open spec fn kind(self) -> Seq<char> {
        match self {
            FastetcdLogResponse::Apply { .. } => "Apply"@,
            FastetcdLogResponse::Txn(_) => "Txn"@,
            FastetcdLogResponse::Compact { .. } => "Compact"@,
            FastetcdLogResponse::LeaseGrant(_) => "LeaseGrant"@,
            FastetcdLogResponse::LeaseRevoke(_) => "LeaseRevoke"@,
            FastetcdLogResponse::LeaseKeepAlive(_) => "LeaseKeepAlive"@,
            FastetcdLogResponse::Noop { .. } => "Noop"@,
        }
    }

    /// The name of the outcome's kind.
    pub fn kind_str(&self) -> (r: &'static str)
        ensures
            r@ == self.kind(),
    {
        match self {
            FastetcdLogResponse::Apply { .. } => "Apply",
            FastetcdLogResponse::Txn(_) => "Txn",
            FastetcdLogResponse::Compact { .. } => "Compact",
            FastetcdLogResponse::LeaseGrant(_) => "LeaseGrant",
            FastetcdLogResponse::LeaseRevoke(_) => "LeaseRevoke",
            FastetcdLogResponse::LeaseKeepAlive(_) => "LeaseKeepAlive",
            FastetcdLogResponse::Noop { .. } => "Noop",
        }
    }

    /// The outcome as an error shows it: of one that carries a single
    /// number that too, of any other its kind.
    pub open spec fn shown(self) -> Seq<char> {
        match self {
            FastetcdLogResponse::Compact { compact_rev } => "Compact { compact_rev: "@
                + text::dec_int(compact_rev as int) + " }"@,
            FastetcdLogResponse::Noop { revision } => "Noop { revision: "@ + text::dec_int(
                revision as int,
            ) + " }"@,
            _ => self.kind(),
        }
    }

    /// The outcome as an error shows it.
    pub fn show(&self) -> (r: String)
        ensures
            r@ == self.shown(),
    {
        match self {
            FastetcdLogResponse::Compact { compact_rev } => text::join3(
                "Compact { compact_rev: ",
                text::dec_i64(*compact_rev).as_str(),
                " }",
            ),
            FastetcdLogResponse::Noop { revision } => text::join3(
                "Noop { revision: ",
                text::dec_i64(*revision).as_str(),
                " }",
            ),
            _ => String::from_str(self.kind_str()),
        }
    }
}

/// A read that does not go through the log.
#[derive(Debug)]
pub struct RangeRead {
    pub op: RangeOp,
}

/// What such a read gives.
#[derive(Debug)]
pub struct RangeReadResponse {
    pub result: RangeResult,
    pub revision: i64,
}

/// A linearizable read handed to the leader.
#[derive(Debug)]
pub struct ForwardedRead {
    pub key: Vec<u8>,
    pub range_end: Vec<u8>,
    pub limit: u64,
    pub revision: i64,
    pub keys_only: bool,
    pub count_only: bool,
}

/// The revision of an outcome is the one that the outcome itself carries;
/// a keep-alive changes nothing and carries none.
pub proof fn law_outcome_carries_its_revision(r: FastetcdLogResponse)
    ensures
        r matches FastetcdLogResponse::Apply { revision, .. } ==> r.revision() == revision,
        r matches FastetcdLogResponse::Txn(t) ==> r.revision() == t.revision,
        r matches FastetcdLogResponse::Compact { compact_rev } ==> r.revision() == compact_rev,
        r matches FastetcdLogResponse::LeaseGrant(g) ==> r.revision() == g.revision,
        r matches FastetcdLogResponse::LeaseRevoke(v) ==> r.revision() == v.revision,
        r matches FastetcdLogResponse::Noop { revision } ==> r.revision() == revision,
        r is LeaseKeepAlive ==> r.revision() == 0,
{
}

/// An outcome is shown under the name of its own kind.
pub proof fn law_outcome_is_shown_by_its_kind(r: FastetcdLogResponse)
    ensures
        r is Apply ==> r.kind() == "Apply"@ && r.shown() == "Apply"@,
        r is Txn ==> r.kind() == "Txn"@ && r.shown() == "Txn"@,
        r is LeaseGrant ==> r.kind() == "LeaseGrant"@ && r.shown() == "LeaseGrant"@,
        r is LeaseRevoke ==> r.kind() == "LeaseRevoke"@ && r.shown() == "LeaseRevoke"@,
        r is LeaseKeepAlive ==> r.kind() == "LeaseKeepAlive"@ && r.shown() == "LeaseKeepAlive"@,
        r matches FastetcdLogResponse::Compact { compact_rev } ==> r.kind() == "Compact"@
            && r.shown() == "Compact { compact_rev: "@ + text::dec_int(compact_rev as int)
            + " }"@,
        r matches FastetcdLogResponse::Noop { revision } ==> r.kind() == "Noop"@ && r.shown()
            == "Noop { revision: "@ + text::dec_int(revision as int) + " }"@,
{
}

} // verus!
