//! State shared by the services, and how a request that only the leader
//! can serve is routed.

use vstd::prelude::*;
use crate::auth::AuthState;
use crate::model::RangeResult;
use crate::space::SpaceGuard;
use crate::status::{Code, Status};
use crate::text::{dec_u64, join3};
use crate::types::{FastetcdLogResponse, MembershipChange, NodeId};

verus! {

/// What the consensus runtime reports of itself.
#[derive(Debug, Clone, Copy, PartialEq, Eq, Structural)]
pub struct RaftMetrics {
    pub current_term: u64,
    pub current_leader: Option<NodeId>,
    pub last_log_index: Option<u64>,
    pub last_applied: Option<u64>,
}

/// Header of every response.
#[derive(Debug, Clone, Copy, PartialEq, Eq, Structural)]
pub struct ResponseHeader {
    pub cluster_id: u64,
    pub member_id: u64,
    pub revision: i64,
    pub raft_term: u64,
}

/// What the services share: stable identifiers, the latest report of the
/// consensus runtime, sessions and space.
#[derive(Debug)]
pub struct ServerState {
    pub cluster_id: u64,
    pub member_id: u64,
    pub metrics: RaftMetrics,
    pub auth: AuthState,
    pub space: SpaceGuard,
}

/// What handing a request to the local consensus node came to.
#[derive(Debug)]
pub enum RaftOutcome<T> {
    /// It was served here.
    Applied(T),
    /// This node is not the leader, and this one is.
    ForwardTo(NodeId),
    /// It failed, or no leader is known.
    Failed(String),
}

/// What follows from an outcome.
#[derive(Debug)]
pub enum Next<T> {
    /// The request is answered.
    Done(Result<T, Status>),
    /// The request goes to the leader.
    Forward(NodeId),
}

/// An answer made of what was applied, or a refusal that carries what
/// failed; a known leader is asked instead.
pub open spec fn routed<T>(outcome: RaftOutcome<T>, what: Seq<char>, next: Next<T>) -> bool {
    match outcome {
        RaftOutcome::Applied(x) => next == Next::<T>::Done(Ok(x)),
        RaftOutcome::ForwardTo(leader) => next == Next::<T>::Forward(leader),
        RaftOutcome::Failed(e) => next matches Next::Done(r) && r is Err && r->Err_0.says(
            Code::Unavailable,
            what + e@,
        ),
    }
}

/// What the leader answered, or a refusal that names it.
pub open spec fn relayed<T>(
    leader: NodeId,
    answer: Result<T, String>,
    what: Seq<char>,
    r: Result<T, Status>,
) -> bool {
    match answer {
        Ok(x) => r == Result::<T, Status>::Ok(x),
        Err(e) => r is Err && r->Err_0.says(
            Code::Unavailable,
            what + crate::text::dec(leader as nat) + ": "@ + e@,
        ),
    }
}

fn route<T>(outcome: RaftOutcome<T>, what: &str) -> (next: Next<T>)
    ensures
        routed(outcome, what@, next),
{
    match outcome {
        RaftOutcome::Applied(x) => Next::Done(Ok(x)),
        RaftOutcome::ForwardTo(leader) => Next::Forward(leader),
        RaftOutcome::Failed(e) => Next::Done(
            Err(
                Status::from_string(
                    Code::Unavailable,
                    String::from_str(what).concat(e.as_str()),
                ),
            ),
        ),
    }
}

fn relay<T>(leader: NodeId, answer: Result<T, String>, what: &str) -> (r: Result<T, Status>)
    ensures
        relayed(leader, answer, what@, r),
{
    match answer {
        Ok(x) => Ok(x),
        Err(e) => {
            let text = join3(what, dec_u64(leader).as_str(), ": ").concat(e.as_str());
            Err(Status::from_string(Code::Unavailable, text))
        },
    }
}

impl ServerState {
    /// State from its parts.
    pub fn new(
        cluster_id: u64,
        member_id: u64,
        metrics: RaftMetrics,
        auth: AuthState,
        space: SpaceGuard,
    ) -> (r: ServerState)
        ensures
            r == (ServerState { cluster_id, member_id, metrics, auth, space }),
    {
        ServerState { cluster_id, member_id, metrics, auth, space }
    }

    /// The current term.
    pub fn current_term(&self) -> (r: u64)
        ensures
            r == self.metrics.current_term,
    {
        self.metrics.current_term
    }

    /// Whether this node is the leader.
    pub fn is_leader(&self) -> (r: bool)
        ensures
            r == (self.metrics.current_leader == Some(self.member_id)),
    {
        match self.metrics.current_leader {
            Some(id) => id == self.member_id,
            None => false,
        }
    }

    /// Route a proposed write.
    pub fn propose(outcome: RaftOutcome<FastetcdLogResponse>) -> (next: Next<FastetcdLogResponse>)
        ensures
            routed(outcome, "raft client_write: "@, next),
    {
        route(outcome, "raft client_write: ")
    }

    /// The answer to a write that went to the leader.
    pub fn propose_forwarded(leader: NodeId, answer: Result<FastetcdLogResponse, String>) -> (r:
        Result<FastetcdLogResponse, Status>)
        ensures
            relayed(leader, answer, "forwarded write to leader "@, r),
    {
        relay(leader, answer, "forwarded write to leader ")
    }

    /// Route a linearizable read by what the read barrier came to. `None`
    /// means: read locally.
    pub fn linearize_read(barrier: RaftOutcome<()>) -> (next: Next<Option<RangeResult>>)
        ensures
            match barrier {
                RaftOutcome::Applied(_) => next == Next::<Option<RangeResult>>::Done(Ok(None)),
                RaftOutcome::ForwardTo(leader) => next == Next::<Option<RangeResult>>::Forward(
                    leader,
                ),
                RaftOutcome::Failed(e) => next matches Next::Done(r) && r is Err && r->Err_0.says(
                    Code::Unavailable,
                    "linearizable read barrier: "@ + e@,
                ),
            },
    {
        match barrier {
            RaftOutcome::Applied(_) => Next::Done(Ok(None)),
            RaftOutcome::ForwardTo(leader) => Next::Forward(leader),
            RaftOutcome::Failed(e) => Next::Done(
                Err(
                    Status::from_string(
                        Code::Unavailable,
                        String::from_str("linearizable read barrier: ").concat(e.as_str()),
                    ),
                ),
            ),
        }
    }

    /// The answer to a read that went to the leader.
    pub fn linearize_read_forwarded(leader: NodeId, answer: Result<RangeResult, String>) -> (r:
        Result<RangeResult, Status>)
        ensures
            relayed(leader, answer, "forwarded linearizable read to leader "@, r),
    {
        relay(leader, answer, "forwarded linearizable read to leader ")
    }

    /// The change that adding a learner forwards.
    pub fn add_learner_change(node_id: NodeId, addr: &str) -> (r: MembershipChange)
        ensures
            r matches MembershipChange::AddLearner { node_id: n, addr: a } && n == node_id && a@
                == addr@,
    {
        MembershipChange::AddLearner { node_id, addr: String::from_str(addr) }
    }

    /// Route the addition of a learner.
    pub fn propose_add_learner(outcome: RaftOutcome<()>) -> (next: Next<()>)
        ensures
            routed(outcome, "raft add_learner: "@, next),
    {
        route(outcome, "raft add_learner: ")
    }

    /// Route the replacement of the voter set.
    pub fn propose_set_voters(outcome: RaftOutcome<()>) -> (next: Next<()>)
        ensures
            routed(outcome, "raft change_membership: "@, next),
    {
        route(outcome, "raft change_membership: ")
    }

    /// The answer to a membership change that went to the leader.
    pub fn forward_membership(leader: NodeId, answer: Result<(), String>) -> (r: Result<(), Status>)
        ensures
            relayed(leader, answer, "forwarded membership change to leader "@, r),
    {
        relay(leader, answer, "forwarded membership change to leader ")
    }
}

/// The header a state gives a response at a revision.
pub open spec fn header_of(state: ServerState, revision: i64) -> ResponseHeader {
    ResponseHeader {
        cluster_id: state.cluster_id,
        member_id: state.member_id,
        revision,
        raft_term: state.metrics.current_term,
    }
}

/// The header of a response at a revision.
pub fn response_header(state: &ServerState, revision: i64) -> (r: ResponseHeader)
    ensures
        r == header_of(*state, revision),
{
    ResponseHeader {
        cluster_id: state.cluster_id,
        member_id: state.member_id,
        revision,
        raft_term: state.current_term(),
    }
}

/// Two responses of one node differ in their headers only by the revision:
/// each names the node, its cluster and its term, and carries the revision
/// it was made at.
pub proof fn law_header_names_the_node_and_the_revision(state: ServerState, revision: i64)
    ensures
        header_of(state, revision).revision == revision,
        header_of(state, revision).member_id == state.member_id,
        header_of(state, revision).cluster_id == state.cluster_id,
        header_of(state, revision).raft_term == state.metrics.current_term,
{
}

/// A request is answered here exactly when it was served or failed here,
/// and goes on to the leader exactly when there is another one; what was
/// applied is handed on unchanged, and a failure is never answered with
/// success.
pub proof fn law_request_is_answered_once<T>(
    outcome: RaftOutcome<T>,
    what: Seq<char>,
    next: Next<T>,
)
    requires
        routed(outcome, what, next),
    ensures
        next is Forward <==> outcome is ForwardTo,
        outcome is ForwardTo ==> next->Forward_0 == outcome->ForwardTo_0,
        (next matches Next::Done(r) && r is Ok) <==> outcome is Applied,
        outcome is Applied ==> next->Done_0->Ok_0 == outcome->Applied_0,
        outcome is Failed ==> {
            &&& next->Done_0 is Err
            &&& next->Done_0->Err_0.code == Code::Unavailable
            &&& next->Done_0->Err_0.message@ == what + outcome->Failed_0@
        },
{
}

/// What the leader answered is what the client is answered; a leader that
/// could not be asked is named in the refusal.
pub proof fn law_leaders_answer_is_handed_on<T>(
    leader: NodeId,
    answer: Result<T, String>,
    what: Seq<char>,
    r: Result<T, Status>,
)
    requires
        relayed(leader, answer, what, r),
    ensures
        r is Ok <==> answer is Ok,
        r is Ok ==> r->Ok_0 == answer->Ok_0,
        r is Err ==> r->Err_0.code == Code::Unavailable && r->Err_0.message@ == what
            + crate::text::dec(leader as nat) + ": "@ + answer->Err_0@,
{
}

} // verus!
