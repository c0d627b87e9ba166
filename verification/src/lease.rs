//! Leases: what a request proposes, what its outcome is answered with,
//! and which leases have run out.

use vstd::prelude::*;
use crate::kv::{self, unexpected_status};
use crate::state::{self, response_header, ResponseHeader, ServerState};
use crate::status::{Code, Status};
use crate::types::{FastetcdLogEntry, FastetcdLogResponse, LeaseId, LeaseTtlResult};

verus! {

/// The answer to a grant.
#[derive(Debug)]
pub struct LeaseGrantResponse {
    pub header: ResponseHeader,
    pub id: LeaseId,
    pub ttl: i64,
    pub error: String,
}

/// The answer to a revocation.
#[derive(Debug, Clone, Copy, PartialEq, Eq, Structural)]
pub struct LeaseRevokeResponse {
    pub header: ResponseHeader,
}

/// The answer to a keep-alive.
#[derive(Debug, Clone, Copy, PartialEq, Eq, Structural)]
pub struct LeaseKeepAliveResponse {
    pub header: ResponseHeader,
    pub id: LeaseId,
    pub ttl: i64,
}

/// What a lease has left.
#[derive(Debug)]
pub struct LeaseTimeToLiveResponse {
    pub header: ResponseHeader,
    pub id: LeaseId,
    pub ttl: i64,
    pub granted_ttl: i64,
    pub keys: Vec<Vec<u8>>,
}

/// The leases in force.
#[derive(Debug)]
pub struct LeaseLeasesResponse {
    pub header: ResponseHeader,
    pub leases: Vec<LeaseId>,
}

/// The lease service.
#[derive(Debug)]
pub struct LeaseService {
    pub state: ServerState,
}

impl LeaseService {
    /// A service over the given state.
    pub fn new(state: ServerState) -> (r: LeaseService)
        ensures
            r.state == state,
    {
        LeaseService { state }
    }

    /// Propose a grant, if there is room: a lease takes space.
    pub fn lease_grant(&self, id: LeaseId, ttl_secs: i64, now_unix: i64) -> (r: Result<
        FastetcdLogEntry,
        Status,
    >)
        ensures
            if self.state.space@.nospace() {
                r is Err && r->Err_0.says(
                    Code::ResourceExhausted,
                    crate::space::no_space_text(),
                )
            } else {
                r == Ok::<FastetcdLogEntry, Status>(
                    FastetcdLogEntry::LeaseGrant { id, ttl_secs, now_unix },
                )
            },
    {
        match self.state.space.check_write() {
            Err(e) => Err(e),
            Ok(()) => Ok(FastetcdLogEntry::LeaseGrant { id, ttl_secs, now_unix }),
        }
    }

    /// The answer to a proposed grant.
    pub fn lease_grant_reply(&self, resp: FastetcdLogResponse) -> (r: Result<
        LeaseGrantResponse,
        Status,
    >)
        ensures
            match resp {
                FastetcdLogResponse::LeaseGrant(g) => {
                    &&& r is Ok
                    &&& r->Ok_0.header == state::header_of(self.state, g.revision)
                    &&& r->Ok_0.id == g.id
                    &&& r->Ok_0.ttl == g.ttl_secs
                    &&& r->Ok_0.error@ == ""@
                },
                _ => r is Err && r->Err_0.says(Code::Internal, kv::unexpected(resp)),
            },
    {
        match resp {
            FastetcdLogResponse::LeaseGrant(g) => Ok(
                LeaseGrantResponse {
                    header: response_header(&self.state, g.revision),
                    id: g.id,
                    ttl: g.ttl_secs,
                    error: String::from_str(""),
                },
            ),
            other => Err(unexpected_status(&other)),
        }
    }

    /// Propose a revocation. It frees space, so it is never refused for
    /// want of any.
    pub fn lease_revoke(&self, id: LeaseId) -> (r: FastetcdLogEntry)
        ensures
            r == (FastetcdLogEntry::LeaseRevoke { id }),
    {
        FastetcdLogEntry::LeaseRevoke { id }
    }

    /// The answer to a proposed revocation.
    pub fn lease_revoke_reply(&self, resp: FastetcdLogResponse) -> (r: Result<
        LeaseRevokeResponse,
        Status,
    >)
        ensures
            match resp {
                FastetcdLogResponse::LeaseRevoke(v) => r == Ok::<LeaseRevokeResponse, Status>(
                    LeaseRevokeResponse { header: state::header_of(self.state, v.revision) },
                ),
                _ => r is Err && r->Err_0.says(Code::Internal, kv::unexpected(resp)),
            },
    {
        match resp {
            FastetcdLogResponse::LeaseRevoke(v) => Ok(
                LeaseRevokeResponse { header: response_header(&self.state, v.revision) },
            ),
            other => Err(unexpected_status(&other)),
        }
    }

    /// Propose a keep-alive.
    pub fn lease_keep_alive(&self, id: LeaseId, now_unix: i64) -> (r: FastetcdLogEntry)
        ensures
            r == (FastetcdLogEntry::LeaseKeepAlive { id, now_unix }),
    {
        FastetcdLogEntry::LeaseKeepAlive { id, now_unix }
    }

    /// The answer to a proposed keep-alive: the time that was granted. An
    /// outcome of another kind is passed over in silence; a failure is
    /// answered, and the stream goes on.
    pub fn lease_keep_alive_reply(
        &self,
        outcome: Result<FastetcdLogResponse, String>,
        revision: i64,
    ) -> (r: Option<Result<LeaseKeepAliveResponse, Status>>)
        ensures
            match outcome {
                Err(e) => r is Some && r->0 is Err && r->0->Err_0.says(
                    Code::Unavailable,
                    "raft client_write: "@ + e@,
                ),
                Ok(FastetcdLogResponse::LeaseKeepAlive(t)) => r == Some(
                    Ok::<LeaseKeepAliveResponse, Status>(
                        LeaseKeepAliveResponse {
                            header: state::header_of(self.state, revision),
                            id: t.id,
                            ttl: t.granted_ttl_secs,
                        },
                    ),
                ),
                Ok(_) => r is None,
            },
    {
        match outcome {
            Err(e) => {
                let text = String::from_str("raft client_write: ").concat(e.as_str());
                Some(Err(Status::from_string(Code::Unavailable, text)))
            },
            Ok(FastetcdLogResponse::LeaseKeepAlive(t)) => Some(
                Ok(
                    LeaseKeepAliveResponse {
                        header: response_header(&self.state, revision),
                        id: t.id,
                        ttl: t.granted_ttl_secs,
                    },
                ),
            ),
            Ok(_) => None,
        }
    }

    /// What a lease has left. One that is not there has minus one.
    pub fn lease_time_to_live(
        &self,
        id: LeaseId,
        found: Result<Option<LeaseTtlResult>, String>,
        revision: i64,
    ) -> (r: Result<LeaseTimeToLiveResponse, Status>)
        ensures
            match found {
                Err(e) => r is Err && r->Err_0.says(Code::Internal, "lease_ttl: "@ + e@),
                Ok(Some(t)) => r == Ok::<LeaseTimeToLiveResponse, Status>(
                    LeaseTimeToLiveResponse {
                        header: state::header_of(self.state, revision),
                        id: t.id,
                        ttl: t.remaining_ttl_secs,
                        granted_ttl: t.granted_ttl_secs,
                        keys: t.keys,
                    },
                ),
                Ok(None) => {
                    &&& r is Ok
                    &&& r->Ok_0.header == state::header_of(self.state, revision)
                    &&& r->Ok_0.id == id
                    &&& r->Ok_0.ttl == -1
                    &&& r->Ok_0.granted_ttl == 0
                    &&& r->Ok_0.keys@.len() == 0
                },
            },
    {
        match found {
            Err(e) => {
                let text = String::from_str("lease_ttl: ").concat(e.as_str());
                Err(Status::from_string(Code::Internal, text))
            },
            Ok(Some(t)) => Ok(
                LeaseTimeToLiveResponse {
                    header: response_header(&self.state, revision),
                    id: t.id,
                    ttl: t.remaining_ttl_secs,
                    granted_ttl: t.granted_ttl_secs,
                    keys: t.keys,
                },
            ),
            Ok(None) => Ok(
                LeaseTimeToLiveResponse {
                    header: response_header(&self.state, revision),
                    id,
                    ttl: -1,
                    granted_ttl: 0,
                    keys: Vec::new(),
                },
            ),
        }
    }

    /// The leases in force.
    pub fn lease_leases(&self, found: Result<Vec<LeaseId>, String>, revision: i64) -> (r: Result<
        LeaseLeasesResponse,
        Status,
    >)
        ensures
            match found {
                Err(e) => r is Err && r->Err_0.says(Code::Internal, "lease_list: "@ + e@),
                Ok(ids) => r == Ok::<LeaseLeasesResponse, Status>(
                    LeaseLeasesResponse {
                        header: state::header_of(self.state, revision),
                        leases: ids,
                    },
                ),
            },
    {
        match found {
            Err(e) => {
                let text = String::from_str("lease_list: ").concat(e.as_str());
                Err(Status::from_string(Code::Internal, text))
            },
            Ok(ids) => Ok(
                LeaseLeasesResponse {
                    header: response_header(&self.state, revision),
                    leases: ids,
                },
            ),
        }
    }
}

/// Seconds between two sweeps for leases that have run out.
pub const DEFAULT_TICK_SECS: u64 = 1;

/// A lease, and the seconds it has left; `None` where it went away in the
/// meantime.
#[derive(Debug, Clone, Copy, PartialEq, Eq, Structural)]
pub struct LeaseLeft {
    pub id: LeaseId,
    pub remaining_secs: Option<i64>,
}

/// A lease has run out.
pub open spec fn has_run_out(l: LeaseLeft) -> bool {
    l.remaining_secs is Some && l.remaining_secs->0 <= 0
}

/// The leases that have run out, in order.
pub open spec fn run_out(leases: Seq<LeaseLeft>) -> Seq<LeaseId>
    decreases leases.len(),
{
    if leases.len() == 0 {
        seq![]
    } else if has_run_out(leases.last()) {
        run_out(leases.drop_last()).push(leases.last().id)
    } else {
        run_out(leases.drop_last())
    }
}

/// The revocations that a sweep proposes: on the leader one for each lease
/// that has run out, elsewhere none.
pub fn sweep_once(state: &ServerState, leases: &Vec<LeaseLeft>) -> (r: Vec<FastetcdLogEntry>)
    ensures
        r@ == (if state.metrics.current_leader == Some(state.member_id) {
            run_out(leases@).map_values(|id: LeaseId| FastetcdLogEntry::LeaseRevoke { id })
        } else {
            seq![]
        }),
{
    let mut out: Vec<FastetcdLogEntry> = Vec::new();
    if !state.is_leader() {
        assert(out@ =~= seq![]);
        return out;
    }
    let mut i: usize = 0;
    let ghost f = |id: LeaseId| FastetcdLogEntry::LeaseRevoke { id };
    assert(out@ =~= run_out(leases@.take(0)).map_values(f));
    while i < leases.len()
        invariant
            i <= leases@.len(),
            f == (|id: LeaseId| FastetcdLogEntry::LeaseRevoke { id }),
            out@ == run_out(leases@.take(i as int)).map_values(f),
        decreases leases@.len() - i,
    {
        assert(leases@.take(i + 1).drop_last() =~= leases@.take(i as int));
        let l: LeaseLeft = leases[i];
        let ghost before = out@;
        let expired = match l.remaining_secs {
            Some(left) => left <= 0,
            None => false,
        };
        if expired {
            out.push(FastetcdLogEntry::LeaseRevoke { id: l.id });
            assert(out@ =~= run_out(leases@.take(i + 1)).map_values(f));
        }
        i += 1;
    }
    assert(leases@.take(i as int) =~= leases@);
    out
}

/// A lease is revoked by a sweep of the leader if and only if it has run
/// out.
pub proof fn law_sweep_revokes_what_ran_out(leases: Seq<LeaseLeft>, id: LeaseId)
    ensures
        run_out(leases).contains(id) <==> exists|i: int|
            0 <= i < leases.len() && has_run_out(#[trigger] leases[i]) && leases[i].id == id,
    decreases leases.len(),
{
    if leases.len() > 0 {
        let t = leases.drop_last();
        law_sweep_revokes_what_ran_out(t, id);
        vstd::seq_lib::lemma_seq_contains_after_push(run_out(t), leases.last().id, id);
        if run_out(t).contains(id) {
            let i = choose|i: int|
                0 <= i < t.len() && has_run_out(#[trigger] t[i]) && t[i].id == id;
            assert(leases[i] == t[i]);
        }
        if has_run_out(leases.last()) && leases.last().id == id {
            assert(leases[leases.len() - 1] == leases.last());
        }
        if exists|i: int|
            0 <= i < leases.len() && has_run_out(#[trigger] leases[i]) && leases[i].id == id {
            let i = choose|i: int|
                0 <= i < leases.len() && has_run_out(#[trigger] leases[i]) && leases[i].id == id;
            if i < t.len() {
                assert(t[i] == leases[i]);
            }
        }
    }
}

/// A lease has run out exactly when it is still there and has no time
/// left.
pub proof fn law_lease_runs_out_at_zero(l: LeaseLeft)
    ensures
        l.remaining_secs is None ==> !has_run_out(l),
        l.remaining_secs matches Some(left) ==> (has_run_out(l) <==> left <= 0),
        DEFAULT_TICK_SECS == 1,
{
}

/// A sweep goes lease by lease, in order: one that has no time left adds
/// its own id, any other adds nothing.
pub proof fn law_sweep_goes_lease_by_lease(leases: Seq<LeaseLeft>, l: LeaseLeft)
    ensures
        run_out(seq![]).len() == 0,
        l.remaining_secs is Some && l.remaining_secs->0 <= 0 ==> run_out(leases.push(l))
            == run_out(leases).push(l.id),
        l.remaining_secs is None || l.remaining_secs->0 > 0 ==> run_out(leases.push(l)) == run_out(
            leases,
        ),
{
    assert(leases.push(l).drop_last() =~= leases);
}

} // verus!
