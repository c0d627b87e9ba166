//! Offline work on a data directory: recovery after an upgrade, backups,
//! restoring, and checking.

use vstd::prelude::*;
use crate::idmap::{self, IdMap};
use crate::kv_log_store::LogState;
use crate::log_store::Entry;
use crate::membership::{self, Membership, StoredMembership};
use crate::names;
use crate::parse;
use crate::snapshot_store::{self, join_path};
use crate::state_machine::{self, EntryPayload, FastetcdStateMachine};
use crate::stored;
use crate::text::{self, dec_i64, dec_u64, join3};
use crate::types::{LogId, NodeId};

verus! {

/// The file of a data directory that holds everything.
pub fn data_file(data_dir: &str) -> (r: String)
    ensures
        r@ == snapshot_store::joined(data_dir@, "fastetcd.redb"@),
{
    join_path(data_dir, "fastetcd.redb")
}

/// What a recovery did.
#[derive(Debug)]
pub struct RecoveryReport {
    pub adopted_applied: Option<LogId>,
    pub membership_source: Option<&'static str>,
    pub membership_voters: Vec<NodeId>,
    pub stamped_format: bool,
}

impl RecoveryReport {
    /// Anything was repaired.
    pub open spec fn repaired(self) -> bool {
        self.adopted_applied is Some || self.membership_source is Some || self.stamped_format
    }

    /// Anything was repaired.
    pub fn did_something(&self) -> (r: bool)
        ensures
            r == self.repaired(),
    {
        self.adopted_applied.is_some() || self.membership_source.is_some() || self.stamped_format
    }
}

/// What a recovery reads of a data directory.
#[derive(Debug, Clone, Copy, PartialEq, Eq, Structural)]
pub struct DirState {
    /// The version of the stored format, where there is one.
    pub format: Option<u32>,
    /// The version that this program writes.
    pub expected_format: u32,
    pub revision: i64,
    pub log: LogState,
}

/// What a recovery writes, in this order, and what it reports.
#[derive(Debug)]
pub struct RecoveryPlan {
    /// The stored form of the applied place to adopt.
    pub applied: Option<Vec<u8>>,
    /// The membership to take over.
    pub membership: Option<StoredMembership>,
    /// Its stored form.
    pub recorded: Option<Vec<u8>>,
    pub report: RecoveryReport,
}

/// How many of the newest log entries are searched for a membership.
pub const MEMBERSHIP_WINDOW: u64 = 20_000;

/// One past the index of a log position; zero without one.
pub open spec fn past(l: Option<LogId>) -> int {
    match l {
        Some(l) => l.index + 1,
        None => 0,
    }
}

/// The first index of the newest entries that are searched.
pub open spec fn window_start(log: LogState) -> int {
    let hi = past(log.last_log_id);
    let floor = past(log.last_purged_log_id);
    let recent = if hi > MEMBERSHIP_WINDOW {
        hi - MEMBERSHIP_WINDOW
    } else {
        0
    };
    if floor > recent {
        floor
    } else {
        recent
    }
}

/// No log position is the last that there can be.
pub open spec fn extensible(log: LogState) -> bool {
    past(log.last_log_id) <= u64::MAX && past(log.last_purged_log_id) <= u64::MAX
}

/// The membership must be recovered: records are there, and nobody votes.
pub open spec fn needs_membership(sm: FastetcdStateMachine, d: DirState, force: bool) -> bool {
    !force && d.revision > 0 && sm.last_membership.membership.voterless()
}

/// The entries to search for a membership, where one must be recovered:
/// those that the log still has, within a window before its end.
pub fn membership_search(
    sm: &FastetcdStateMachine,
    d: DirState,
    force_new_cluster: bool,
) -> (r: Option<(u64, u64)>)
    requires
        extensible(d.log),
    ensures
        r is Some <==> needs_membership(*sm, d, force_new_cluster) && window_start(d.log) < past(
            d.log.last_log_id,
        ),
        r is Some ==> ({
            let (lo, hi) = r->0;
            lo == window_start(d.log) && hi == past(d.log.last_log_id)
        }),
{
    if force_new_cluster || d.revision <= 0 || !sm.membership_is_empty() {
        return None;
    }
    let hi: u64 = match d.log.last_log_id {
        Some(l) => l.index + 1,
        None => 0,
    };
    let floor: u64 = match d.log.last_purged_log_id {
        Some(l) => l.index + 1,
        None => 0,
    };
    let recent: u64 = if hi > MEMBERSHIP_WINDOW {
        hi - MEMBERSHIP_WINDOW
    } else {
        0
    };
    let lo: u64 = if floor > recent {
        floor
    } else {
        recent
    };
    if hi > lo {
        Some((lo, hi))
    } else {
        None
    }
}

/// The membership of the last entry that carries one.
pub open spec fn latest_membership(tail: Seq<Entry<EntryPayload>>) -> Option<StoredMembership>
    decreases tail.len(),
{
    if tail.len() == 0 {
        None
    } else {
        match tail.last().payload {
            EntryPayload::Membership(m) => Some(
                StoredMembership { log_id: Some(tail.last().log_id), membership: m },
            ),
            _ => latest_membership(tail.drop_last()),
        }
    }
}

/// The membership of the last entry that carries one.
fn find_membership(tail: Vec<Entry<EntryPayload>>) -> (r: Option<StoredMembership>)
    ensures
        r == latest_membership(tail@),
{
    let ghost given = tail@;
    let mut latest: Option<StoredMembership> = None;
    assert(given.take(0) =~= seq![]);
    for entry in it: tail
        invariant
            it.seq() == given,
            latest == latest_membership(given.take(it.index())),
    {
        proof {
            let k = it.index();
            assert(given.take(k + 1).drop_last() =~= given.take(k));
            assert(entry == given[k]);
        }
        match entry.payload {
            EntryPayload::Membership(m) => {
                latest = Some(StoredMembership { log_id: Some(entry.log_id), membership: m });
            },
            _ => {},
        }
    }
    assert(given.take(given.len() as int) =~= given);
    latest
}

/// A copy of addresses.
fn copy_nodes(nodes: &IdMap<String>) -> (r: IdMap<String>)
    requires
        nodes.wf(),
    ensures
        r.wf(),
        same_nodes(r@, nodes@),
{
    let mut out: IdMap<String> = IdMap::new();
    let ghost s = nodes.entries@;
    let mut i: usize = 0;
    while i < nodes.entries.len()
        invariant
            i <= nodes.entries@.len(),
            s == nodes.entries@,
            nodes.wf(),
            out.wf(),
            forall|k: u64| #[trigger]
                out@.contains_key(k) <==> exists|j: int|
                    0 <= j < i && (#[trigger] s[j]).id == k,
            forall|k: u64| #[trigger]
                out@.contains_key(k) ==> nodes@.contains_key(k) && out@[k]@ == nodes@[k]@,
        decreases nodes.entries@.len() - i,
    {
        let e = &nodes.entries[i];
        let ghost before = out@;
        out.insert(e.id, e.value.clone());
        proof {
            idmap::lemma_entry(s, i as int);
            assert forall|k: u64| #[trigger] out@.contains_key(k) <==> exists|j: int|
                0 <= j < i + 1 && (#[trigger] s[j]).id == k by {
                if before.contains_key(k) {
                    let j = choose|j: int| 0 <= j < i && (#[trigger] s[j]).id == k;
                    assert(s[j].id == k);
                }
                if k == e.id {
                    assert(s[i as int].id == k);
                }
                if exists|j: int| 0 <= j < i + 1 && (#[trigger] s[j]).id == k {
                    let j = choose|j: int| 0 <= j < i + 1 && (#[trigger] s[j]).id == k;
                    if j < i {
                        assert(before.contains_key(k));
                    }
                }
            }
        }
        i += 1;
    }
    proof {
        assert forall|k: u64| #[trigger] nodes@.contains_key(k) implies out@.contains_key(k) by {
            let j = idmap::lemma_present(s, k);
            assert(s[j].id == k);
        }
    }
    out
}

/// Two maps hold the same addresses.
pub open spec fn same_nodes(a: Map<u64, String>, b: Map<u64, String>) -> bool {
    &&& forall|k: u64| #[trigger] a.contains_key(k) <==> #[trigger] b.contains_key(k)
    &&& forall|k: u64| #[trigger] a.contains_key(k) ==> a[k]@ == b[k]@
}

/// A membership whose voters are the nodes of a map.
pub open spec fn all_vote(m: StoredMembership, nodes: Map<u64, String>, at: Option<LogId>) -> bool {
    &&& m.log_id == at
    &&& m.membership.configs@.len() == 1
    &&& forall|id: u64| #[trigger] m.membership.votes(id) <==> nodes.contains_key(id)
    &&& same_nodes(m.membership.nodes@, nodes)
}

/// A membership whose only voter is one node.
pub open spec fn one_votes(
    m: StoredMembership,
    node_id: NodeId,
    addr: Seq<char>,
    at: Option<LogId>,
) -> bool {
    &&& m.log_id == at
    &&& m.membership.configs@.len() == 1
    &&& forall|id: u64| #[trigger] m.membership.votes(id) <==> id == node_id
    &&& forall|id: u64| #[trigger] m.membership.nodes@.contains_key(id) <==> id == node_id
    &&& m.membership.nodes@[node_id]@ == addr
}

/// The place that a recovered membership is recorded under.
pub open spec fn recovery_place(log: LogState) -> Option<LogId> {
    if log.last_purged_log_id is Some {
        log.last_purged_log_id
    } else {
        log.last_log_id
    }
}

/// What a recovery does to the membership, and where it took it from.
pub open spec fn membership_recovered(
    plan: RecoveryPlan,
    sm: FastetcdStateMachine,
    d: DirState,
    all_members: Map<u64, String>,
    tail: Seq<Entry<EntryPayload>>,
    node_id: NodeId,
    force: bool,
) -> bool {
    let at = recovery_place(d.log);
    if force {
        &&& plan.membership is Some
        &&& one_votes(
            plan.membership->0,
            node_id,
            if all_members.contains_key(node_id) {
                all_members[node_id]@
            } else {
                ""@
            },
            at,
        )
        &&& plan.report.membership_source is Some
        &&& plan.report.membership_source->0@ == "--force-new-cluster (single node)"@
    } else if needs_membership(sm, d, force) {
        &&& plan.membership is Some
        &&& plan.report.membership_source is Some
        &&& match latest_membership(tail) {
            Some(m) => plan.membership == Some(m) && plan.report.membership_source->0@
                == "retained raft log (exact)"@,
            None => all_vote(plan.membership->0, all_members, at)
                && plan.report.membership_source->0@
                == "--initial-cluster (log purged clean of membership; best effort)"@,
        }
    } else {
        plan.membership is None && plan.report.membership_source is None
    }
}

/// A list holds the voters of a membership, each once, in ascending order.
pub open spec fn lists_voters(ids: Seq<u64>, m: Membership) -> bool {
    &&& forall|i: int, j: int| 0 <= i < j < ids.len() ==> #[trigger] ids[i] < #[trigger] ids[j]
    &&& forall|id: u64| #[trigger] ids.contains(id) <==> m.votes(id)
}

/// The last membership of entries is in order, if those of all are.
proof fn lemma_latest_wf(tail: Seq<Entry<EntryPayload>>)
    requires
        memberships_wf(tail),
    ensures
        latest_membership(tail) is Some ==> latest_membership(tail)->0.membership.wf(),
    decreases tail.len(),
{
    if tail.len() > 0 {
        let rest = tail.drop_last();
        assert forall|i: int| 0 <= i < rest.len() implies ((
        #[trigger] rest[i]).payload matches EntryPayload::Membership(m) ==> m.wf()) by {
            assert(rest[i] == tail[i]);
        }
        assert(tail[tail.len() - 1] == tail.last());
        lemma_latest_wf(rest);
    }
}

/// The memberships that entries carry are in order.
pub open spec fn memberships_wf(tail: Seq<Entry<EntryPayload>>) -> bool {
    forall|i: int|
        0 <= i < tail.len() ==> ((#[trigger] tail[i]).payload matches EntryPayload::Membership(m)
            ==> m.wf())
}

/// What a recovery writes and reports.
pub open spec fn is_recovery(
    plan: RecoveryPlan,
    sm: FastetcdStateMachine,
    d: DirState,
    all_members: Map<u64, String>,
    tail: Seq<Entry<EntryPayload>>,
    node_id: NodeId,
    force: bool,
) -> bool {
    &&& plan.report.adopted_applied == (if sm.last_applied_log_id is None && d.revision != 0 {
        d.log.last_purged_log_id
    } else {
        None
    })
    &&& plan.applied is Some <==> plan.report.adopted_applied is Some
    &&& plan.applied is Some ==> plan.applied->0@ == crate::codec::optional_bytes(
        plan.report.adopted_applied,
    )
    &&& membership_recovered(plan, sm, d, all_members, tail, node_id, force)
    &&& plan.recorded is Some <==> plan.membership is Some
    &&& plan.membership is Some ==> {
        &&& plan.recorded->0@ == stored::membership_bytes(plan.membership->0)
        &&& plan.membership->0.membership.wf() ==> stored::reads_as(
            plan.recorded->0@,
            plan.membership->0,
        )
        &&& memberships_wf(tail) ==> plan.membership->0.membership.wf()
    }
    &&& plan.membership is Some ==> lists_voters(
        plan.report.membership_voters@,
        plan.membership->0.membership,
    )
    &&& plan.membership is None ==> plan.report.membership_voters@.len() == 0
    &&& plan.report.stamped_format == (d.format != Some(d.expected_format))
}

/// Repair a data directory that an older version wrote: adopt the purge
/// position of the log as the applied place if none was recorded, recover
/// the membership if nobody votes (from the log, else from the configured
/// members; with `force_new_cluster`, this node alone), and stamp the
/// format. `tail` holds the entries that `membership_search` asks for.
pub fn recover_data_dir(
    sm: &FastetcdStateMachine,
    d: DirState,
    all_members: &IdMap<String>,
    tail: Vec<Entry<EntryPayload>>,
    node_id: NodeId,
    force_new_cluster: bool,
) -> (plan: RecoveryPlan)
    requires
        all_members.wf(),
    ensures
        is_recovery(plan, *sm, d, all_members@, tail@, node_id, force_new_cluster),
{
    let ghost given = tail@;
    let mut report = RecoveryReport {
        adopted_applied: None,
        membership_source: None,
        membership_voters: Vec::new(),
        stamped_format: false,
    };
    let mut applied: Option<Vec<u8>> = None;
    if let Some(floor) = sm.recover_applied_floor(d.log.last_purged_log_id, d.revision) {
        report.adopted_applied = Some(floor.log_id);
        applied = Some(floor.bytes);
    }
    let at: Option<LogId> = if d.log.last_purged_log_id.is_some() {
        d.log.last_purged_log_id
    } else {
        d.log.last_log_id
    };
    let need = !force_new_cluster && d.revision > 0 && sm.membership_is_empty();
    let mut recovered: Option<StoredMembership> = None;
    if force_new_cluster {
        let addr: String = match all_members.get(node_id) {
            Some(a) => a.clone(),
            None => String::from_str(""),
        };
        let stored = StoredMembership { log_id: at, membership: single_voter(node_id, addr) };
        report.membership_voters = stored.membership.voter_ids();
        report.membership_source = Some("--force-new-cluster (single node)");
        recovered = Some(stored);
    } else if need {
        match find_membership(tail) {
            Some(stored) => {
                report.membership_voters = stored.membership.voter_ids();
                report.membership_source = Some("retained raft log (exact)");
                recovered = Some(stored);
            },
            None => {
                let stored = StoredMembership { log_id: at, membership: all_voters(all_members) };
                report.membership_voters = stored.membership.voter_ids();
                report.membership_source = Some(
                    "--initial-cluster (log purged clean of membership; best effort)",
                );
                recovered = Some(stored);
            },
        }
    }
    report.stamped_format = match d.format {
        Some(v) => v != d.expected_format,
        None => true,
    };
    proof {
        if memberships_wf(given) {
            lemma_latest_wf(given);
        }
    }
    let recorded: Option<Vec<u8>> = match &recovered {
        Some(m) => Some(stored::encode_membership(m)),
        None => None,
    };
    RecoveryPlan { applied, membership: recovered, recorded, report }
}

/// A membership whose only voter is one node.
fn single_voter(node_id: NodeId, addr: String) -> (r: Membership)
    ensures
        one_votes(
            (StoredMembership { log_id: None, membership: r }),
            node_id,
            addr@,
            None,
        ),
        r.wf(),
{
    let mut nodes: IdMap<String> = IdMap::new();
    nodes.insert(node_id, addr);
    let mut config: Vec<u64> = Vec::new();
    config.push(node_id);
    let mut configs: Vec<Vec<u64>> = Vec::new();
    configs.push(config);
    let ghost c = configs@;
    let r = Membership::new(configs, nodes);
    proof {
        assert forall|id: u64| #[trigger] membership::config_names(c, id) <==> id == node_id by {
            if id == node_id {
                assert(c[0]@[0] == id);
                assert(c[0]@.contains(id));
            }
        }
        assert forall|id: u64| #[trigger] r.votes(id) <==> id == node_id by {
            assert(membership::config_names(c, id) <==> id == node_id);
        }
        assert(nodes@.contains_key(node_id));
        assert(r.nodes@.contains_key(node_id));
        assert forall|id: u64| #[trigger] r.nodes@.contains_key(id) <==> id == node_id by {
            assert(membership::config_names(c, id) <==> id == node_id);
        }
    }
    r
}

/// A membership whose voters are the given members.
fn all_voters(members: &IdMap<String>) -> (r: Membership)
    requires
        members.wf(),
    ensures
        all_vote((StoredMembership { log_id: None, membership: r }), members@, None),
        r.wf(),
{
    let ids = members.ids();
    let ghost idv = ids@;
    let nodes = copy_nodes(members);
    let mut configs: Vec<Vec<u64>> = Vec::new();
    configs.push(ids);
    let ghost c = configs@;
    let r = Membership::new(configs, nodes);
    proof {
        assert forall|id: u64| #[trigger]
            membership::config_names(c, id) <==> members@.contains_key(id) by {
            if members@.contains_key(id) {
                assert(idv.contains(id));
                assert(c[0]@.contains(id));
            }
            if membership::config_names(c, id) {
                assert(c[0]@.contains(id));
                assert(idv.contains(id));
            }
        }
        assert forall|id: u64| #[trigger] r.votes(id) <==> members@.contains_key(id) by {
            assert(membership::config_names(c, id) <==> members@.contains_key(id));
        }
        assert forall|id: u64| #[trigger]
            r.nodes@.contains_key(id) <==> #[trigger] members@.contains_key(id) by {
            assert(membership::config_names(c, id) <==> members@.contains_key(id));
            assert(nodes@.contains_key(id) <==> members@.contains_key(id));
        }
        assert forall|id: u64| #[trigger] r.nodes@.contains_key(id) implies r.nodes@[id]@
            == members@[id]@ by {
            assert(nodes@.contains_key(id) <==> members@.contains_key(id));
        }
    }
    r
}

/// A healthy directory is left alone: with the expected format, an applied
/// place or nothing to adopt as one, and voters or no records, a recovery
/// does nothing.
pub proof fn law_healthy_directory_is_left_alone(
    plan: RecoveryPlan,
    sm: FastetcdStateMachine,
    d: DirState,
    all_members: Map<u64, String>,
    tail: Seq<Entry<EntryPayload>>,
    node_id: NodeId,
)
    requires
        sm.last_applied_log_id is Some || d.revision == 0 || d.log.last_purged_log_id is None,
        !sm.last_membership.membership.voterless() || d.revision <= 0,
        d.format == Some(d.expected_format),
        is_recovery(plan, sm, d, all_members, tail, node_id, false),
    ensures
        !plan.report.repaired(),
        plan.applied is None,
        plan.membership is None,
{
}

/// The state once what a recovery writes is written.
pub open spec fn recovered_machine(sm: FastetcdStateMachine, plan: RecoveryPlan)
    -> FastetcdStateMachine {
    FastetcdStateMachine {
        last_applied_log_id: if plan.report.adopted_applied is Some {
            plan.report.adopted_applied
        } else {
            sm.last_applied_log_id
        },
        last_membership: match plan.membership {
            Some(m) => m,
            None => sm.last_membership,
        },
        ..sm
    }
}

/// A second recovery does nothing after any first one, forced or not,
/// whatever it is shown of the log. Left out are a log whose newest
/// membership names no voter, which is taken as it is, and a recovery from
/// the configured members where there are none.
pub proof fn law_second_recovery_does_nothing(
    first: RecoveryPlan,
    second: RecoveryPlan,
    sm: FastetcdStateMachine,
    d: DirState,
    all_members: Map<u64, String>,
    tail: Seq<Entry<EntryPayload>>,
    later_tail: Seq<Entry<EntryPayload>>,
    node_id: NodeId,
    force: bool,
)
    requires
        is_recovery(first, sm, d, all_members, tail, node_id, force),
        is_recovery(
            second,
            recovered_machine(sm, first),
            (DirState { format: Some(d.expected_format), ..d }),
            all_members,
            later_tail,
            node_id,
            false,
        ),
        needs_membership(sm, d, force) ==> match latest_membership(tail) {
            Some(m) => !m.membership.voterless(),
            None => exists|id: u64| #[trigger] all_members.contains_key(id),
        },
    ensures
        !second.report.repaired(),
        second.applied is None,
        second.membership is None,
{
    if force {
        assert(first.membership->0.membership.votes(node_id));
    } else if needs_membership(sm, d, force) && latest_membership(tail) is None {
        let id = choose|id: u64| #[trigger] all_members.contains_key(id);
        assert(first.membership->0.membership.votes(id));
    }
}

/// A restart after a recovery finds the recovered state: what the recovery
/// writes over what was recorded holds it.
pub proof fn law_recovered_state_is_on_record(
    plan: RecoveryPlan,
    sm: FastetcdStateMachine,
    d: DirState,
    all_members: Map<u64, String>,
    tail: Seq<Entry<EntryPayload>>,
    node_id: NodeId,
    force: bool,
    applied: Option<Seq<u8>>,
    membership: Option<Seq<u8>>,
)
    requires
        is_recovery(plan, sm, d, all_members, tail, node_id, force),
        memberships_wf(tail),
        state_machine::records_state(applied, membership, sm),
    ensures
        state_machine::records_state(
            if plan.applied is Some {
                Some(plan.applied->0@)
            } else {
                applied
            },
            if plan.recorded is Some {
                Some(plan.recorded->0@)
            } else {
                membership
            },
            recovered_machine(sm, plan),
        ),
{
    let l = plan.report.adopted_applied;
    crate::codec::law_log_id_reads_back(l, seq![]);
    assert(crate::codec::optional_bytes(l) + seq![] =~= crate::codec::optional_bytes(l));
}

/// What a recovery took from the configured members lets a leader be
/// elected: somebody votes, if there is any member.
pub proof fn law_recovered_directory_has_voters(
    plan: RecoveryPlan,
    sm: FastetcdStateMachine,
    d: DirState,
    all_members: Map<u64, String>,
    tail: Seq<Entry<EntryPayload>>,
    node_id: NodeId,
    force: bool,
)
    requires
        membership_recovered(plan, sm, d, all_members, tail, node_id, force),
        force || needs_membership(sm, d, force),
        all_members.contains_key(node_id),
        latest_membership(tail) is None,
    ensures
        plan.membership->0.membership.votes(node_id),
        !plan.membership->0.membership.voterless(),
{
    assert(plan.membership->0.membership.votes(node_id));
}

/// A character stays in a file name.
pub open spec fn name_safe(c: char) -> bool {
    ('0' <= c && c <= '9') || ('a' <= c && c <= 'z') || ('A' <= c && c <= 'Z') || c == '.'
}

/// A version as part of a file name: anything but letters, digits and dots
/// becomes an underscore.
pub open spec fn sanitized(v: Seq<char>) -> Seq<char> {
    v.map_values(
        |c: char|
            if name_safe(c) {
                c
            } else {
                '_'
            },
    )
}

/// A version as part of a file name.
pub fn sanitize(v: &str) -> (r: String)
    ensures
        r@ == sanitized(v@),
{
    proof {
        reveal_strlit("_");
    }
    let n: usize = v.unicode_len();
    let mut r = String::from_str("");
    let mut i: usize = 0;
    proof {
        reveal_strlit("");
        assert(r@ =~= sanitized(v@.take(0)));
    }
    while i < n
        invariant
            i <= n == v@.len(),
            r@ == sanitized(v@.take(i as int)),
            "_"@ =~= seq!['_'],
        decreases n - i,
    {
        let c: char = v.get_char(i);
        let keep = ('0' <= c && c <= '9') || ('a' <= c && c <= 'z') || ('A' <= c && c <= 'Z') || c
            == '.';
        let ghost before = r@;
        if keep {
            r.append(v.substring_char(i, i + 1));
        } else {
            r.append("_");
        }
        i += 1;
        assert(r@ =~= sanitized(v@.take(i as int)));
    }
    assert(v@.take(i as int) =~= v@);
    r
}

/// The version that a directory without one is taken to be of.
pub open spec fn version_or_default(stored: Option<String>) -> Seq<char> {
    match stored {
        Some(v) => v@,
        None => "pre-1.0.3"@,
    }
}

/// The name of the backup to take before another version touches the data:
/// none if there is no data or the version is the same.
pub fn backup_before_version(
    stored: &Option<String>,
    revision: i64,
    current: &str,
    now_secs: u64,
) -> (r: Option<String>)
    ensures
        r is None <==> revision <= 0 || (*stored is Some && stored->0@ == current@),
        r is Some ==> r->0@ == "fastetcd-"@ + sanitized(version_or_default(*stored)) + "-to-"@
            + sanitized(current@) + "-"@ + text::dec(now_secs as nat) + ".redb"@,
{
    if revision <= 0 {
        return None;
    }
    let from: String = match stored {
        Some(v) => {
            if text::str_eq(v.as_str(), current) {
                return None;
            }
            v.clone()
        },
        None => String::from_str("pre-1.0.3"),
    };
    let mut s = join3("fastetcd-", sanitize(from.as_str()).as_str(), "-to-");
    s.append(sanitize(current).as_str());
    s.append("-");
    s.append(dec_u64(now_secs).as_str());
    s.append(".redb");
    Some(s)
}

/// A file of the backup directory and when it was written.
#[derive(Debug)]
pub struct BackupFile {
    pub name: String,
    /// `None` where it could not be read.
    pub modified: Option<i64>,
}

/// A file is a safety backup that this program wrote.
pub open spec fn is_backup(f: BackupFile) -> bool {
    parse::has_prefix(f.name@, "fastetcd-"@) && parse::has_suffix(f.name@, ".redb"@)
        && f.modified is Some
}

/// A name and a time, as values.
pub type Dated = (Seq<char>, i64);

/// A backup put into a list behind those that are not newer.
pub open spec fn put_by_age(s: Seq<Dated>, x: Dated) -> Seq<Dated>
    decreases s.len(),
{
    if s.len() == 0 {
        seq![x]
    } else if s.last().1 <= x.1 {
        s.push(x)
    } else {
        put_by_age(s.drop_last(), x).push(s.last())
    }
}

/// The backups among files, oldest first; of the same age, as listed.
pub open spec fn by_age(files: Seq<BackupFile>) -> Seq<Dated>
    decreases files.len(),
{
    if files.len() == 0 {
        seq![]
    } else {
        let rest = by_age(files.drop_last());
        let f = files.last();
        if is_backup(f) {
            put_by_age(rest, (f.name@, f.modified->0))
        } else {
            rest
        }
    }
}

/// Putting a backup into a list places it behind those that are not newer.
proof fn lemma_put_by_age_at(s: Seq<Dated>, x: Dated, p: int)
    requires
        0 <= p <= s.len(),
        p > 0 ==> s[p - 1].1 <= x.1,
        forall|i: int| p <= i < s.len() ==> (#[trigger] s[i]).1 > x.1,
    ensures
        put_by_age(s, x) == s.insert(p, x),
    decreases s.len(),
{
    if s.len() == 0 {
        assert(s.insert(p, x) =~= seq![x]);
    } else if p == s.len() {
        assert(s.insert(p, x) =~= s.push(x));
    } else {
        let t = s.drop_last();
        assert(s[s.len() - 1].1 > x.1);
        lemma_put_by_age_at(t, x, p);
        assert(s.insert(p, x) =~= t.insert(p, x).push(s.last()));
    }
}

/// The name and time of each backup of a list.
pub open spec fn dated(s: Seq<DatedName>) -> Seq<Dated> {
    s.map_values(|d: DatedName| (d.name@, d.modified))
}

/// A backup and when it was written.
#[derive(Debug)]
pub struct DatedName {
    pub name: String,
    pub modified: i64,
}

/// The names of the backups to delete before one more is taken, so that
/// with it at most `retain` stay.
pub fn before_backup(files: &Vec<BackupFile>, retain: usize) -> (r: Vec<String>)
    ensures
        is_pruning(
            names::texts(r@),
            files@,
            if retain == 0 {
                0
            } else {
                (retain - 1) as nat
            },
        ),
{
    prune_backups(
        files,
        if retain == 0 {
            0
        } else {
            retain - 1
        },
    )
}

/// The oldest of the backups, of as many as go beyond `keep`.
pub open spec fn is_pruning(r: Seq<Seq<char>>, files: Seq<BackupFile>, keep: nat) -> bool {
    let all = by_age(files);
    let n: int = if all.len() <= keep {
        0
    } else {
        all.len() - keep
    };
    &&& r.len() == n
    &&& forall|i: int| 0 <= i < n ==> #[trigger] r[i] == all[i].0
}

/// The names of the backups to delete so that at most `keep` stay, the
/// oldest first. What this program did not write is left alone.
pub fn prune_backups(files: &Vec<BackupFile>, keep: usize) -> (r: Vec<String>)
    ensures
        is_pruning(names::texts(r@), files@, keep as nat),
{
    let mut sorted: Vec<DatedName> = Vec::new();
    let mut i: usize = 0;
    assert(dated(sorted@) =~= by_age(files@.take(0)));
    while i < files.len()
        invariant
            i <= files@.len(),
            dated(sorted@) == by_age(files@.take(i as int)),
        decreases files@.len() - i,
    {
        assert(files@.take(i + 1).drop_last() =~= files@.take(i as int));
        let f = &files[i];
        if parse::begins_with(f.name.as_str(), "fastetcd-") && parse::ends_with(
            f.name.as_str(),
            ".redb",
        ) {
            if let Some(modified) = f.modified {
                let mut p: usize = sorted.len();
                while p > 0 && sorted[p - 1].modified > modified
                    invariant
                        p <= sorted@.len(),
                        forall|k: int|
                            p <= k < sorted@.len() ==> (#[trigger] sorted@[k]).modified > modified,
                    decreases p,
                {
                    p -= 1;
                }
                let ghost before = sorted@;
                let ghost x: Dated = (f.name@, modified);
                proof {
                    let s = dated(sorted@);
                    assert forall|k: int| p <= k < s.len() implies (#[trigger] s[k]).1 > x.1 by {
                        assert(s[k].1 == sorted@[k].modified);
                    }
                    if p > 0 {
                        assert(s[p - 1].1 == sorted@[p - 1].modified);
                    }
                    lemma_put_by_age_at(s, x, p as int);
                }
                sorted.insert(p, DatedName { name: f.name.clone(), modified });
                assert(dated(sorted@) =~= dated(before).insert(p as int, x));
            }
        }
        i += 1;
    }
    assert(files@.take(i as int) =~= files@);
    let ghost all = by_age(files@);
    assert(all.len() == sorted@.len());
    let mut out: Vec<String> = Vec::new();
    if sorted.len() <= keep {
        return out;
    }
    let n: usize = sorted.len() - keep;
    let mut j: usize = 0;
    while j < n
        invariant
            j <= n <= sorted@.len(),
            all == dated(sorted@),
            out@.len() == j,
            forall|k: int| 0 <= k < j ==> (#[trigger] out@[k])@ == all[k].0,
        decreases n - j,
    {
        assert(all[j as int].0 == sorted@[j as int].name@);
        out.push(sorted[j].name.clone());
        j += 1;
    }
    out
}

/// Roll-off takes the oldest: the backups are listed from the oldest to the
/// newest.
pub proof fn law_oldest_backups_go_first(files: Seq<BackupFile>)
    ensures
        forall|i: int, j: int|
            0 <= i < j < by_age(files).len() ==> (#[trigger] by_age(files)[i]).1 <= (
            #[trigger] by_age(files)[j]).1,
    decreases files.len(),
{
    if files.len() > 0 {
        law_oldest_backups_go_first(files.drop_last());
        let f = files.last();
        if is_backup(f) {
            lemma_put_keeps_ages(by_age(files.drop_last()), (f.name@, f.modified->0));
        }
    }
}

/// Putting a backup into a list of ascending ages keeps them ascending.
proof fn lemma_put_keeps_ages(s: Seq<Dated>, x: Dated)
    requires
        forall|i: int, j: int| 0 <= i < j < s.len() ==> (#[trigger] s[i]).1 <= (#[trigger] s[j]).1,
    ensures
        forall|i: int, j: int|
            0 <= i < j < put_by_age(s, x).len() ==> (#[trigger] put_by_age(s, x)[i]).1 <= (
            #[trigger] put_by_age(s, x)[j]).1,
        put_by_age(s, x).len() == s.len() + 1,
        forall|i: int|
            0 <= i < put_by_age(s, x).len() ==> (#[trigger] put_by_age(s, x)[i]).1 <= x.1 || (
            s.len() > 0 && put_by_age(s, x)[i].1 <= s.last().1),
    decreases s.len(),
{
    if s.len() > 0 && s.last().1 > x.1 {
        let t = s.drop_last();
        lemma_put_keeps_ages(t, x);
        if t.len() > 0 {
            assert(s[t.len() - 1].1 <= s[s.len() - 1].1);
            assert(t.last() == s[t.len() - 1]);
        }
    } else if s.len() > 0 {
        assert forall|i: int| 0 <= i < s.len() implies (#[trigger] s[i]).1 <= x.1 by {
            if i < s.len() - 1 {
                assert(s[i].1 <= s[s.len() - 1].1);
            }
        }
    }
}

/// The refusal when a data file is missing.
pub open spec fn no_data(src: Seq<char>) -> Seq<char> {
    "no data directory at "@ + src
}

/// What is said of a data file that could not be opened.
pub open spec fn not_exclusive(src: Seq<char>, error: Seq<char>) -> Seq<char> {
    "cannot open "@ + src + " exclusively ("@ + error
        + "); is the fastetcd server still running? Stop it first, or use `fastetcd-ctl snapshot-save` for a live backup."@
}

/// The refusal when a data file cannot be opened for this program alone.
pub fn open_or_hint(src: &str, error: &str) -> (r: String)
    ensures
        r@ == not_exclusive(src@, error@),
{
    let mut s = join3("cannot open ", src, " exclusively (");
    s.append(error);
    s.append(
        "); is the fastetcd server still running? Stop it first, or use `fastetcd-ctl snapshot-save` for a live backup.",
    );
    s
}

/// Whether a data file may be worked on while the server is stopped: only
/// if it is there and could be opened for this program alone.
pub fn exclusive(src: &str, present: bool, opened: Result<(), String>) -> (r: Result<(), String>)
    ensures
        r is Ok <==> present && opened is Ok,
        !present ==> r->Err_0@ == no_data(src@),
        present && opened is Err ==> r->Err_0@ == not_exclusive(src@, opened->Err_0@),
{
    if !present {
        return Err(String::from_str("no data directory at ").concat(src));
    }
    match opened {
        Ok(_) => Ok(()),
        Err(e) => Err(open_or_hint(src, e.as_str())),
    }
}

/// Whether a copy of a data file may be taken.
pub fn cmd_backup(src: &str, present: bool, opened: Result<(), String>) -> (r: Result<(), String>)
    ensures
        r is Ok <==> present && opened is Ok,
        !present ==> r->Err_0@ == no_data(src@),
        present && opened is Err ==> r->Err_0@ == not_exclusive(src@, opened->Err_0@),
{
    exclusive(src, present, opened)
}

/// What a backup that was taken prints.
pub fn backup_line(src: &str, bytes: u64, out: &str) -> (r: String)
    ensures
        r@ == "backup: copied "@ + src@ + " ("@ + text::dec(bytes as nat) + " bytes) -> "@ + out@,
{
    let mut s = join3("backup: copied ", src, " (");
    s.append(dec_u64(bytes).as_str());
    s.append(" bytes) -> ");
    s.append(out);
    s
}

/// What is printed before a file is compacted.
pub fn defrag_usage_line(src: &str, file_bytes: u64, in_use_bytes: u64, reclaimable: u64) -> (r:
    String)
    ensures
        r@ == "defrag: "@ + src@ + " is "@ + text::dec(file_bytes as nat) + " bytes, "@ + text::dec(
            in_use_bytes as nat,
        ) + " bytes live (up to "@ + text::dec(reclaimable as nat) + " bytes may be recoverable)"@,
{
    let mut s = join3("defrag: ", src, " is ");
    s.append(dec_u64(file_bytes).as_str());
    s.append(" bytes, ");
    s.append(dec_u64(in_use_bytes).as_str());
    s.append(" bytes live (up to ");
    s.append(dec_u64(reclaimable).as_str());
    s.append(" bytes may be recoverable)");
    s
}

/// How many bytes came back.
pub open spec fn returned(before: u64, after: u64) -> nat {
    if before > after {
        (before - after) as nat
    } else {
        0
    }
}

/// What is printed after a file was compacted, with a hint if nothing came
/// back.
pub fn cmd_defrag(before: u64, after: u64) -> (r: Vec<String>)
    ensures
        r@.len() == (if after >= before {
            2int
        } else {
            1
        }),
        r@[0]@ == "defrag: "@ + text::dec(before as nat) + " -> "@ + text::dec(after as nat)
            + " bytes ("@ + text::dec(returned(before, after))
            + " bytes returned to the filesystem)"@,
        after >= before ==> r@[1]@
            == "defrag: nothing came back. The figure above is an upper bound — it is the space not currently held by live pages, and the allocator can only return whole regions at the end of the file. Compact MVCC history (`etcdctl compact <rev>`, or run with --auto-compaction-retention) to turn live pages into free ones, or give the volume more room."@,
{
    let back: u64 = if before > after {
        before - after
    } else {
        0
    };
    let mut s = join3("defrag: ", dec_u64(before).as_str(), " -> ");
    s.append(dec_u64(after).as_str());
    s.append(" bytes (");
    s.append(dec_u64(back).as_str());
    s.append(" bytes returned to the filesystem)");
    let mut lines: Vec<String> = Vec::new();
    lines.push(s);
    if after >= before {
        lines.push(
            String::from_str(
                "defrag: nothing came back. The figure above is an upper bound — it is the space not currently held by live pages, and the allocator can only return whole regions at the end of the file. Compact MVCC history (`etcdctl compact <rev>`, or run with --auto-compaction-retention) to turn live pages into free ones, or give the volume more room.",
            ),
        );
    }
    lines
}

/// What restoring a backup does.
#[derive(Debug)]
pub struct RestorePlan {
    /// The file that the present data is kept as, if there is any.
    pub save_as: Option<String>,
    /// The revision of the backup.
    pub revision: i64,
}

/// The refusal to put an older backup over newer data.
pub open spec fn refuses_older(current: i64, backup: i64) -> Seq<char> {
    "refusing to restore: current data dir is at revision "@ + text::dec_int(current as int)
        + ", newer than the backup at revision "@ + text::dec_int(backup as int)
        + ". Re-run with --force to overwrite (the current file is kept as fastetcd.redb.replaced-*)."@
}

/// The name that the present data is kept as.
pub open spec fn replaced_name(data_dir: Seq<char>, now_secs: u64) -> Seq<char> {
    snapshot_store::joined(data_dir, "fastetcd.redb.replaced-"@ + text::dec(now_secs as nat))
}

/// Whether a backup may be restored, and what becomes of the present data.
/// `found` is the revision of the backup, or why it cannot be read; it is
/// `None` where there is no such file. `current` is the revision of the
/// present data, if there is any.
pub fn cmd_restore(
    backup: &str,
    found: Option<Result<i64, String>>,
    current: Option<i64>,
    data_dir: &str,
    now_secs: u64,
    force: bool,
) -> (r: Result<RestorePlan, String>)
    ensures
        match found {
            None => r is Err && r->Err_0@ == "backup file "@ + backup@ + " does not exist"@,
            Some(Err(e)) => r is Err && r->Err_0@ == backup@
                + " is not a readable fastetcd backup: "@ + e@,
            Some(Ok(rev)) => if current is Some && current->0 > rev && !force {
                r is Err && r->Err_0@ == refuses_older(current->0, rev)
            } else {
                &&& r is Ok
                &&& r->Ok_0.revision == rev
                &&& r->Ok_0.save_as is Some <==> current is Some
                &&& current is Some ==> (r->Ok_0.save_as->0)@ == replaced_name(data_dir@, now_secs)
            },
        },
{
    match found {
        None => Err(join3("backup file ", backup, " does not exist")),
        Some(Err(e)) => Err(join3(backup, " is not a readable fastetcd backup: ", e.as_str())),
        Some(Ok(rev)) => match current {
            None => Ok(RestorePlan { save_as: None, revision: rev }),
            Some(cur) => {
                if cur > rev && !force {
                    let mut s = join3(
                        "refusing to restore: current data dir is at revision ",
                        dec_i64(cur).as_str(),
                        ", newer than the backup at revision ",
                    );
                    s.append(dec_i64(rev).as_str());
                    s.append(
                        ". Re-run with --force to overwrite (the current file is kept as fastetcd.redb.replaced-*).",
                    );
                    Err(s)
                } else {
                    let name = String::from_str("fastetcd.redb.replaced-").concat(
                        dec_u64(now_secs).as_str(),
                    );
                    Ok(
                        RestorePlan {
                            save_as: Some(join_path(data_dir, name.as_str())),
                            revision: rev,
                        },
                    )
                }
            },
        },
    }
}

/// What a backup that was restored prints.
pub fn restore_line(backup: &str, revision: i64, dst: &str, bytes: u64) -> (r: String)
    ensures
        r@ == "restore: "@ + backup@ + " (rev "@ + text::dec_int(revision as int) + ") -> "@ + dst@
            + " ("@ + text::dec(bytes as nat) + " bytes)"@,
{
    let mut s = join3("restore: ", backup, " (rev ");
    s.append(dec_i64(revision).as_str());
    s.append(") -> ");
    s.append(dst);
    s.append(" (");
    s.append(dec_u64(bytes).as_str());
    s.append(" bytes)");
    s
}

/// The entries that are searched for a membership are the newest that the
/// log still has: none that was purged, twenty thousand at most, and all
/// where there are no more.
pub proof fn law_newest_entries_are_searched(log: LogState)
    ensures
        log.last_log_id matches Some(l) ==> past(log.last_log_id) == l.index + 1,
        log.last_log_id is None ==> past(log.last_log_id) == 0,
        window_start(log) >= past(log.last_purged_log_id),
        past(log.last_log_id) - window_start(log) <= 20_000,
        past(log.last_log_id) - past(log.last_purged_log_id) >= 20_000 ==> past(log.last_log_id)
            - window_start(log) == 20_000,
        past(log.last_log_id) - past(log.last_purged_log_id) < 20_000 && past(
            log.last_purged_log_id,
        ) >= 0 ==> window_start(log) == past(log.last_purged_log_id) || (past(
            log.last_purged_log_id,
        ) == 0 && window_start(log) == 0),
        MEMBERSHIP_WINDOW == 20_000,
        extensible(log) <==> (log.last_log_id is Some ==> log.last_log_id->0.index < u64::MAX) && (
        log.last_purged_log_id is Some ==> log.last_purged_log_id->0.index < u64::MAX),
{
}

/// The membership is recovered by itself exactly where there are records
/// and nobody votes; a forced start does not look for one.
pub proof fn law_membership_is_recovered_where_nobody_votes(
    sm: FastetcdStateMachine,
    d: DirState,
)
    ensures
        needs_membership(sm, d, false) <==> d.revision > 0
            && sm.last_membership.membership.voterless(),
        !needs_membership(sm, d, true),
{
}

/// Of several entries that carry a membership the last counts, under its
/// own log position; entries that carry none do not matter.
pub proof fn law_last_membership_counts(
    tail: Seq<Entry<EntryPayload>>,
    e: Entry<EntryPayload>,
)
    ensures
        latest_membership(seq![]) is None,
        e.payload matches EntryPayload::Membership(m) ==> {
            &&& latest_membership(tail.push(e)) is Some
            &&& latest_membership(tail.push(e))->0.log_id == Some(e.log_id)
            &&& latest_membership(tail.push(e))->0.membership == m
        },
        !(e.payload is Membership) ==> latest_membership(tail.push(e)) == latest_membership(tail),
{
    assert(tail.push(e).drop_last() =~= tail);
}

/// A recovered membership is recorded under the place that the log was
/// purged to, or its last one where nothing was purged.
pub proof fn law_recovered_membership_has_a_place(log: LogState)
    ensures
        log.last_purged_log_id is Some ==> recovery_place(log) == log.last_purged_log_id,
        log.last_purged_log_id is None ==> recovery_place(log) == log.last_log_id,
{
}

/// After a forced start this node votes, at the address it is configured
/// with, and nobody else does.
pub proof fn law_forced_start_leaves_one_voter(
    plan: RecoveryPlan,
    sm: FastetcdStateMachine,
    d: DirState,
    all_members: Map<u64, String>,
    tail: Seq<Entry<EntryPayload>>,
    node_id: NodeId,
    other: NodeId,
)
    requires
        is_recovery(plan, sm, d, all_members, tail, node_id, true),
        other != node_id,
    ensures
        plan.membership is Some,
        plan.membership->0.membership.votes(node_id),
        !plan.membership->0.membership.votes(other),
        !plan.membership->0.membership.nodes@.contains_key(other),
        plan.membership->0.membership.nodes@.contains_key(node_id),
        all_members.contains_key(node_id) ==> plan.membership->0.membership.nodes@[node_id]@
            == all_members[node_id]@,
        plan.membership->0.log_id == recovery_place(d.log),
        plan.report.membership_source matches Some(s) && s@
            == "--force-new-cluster (single node)"@,
{
    let m = plan.membership->0.membership;
    assert(m.votes(node_id) <==> node_id == node_id);
    assert(m.votes(other) <==> other == node_id);
    assert(m.nodes@.contains_key(node_id) <==> node_id == node_id);
    assert(m.nodes@.contains_key(other) <==> other == node_id);
}

/// Where nobody votes, a recovery takes the newest membership of the log
/// as it is; where the log has none, every configured member votes, at its
/// address, and nobody else. Where somebody votes nothing is taken.
pub proof fn law_recovery_takes_the_log_or_the_settings(
    plan: RecoveryPlan,
    sm: FastetcdStateMachine,
    d: DirState,
    all_members: Map<u64, String>,
    tail: Seq<Entry<EntryPayload>>,
    node_id: NodeId,
    id: NodeId,
)
    requires
        is_recovery(plan, sm, d, all_members, tail, node_id, false),
    ensures
        d.revision <= 0 || !sm.last_membership.membership.voterless() ==> plan.membership is None
            && plan.recorded is None && plan.report.membership_source is None,
        d.revision > 0 && sm.last_membership.membership.voterless() ==> {
            &&& plan.membership is Some
            &&& latest_membership(tail) is Some ==> plan.membership == latest_membership(tail) && (
            plan.report.membership_source matches Some(s) && s@ == "retained raft log (exact)"@)
            &&& latest_membership(tail) is None ==> {
                &&& plan.membership->0.membership.votes(id) <==> all_members.contains_key(id)
                &&& plan.membership->0.membership.nodes@.contains_key(id)
                    <==> all_members.contains_key(id)
                &&& all_members.contains_key(id) ==> plan.membership->0.membership.nodes@[id]@
                    == all_members[id]@
                &&& plan.membership->0.log_id == recovery_place(d.log)
                &&& plan.report.membership_source matches Some(s) && s@
                    == "--initial-cluster (log purged clean of membership; best effort)"@
            }
        },
{
    if d.revision > 0 && sm.last_membership.membership.voterless() && latest_membership(
        tail,
    ) is None {
        let m = plan.membership->0.membership;
        assert(m.votes(id) <==> all_members.contains_key(id));
        assert(m.nodes@.contains_key(id) <==> all_members.contains_key(id));
    }
}

/// The purge position is adopted as the applied place exactly where none
/// is recorded and something was written; the format is stamped exactly
/// where it is not the expected one; the voters that are reported are
/// those of the membership that is taken.
pub proof fn law_recovery_reports_what_it_writes(
    plan: RecoveryPlan,
    sm: FastetcdStateMachine,
    d: DirState,
    all_members: Map<u64, String>,
    tail: Seq<Entry<EntryPayload>>,
    node_id: NodeId,
    force: bool,
    id: NodeId,
)
    requires
        is_recovery(plan, sm, d, all_members, tail, node_id, force),
    ensures
        sm.last_applied_log_id is None && d.revision != 0 ==> plan.report.adopted_applied
            == d.log.last_purged_log_id,
        sm.last_applied_log_id is Some || d.revision == 0 ==> plan.report.adopted_applied is None,
        plan.applied is Some <==> plan.report.adopted_applied is Some,
        plan.report.adopted_applied matches Some(l) ==> plan.applied->0@ == seq![1u8]
            + crate::codec::bare_bytes(l),
        plan.report.stamped_format <==> d.format != Some(d.expected_format),
        plan.recorded is Some <==> plan.membership is Some,
        plan.membership matches Some(m) ==> {
            &&& plan.report.membership_voters@.contains(id) <==> m.membership.votes(id)
            &&& plan.recorded->0@ == stored::membership_bytes(m)
        },
        plan.membership is None ==> plan.report.membership_voters@.len() == 0,
        plan.report.repaired() <==> plan.report.adopted_applied is Some
            || plan.report.membership_source is Some || plan.report.stamped_format,
{
    if plan.membership is Some {
        assert(plan.report.membership_voters@.contains(id)
            <==> plan.membership->0.membership.votes(id));
    }
}

/// The voters that are reported come in ascending order, each once.
pub proof fn law_reported_voters_are_in_order(ids: Seq<u64>, m: Membership, i: int, j: int)
    requires
        lists_voters(ids, m),
        0 <= i < j < ids.len(),
    ensures
        ids[i] < ids[j],
        m.votes(ids[i]),
{
    assert(ids.contains(ids[i]));
}

/// What a recovery writes replaces what it is for, and nothing else of the
/// state.
pub proof fn law_recovery_changes_what_it_writes(sm: FastetcdStateMachine, plan: RecoveryPlan)
    ensures
        plan.report.adopted_applied is Some ==> recovered_machine(sm, plan).last_applied_log_id
            == plan.report.adopted_applied,
        plan.report.adopted_applied is None ==> recovered_machine(sm, plan).last_applied_log_id
            == sm.last_applied_log_id,
        plan.membership matches Some(m) ==> recovered_machine(sm, plan).last_membership == m,
        plan.membership is None ==> recovered_machine(sm, plan).last_membership
            == sm.last_membership,
{
}

/// A version in a file name keeps its letters, digits and dots where they
/// stand; anything else becomes an underscore.
pub proof fn law_version_in_a_name_keeps_its_length(v: Seq<char>, i: int)
    requires
        0 <= i < v.len(),
    ensures
        sanitized(v).len() == v.len(),
        ('0' <= v[i] && v[i] <= '9') || ('a' <= v[i] && v[i] <= 'z') || ('A' <= v[i] && v[i]
            <= 'Z') || v[i] == '.' ==> sanitized(v)[i] == v[i],
        !(('0' <= v[i] && v[i] <= '9') || ('a' <= v[i] && v[i] <= 'z') || ('A' <= v[i] && v[i]
            <= 'Z') || v[i] == '.') ==> sanitized(v)[i] == '_',
{
}

/// A directory without a recorded version is taken to be of the last one
/// that recorded none.
pub proof fn law_missing_version_is_an_old_one(stored: Option<String>)
    ensures
        stored is None ==> version_or_default(stored) == "pre-1.0.3"@,
        stored matches Some(v) ==> version_or_default(stored) == v@,
{
}

/// A file is a backup exactly when its name has the prefix and the suffix
/// that backups are given, and its age is known.
pub proof fn law_backup_is_known_by_its_name(f: BackupFile, middle: Seq<char>)
    ensures
        f.modified is None ==> !is_backup(f),
        f.modified is Some && f.name@ == "fastetcd-"@ + middle + ".redb"@ ==> is_backup(f),
        is_backup(f) ==> parse::has_prefix(f.name@, "fastetcd-"@) && parse::has_suffix(
            f.name@,
            ".redb"@,
        ),
{
    let s = "fastetcd-"@ + middle + ".redb"@;
    assert(s.take("fastetcd-"@.len() as int) =~= "fastetcd-"@);
    assert(s.skip(s.len() - ".redb"@.len()) =~= ".redb"@);
}

/// Putting a backup into a list keeps all that is in it, and adds that
/// one.
pub proof fn lemma_put_by_age_counts(s: Seq<Dated>, x: Dated)
    ensures
        put_by_age(s, x).len() == s.len() + 1,
        put_by_age(s, x).to_multiset() == s.to_multiset().insert(x),
    decreases s.len(),
{
    broadcast use vstd::seq_lib::group_to_multiset_ensures;

    if s.len() == 0 {
        assert(s =~= seq![]);
        assert(seq![x] =~= s.push(x));
    } else if s.last().1 <= x.1 {
    } else {
        lemma_put_by_age_counts(s.drop_last(), x);
        assert(s =~= s.drop_last().push(s.last()));
        assert(put_by_age(s, x).to_multiset() =~= s.to_multiset().insert(x));
    }
}

/// The backups of a directory are the files that are backups, each once,
/// with its own name and age; any other file is not among them.
pub proof fn law_backups_are_listed_once(files: Seq<BackupFile>, f: BackupFile)
    ensures
        by_age(seq![]).len() == 0,
        !is_backup(f) ==> by_age(files.push(f)) == by_age(files),
        is_backup(f) ==> {
            &&& by_age(files.push(f)).len() == by_age(files).len() + 1
            &&& by_age(files.push(f)).to_multiset() == by_age(files).to_multiset().insert(
                (f.name@, f.modified->0),
            )
        },
{
    assert(files.push(f).drop_last() =~= files);
    if is_backup(f) {
        lemma_put_by_age_counts(by_age(files), (f.name@, f.modified->0));
    }
}

/// Roll-off deletes only as many backups as go beyond the number to keep,
/// and those are the first of the list, which are the oldest.
pub proof fn law_roll_off_keeps_the_newest(
    r: Seq<Seq<char>>,
    files: Seq<BackupFile>,
    keep: nat,
    i: int,
    j: int,
)
    requires
        is_pruning(r, files, keep),
    ensures
        by_age(files).len() <= keep ==> r.len() == 0,
        by_age(files).len() > keep ==> by_age(files).len() - r.len() == keep,
        0 <= i < r.len() ==> r[i] == by_age(files)[i].0,
        0 <= i < r.len() && r.len() <= j < by_age(files).len() ==> by_age(files)[i].1 <= by_age(
            files,
        )[j].1,
{
    law_oldest_backups_go_first(files);
    if 0 <= i < r.len() && r.len() <= j < by_age(files).len() {
        assert(by_age(files)[i].1 <= by_age(files)[j].1);
    }
}

/// A list of backups is its names and ages in order.
pub proof fn law_dated_names_are_held_in_order(s: Seq<DatedName>, i: int)
    requires
        0 <= i < s.len(),
    ensures
        dated(s).len() == s.len(),
        dated(s)[i].0 == s[i].name@,
        dated(s)[i].1 == s[i].modified,
{
}

/// A refusal names the file it is about, and for a restore both revisions,
/// the present one first.
pub proof fn law_refusals_name_what_they_are_about(
    src: Seq<char>,
    error: Seq<char>,
    current: i64,
    backup: i64,
    data_dir: Seq<char>,
    now_secs: u64,
)
    ensures
        no_data(src) == "no data directory at "@ + src,
        not_exclusive(src, error) == "cannot open "@ + src + " exclusively ("@ + error
            + "); is the fastetcd server still running? Stop it first, or use `fastetcd-ctl snapshot-save` for a live backup."@,
        refuses_older(current, backup)
            == "refusing to restore: current data dir is at revision "@ + text::dec_int(
            current as int,
        ) + ", newer than the backup at revision "@ + text::dec_int(backup as int)
            + ". Re-run with --force to overwrite (the current file is kept as fastetcd.redb.replaced-*)."@,
        replaced_name(data_dir, now_secs) == snapshot_store::joined(
            data_dir,
            "fastetcd.redb.replaced-"@ + text::dec(now_secs as nat),
        ),
{
}

/// What came back is the difference where the file shrank, and nothing
/// where it did not.
pub proof fn law_returned_bytes_are_the_difference(before: u64, after: u64)
    ensures
        before >= after ==> returned(before, after) + after == before,
        before < after ==> returned(before, after) == 0,
{
}

/// A backup is listed behind all that are not newer than it, and before
/// those that are: of the same age the one listed first comes first.
pub proof fn law_backup_goes_behind_those_of_its_age(
    files: Seq<BackupFile>,
    f: BackupFile,
    p: int,
)
    requires
        is_backup(f),
        0 <= p <= by_age(files).len(),
        forall|i: int| 0 <= i < p ==> (#[trigger] by_age(files)[i]).1 <= f.modified->0,
        forall|i: int| p <= i < by_age(files).len() ==> (#[trigger] by_age(files)[i]).1
            > f.modified->0,
    ensures
        by_age(files.push(f)) == by_age(files).insert(p, (f.name@, f.modified->0)),
{
    assert(files.push(f).drop_last() =~= files);
    lemma_put_by_age_at(by_age(files), (f.name@, f.modified->0), p);
}

} // verus!
