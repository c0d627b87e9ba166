//! Who votes in the cluster, where its nodes are reached, and the metadata
//! of a snapshot.

use vstd::prelude::*;
use crate::idmap::{self, IdMap};
use crate::types::LogId;

verus! {

/// A set of voter configurations that must all agree, and the address of
/// each node. A node that no configuration names is a learner.
#[derive(Debug)]
pub struct Membership {
    pub configs: Vec<Vec<u64>>,
    pub nodes: IdMap<String>,
}

/// A membership and the log entry that set it.
#[derive(Debug)]
pub struct StoredMembership {
    pub log_id: Option<LogId>,
    pub membership: Membership,
}

/// What a snapshot covers, and its name.
#[derive(Debug)]
pub struct SnapshotMeta {
    pub last_log_id: Option<LogId>,
    pub last_membership: StoredMembership,
    pub snapshot_id: String,
}

/// A configuration names a voter.
pub open spec fn config_names(configs: Seq<Vec<u64>>, id: u64) -> bool {
    exists|c: int| 0 <= c < configs.len() && (#[trigger] configs[c])@.contains(id)
}

/// Numbers come in ascending order, each once.
pub open spec fn climb(s: Seq<u64>) -> bool {
    forall|i: int, j: int| 0 <= i < j < s.len() ==> #[trigger] s[i] < #[trigger] s[j]
}

/// The voters of each configuration come in ascending order, each once.
pub open spec fn voters_climb(configs: Seq<Vec<u64>>) -> bool {
    forall|c: int| 0 <= c < configs.len() ==> climb((#[trigger] configs[c])@)
}

impl Membership {
    /// The voters of each configuration and the addresses are in order.
    pub open spec fn wf(self) -> bool {
        voters_climb(self.configs@) && self.nodes.wf()
    }

    /// A node votes.
    pub open spec fn votes(self, id: u64) -> bool {
        config_names(self.configs@, id)
    }

    /// No node votes.
    pub open spec fn voterless(self) -> bool {
        forall|id: u64| !self.votes(id)
    }

    /// No configuration and no node.
    pub fn empty() -> (r: Membership)
        ensures
            r.wf(),
            r.voterless(),
            r.configs@.len() == 0,
            r.nodes.entries@.len() == 0,
            r.nodes@ == Map::<u64, String>::empty(),
    {
        Membership { configs: Vec::new(), nodes: IdMap::new() }
    }

    /// A membership of given configurations and addresses. A voter without
    /// an address gets an empty one.
    pub fn new(configs: Vec<Vec<u64>>, nodes: IdMap<String>) -> (r: Membership)
        requires
            nodes.wf(),
        ensures
            r.nodes.wf(),
            voters_climb(configs@) ==> r.wf(),
            r.configs == configs,
            forall|id: u64| #[trigger]
                r.nodes@.contains_key(id) <==> nodes@.contains_key(id) || config_names(
                    configs@,
                    id,
                ),
            forall|id: u64| #[trigger]
                r.nodes@.contains_key(id) ==> r.nodes@[id]@ == (if nodes@.contains_key(id) {
                    nodes@[id]@
                } else {
                    ""@
                }),
    {
        let ghost given = nodes@;
        let mut all = nodes;
        let mut i: usize = 0;
        while i < configs.len()
            invariant
                i <= configs@.len(),
                all.wf(),
                forall|id: u64| #[trigger]
                    all@.contains_key(id) <==> given.contains_key(id) || config_names(
                        configs@.take(i as int),
                        id,
                    ),
                forall|id: u64| #[trigger]
                    all@.contains_key(id) ==> all@[id]@ == (if given.contains_key(id) {
                        given[id]@
                    } else {
                        ""@
                    }),
            decreases configs@.len() - i,
        {
            let config = &configs[i];
            let mut j: usize = 0;
            while j < config.len()
                invariant
                    i < configs@.len(),
                    config == configs@[i as int],
                    j <= config@.len(),
                    all.wf(),
                    forall|id: u64| #[trigger]
                        all@.contains_key(id) <==> given.contains_key(id) || config_names(
                            configs@.take(i as int),
                            id,
                        ) || config@.take(j as int).contains(id),
                    forall|id: u64| #[trigger]
                        all@.contains_key(id) ==> all@[id]@ == (if given.contains_key(id) {
                            given[id]@
                        } else {
                            ""@
                        }),
                decreases config@.len() - j,
            {
                let id: u64 = config[j];
                if !all.contains(id) {
                    all.insert(id, String::from_str(""));
                }
                proof {
                    let t = config@.take(j as int);
                    assert(config@.take(j + 1) =~= t.push(id));
                    assert forall|k: u64| config@.take(j + 1).contains(k) <==> t.contains(k) || k
                        == id by {
                        vstd::seq_lib::lemma_seq_contains_after_push(t, id, k);
                    }
                }
                j += 1;
            }
            proof {
                assert(config@.take(j as int) =~= config@);
                let before = configs@.take(i as int);
                let after = configs@.take(i + 1);
                assert forall|id: u64| config_names(after, id) <==> config_names(before, id)
                    || config@.contains(id) by {
                    lemma_names_push(before, *config, id);
                    assert(after =~= before.push(*config));
                }
            }
            i += 1;
        }
        assert(configs@.take(i as int) =~= configs@);
        Membership { configs, nodes: all }
    }

    /// No node votes.
    pub fn is_voterless(&self) -> (r: bool)
        ensures
            r == self.voterless(),
    {
        let mut i: usize = 0;
        while i < self.configs.len()
            invariant
                i <= self.configs@.len(),
                forall|c: int| 0 <= c < i ==> (#[trigger] self.configs@[c])@.len() == 0,
            decreases self.configs@.len() - i,
        {
            if self.configs[i].len() > 0 {
                proof {
                    let id = self.configs@[i as int]@[0];
                    assert(self.configs@[i as int]@.contains(id));
                    assert(self.votes(id));
                }
                return false;
            }
            i += 1;
        }
        true
    }

    /// The voters, each once, in ascending order.
    pub fn voter_ids(&self) -> (r: Vec<u64>)
        ensures
            forall|i: int, j: int| 0 <= i < j < r@.len() ==> #[trigger] r@[i] < #[trigger] r@[j],
            forall|id: u64| #[trigger] r@.contains(id) <==> self.votes(id),
    {
        let mut seen: IdMap<()> = IdMap::new();
        let mut i: usize = 0;
        while i < self.configs.len()
            invariant
                i <= self.configs@.len(),
                seen.wf(),
                forall|id: u64| #[trigger]
                    seen@.contains_key(id) <==> config_names(self.configs@.take(i as int), id),
            decreases self.configs@.len() - i,
        {
            let config = &self.configs[i];
            let mut j: usize = 0;
            while j < config.len()
                invariant
                    i < self.configs@.len(),
                    config == self.configs@[i as int],
                    j <= config@.len(),
                    seen.wf(),
                    forall|id: u64| #[trigger]
                        seen@.contains_key(id) <==> config_names(
                            self.configs@.take(i as int),
                            id,
                        ) || config@.take(j as int).contains(id),
                decreases config@.len() - j,
            {
                let id: u64 = config[j];
                seen.insert(id, ());
                proof {
                    let t = config@.take(j as int);
                    assert(config@.take(j + 1) =~= t.push(id));
                    assert forall|k: u64| config@.take(j + 1).contains(k) <==> t.contains(k) || k
                        == id by {
                        vstd::seq_lib::lemma_seq_contains_after_push(t, id, k);
                    }
                }
                j += 1;
            }
            proof {
                assert(config@.take(j as int) =~= config@);
                let before = self.configs@.take(i as int);
                let after = self.configs@.take(i + 1);
                assert forall|id: u64| config_names(after, id) <==> config_names(before, id)
                    || config@.contains(id) by {
                    lemma_names_push(before, *config, id);
                    assert(after =~= before.push(*config));
                }
            }
            i += 1;
        }
        assert(self.configs@.take(i as int) =~= self.configs@);
        seen.ids()
    }
}

/// A list with one configuration more names its voters too.
proof fn lemma_names_push(configs: Seq<Vec<u64>>, c: Vec<u64>, id: u64)
    ensures
        config_names(configs.push(c), id) <==> config_names(configs, id) || c@.contains(id),
{
    let after = configs.push(c);
    if config_names(configs, id) {
        let k = choose|k: int| 0 <= k < configs.len() && (#[trigger] configs[k])@.contains(id);
        assert(after[k]@.contains(id));
    }
    if c@.contains(id) {
        assert(after[configs.len() as int]@.contains(id));
    }
    if config_names(after, id) {
        let k = choose|k: int| 0 <= k < after.len() && (#[trigger] after[k])@.contains(id);
        if k < configs.len() {
            assert(configs[k]@.contains(id));
        }
    }
}

impl StoredMembership {
    /// No membership was ever set.
    pub fn empty() -> (r: StoredMembership)
        ensures
            r.membership.wf(),
            r.log_id is None,
            r.membership.voterless(),
            r.membership.configs@.len() == 0,
            r.membership.nodes.entries@.len() == 0,
            r.membership.nodes@ == Map::<u64, String>::empty(),
    {
        StoredMembership { log_id: None, membership: Membership::empty() }
    }
}

/// A node votes exactly when some configuration names it, and none votes
/// exactly when no configuration names any.
pub proof fn law_voters_are_those_a_configuration_names(m: Membership, id: u64)
    ensures
        m.votes(id) <==> exists|c: int|
            0 <= c < m.configs@.len() && (#[trigger] m.configs@[c])@.contains(id),
        m.voterless() <==> forall|c: int, v: u64|
            0 <= c < m.configs@.len() ==> !(#[trigger] m.configs@[c]@.contains(v)),
{
    if m.voterless() {
        assert forall|c: int, v: u64| 0 <= c < m.configs@.len() implies !(
        #[trigger] m.configs@[c]@.contains(v)) by {
            assert(!m.votes(v));
        }
    }
    if forall|c: int, v: u64|
        0 <= c < m.configs@.len() ==> !(#[trigger] m.configs@[c]@.contains(v)) {
        assert forall|v: u64| !m.votes(v) by {
            if m.votes(v) {
                let c = choose|c: int|
                    0 <= c < m.configs@.len() && (#[trigger] m.configs@[c])@.contains(v);
                assert(!m.configs@[c]@.contains(v));
            }
        }
    }
}

/// In a membership that is in order, each configuration names its voters
/// in ascending order, none twice.
pub proof fn law_voters_are_named_in_order(m: Membership, c: int, i: int, j: int)
    requires
        m.wf(),
        0 <= c < m.configs@.len(),
        0 <= i < j < m.configs@[c]@.len(),
    ensures
        m.configs@[c]@[i] < m.configs@[c]@[j],
{
    assert(climb(m.configs@[c]@));
}

} // verus!
