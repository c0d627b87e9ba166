//! The stored form of memberships and of the metadata of snapshots, which
//! is that of the consensus runtime's own records.

use vstd::prelude::*;
use crate::codec::le;
use crate::idmap::{IdEntry, IdMap};
use crate::membership::{self, Membership, SnapshotMeta, StoredMembership};
use crate::types::LogId;

verus! {

/// A log position as plain numbers: term, node, index.
pub open spec fn place_parts(l: Option<LogId>) -> Option<(u64, u64, u64)> {
    match l {
        None => None,
        Some(l) => Some((l.term, l.node_id, l.index)),
    }
}

/// The voters of each configuration.
pub open spec fn lists(configs: Seq<Vec<u64>>) -> Seq<Seq<u64>> {
    configs.map_values(|c: Vec<u64>| c@)
}

/// Nodes and their addresses.
pub open spec fn addresses(nodes: Seq<(u64, String)>) -> Seq<(u64, Seq<char>)> {
    nodes.map_values(|n: (u64, String)| (n.0, n.1@))
}

/// Nodes and their addresses, as a map holds them.
pub open spec fn listed(nodes: Seq<IdEntry<String>>) -> Seq<(u64, Seq<char>)> {
    nodes.map_values(|n: IdEntry<String>| (n.id, n.value@))
}

/// A membership as plain values: the place that set it, the voters of each
/// configuration, and the nodes with their addresses.
pub open spec fn membership_parts(m: StoredMembership) -> (
    Option<(u64, u64, u64)>,
    Seq<Seq<u64>>,
    Seq<(u64, Seq<char>)>,
) {
    (place_parts(m.log_id), lists(m.membership.configs@), listed(m.membership.nodes.entries@))
}

/// A membership that was never set: no place, no voter and no node.
pub open spec fn no_parts() -> (
    Option<(u64, u64, u64)>,
    Seq<Seq<u64>>,
    Seq<(u64, Seq<char>)>,
) {
    (None, seq![], seq![])
}

/// The metadata of a snapshot as plain values.
pub open spec fn meta_parts(m: SnapshotMeta) -> (
    Option<(u64, u64, u64)>,
    (Option<(u64, u64, u64)>, Seq<Seq<u64>>, Seq<(u64, Seq<char>)>),
    Seq<char>,
) {
    (place_parts(m.last_log_id), membership_parts(m.last_membership), m.snapshot_id@)
}

/// Voters and nodes come in ascending order, each once.
pub open spec fn orderly(voters: Seq<Seq<u64>>, nodes: Seq<(u64, Seq<char>)>) -> bool {
    &&& forall|c: int| 0 <= c < voters.len() ==> membership::climb(#[trigger] voters[c])
    &&& forall|i: int, j: int|
        0 <= i < j < nodes.len() ==> (#[trigger] nodes[i]).0 < (#[trigger] nodes[j]).0
}

/// Numbers at eight bytes each, least significant first.
pub open spec fn numbers_form(s: Seq<u64>) -> Seq<u8>
    decreases s.len(),
{
    if s.len() == 0 {
        seq![]
    } else {
        numbers_form(s.drop_last()) + le(s.last() as nat, 8)
    }
}

/// A text: its length in bytes, and the bytes.
pub open spec fn text_form(s: Seq<char>) -> Seq<u8> {
    le(vstd::utf8::encode_utf8(s).len(), 8) + vstd::utf8::encode_utf8(s)
}

/// A place that may be absent: a byte that says whether it is there, and
/// its numbers.
pub open spec fn place_form(p: Option<(u64, u64, u64)>) -> Seq<u8> {
    match p {
        None => seq![0u8],
        Some(p) => seq![1u8] + numbers_form(seq![p.0, p.1, p.2]),
    }
}

/// Lists of numbers, each after its length.
pub open spec fn lists_form(s: Seq<Seq<u64>>) -> Seq<u8>
    decreases s.len(),
{
    if s.len() == 0 {
        seq![]
    } else {
        lists_form(s.drop_last()) + le(s.last().len(), 8) + numbers_form(s.last())
    }
}

/// Nodes with their addresses.
pub open spec fn addresses_form(s: Seq<(u64, Seq<char>)>) -> Seq<u8>
    decreases s.len(),
{
    if s.len() == 0 {
        seq![]
    } else {
        addresses_form(s.drop_last()) + le(s.last().0 as nat, 8) + text_form(s.last().1)
    }
}

/// The stored form of a membership given by its parts.
pub open spec fn membership_form(
    place: Option<(u64, u64, u64)>,
    voters: Seq<Seq<u64>>,
    nodes: Seq<(u64, Seq<char>)>,
) -> Seq<u8> {
    place_form(place) + le(voters.len(), 8) + lists_form(voters) + le(nodes.len(), 8)
        + addresses_form(nodes)
}

/// The stored form of a membership.
pub open spec fn membership_bytes(m: StoredMembership) -> Seq<u8> {
    let p = membership_parts(m);
    membership_form(p.0, p.1, p.2)
}

/// The stored form of the metadata of a snapshot.
pub open spec fn meta_bytes(m: SnapshotMeta) -> Seq<u8> {
    place_form(place_parts(m.last_log_id)) + membership_bytes(m.last_membership) + text_form(
        m.snapshot_id@,
    )
}

/// What `bincode::deserialize` reads from a byte string as the runtime's
/// `StoredMembership`: the place, the voters and the nodes, or the text of
/// the error.
pub uninterp spec fn membership_of(bytes: Seq<u8>) -> Result<
    (Option<(u64, u64, u64)>, Seq<Seq<u64>>, Seq<(u64, Seq<char>)>),
    Seq<char>,
>;

/// What `bincode::deserialize` reads from a byte string as the runtime's
/// `SnapshotMeta`, if it can.
pub uninterp spec fn meta_of(bytes: Seq<u8>) -> Option<
    (
        Option<(u64, u64, u64)>,
        (Option<(u64, u64, u64)>, Seq<Seq<u64>>, Seq<(u64, Seq<char>)>),
        Seq<char>,
    ),
>;

/// `bincode::serialize` of a place, lists of voters, and nodes with their
/// addresses. Claimed: it succeeds, with the numbers at eight bytes each,
/// least significant first, and lists and texts after their lengths. These
/// are the bytes of the runtime's `StoredMembership`, whose derived form is
/// its fields in this order, its sets and its map as lists in ascending
/// order: so where voters and nodes are in that order, they are read back.
#[verifier::external_body]
fn bincode_membership(
    place: Option<(u64, u64, u64)>,
    voters: &Vec<Vec<u64>>,
    nodes: &Vec<(u64, String)>,
) -> (r: Vec<u8>)
    ensures
        r@ == membership_form(place, lists(voters@), addresses(nodes@)),
        orderly(lists(voters@), addresses(nodes@)) ==> membership_of(r@) is Ok && membership_of(
            r@,
        )->Ok_0 == (place, lists(voters@), addresses(nodes@)),
{
    bincode::serialize(&(place, (voters, nodes))).unwrap_or_default()
}

/// `bincode::deserialize` of the runtime's `StoredMembership`, taken apart
/// by its accessors. Claimed: the outcome is a function of the bytes, and
/// voters and nodes come in ascending order, each once, as the sets and the
/// map that they stand in give them.
#[verifier::external_body]
fn unbincode_membership(bytes: &[u8]) -> (r: Result<
    (Option<(u64, u64, u64)>, Vec<Vec<u64>>, Vec<(u64, String)>),
    String,
>)
    ensures
        match membership_of(bytes@) {
            Ok(p) => r is Ok && r->Ok_0.0 == p.0 && lists(r->Ok_0.1@) == p.1 && addresses(
                r->Ok_0.2@,
            ) == p.2,
            Err(e) => r is Err && r->Err_0@ == e,
        },
        r is Ok ==> orderly(lists(r->Ok_0.1@), addresses(r->Ok_0.2@)),
{
    let read = bincode::deserialize::<openraft::StoredMembership<u64, openraft::BasicNode>>(bytes);
    let s = read.map_err(|e| e.to_string())?;
    let place = s.log_id().map(|l| (l.leader_id.term, l.leader_id.node_id, l.index));
    let configs = s.membership().get_joint_config();
    let voters = configs.iter().map(|c| c.iter().copied().collect()).collect();
    let nodes = s.nodes().map(|(id, n)| (*id, n.addr.clone())).collect();
    Ok((place, voters, nodes))
}

/// `bincode::serialize` of a place, a membership by its parts, and a name.
/// Claimed: it succeeds, with the membership as `bincode_membership` has it
/// between the two. These are the bytes of the runtime's `SnapshotMeta`, as
/// there, and are read back under the same condition.
#[verifier::external_body]
fn bincode_meta(
    last: Option<(u64, u64, u64)>,
    place: Option<(u64, u64, u64)>,
    voters: &Vec<Vec<u64>>,
    nodes: &Vec<(u64, String)>,
    name: &str,
) -> (r: Vec<u8>)
    ensures
        r@ == place_form(last) + membership_form(place, lists(voters@), addresses(nodes@))
            + text_form(name@),
        orderly(lists(voters@), addresses(nodes@)) ==> meta_of(r@) == Some(
            (last, (place, lists(voters@), addresses(nodes@)), name@),
        ),
{
    bincode::serialize(&(last, (place, (voters, nodes)), name)).unwrap_or_default()
}

/// `bincode::deserialize` of the runtime's `SnapshotMeta`, taken apart by
/// its fields and accessors. Claimed: the outcome is a function of the
/// bytes, and voters and nodes come in ascending order, each once.
#[verifier::external_body]
fn unbincode_meta(bytes: &[u8]) -> (r: Option<
    (
        Option<(u64, u64, u64)>,
        (Option<(u64, u64, u64)>, Vec<Vec<u64>>, Vec<(u64, String)>),
        String,
    ),
>)
    ensures
        r is Some <==> meta_of(bytes@) is Some,
        r is Some ==> ({
            let (p, q) = (meta_of(bytes@)->0, r->0);
            &&& q.0 == p.0
            &&& q.1.0 == p.1.0
            &&& lists(q.1.1@) == p.1.1
            &&& addresses(q.1.2@) == p.1.2
            &&& q.2@ == p.2
            &&& orderly(lists(q.1.1@), addresses(q.1.2@))
        }),
{
    let m: openraft::SnapshotMeta<u64, openraft::BasicNode> = bincode::deserialize(bytes).ok()?;
    let s = &m.last_membership;
    let plain = |l: openraft::LogId<u64>| (l.leader_id.term, l.leader_id.node_id, l.index);
    let last = m.last_log_id.map(plain);
    let place = s.log_id().map(plain);
    let configs = s.membership().get_joint_config();
    let voters = configs.iter().map(|c| c.iter().copied().collect()).collect();
    let nodes = s.nodes().map(|(id, n)| (*id, n.addr.clone())).collect();
    Some((last, (place, voters, nodes), m.snapshot_id))
}

/// A log position as plain numbers.
fn split_place(l: Option<LogId>) -> (r: Option<(u64, u64, u64)>)
    ensures
        r == place_parts(l),
{
    match l {
        None => None,
        Some(l) => Some((l.term, l.node_id, l.index)),
    }
}

/// The log position that plain numbers stand for.
fn join_place(p: Option<(u64, u64, u64)>) -> (r: Option<LogId>)
    ensures
        place_parts(r) == p,
{
    match p {
        None => None,
        Some(p) => Some(LogId { term: p.0, node_id: p.1, index: p.2 }),
    }
}

/// The nodes of a map with their addresses.
fn split_nodes(nodes: &IdMap<String>) -> (r: Vec<(u64, String)>)
    ensures
        addresses(r@) == listed(nodes.entries@),
{
    let mut r: Vec<(u64, String)> = Vec::new();
    let mut i: usize = 0;
    while i < nodes.entries.len()
        invariant
            i <= nodes.entries@.len(),
            addresses(r@) == listed(nodes.entries@.take(i as int)),
        decreases nodes.entries@.len() - i,
    {
        let ghost before = r@;
        let e = &nodes.entries[i];
        r.push((e.id, e.value.clone()));
        i += 1;
        assert(addresses(r@) =~= addresses(before).push((e.id, e.value@)));
        assert(listed(nodes.entries@.take(i as int)) =~= listed(nodes.entries@.take(i - 1)).push(
            (e.id, e.value@),
        ));
    }
    assert(nodes.entries@.take(i as int) =~= nodes.entries@);
    r
}

/// The map of nodes with their addresses.
fn join_nodes(nodes: &Vec<(u64, String)>) -> (r: IdMap<String>)
    ensures
        listed(r.entries@) == addresses(nodes@),
{
    let mut entries: Vec<IdEntry<String>> = Vec::new();
    let mut i: usize = 0;
    while i < nodes.len()
        invariant
            i <= nodes@.len(),
            listed(entries@) == addresses(nodes@.take(i as int)),
        decreases nodes@.len() - i,
    {
        let ghost before = entries@;
        let n = &nodes[i];
        entries.push(IdEntry { id: n.0, value: n.1.clone() });
        i += 1;
        assert(listed(entries@) =~= listed(before).push((n.0, n.1@)));
        assert(addresses(nodes@.take(i as int)) =~= addresses(nodes@.take(i - 1)).push(
            (n.0, n.1@),
        ));
    }
    assert(nodes@.take(i as int) =~= nodes@);
    IdMap { entries }
}

/// The membership that plain values stand for.
pub fn join_membership(
    place: Option<(u64, u64, u64)>,
    voters: Vec<Vec<u64>>,
    nodes: Vec<(u64, String)>,
) -> (r: StoredMembership)
    ensures
        membership_parts(r) == (place, lists(voters@), addresses(nodes@)),
        orderly(lists(voters@), addresses(nodes@)) ==> r.membership.wf(),
{
    let r = StoredMembership {
        log_id: join_place(place),
        membership: Membership { configs: voters, nodes: join_nodes(&nodes) },
    };
    proof {
        if orderly(lists(voters@), addresses(nodes@)) {
            let e = r.membership.nodes.entries@;
            assert forall|i: int, j: int| 0 <= i < j < e.len() implies (#[trigger] e[i]).id < (
            #[trigger] e[j]).id by {
                assert(listed(e)[i].0 == e[i].id && listed(e)[j].0 == e[j].id);
            }
            assert forall|c: int| 0 <= c < voters@.len() implies membership::climb(
                (#[trigger] voters@[c])@,
            ) by {
                assert(lists(voters@)[c] == voters@[c]@);
            }
        }
    }
    r
}

/// A membership in order has orderly parts.
pub proof fn lemma_orderly(m: Membership)
    requires
        m.wf(),
    ensures
        orderly(lists(m.configs@), listed(m.nodes.entries@)),
{
    let v = lists(m.configs@);
    assert forall|c: int| 0 <= c < v.len() implies membership::climb(#[trigger] v[c]) by {
        assert(v[c] == m.configs@[c]@);
    }
}

/// The stored form of a membership. One in order is read back.
pub fn encode_membership(m: &StoredMembership) -> (r: Vec<u8>)
    ensures
        r@ == membership_bytes(*m),
        m.membership.wf() ==> reads_as(r@, *m),
{
    encode_at(m.log_id, &m.membership)
}

/// The stored form of a membership that was set at a place. One in order
/// is read back.
pub fn encode_at(log_id: Option<LogId>, m: &Membership) -> (r: Vec<u8>)
    ensures
        r@ == membership_bytes((StoredMembership { log_id, membership: *m })),
        m.wf() ==> reads_as(r@, (StoredMembership { log_id, membership: *m })),
{
    let nodes = split_nodes(&m.nodes);
    proof {
        if m.wf() {
            lemma_orderly(*m);
        }
    }
    bincode_membership(split_place(log_id), &m.configs, &nodes)
}

/// A byte string holds a membership.
pub open spec fn reads_as(bytes: Seq<u8>, m: StoredMembership) -> bool {
    membership_of(bytes) matches Ok(p) && p == membership_parts(m)
}

/// The membership that a stored form holds.
pub fn decode_membership(bytes: &[u8]) -> (r: Result<StoredMembership, String>)
    ensures
        match membership_of(bytes@) {
            Ok(p) => r is Ok && membership_parts(r->Ok_0) == p && r->Ok_0.membership.wf(),
            Err(e) => r is Err && r->Err_0@ == e,
        },
{
    match unbincode_membership(bytes) {
        Err(e) => Err(e),
        Ok(p) => Ok(join_membership(p.0, p.1, p.2)),
    }
}

/// The stored form of the metadata of a snapshot. One whose membership is
/// in order is read back.
pub fn encode_meta(m: &SnapshotMeta) -> (r: Vec<u8>)
    ensures
        r@ == meta_bytes(*m),
        m.last_membership.membership.wf() ==> meta_of(r@) == Some(meta_parts(*m)),
{
    let s = &m.last_membership;
    let nodes = split_nodes(&s.membership.nodes);
    proof {
        if s.membership.wf() {
            lemma_orderly(s.membership);
        }
    }
    bincode_meta(
        split_place(m.last_log_id),
        split_place(s.log_id),
        &s.membership.configs,
        &nodes,
        m.snapshot_id.as_str(),
    )
}

/// The metadata that a stored form holds.
pub fn decode_meta(bytes: &[u8]) -> (r: Option<SnapshotMeta>)
    ensures
        match meta_of(bytes@) {
            Some(p) => r is Some && meta_parts(r->0) == p && r->0.last_membership.membership.wf(),
            None => r is None,
        },
{
    match unbincode_meta(bytes) {
        None => None,
        Some(p) => Some(
            SnapshotMeta {
                last_log_id: join_place(p.0),
                last_membership: join_membership(p.1.0, p.1.1, p.1.2),
                snapshot_id: p.2,
            },
        ),
    }
}

/// Two memberships have the same parts exactly when they were set at the
/// same place, name the same voters in each configuration, and reach the
/// same nodes at the same addresses.
pub proof fn law_parts_tell_memberships_apart(a: StoredMembership, b: StoredMembership)
    requires
        membership_parts(a) == membership_parts(b),
    ensures
        a.log_id == b.log_id,
        a.membership.configs@.len() == b.membership.configs@.len(),
        forall|c: int|
            0 <= c < a.membership.configs@.len() ==> (#[trigger] a.membership.configs@[c])@
                == b.membership.configs@[c]@,
        a.membership.nodes.entries@.len() == b.membership.nodes.entries@.len(),
        forall|i: int|
            0 <= i < a.membership.nodes.entries@.len() ==> (
            #[trigger] a.membership.nodes.entries@[i]).id == b.membership.nodes.entries@[i].id
                && a.membership.nodes.entries@[i].value@
                == b.membership.nodes.entries@[i].value@,
{
    let (ca, cb) = (lists(a.membership.configs@), lists(b.membership.configs@));
    let (na, nb) = (
        listed(a.membership.nodes.entries@),
        listed(b.membership.nodes.entries@),
    );
    assert(ca == cb && na == nb);
    assert(ca.len() == a.membership.configs@.len());
    assert(cb.len() == b.membership.configs@.len());
    assert(na.len() == a.membership.nodes.entries@.len());
    assert(nb.len() == b.membership.nodes.entries@.len());
    assert forall|c: int| 0 <= c < a.membership.configs@.len() implies (
    #[trigger] a.membership.configs@[c])@ == b.membership.configs@[c]@ by {
        assert(ca[c] == cb[c]);
    }
    assert forall|i: int| 0 <= i < a.membership.nodes.entries@.len() implies (
    #[trigger] a.membership.nodes.entries@[i]).id == b.membership.nodes.entries@[i].id
        && a.membership.nodes.entries@[i].value@ == b.membership.nodes.entries@[i].value@ by {
        assert(na[i] == nb[i]);
    }
}

/// The parts of a membership and of metadata are what they hold.
pub proof fn law_parts_are_what_is_held(m: SnapshotMeta, l: LogId, c: int, i: int)
    ensures
        place_parts(None) is None,
        place_parts(Some(l)) == Some((l.term, l.node_id, l.index)),
        meta_parts(m).0 == place_parts(m.last_log_id),
        meta_parts(m).1 == membership_parts(m.last_membership),
        meta_parts(m).2 == m.snapshot_id@,
        membership_parts(m.last_membership).0 == place_parts(m.last_membership.log_id),
        0 <= c < m.last_membership.membership.configs@.len() ==> membership_parts(
            m.last_membership,
        ).1[c] == m.last_membership.membership.configs@[c]@,
        0 <= i < m.last_membership.membership.nodes.entries@.len() ==> membership_parts(
            m.last_membership,
        ).2[i] == (
            m.last_membership.membership.nodes.entries@[i].id,
            m.last_membership.membership.nodes.entries@[i].value@,
        ),
        no_parts().0 is None,
        no_parts().1.len() == 0,
        no_parts().2.len() == 0,
{
}

/// Numbers are stored at eight bytes each, least significant first, in
/// order; lists and nodes one after another, lists and texts after their
/// lengths.
pub proof fn law_forms_grow_item_by_item(
    s: Seq<u64>,
    n: u64,
    ls: Seq<Seq<u64>>,
    ns: Seq<(u64, Seq<char>)>,
    addr: Seq<char>,
)
    ensures
        numbers_form(seq![]).len() == 0,
        numbers_form(s.push(n)) == numbers_form(s) + le(n as nat, 8),
        lists_form(seq![]).len() == 0,
        lists_form(ls.push(s)) == lists_form(ls) + le(s.len(), 8) + numbers_form(s),
        addresses_form(seq![]).len() == 0,
        addresses_form(ns.push((n, addr))) == addresses_form(ns) + le(n as nat, 8) + text_form(
            addr,
        ),
        text_form(addr) == le(vstd::utf8::encode_utf8(addr).len(), 8) + vstd::utf8::encode_utf8(
            addr,
        ),
{
    assert(s.push(n).drop_last() =~= s);
    assert(ls.push(s).drop_last() =~= ls);
    assert(ns.push((n, addr)).drop_last() =~= ns);
}

/// A membership is stored as the place that set it, the voters of each
/// configuration, and the nodes with their addresses, in this order; the
/// metadata of a snapshot as the place it covers, its membership and its
/// name. A place is stored as a log position that may be absent.
pub proof fn law_membership_is_stored_in_order(m: SnapshotMeta, l: LogId)
    ensures
        membership_bytes(m.last_membership) == place_form(place_parts(m.last_membership.log_id))
            + le(m.last_membership.membership.configs@.len(), 8) + lists_form(
            lists(m.last_membership.membership.configs@),
        ) + le(m.last_membership.membership.nodes.entries@.len(), 8) + addresses_form(
            listed(m.last_membership.membership.nodes.entries@),
        ),
        meta_bytes(m) == place_form(place_parts(m.last_log_id)) + membership_bytes(
            m.last_membership,
        ) + text_form(m.snapshot_id@),
        place_form(place_parts(None)) == seq![0u8],
        place_form(place_parts(Some(l))) == seq![1u8] + (le(l.term as nat, 8) + le(
            l.node_id as nat,
            8,
        ) + le(l.index as nat, 8)),
{
    reveal_with_fuel(numbers_form, 4);
    let s = seq![l.term, l.node_id, l.index];
    assert(s.drop_last() =~= seq![l.term, l.node_id]);
    assert(s.drop_last().drop_last() =~= seq![l.term]);
    assert(s.drop_last().drop_last().drop_last() =~= seq![]);
    assert(numbers_form(s) =~= le(l.term as nat, 8) + le(l.node_id as nat, 8) + le(
        l.index as nat,
        8,
    ));
}

/// A byte string holds a membership exactly when it reads as its parts;
/// parts are in order exactly when voters and nodes ascend.
pub proof fn law_bytes_hold_one_membership(
    bytes: Seq<u8>,
    a: StoredMembership,
    b: StoredMembership,
    voters: Seq<Seq<u64>>,
    nodes: Seq<(u64, Seq<char>)>,
)
    ensures
        reads_as(bytes, a) && reads_as(bytes, b) ==> membership_parts(a) == membership_parts(b),
        reads_as(bytes, a) ==> membership_of(bytes) is Ok,
        orderly(voters, nodes) ==> (forall|c: int, i: int, j: int|
            0 <= c < voters.len() && 0 <= i < j < voters[c].len() ==> #[trigger] voters[c][i]
                < #[trigger] voters[c][j]),
        orderly(voters, nodes) ==> (forall|i: int, j: int|
            0 <= i < j < nodes.len() ==> (#[trigger] nodes[i]).0 < (#[trigger] nodes[j]).0),
{
    if orderly(voters, nodes) {
        assert forall|c: int, i: int, j: int|
            0 <= c < voters.len() && 0 <= i < j < voters[c].len() implies #[trigger] voters[c][i]
            < #[trigger] voters[c][j] by {
            assert(membership::climb(voters[c]));
        }
    }
}

} // verus!
