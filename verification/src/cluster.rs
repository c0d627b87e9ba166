//! The members of the cluster: who they are, and what adding, removing,
//! updating and promoting one asks of the consensus layer.

use vstd::prelude::*;
use crate::cluster_id::{self, fnv1a_64, fold_63};
use crate::idmap::{self, IdEntry, IdMap};
use crate::names;
use crate::network::PeerEndpoints;
use crate::state::ResponseHeader;
use crate::status::{Code, Status};
use crate::text;
use crate::types::NodeId;

verus! {

/// What is known of a member besides its id.
#[derive(Debug)]
pub struct MemberInfo {
    pub name: String,
    pub peer_urls: Vec<String>,
    pub client_urls: Vec<String>,
    pub is_learner: bool,
}

/// What is known of a member, as a value.
#[verifier::ext_equal]
pub struct InfoView {
    pub name: Seq<char>,
    pub peer_urls: Seq<Seq<char>>,
    pub client_urls: Seq<Seq<char>>,
    pub is_learner: bool,
}

impl View for MemberInfo {
    type V = InfoView;

    open spec fn view(&self) -> InfoView {
        InfoView {
            name: self.name@,
            peer_urls: names::texts(self.peer_urls@),
            client_urls: names::texts(self.client_urls@),
            is_learner: self.is_learner,
        }
    }
}

/// The members by id.
pub type MemberDirectory = IdMap<MemberInfo>;

/// A member, as it is listed.
#[derive(Debug)]
pub struct Member {
    pub id: u64,
    pub info: MemberInfo,
}

/// A request to add a member.
#[derive(Debug)]
pub struct MemberAddRequest {
    pub peer_urls: Vec<String>,
    pub is_learner: bool,
}

/// The answer to a change: the member it was about, where one was added,
/// and every member.
#[derive(Debug)]
pub struct MemberResponse {
    pub header: ResponseHeader,
    pub member: Option<Member>,
    pub members: Vec<Member>,
}

/// A node to add as a learner, and where it is reached.
#[derive(Debug)]
pub struct NewLearner {
    pub id: NodeId,
    pub url: String,
}

/// The id that an address gives: its hash in 63 bits, never zero.
pub open spec fn url_id(url: Seq<char>) -> u64 {
    cluster_id::nonzero_63_bits(cluster_id::fnv1a(vstd::utf8::encode_utf8(url)))
}

/// A list shows the members of a directory, in order of their ids.
pub open spec fn lists(members: Seq<Member>, dir: Seq<IdEntry<MemberInfo>>) -> bool {
    &&& members.len() == dir.len()
    &&& forall|i: int|
        0 <= i < members.len() ==> (#[trigger] members[i]).id == dir[i].id && members[i].info@
            == dir[i].value@
}

/// A copy of a list of texts.
fn copy_texts(list: &Vec<String>) -> (r: Vec<String>)
    ensures
        names::texts(r@) == names::texts(list@),
{
    let mut out: Vec<String> = Vec::new();
    let mut i: usize = 0;
    while i < list.len()
        invariant
            i <= list@.len(),
            out@.len() == i,
            forall|j: int| 0 <= j < i ==> (#[trigger] out@[j])@ == list@[j]@,
        decreases list@.len() - i,
    {
        out.push(list[i].clone());
        i += 1;
    }
    assert(names::texts(out@) =~= names::texts(list@));
    out
}

/// A copy of what is known of a member.
fn copy_info(info: &MemberInfo) -> (r: MemberInfo)
    ensures
        r@ == info@,
{
    MemberInfo {
        name: info.name.clone(),
        peer_urls: copy_texts(&info.peer_urls),
        client_urls: copy_texts(&info.client_urls),
        is_learner: info.is_learner,
    }
}

/// The members of a directory, as they are listed.
pub fn members_to_pb(dir: &MemberDirectory) -> (r: Vec<Member>)
    ensures
        lists(r@, dir.entries@),
{
    let mut out: Vec<Member> = Vec::new();
    let mut i: usize = 0;
    while i < dir.entries.len()
        invariant
            i <= dir.entries@.len(),
            out@.len() == i,
            forall|j: int|
                0 <= j < i ==> (#[trigger] out@[j]).id == dir.entries@[j].id && out@[j].info@
                    == dir.entries@[j].value@,
        decreases dir.entries@.len() - i,
    {
        out.push(Member { id: dir.entries[i].id, info: copy_info(&dir.entries[i].value) });
        i += 1;
    }
    out
}

/// The voters with one more, if it is not among them already.
pub fn with_voter(voters: &Vec<u64>, id: NodeId) -> (r: Option<Vec<u64>>)
    ensures
        r is None <==> voters@.contains(id),
        r is Some ==> r->0@ == voters@.push(id),
{
    let mut out: Vec<u64> = Vec::new();
    let mut i: usize = 0;
    while i < voters.len()
        invariant
            i <= voters@.len(),
            out@ == voters@.take(i as int),
            forall|j: int| 0 <= j < i ==> #[trigger] voters@[j] != id,
        decreases voters@.len() - i,
    {
        if voters[i] == id {
            return None;
        }
        out.push(voters[i]);
        i += 1;
        assert(out@ =~= voters@.take(i as int));
    }
    assert(voters@.take(i as int) =~= voters@);
    out.push(id);
    Some(out)
}

/// The voters without one, if it is among them.
pub fn without_voter(voters: &Vec<u64>, id: NodeId) -> (r: Option<Vec<u64>>)
    ensures
        r is Some <==> voters@.contains(id),
        r is Some ==> r->0@ == voters@.filter(|v: u64| v != id),
{
    let mut out: Vec<u64> = Vec::new();
    let mut found = false;
    let mut i: usize = 0;
    let ghost keep = |v: u64| v != id;
    assert(out@ =~= voters@.take(0).filter(keep)) by {
        reveal(Seq::filter);
    }
    while i < voters.len()
        invariant
            i <= voters@.len(),
            keep == (|v: u64| v != id),
            out@ == voters@.take(i as int).filter(keep),
            found == voters@.take(i as int).contains(id),
        decreases voters@.len() - i,
    {
        let v: u64 = voters[i];
        let ghost t = voters@.take(i as int);
        proof {
            assert(voters@.take(i + 1) =~= t.push(v));
            reveal(Seq::filter);
            assert(t.push(v).drop_last() =~= t);
            vstd::seq_lib::lemma_seq_contains_after_push(t, v, id);
        }
        if v == id {
            found = true;
        } else {
            out.push(v);
        }
        i += 1;
    }
    assert(voters@.take(i as int) =~= voters@);
    if found {
        Some(out)
    } else {
        None
    }
}

/// Answers membership requests.
#[derive(Debug)]
pub struct ClusterService {
    pub peers: PeerEndpoints,
    pub directory: MemberDirectory,
    pub self_node_id: NodeId,
}

impl ClusterService {
    /// The directory and the addresses are in order.
    pub open spec fn wf(self) -> bool {
        self.peers.urls.wf() && self.directory.wf()
    }

    /// A service over a directory that holds the initial members.
    pub fn new(
        self_node_id: NodeId,
        peers: PeerEndpoints,
        directory: MemberDirectory,
    ) -> (r: ClusterService)
        ensures
            r == (ClusterService { peers, directory, self_node_id }),
    {
        ClusterService { peers, directory, self_node_id }
    }

    /// Enter this node into a directory, as a voter.
    pub fn seed_self(
        directory: &mut MemberDirectory,
        self_node_id: NodeId,
        self_name: String,
        self_peer_urls: Vec<String>,
        self_client_urls: Vec<String>,
    )
        requires
            old(directory).wf(),
        ensures
            final(directory).wf(),
            final(directory)@ == old(directory)@.insert(
                self_node_id,
                MemberInfo {
                    name: self_name,
                    peer_urls: self_peer_urls,
                    client_urls: self_client_urls,
                    is_learner: false,
                },
            ),
    {
        directory.insert(
            self_node_id,
            MemberInfo {
                name: self_name,
                peer_urls: self_peer_urls,
                client_urls: self_client_urls,
                is_learner: false,
            },
        );
    }

    /// The id that an address gives.
    pub fn derive_node_id_from_url(url: &str) -> (r: NodeId)
        ensures
            r == url_id(url@),
            1 <= r < 0x8000_0000_0000_0000,
    {
        fold_63(fnv1a_64(url.as_bytes()))
    }

    /// Every member.
    pub fn member_list(&self, header: ResponseHeader) -> (r: MemberResponse)
        ensures
            r.header == header,
            r.member is None,
            lists(r.members@, self.directory.entries@),
    {
        MemberResponse { header, member: None, members: members_to_pb(&self.directory) }
    }

    /// Start to add a member: its address is registered, so that it can be
    /// reached before it is added. A request without an address is
    /// refused.
    pub fn member_add(&mut self, req: &MemberAddRequest) -> (r: Result<NewLearner, Status>)
        requires
            old(self).wf(),
        ensures
            final(self).wf(),
            final(self).directory == old(self).directory,
            final(self).self_node_id == old(self).self_node_id,
            req.peer_urls@.len() == 0 ==> r is Err && r->Err_0.says(
                Code::InvalidArgument,
                "MemberAddRequest.peer_urls empty"@,
            ) && final(self).peers.urls@ == old(self).peers.urls@,
            req.peer_urls@.len() > 0 ==> ({
                let id = url_id(req.peer_urls@[0]@);
                &&& r is Ok
                &&& r->Ok_0.id == id
                &&& r->Ok_0.url@ == req.peer_urls@[0]@
                &&& registered(old(self).peers.urls@, final(self).peers.urls@, id, req.peer_urls@[0]@)
            }),
    {
        if req.peer_urls.len() == 0 {
            return Err(Status::new(Code::InvalidArgument, "MemberAddRequest.peer_urls empty"));
        }
        let url = req.peer_urls[0].clone();
        let id = Self::derive_node_id_from_url(url.as_str());
        self.peers.urls.insert(id, url.clone());
        Ok(NewLearner { id, url })
    }

    /// The voter set to ask for after a learner was added: none if it is
    /// to stay a learner, else the voters with it.
    pub fn voters_to_add(&self, voters: Vec<u64>, req: &MemberAddRequest, id: NodeId) -> (r: Option<
        Vec<u64>,
    >)
        ensures
            req.is_learner ==> r is None,
            !req.is_learner ==> r is Some && r->0@ == (if voters@.contains(id) {
                voters@
            } else {
                voters@.push(id)
            }),
    {
        if req.is_learner {
            return None;
        }
        match with_voter(&voters, id) {
            Some(more) => Some(more),
            None => Some(voters),
        }
    }

    /// Enter a member that was added, and answer.
    pub fn member_added(
        &mut self,
        id: NodeId,
        req: MemberAddRequest,
        header: ResponseHeader,
    ) -> (r: MemberResponse)
        requires
            old(self).wf(),
        ensures
            final(self).wf(),
            final(self).peers == old(self).peers,
            final(self).self_node_id == old(self).self_node_id,
            entered(
                old(self).directory@,
                final(self).directory@,
                id,
                InfoView {
                    name: ""@,
                    peer_urls: names::texts(req.peer_urls@),
                    client_urls: seq![],
                    is_learner: req.is_learner,
                },
            ),
            r.header == header,
            r.member is Some,
            (r.member->0).id == id,
            (r.member->0).info@ == final(self).directory@[id]@,
            lists(r.members@, final(self).directory.entries@),
    {
        let info = MemberInfo {
            name: String::from_str(""),
            peer_urls: req.peer_urls,
            client_urls: Vec::new(),
            is_learner: req.is_learner,
        };
        assert(names::texts(info.client_urls@) =~= seq![]);
        let shown = copy_info(&info);
        self.directory.insert(id, info);
        let members = members_to_pb(&self.directory);
        MemberResponse { header, member: Some(Member { id, info: shown }), members }
    }

    /// The voter set to ask for to remove a member, if it votes. A node
    /// does not remove itself.
    pub fn member_remove(&self, id: NodeId, voters: &Vec<u64>) -> (r: Result<
        Option<Vec<u64>>,
        Status,
    >)
        ensures
            id == self.self_node_id ==> r is Err && r->Err_0.says(
                Code::InvalidArgument,
                "cannot MemberRemove self; use MoveLeader first or remove via another node"@,
            ),
            id != self.self_node_id ==> {
                &&& r is Ok
                &&& r->Ok_0 is Some <==> voters@.contains(id)
                &&& r->Ok_0 is Some ==> (r->Ok_0->0)@ == voters@.filter(|v: u64| v != id)
            },
    {
        if id == self.self_node_id {
            return Err(
                Status::new(
                    Code::InvalidArgument,
                    "cannot MemberRemove self; use MoveLeader first or remove via another node",
                ),
            );
        }
        Ok(without_voter(voters, id))
    }

    /// Drop a member that was removed, and answer.
    pub fn member_removed(&mut self, id: NodeId, header: ResponseHeader) -> (r: MemberResponse)
        requires
            old(self).wf(),
        ensures
            final(self).wf(),
            final(self).peers.urls@ == old(self).peers.urls@.remove(id),
            final(self).directory@ == old(self).directory@.remove(id),
            final(self).self_node_id == old(self).self_node_id,
            r.header == header,
            r.member is None,
            lists(r.members@, final(self).directory.entries@),
    {
        self.peers.urls.remove(id);
        self.directory.remove(id);
        self.member_list(header)
    }

    /// Change the addresses of a member, and answer. A request without an
    /// address is refused.
    pub fn member_update(
        &mut self,
        id: NodeId,
        peer_urls: Vec<String>,
        header: ResponseHeader,
    ) -> (r: Result<MemberResponse, Status>)
        requires
            old(self).wf(),
        ensures
            final(self).wf(),
            final(self).self_node_id == old(self).self_node_id,
            peer_urls@.len() == 0 ==> r is Err && r->Err_0.says(
                Code::InvalidArgument,
                "MemberUpdateRequest.peer_urls empty"@,
            ) && final(self).directory@ == old(self).directory@ && final(self).peers.urls@
                == old(self).peers.urls@,
            peer_urls@.len() > 0 ==> {
                &&& r is Ok
                &&& r->Ok_0.header == header
                &&& r->Ok_0.member is None
                &&& lists(r->Ok_0.members@, final(self).directory.entries@)
                &&& registered(
                    old(self).peers.urls@,
                    final(self).peers.urls@,
                    id,
                    peer_urls@[0]@,
                )
                &&& if old(self).directory@.contains_key(id) {
                    entered(
                        old(self).directory@,
                        final(self).directory@,
                        id,
                        InfoView {
                            peer_urls: names::texts(peer_urls@),
                            ..old(self).directory@[id]@
                        },
                    )
                } else {
                    final(self).directory@ == old(self).directory@
                }
            },
    {
        if peer_urls.len() == 0 {
            return Err(
                Status::new(Code::InvalidArgument, "MemberUpdateRequest.peer_urls empty"),
            );
        }
        self.peers.urls.insert(id, peer_urls[0].clone());
        let ghost before = self.directory@;
        if let Some(info) = self.directory.remove(id) {
            let changed = MemberInfo {
                name: info.name,
                peer_urls,
                client_urls: info.client_urls,
                is_learner: info.is_learner,
            };
            self.directory.insert(id, changed);
        } else {
            assert(self.directory@ =~= before);
        }
        Ok(self.member_list(header))
    }

    /// The voter set to ask for to promote a member. One that votes
    /// already is refused.
    pub fn member_promote(&self, id: NodeId, voters: &Vec<u64>) -> (r: Result<Vec<u64>, Status>)
        ensures
            voters@.contains(id) ==> r is Err && r->Err_0.says(
                Code::FailedPrecondition,
                "member "@ + text::dec(id as nat) + " is already a voter"@,
            ),
            !voters@.contains(id) ==> r is Ok && r->Ok_0@ == voters@.push(id),
    {
        match with_voter(voters, id) {
            Some(more) => Ok(more),
            None => {
                let text = text::join3(
                    "member ",
                    text::dec_u64(id).as_str(),
                    " is already a voter",
                );
                Err(Status::from_string(Code::FailedPrecondition, text))
            },
        }
    }

    /// Mark a member that was promoted as a voter, and answer.
    pub fn member_promoted(&mut self, id: NodeId, header: ResponseHeader) -> (r: MemberResponse)
        requires
            old(self).wf(),
        ensures
            final(self).wf(),
            final(self).peers == old(self).peers,
            final(self).self_node_id == old(self).self_node_id,
            r.header == header,
            r.member is None,
            lists(r.members@, final(self).directory.entries@),
            if old(self).directory@.contains_key(id) {
                entered(
                    old(self).directory@,
                    final(self).directory@,
                    id,
                    InfoView { is_learner: false, ..old(self).directory@[id]@ },
                )
            } else {
                final(self).directory@ == old(self).directory@
            },
    {
        let ghost before = self.directory@;
        if let Some(info) = self.directory.remove(id) {
            let changed = MemberInfo {
                name: info.name,
                peer_urls: info.peer_urls,
                client_urls: info.client_urls,
                is_learner: false,
            };
            self.directory.insert(id, changed);
        } else {
            assert(self.directory@ =~= before);
        }
        self.member_list(header)
    }
}

/// An address was set, and the others stayed.
pub open spec fn registered(
    before: Map<u64, String>,
    after: Map<u64, String>,
    id: u64,
    url: Seq<char>,
) -> bool {
    &&& after.contains_key(id)
    &&& after[id]@ == url
    &&& forall|k: u64|
        k != id ==> (#[trigger] after.contains_key(k) == before.contains_key(k)) && (
        after.contains_key(k) ==> after[k] == before[k])
}

/// A member was entered, and the others stayed.
pub open spec fn entered(
    before: Map<u64, MemberInfo>,
    after: Map<u64, MemberInfo>,
    id: u64,
    info: InfoView,
) -> bool {
    &&& after.contains_key(id)
    &&& after[id]@ == info
    &&& forall|k: u64|
        k != id ==> (#[trigger] after.contains_key(k) == before.contains_key(k)) && (
        after.contains_key(k) ==> after[k] == before[k])
}

/// A list shows every member of a directory once, in ascending order of
/// the ids, and nobody else.
pub proof fn law_list_shows_every_member(members: Seq<Member>, dir: MemberDirectory, id: u64)
    requires
        dir.wf(),
        lists(members, dir.entries@),
    ensures
        forall|i: int, j: int|
            0 <= i < j < members.len() ==> (#[trigger] members[i]).id < (#[trigger] members[j]).id,
        dir@.contains_key(id) <==> exists|i: int|
            0 <= i < members.len() && (#[trigger] members[i]).id == id && members[i].info@
                == dir@[id]@,
{
    if dir@.contains_key(id) {
        let i = idmap::lemma_present(dir.entries@, id);
        assert(members[i].id == id);
    }
    if exists|i: int|
        0 <= i < members.len() && (#[trigger] members[i]).id == id && members[i].info@
            == dir@[id]@ {
        let i = choose|i: int|
            0 <= i < members.len() && (#[trigger] members[i]).id == id && members[i].info@
                == dir@[id]@;
        idmap::lemma_entry(dir.entries@, i);
    }
}

/// A voter set with one more is left as it was by taking that one out.
pub proof fn law_promotion_is_undone_by_removal(voters: Seq<u64>, id: u64)
    requires
        !voters.contains(id),
    ensures
        voters.push(id).filter(|v: u64| v != id) == voters,
{
    reveal(Seq::filter);
    assert(voters.push(id).drop_last() =~= voters);
    lemma_filter_absent(voters, id);
}

proof fn lemma_filter_absent(voters: Seq<u64>, id: u64)
    requires
        !voters.contains(id),
    ensures
        voters.filter(|v: u64| v != id) == voters,
    decreases voters.len(),
{
    reveal(Seq::filter);
    if voters.len() > 0 {
        let t = voters.drop_last();
        assert(voters[voters.len() - 1] != id);
        assert forall|i: int| 0 <= i < t.len() implies t[i] != id by {
            assert(voters[i] != id);
        }
        lemma_filter_absent(t, id);
        assert(t.push(voters.last()) =~= voters);
    }
}

/// What is known of a member is what its fields hold.
pub proof fn law_member_is_what_its_fields_hold(info: MemberInfo)
    ensures
        info@.name == info.name@,
        info@.peer_urls == names::texts(info.peer_urls@),
        info@.client_urls == names::texts(info.client_urls@),
        info@.is_learner == info.is_learner,
{
}

/// A listed member has everything that the directory knows of it.
pub proof fn law_listed_member_is_whole(
    members: Seq<Member>,
    dir: Seq<IdEntry<MemberInfo>>,
    i: int,
)
    requires
        lists(members, dir),
        0 <= i < dir.len(),
    ensures
        members.len() == dir.len(),
        members[i].id == dir[i].id,
        members[i].info.name@ == dir[i].value.name@,
        members[i].info.is_learner == dir[i].value.is_learner,
        names::texts(members[i].info.peer_urls@) == names::texts(dir[i].value.peer_urls@),
        names::texts(members[i].info.client_urls@) == names::texts(dir[i].value.client_urls@),
{
    assert(members[i].info@ == dir[i].value@);
}

/// An address gives the id that a cluster token of the same text would:
/// never zero, and below the sign bit.
pub proof fn law_address_gives_a_usable_id(url: Seq<char>)
    ensures
        1 <= url_id(url) < 0x8000_0000_0000_0000,
        ({
            let h = cluster_id::fnv1a(vstd::utf8::encode_utf8(url));
            h % 0x8000_0000_0000_0000u64 != 0 ==> url_id(url) == h % 0x8000_0000_0000_0000u64
        }),
{
}

/// Registering an address, or entering a member, changes what is kept of
/// that one and of no other.
pub proof fn law_change_is_about_one_member(
    urls_before: Map<u64, String>,
    urls_after: Map<u64, String>,
    url: Seq<char>,
    before: Map<u64, MemberInfo>,
    after: Map<u64, MemberInfo>,
    info: InfoView,
    id: u64,
    other: u64,
)
    requires
        registered(urls_before, urls_after, id, url),
        entered(before, after, id, info),
        other != id,
    ensures
        urls_after.contains_key(id),
        urls_after[id]@ == url,
        urls_after.contains_key(other) == urls_before.contains_key(other),
        urls_before.contains_key(other) ==> urls_after[other] == urls_before[other],
        after.contains_key(id),
        after[id].name@ == info.name,
        names::texts(after[id].peer_urls@) == info.peer_urls,
        names::texts(after[id].client_urls@) == info.client_urls,
        after[id].is_learner == info.is_learner,
        after.contains_key(other) == before.contains_key(other),
        before.contains_key(other) ==> after[other] == before[other],
{
    assert(urls_after.contains_key(other) == urls_before.contains_key(other));
    assert(after.contains_key(other) == before.contains_key(other));
}

} // verus!
