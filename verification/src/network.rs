//! Peers of the cluster: where they are reached, which connections are
//! kept, and what a forwarded request answers.

use vstd::prelude::*;
use crate::idmap::IdMap;
use crate::status::{Code, Status};
use crate::text;
use crate::types::NodeId;

verus! {

/// Where each node is reached.
#[derive(Debug)]
pub struct PeerEndpoints {
    pub urls: IdMap<String>,
}

/// No peers. The local node is never among them.
pub fn empty_peers() -> (r: PeerEndpoints)
    ensures
        r.urls.wf(),
        r.urls@ == Map::<u64, String>::empty(),
{
    PeerEndpoints { urls: IdMap::new() }
}

/// The text that says a node is not known.
pub open spec fn no_url(target: NodeId) -> Seq<char> {
    "no peer URL for node "@ + text::dec(target as nat)
}

/// How to reach a node.
#[derive(Debug)]
pub enum Dial<'a, C> {
    /// Over a connection that is kept.
    Kept(&'a C),
    /// By connecting to an address.
    Connect(String),
    /// Not at all, with this text.
    Unknown(String),
}

/// The outcome of a forwarded request.
#[derive(Debug)]
pub enum Reply<T> {
    /// The request could not be encoded, with this text.
    NotEncoded(String),
    /// The node could not be reached or refused the call.
    Unreachable(String),
    /// The answer could not be decoded.
    Garbled(String),
    /// The node's own result.
    Answered(Result<T, String>),
}

/// Hands requests to other nodes, over connections that are kept.
#[derive(Debug)]
pub struct WriteForwarder<C> {
    clients: IdMap<C>,
}

impl<C> WriteForwarder<C> {
    /// The connections that are kept, by node.
    pub closed spec fn kept(self) -> Map<u64, C> {
        self.clients@
    }

    /// The connections are in order.
    pub closed spec fn wf(self) -> bool {
        self.clients.wf()
    }

    /// No connections.
    pub fn new() -> (r: WriteForwarder<C>)
        ensures
            r.wf(),
            r.kept() == Map::<u64, C>::empty(),
    {
        WriteForwarder { clients: IdMap::new() }
    }

    /// How to reach a node: over the kept connection if there is one, else
    /// by its address, if it has one.
    pub fn client(&self, peers: &PeerEndpoints, target: NodeId) -> (r: Dial<C>)
        requires
            self.wf(),
            peers.urls.wf(),
        ensures
            if self.kept().contains_key(target) {
                r is Kept && *r->Kept_0 == self.kept()[target]
            } else if peers.urls@.contains_key(target) {
                r is Connect && r->Connect_0@ == peers.urls@[target]@
            } else {
                r is Unknown && r->Unknown_0@ == no_url(target)
            },
    {
        match self.clients.get(target) {
            Some(c) => Dial::Kept(c),
            None => match peers.urls.get(target) {
                Some(url) => Dial::Connect(url.clone()),
                None => Dial::Unknown(
                    String::from_str("no peer URL for node ").concat(
                        text::dec_u64(target).as_str(),
                    ),
                ),
            },
        }
    }

    /// Keep a new connection.
    pub fn connected(&mut self, target: NodeId, client: C)
        requires
            old(self).wf(),
        ensures
            final(self).wf(),
            final(self).kept() == old(self).kept().insert(target, client),
    {
        self.clients.insert(target, client);
    }

    /// The result of a forwarded request. A node that could not be reached
    /// loses its connection, so that the next request dials again.
    pub fn forward<T>(&mut self, target: NodeId, reply: Reply<T>) -> (r: Result<T, String>)
        requires
            old(self).wf(),
        ensures
            final(self).wf(),
            match reply {
                Reply::NotEncoded(e) => r == Err::<T, String>(e) && final(self).kept()
                    == old(self).kept(),
                Reply::Garbled(e) => r == Err::<T, String>(e) && final(self).kept()
                    == old(self).kept(),
                Reply::Unreachable(e) => r == Err::<T, String>(e) && final(self).kept()
                    == old(self).kept().remove(target),
                Reply::Answered(result) => r == result && final(self).kept() == old(self).kept(),
            },
    {
        match reply {
            Reply::NotEncoded(e) => Err(e),
            Reply::Garbled(e) => Err(e),
            Reply::Unreachable(e) => {
                self.clients.remove(target);
                Err(e)
            },
            Reply::Answered(result) => result,
        }
    }
}

/// After a failed call a node is dialled anew, whatever was kept before.
pub proof fn law_failure_redials<C>(before: Map<u64, C>, target: NodeId)
    ensures
        !before.remove(target).contains_key(target),
        forall|n: u64|
            n != target ==> (#[trigger] before.remove(target).contains_key(n)
                == before.contains_key(n)),
{
}

/// A call between peers.
#[derive(Debug, Clone, Copy, PartialEq, Eq, Structural)]
pub enum PeerCall {
    AppendEntries,
    InstallSnapshot,
    Vote,
    ForwardWrite,
    ForwardRead,
    ForwardMembership,
}

impl PeerCall {
    /// The name of the call in texts.
    pub open spec fn named(self) -> Seq<char> {
        match self {
            PeerCall::AppendEntries => "AppendEntries"@,
            PeerCall::InstallSnapshot => "InstallSnapshot"@,
            PeerCall::Vote => "Vote"@,
            PeerCall::ForwardWrite => "ForwardWrite"@,
            PeerCall::ForwardRead => "ForwardRead"@,
            PeerCall::ForwardMembership => "ForwardMembership"@,
        }
    }

    /// The name of the consensus method behind the call.
    pub open spec fn method(self) -> Seq<char> {
        match self {
            PeerCall::AppendEntries => "raft.append_entries: "@,
            PeerCall::InstallSnapshot => "raft.install_snapshot: "@,
            _ => "raft.vote: "@,
        }
    }

    /// The name of the call in texts.
    pub fn name(&self) -> (r: &'static str)
        ensures
            r@ == self.named(),
    {
        match self {
            PeerCall::AppendEntries => "AppendEntries",
            PeerCall::InstallSnapshot => "InstallSnapshot",
            PeerCall::Vote => "Vote",
            PeerCall::ForwardWrite => "ForwardWrite",
            PeerCall::ForwardRead => "ForwardRead",
            PeerCall::ForwardMembership => "ForwardMembership",
        }
    }
}

/// Answers calls of other nodes.
#[derive(Debug, Clone, Copy, PartialEq, Eq, Structural)]
pub struct RaftPeerService;

impl RaftPeerService {
    /// The refusal of a request that cannot be decoded.
    pub fn undecodable(&self, call: PeerCall, error: &str) -> (s: Status)
        ensures
            s.says(Code::InvalidArgument, "decode "@ + call.named() + ": "@ + error@),
    {
        let text = text::join3("decode ", call.name(), ": ").concat(error);
        Status::from_string(Code::InvalidArgument, text)
    }

    /// The answer when the consensus method fails.
    pub fn raft_failed(&self, call: PeerCall, error: &str) -> (s: Status)
        requires
            call == PeerCall::AppendEntries || call == PeerCall::InstallSnapshot || call
                == PeerCall::Vote,
        ensures
            s.says(Code::Internal, call.method() + error@),
    {
        let method: &str = match call {
            PeerCall::AppendEntries => "raft.append_entries: ",
            PeerCall::InstallSnapshot => "raft.install_snapshot: ",
            _ => "raft.vote: ",
        };
        Status::from_string(Code::Internal, String::from_str(method).concat(error))
    }

    /// The answer when a response cannot be encoded.
    pub fn unencodable(&self, error: &str) -> (s: Status)
        ensures
            s.says(Code::Internal, "encode response: "@ + error@),
    {
        Status::from_string(Code::Internal, String::from_str("encode response: ").concat(error))
    }

    /// What a forwarded read answers: the failure to confirm leadership if
    /// there is one, else what the store gave.
    pub fn forward_read<T>(
        &self,
        barrier: Result<(), String>,
        read: Result<T, String>,
    ) -> (r: Result<T, String>)
        ensures
            r == (match barrier {
                Err(e) => Err::<T, String>(e),
                Ok(_) => read,
            }),
    {
        match barrier {
            Err(e) => Err(e),
            Ok(_) => read,
        }
    }
}

/// A node that is not known is named in decimal.
pub proof fn law_unknown_node_is_named(target: NodeId)
    ensures
        no_url(target) == "no peer URL for node "@ + text::dec(target as nat),
{
}

/// Each call between peers goes by its own name, and so does the consensus
/// method behind it.
pub proof fn law_calls_go_by_their_names(c: PeerCall)
    ensures
        c is AppendEntries ==> c.named() == "AppendEntries"@ && c.method()
            == "raft.append_entries: "@,
        c is InstallSnapshot ==> c.named() == "InstallSnapshot"@ && c.method()
            == "raft.install_snapshot: "@,
        c is Vote ==> c.named() == "Vote"@ && c.method() == "raft.vote: "@,
        c is ForwardWrite ==> c.named() == "ForwardWrite"@,
        c is ForwardRead ==> c.named() == "ForwardRead"@,
        c is ForwardMembership ==> c.named() == "ForwardMembership"@,
{
}

} // verus!
