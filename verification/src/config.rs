//! Reading the settings of a start: lists of addresses, the initial
//! cluster, environment names, and the files of a secure connection.

use vstd::prelude::*;
use crate::cluster::{self, ClusterService, InfoView, MemberDirectory, MemberInfo};
use crate::idmap::IdMap;
use crate::keymap::{KeyEntry, KeyMap};
use crate::lex::copy_bytes;
use crate::network::PeerEndpoints;
use crate::parse::{self, begins_with, trim};
use crate::types::NodeId;

verus! {

/// The pieces of a text between separators.
pub open spec fn pieces(s: Seq<char>, sep: char) -> Seq<Seq<char>>
    decreases s.len(),
{
    if s.len() == 0 {
        seq![seq![]]
    } else {
        let rest = pieces(s.drop_last(), sep);
        if s.last() == sep {
            rest.push(seq![])
        } else {
            rest.drop_last().push(rest.last().push(s.last()))
        }
    }
}

/// There is always a piece.
proof fn lemma_pieces_not_empty(s: Seq<char>, sep: char)
    ensures
        pieces(s, sep).len() > 0,
    decreases s.len(),
{
    if s.len() > 0 {
        lemma_pieces_not_empty(s.drop_last(), sep);
    }
}

/// The text of each piece.
pub open spec fn views(s: Seq<&str>) -> Seq<Seq<char>> {
    s.map_values(|p: &str| p@)
}

/// The pieces of a text between separators.
pub fn split_on<'a>(s: &'a str, sep: char) -> (r: Vec<&'a str>)
    ensures
        views(r@) == pieces(s@, sep),
{
    let n: usize = s.unicode_len();
    let mut out: Vec<&'a str> = Vec::new();
    let mut start: usize = 0;
    let mut i: usize = 0;
    assert(s@.subrange(0, 0) =~= seq![]);
    assert(views(out@).push(s@.subrange(0, 0)) =~= pieces(s@.take(0), sep));
    while i < n
        invariant
            start <= i <= n == s@.len(),
            views(out@).push(s@.subrange(start as int, i as int)) == pieces(
                s@.take(i as int),
                sep,
            ),
        decreases n - i,
    {
        let ghost done = views(out@);
        let ghost current = s@.subrange(start as int, i as int);
        assert(s@.take(i + 1).drop_last() =~= s@.take(i as int));
        assert(s@.take(i + 1).last() == s@[i as int]);
        assert(done.push(current).drop_last() =~= done);
        if s.get_char(i) == sep {
            out.push(s.substring_char(start, i));
            start = i + 1;
            assert(views(out@) =~= done.push(current));
            assert(s@.subrange(start as int, i + 1) =~= seq![]);
        } else {
            assert(s@.subrange(start as int, i + 1) =~= current.push(s@[i as int]));
        }
        i += 1;
    }
    let ghost done = views(out@);
    out.push(s.substring_char(start, n));
    assert(s@.take(n as int) =~= s@);
    assert(views(out@) =~= done.push(s@.subrange(start as int, n as int)));
    out
}

/// The pieces of a list that are not blank, without the blanks around
/// them.
pub open spec fn listed(parts: Seq<Seq<char>>) -> Seq<Seq<char>>
    decreases parts.len(),
{
    if parts.len() == 0 {
        seq![]
    } else if parse::trimmed(parts.last()).len() == 0 {
        listed(parts.drop_last())
    } else {
        listed(parts.drop_last()).push(parse::trimmed(parts.last()))
    }
}

/// The entries of a list that commas separate.
pub fn split_list(s: &str) -> (r: Vec<String>)
    ensures
        crate::names::texts(r@) == listed(pieces(s@, ',')),
{
    let parts = split_on(s, ',');
    let ghost all = views(parts@);
    let mut out: Vec<String> = Vec::new();
    let mut i: usize = 0;
    assert(crate::names::texts(out@) =~= listed(all.take(0)));
    while i < parts.len()
        invariant
            i <= parts@.len(),
            all == views(parts@),
            crate::names::texts(out@) == listed(all.take(i as int)),
        decreases parts@.len() - i,
    {
        assert(all.take(i + 1).drop_last() =~= all.take(i as int));
        assert(all[i as int] == parts@[i as int]@);
        let t = trim(parts[i]);
        let ghost before = out@;
        if t.unicode_len() > 0 {
            out.push(String::from_str(t));
            assert(crate::names::texts(out@) =~= crate::names::texts(before).push(t@));
        }
        i += 1;
    }
    assert(all.take(i as int) =~= all);
    out
}

/// An address without its scheme.
pub open spec fn bare(url: Seq<char>) -> Seq<char> {
    if parse::has_prefix(url, "http://"@) {
        url.skip(7)
    } else if parse::has_prefix(url, "https://"@) {
        url.skip(8)
    } else {
        url
    }
}

/// The socket part of the first address of a list.
pub fn first_url(list: &str) -> (r: Result<String, String>)
    ensures
        ({
            let first = parse::trimmed(pieces(list@, ',')[0]);
            if first.len() == 0 {
                r is Err && r->Err_0@ == "empty URL list"@
            } else {
                r is Ok && r->Ok_0@ == bare(first)
            }
        }),
{
    proof {
        reveal_strlit("http://");
        reveal_strlit("https://");
        lemma_pieces_not_empty(list@, ',');
    }
    let parts = split_on(list, ',');
    assert(views(parts@)[0] == parts@[0]@);
    let first = trim(parts[0]);
    let n: usize = first.unicode_len();
    if n == 0 {
        return Err(String::from_str("empty URL list"));
    }
    if begins_with(first, "http://") {
        let b = first.substring_char(7, n);
        assert(b@ =~= first@.skip(7));
        Ok(String::from_str(b))
    } else if begins_with(first, "https://") {
        let b = first.substring_char(8, n);
        assert(b@ =~= first@.skip(8));
        Ok(String::from_str(b))
    } else {
        Ok(String::from_str(first))
    }
}

/// The id that a name gives: its hash in 63 bits, never zero.
pub fn derive_node_id(name: &str) -> (r: NodeId)
    ensures
        r == cluster::url_id(name@),
        1 <= r < 0x8000_0000_0000_0000,
{
    ClusterService::derive_node_id_from_url(name)
}

/// A member of the initial cluster.
#[derive(Debug)]
pub struct NamedUrl {
    pub name: String,
    pub url: String,
}

/// A member of the initial cluster, as a value.
pub type Named = (Seq<char>, Seq<char>);

/// Where the first equals sign stands.
pub open spec fn equals_at(entry: Seq<char>, i: int) -> bool {
    0 <= i < entry.len() && entry[i] == '=' && forall|j: int| 0 <= j < i ==> #[trigger] entry[j]
        != '='
}

/// There is no equals sign.
pub open spec fn no_equals(entry: Seq<char>) -> bool {
    forall|j: int| 0 <= j < entry.len() ==> #[trigger] entry[j] != '='
}

/// The first equals sign.
pub open spec fn first_equals(entry: Seq<char>) -> int {
    choose|i: int| equals_at(entry, i)
}

/// The name and the address of an entry.
pub open spec fn named(entry: Seq<char>) -> Named {
    let i = first_equals(entry);
    (parse::trimmed(entry.take(i)), parse::trimmed(entry.skip(i + 1)))
}

/// The initial cluster of entries, by the bytes of the names: of two with
/// one name the later counts.
pub open spec fn cluster_of(entries: Seq<Seq<char>>) -> Map<Seq<u8>, Named>
    decreases entries.len(),
{
    if entries.len() == 0 {
        Map::empty()
    } else {
        let n = named(entries.last());
        cluster_of(entries.drop_last()).insert(vstd::utf8::encode_utf8(n.0), n)
    }
}

/// A map holds the members of an initial cluster.
pub open spec fn holds_cluster(m: Map<Seq<u8>, NamedUrl>, want: Map<Seq<u8>, Named>) -> bool {
    &&& forall|k: Seq<u8>| #[trigger] m.contains_key(k) <==> want.contains_key(k)
    &&& forall|k: Seq<u8>| #[trigger]
        m.contains_key(k) ==> (m[k].name@, m[k].url@) == want[k]
}

/// The place of the first equals sign of an entry.
fn find_equals(entry: &str) -> (r: Option<usize>)
    ensures
        match r {
            Some(i) => equals_at(entry@, i as int),
            None => no_equals(entry@),
        },
{
    let n: usize = entry.unicode_len();
    let mut i: usize = 0;
    while i < n
        invariant
            i <= n == entry@.len(),
            forall|j: int| 0 <= j < i ==> #[trigger] entry@[j] != '=',
        decreases n - i,
    {
        if entry.get_char(i) == '=' {
            return Some(i);
        }
        i += 1;
    }
    None
}

/// The members of an initial cluster written as `name=url` entries that
/// commas separate, in order of the names; blank means none. The first
/// entry without an address is refused.
pub fn parse_initial_cluster(s: &str) -> (r: Result<KeyMap<NamedUrl>, String>)
    ensures
        ({
            let entries = pieces(s@, ',');
            if parse::trimmed(s@).len() == 0 {
                r is Ok && r->Ok_0.wf() && r->Ok_0@ == Map::<Seq<u8>, NamedUrl>::empty()
            } else if forall|i: int| 0 <= i < entries.len() ==> !no_equals(#[trigger] entries[i]) {
                r is Ok && r->Ok_0.wf() && holds_cluster(r->Ok_0@, cluster_of(entries))
            } else {
                r is Err && exists|i: int|
                    0 <= i < entries.len() && no_equals(#[trigger] entries[i]) && (forall|j: int|
                        0 <= j < i ==> !no_equals(#[trigger] entries[j])) && r->Err_0@
                        == "missing URL in initial-cluster entry for "@ + entries[i]
            }
        }),
{
    let mut out: KeyMap<NamedUrl> = KeyMap::new();
    if trim(s).unicode_len() == 0 {
        return Ok(out);
    }
    let parts = split_on(s, ',');
    let ghost all = pieces(s@, ',');
    let mut i: usize = 0;
    assert(all.take(0) =~= seq![]);
    while i < parts.len()
        invariant
            i <= parts@.len(),
            all == views(parts@),
            all == pieces(s@, ','),
            parse::trimmed(s@).len() != 0,
            out.wf(),
            holds_cluster(out@, cluster_of(all.take(i as int))),
            forall|j: int| 0 <= j < i ==> !no_equals(#[trigger] all[j]),
        decreases parts@.len() - i,
    {
        let entry = parts[i];
        assert(all[i as int] == entry@);
        match find_equals(entry) {
            None => {
                assert(no_equals(all[i as int]));
                return Err(
                    String::from_str("missing URL in initial-cluster entry for ").concat(entry),
                );
            },
            Some(p) => {
                let n: usize = entry.unicode_len();
                proof {
                    let q = first_equals(entry@);
                    assert(equals_at(entry@, q));
                    if q < p {
                        assert(entry@[q] != '=');
                    } else if p < q {
                        assert(entry@[p as int] != '=');
                    }
                    assert(!no_equals(entry@)) by {
                        assert(entry@[p as int] == '=');
                    }
                }
                let head = entry.substring_char(0, p);
                let tail = entry.substring_char(p + 1, n);
                assert(head@ =~= entry@.take(p as int));
                assert(tail@ =~= entry@.skip(p + 1));
                let name = trim(head);
                let url = trim(tail);
                let key = copy_bytes(name.as_bytes());
                let ghost before = out@;
                assert(all.take(i + 1).drop_last() =~= all.take(i as int));
                out.insert(
                    key,
                    NamedUrl { name: String::from_str(name), url: String::from_str(url) },
                );
                assert((name@, url@) == named(entry@));
            },
        }
        i += 1;
    }
    assert(all.take(i as int) =~= all);
    Ok(out)
}

/// What a start knows of the cluster.
#[derive(Debug)]
pub struct Seeded {
    /// Where the other members are reached.
    pub peers: PeerEndpoints,
    /// Every member and where it is reached, this node too.
    pub members: IdMap<String>,
    /// What is listed of the members that the setting names.
    pub directory: MemberDirectory,
}

/// The last member of a list whose name gives an id.
pub open spec fn last_with_id(list: Seq<KeyEntry<NamedUrl>>, id: u64) -> Option<Named>
    decreases list.len(),
{
    if list.len() == 0 {
        None
    } else {
        let m = list.last().value;
        if cluster::url_id(m.name@) == id {
            Some((m.name@, m.url@))
        } else {
            last_with_id(list.drop_last(), id)
        }
    }
}

/// What is listed of a member that the setting names.
pub open spec fn named_member(n: Named) -> InfoView {
    InfoView { name: n.0, peer_urls: seq![n.1], client_urls: seq![], is_learner: false }
}

/// The address of a named member.
pub open spec fn url_of(n: Option<Named>) -> Option<Seq<char>> {
    match n {
        Some(n) => Some(n.1),
        None => None,
    }
}

/// What a start knows of the cluster by the members that the setting
/// names: each under the id that its name gives. A node that is not among
/// them is a member all the same.
pub fn seed_cluster(
    node_id: NodeId,
    self_url: &str,
    list: &Vec<KeyEntry<NamedUrl>>,
) -> (r: Seeded)
    ensures
        r.peers.urls.wf(),
        r.members.wf(),
        r.directory.wf(),
        forall|id: u64| #[trigger]
            r.peers.urls@.contains_key(id) <==> id != node_id && last_with_id(list@, id) is Some,
        forall|id: u64| #[trigger]
            r.peers.urls@.contains_key(id) ==> Some(r.peers.urls@[id]@) == url_of(
                last_with_id(list@, id),
            ),
        forall|id: u64| #[trigger]
            r.members@.contains_key(id) <==> id == node_id || last_with_id(list@, id) is Some,
        forall|id: u64| #[trigger]
            r.members@.contains_key(id) ==> r.members@[id]@ == (match last_with_id(list@, id) {
                Some(n) => n.1,
                None => self_url@,
            }),
        forall|id: u64| #[trigger]
            r.directory@.contains_key(id) <==> last_with_id(list@, id) is Some,
        forall|id: u64| #[trigger]
            r.directory@.contains_key(id) ==> r.directory@[id]@ == named_member(
                last_with_id(list@, id)->0,
            ),
{
    let mut peers: IdMap<String> = IdMap::new();
    let mut members: IdMap<String> = IdMap::new();
    let mut directory: MemberDirectory = IdMap::new();
    members.insert(node_id, String::from_str(self_url));
    let mut i: usize = 0;
    assert(list@.take(0).len() == 0);
    while i < list.len()
        invariant
            i <= list@.len(),
            peers.wf(),
            members.wf(),
            directory.wf(),
            forall|id: u64| #[trigger]
                peers@.contains_key(id) <==> id != node_id && last_with_id(
                    list@.take(i as int),
                    id,
                ) is Some,
            forall|id: u64| #[trigger]
                peers@.contains_key(id) ==> Some(peers@[id]@) == url_of(
                    last_with_id(list@.take(i as int), id),
                ),
            forall|id: u64| #[trigger]
                members@.contains_key(id) <==> id == node_id || last_with_id(
                    list@.take(i as int),
                    id,
                ) is Some,
            forall|id: u64| #[trigger]
                members@.contains_key(id) ==> members@[id]@ == (match last_with_id(
                    list@.take(i as int),
                    id,
                ) {
                    Some(n) => n.1,
                    None => self_url@,
                }),
            forall|id: u64| #[trigger]
                directory@.contains_key(id) <==> last_with_id(list@.take(i as int), id) is Some,
            forall|id: u64| #[trigger]
                directory@.contains_key(id) ==> directory@[id]@ == named_member(
                    last_with_id(list@.take(i as int), id)->0,
                ),
        decreases list@.len() - i,
    {
        let m = &list[i].value;
        let id = derive_node_id(m.name.as_str());
        assert(list@.take(i + 1).drop_last() =~= list@.take(i as int));
        assert(list@.take(i + 1).last().value == m);
        if id != node_id {
            peers.insert(id, m.url.clone());
        }
        members.insert(id, m.url.clone());
        let mut urls: Vec<String> = Vec::new();
        urls.push(m.url.clone());
        let info = MemberInfo {
            name: m.name.clone(),
            peer_urls: urls,
            client_urls: Vec::new(),
            is_learner: false,
        };
        assert(crate::names::texts(info.peer_urls@) =~= seq![m.url@]);
        assert(crate::names::texts(info.client_urls@) =~= seq![]);
        directory.insert(id, info);
        i += 1;
    }
    assert(list@.take(i as int) =~= list@);
    Seeded { peers: PeerEndpoints { urls: peers }, members, directory }
}

/// Two characters are the same but for the case of a letter.
pub open spec fn same_letter(a: char, b: char) -> bool {
    a == b || ('A' <= a && a <= 'Z' && b as int == a as int + 32) || ('A' <= b && b <= 'Z'
        && a as int == b as int + 32)
}

/// The cluster is to be bootstrapped: the state reads `new`, in any case.
pub fn is_bootstrap(cluster_state: &str) -> (r: bool)
    ensures
        r == (cluster_state@.len() == 3 && same_letter(cluster_state@[0], 'n') && same_letter(
            cluster_state@[1],
            'e',
        ) && same_letter(cluster_state@[2], 'w')),
{
    if cluster_state.unicode_len() != 3 {
        return false;
    }
    let a: char = cluster_state.get_char(0);
    let b: char = cluster_state.get_char(1);
    let c: char = cluster_state.get_char(2);
    (a == 'n' || a == 'N') && (b == 'e' || b == 'E') && (c == 'w' || c == 'W')
}

/// What a secure connection is set up with.
#[derive(Debug, Clone, Copy, PartialEq, Eq, Structural)]
pub enum TlsPlan {
    /// Nothing: the connection is plain.
    Plain,
    /// Certificate and key.
    Identity,
    /// Certificate and key, and clients must show a certificate of a
    /// trusted authority.
    IdentityAndClientAuth,
}

/// What a secure connection is set up with, by the files that are named.
pub fn build_tls_config(
    cert_file: bool,
    key_file: bool,
    trusted_ca_file: bool,
    client_cert_auth: bool,
) -> (r: Result<TlsPlan, String>)
    ensures
        cert_file != key_file ==> r is Err && r->Err_0@
            == "--cert-file and --key-file must both be set or both unset"@,
        !cert_file && !key_file ==> r == Ok::<TlsPlan, String>(TlsPlan::Plain),
        cert_file && key_file && !client_cert_auth ==> r == Ok::<TlsPlan, String>(
            TlsPlan::Identity,
        ),
        cert_file && key_file && client_cert_auth && trusted_ca_file ==> r == Ok::<
            TlsPlan,
            String,
        >(TlsPlan::IdentityAndClientAuth),
        cert_file && key_file && client_cert_auth && !trusted_ca_file ==> r is Err && r->Err_0@
            == "--client-cert-auth requires --trusted-ca-file"@,
{
    if cert_file != key_file {
        return Err(
            String::from_str("--cert-file and --key-file must both be set or both unset"),
        );
    }
    if !cert_file {
        return Ok(TlsPlan::Plain);
    }
    if !client_cert_auth {
        return Ok(TlsPlan::Identity);
    }
    if !trusted_ca_file {
        return Err(String::from_str("--client-cert-auth requires --trusted-ca-file"));
    }
    Ok(TlsPlan::IdentityAndClientAuth)
}

/// The names of the settings in the environment that have a counterpart,
/// without the prefixes.
pub open spec fn shared_settings() -> Seq<Seq<char>> {
    seq![
        "NAME"@,
        "DATA_DIR"@,
        "LISTEN_CLIENT_URLS"@,
        "LISTEN_PEER_URLS"@,
        "INITIAL_ADVERTISE_PEER_URLS"@,
        "ADVERTISE_CLIENT_URLS"@,
        "INITIAL_CLUSTER"@,
        "INITIAL_CLUSTER_STATE"@,
        "INITIAL_CLUSTER_TOKEN"@,
        "CERT_FILE"@,
        "KEY_FILE"@,
        "TRUSTED_CA_FILE"@,
        "PEER_CERT_FILE"@,
        "PEER_KEY_FILE"@,
        "PEER_TRUSTED_CA_FILE"@,
        "SNAPSHOT_COUNT"@,
        "QUOTA_BACKEND_BYTES"@,
        "MAX_REQUEST_BYTES"@,
        "LOG_LEVEL"@,
    ]
}

/// A variable of this program, and the one it falls back to.
#[derive(Debug)]
pub struct EnvPair {
    pub own: String,
    pub fallback: String,
}

/// The variables that fall back to another: those of the shared settings,
/// and the address of the metrics, whose counterpart is in the plural.
pub open spec fn are_env_pairs(pairs: Seq<EnvPair>) -> bool {
    let shared = shared_settings();
    &&& pairs.len() == shared.len() + 1
    &&& forall|i: int|
        0 <= i < shared.len() ==> (#[trigger] pairs[i]).own@ == "FASTETCD_"@ + shared[i]
            && pairs[i].fallback@ == "ETCD_"@ + shared[i]
    &&& pairs.last().own@ == "FASTETCD_LISTEN_METRICS_URL"@
    &&& pairs.last().fallback@ == "ETCD_LISTEN_METRICS_URLS"@
}

/// The variables that fall back to another.
pub fn env_pairs() -> (r: Vec<EnvPair>)
    ensures
        are_env_pairs(r@),
{
    let shared: [&str; 19] = [
        "NAME",
        "DATA_DIR",
        "LISTEN_CLIENT_URLS",
        "LISTEN_PEER_URLS",
        "INITIAL_ADVERTISE_PEER_URLS",
        "ADVERTISE_CLIENT_URLS",
        "INITIAL_CLUSTER",
        "INITIAL_CLUSTER_STATE",
        "INITIAL_CLUSTER_TOKEN",
        "CERT_FILE",
        "KEY_FILE",
        "TRUSTED_CA_FILE",
        "PEER_CERT_FILE",
        "PEER_KEY_FILE",
        "PEER_TRUSTED_CA_FILE",
        "SNAPSHOT_COUNT",
        "QUOTA_BACKEND_BYTES",
        "MAX_REQUEST_BYTES",
        "LOG_LEVEL",
    ];
    let ghost want = shared_settings();
    assert(forall|i: int| 0 <= i < 19 ==> (#[trigger] shared@[i])@ == want[i]);
    let mut out: Vec<EnvPair> = Vec::new();
    let mut i: usize = 0;
    while i < 19
        invariant
            i <= 19,
            want == shared_settings(),
            want.len() == 19,
            shared@.len() == 19,
            forall|j: int| 0 <= j < 19 ==> (#[trigger] shared@[j])@ == want[j],
            out@.len() == i,
            forall|j: int|
                0 <= j < i ==> (#[trigger] out@[j]).own@ == "FASTETCD_"@ + want[j]
                    && out@[j].fallback@ == "ETCD_"@ + want[j],
        decreases 19 - i,
    {
        let name = shared[i];
        out.push(
            EnvPair {
                own: String::from_str("FASTETCD_").concat(name),
                fallback: String::from_str("ETCD_").concat(name),
            },
        );
        i += 1;
    }
    out.push(
        EnvPair {
            own: String::from_str("FASTETCD_LISTEN_METRICS_URL"),
            fallback: String::from_str("ETCD_LISTEN_METRICS_URLS"),
        },
    );
    out
}

/// What to set a variable to: the fallback's value, if it has none of its
/// own.
pub fn env_value(own_is_set: bool, fallback: Option<String>) -> (r: Option<String>)
    ensures
        r == (if own_is_set {
            None
        } else {
            fallback
        }),
{
    if own_is_set {
        None
    } else {
        fallback
    }
}

/// Pieces are what lies between separators: none holds one, and each
/// separator ends a piece and begins the next.
pub proof fn law_pieces_lie_between_separators(s: Seq<char>, c: char, sep: char)
    ensures
        pieces(seq![], sep) == seq![Seq::<char>::empty()],
        pieces(s.push(sep), sep) == pieces(s, sep).push(seq![]),
        c != sep ==> {
            &&& pieces(s.push(c), sep).len() == pieces(s, sep).len()
            &&& pieces(s.push(c), sep).drop_last() == pieces(s, sep).drop_last()
            &&& pieces(s.push(c), sep).last() == pieces(s, sep).last().push(c)
        },
{
    lemma_pieces_not_empty(s, sep);
    assert(s.push(c).drop_last() =~= s);
    assert(s.push(sep).drop_last() =~= s);
    if c != sep {
        assert(pieces(s.push(c), sep).drop_last() =~= pieces(s, sep).drop_last());
    }
}

/// No piece holds a separator.
pub proof fn law_no_piece_holds_a_separator(s: Seq<char>, sep: char, i: int)
    requires
        0 <= i < pieces(s, sep).len(),
    ensures
        !pieces(s, sep)[i].contains(sep),
    decreases s.len(),
{
    if s.len() > 0 {
        let t = s.drop_last();
        lemma_pieces_not_empty(t, sep);
        let rest = pieces(t, sep);
        if s.last() == sep {
            if i < rest.len() {
                law_no_piece_holds_a_separator(t, sep, i);
            }
        } else if i < rest.len() - 1 {
            law_no_piece_holds_a_separator(t, sep, i);
        } else {
            law_no_piece_holds_a_separator(t, sep, rest.len() - 1);
            let p = rest.last().push(s.last());
            if p.contains(sep) {
                let j = choose|j: int| 0 <= j < p.len() && p[j] == sep;
                if j < rest.last().len() {
                    assert(rest.last()[j] == sep);
                }
            }
        }
    }
}

/// A list has an entry for each piece that is not blank, trimmed, in
/// order.
pub proof fn law_blank_pieces_are_left_out(parts: Seq<Seq<char>>, p: Seq<char>)
    ensures
        listed(seq![]).len() == 0,
        parse::trimmed(p).len() == 0 ==> listed(parts.push(p)) == listed(parts),
        parse::trimmed(p).len() > 0 ==> listed(parts.push(p)) == listed(parts).push(
            parse::trimmed(p),
        ),
{
    assert(parts.push(p).drop_last() =~= parts);
}

/// An address loses its scheme and nothing else; without one it stays.
pub proof fn law_address_loses_its_scheme_alone(rest: Seq<char>, url: Seq<char>)
    ensures
        bare("http://"@ + rest) == rest,
        bare("https://"@ + rest) == rest,
        !parse::has_prefix(url, "http://"@) && !parse::has_prefix(url, "https://"@) ==> bare(url)
            == url,
{
    reveal_strlit("http://");
    reveal_strlit("https://");
    let a = "http://"@ + rest;
    let b = "https://"@ + rest;
    assert("http://"@.len() == 7 && "https://"@.len() == 8);
    assert(a.take(7) =~= "http://"@);
    assert(a.skip(7) =~= rest);
    assert(b[4] == 's');
    assert(b.take(7)[4] == 's');
    assert("http://"@[4] == ':');
    assert(!parse::has_prefix(b, "http://"@));
    assert(b.take(8) =~= "https://"@);
    assert(b.skip(8) =~= rest);
}

/// An entry is divided at its first equals sign: what is in front of it is
/// the name and what is behind it the address, equals signs and all; both
/// are trimmed.
pub proof fn law_entry_divides_at_the_first_equals(name: Seq<char>, url: Seq<char>)
    requires
        !name.contains('='),
    ensures
        no_equals(name),
        !no_equals(name.push('=') + url),
        named(name.push('=') + url).0 == parse::trimmed(name),
        named(name.push('=') + url).1 == parse::trimmed(url),
{
    let entry = name.push('=') + url;
    let i = name.len() as int;
    assert forall|j: int| 0 <= j < name.len() implies #[trigger] name[j] != '=' by {
        assert(name.contains(name[j]));
    }
    assert(entry[i] == '=');
    assert forall|j: int| 0 <= j < i implies #[trigger] entry[j] != '=' by {
        assert(entry[j] == name[j]);
    }
    assert(equals_at(entry, i));
    let f = first_equals(entry);
    assert(equals_at(entry, f));
    if f < i {
        assert(entry[f] != '=');
    }
    if i < f {
        assert(entry[i] != '=');
    }
    assert(entry.take(i) =~= name);
    assert(entry.skip(i + 1) =~= url);
}

/// The initial cluster takes entries in one by one: each is kept under its
/// own name, in place of an earlier one of that name, and touches no
/// other.
pub proof fn law_later_entry_of_a_name_counts(
    entries: Seq<Seq<char>>,
    e: Seq<char>,
    k: Seq<u8>,
)
    ensures
        cluster_of(seq![]) == Map::<Seq<u8>, Named>::empty(),
        ({
            let own = vstd::utf8::encode_utf8(named(e).0);
            let before = cluster_of(entries);
            let after = cluster_of(entries.push(e));
            &&& after.contains_key(own)
            &&& after[own] == named(e)
            &&& k != own ==> (after.contains_key(k) <==> before.contains_key(k))
            &&& k != own && before.contains_key(k) ==> after[k] == before[k]
        }),
{
    assert(entries.push(e).drop_last() =~= entries);
}

/// What is held of an initial cluster is, for each name, that name and its
/// address.
pub proof fn law_cluster_is_held_by_name(
    m: Map<Seq<u8>, NamedUrl>,
    want: Map<Seq<u8>, Named>,
    k: Seq<u8>,
)
    requires
        holds_cluster(m, want),
    ensures
        m.contains_key(k) <==> want.contains_key(k),
        m.contains_key(k) ==> m[k].name@ == want[k].0 && m[k].url@ == want[k].1,
{
    assert(m.contains_key(k) <==> want.contains_key(k));
}

/// Of members whose names give one id the last counts, with its own name
/// and address; a member of another id does not matter.
pub proof fn law_last_member_of_an_id_counts(
    list: Seq<KeyEntry<NamedUrl>>,
    m: KeyEntry<NamedUrl>,
    id: u64,
)
    ensures
        last_with_id(seq![], id) is None,
        cluster::url_id(m.value.name@) == id ==> last_with_id(list.push(m), id) == Some(
            (m.value.name@, m.value.url@),
        ),
        cluster::url_id(m.value.name@) != id ==> last_with_id(list.push(m), id) == last_with_id(
            list,
            id,
        ),
        url_of(None) is None,
        url_of(Some((m.value.name@, m.value.url@))) == Some(m.value.url@),
{
    assert(list.push(m).drop_last() =~= list);
}

/// A member that the setting names is listed under its name, as a voter
/// reached at its one address.
pub proof fn law_named_member_is_a_voter(n: Named)
    ensures
        named_member(n).name == n.0,
        named_member(n).peer_urls == seq![n.1],
        named_member(n).client_urls.len() == 0,
        !named_member(n).is_learner,
{
}

/// A character is the same as a small letter exactly when it is that
/// letter, small or large.
pub proof fn law_letters_are_the_same_in_either_case(a: char, b: char)
    requires
        'a' <= b && b <= 'z',
    ensures
        same_letter(a, b) <==> a == b || a as int == b as int - 32,
        same_letter(a, b) == same_letter(b, a),
{
}

/// Each variable falls back to the one of the same setting, under the
/// other prefix; the metrics address alone falls back to one in the
/// plural.
pub proof fn law_variables_fall_back_by_setting(pairs: Seq<EnvPair>, i: int)
    requires
        are_env_pairs(pairs),
    ensures
        pairs.len() == 20,
        0 <= i < 19 ==> pairs[i].own@ == "FASTETCD_"@ + shared_settings()[i] && pairs[i].fallback@
            == "ETCD_"@ + shared_settings()[i],
        pairs[19].own@ == "FASTETCD_LISTEN_METRICS_URL"@,
        pairs[19].fallback@ == "ETCD_LISTEN_METRICS_URLS"@,
{
}

/// The settings that are shared.
pub proof fn law_shared_settings_are_nineteen()
    ensures
        shared_settings().len() == 19,
        shared_settings()[0] == "NAME"@,
        shared_settings()[1] == "DATA_DIR"@,
        shared_settings()[2] == "LISTEN_CLIENT_URLS"@,
        shared_settings()[3] == "LISTEN_PEER_URLS"@,
        shared_settings()[4] == "INITIAL_ADVERTISE_PEER_URLS"@,
        shared_settings()[5] == "ADVERTISE_CLIENT_URLS"@,
        shared_settings()[6] == "INITIAL_CLUSTER"@,
        shared_settings()[7] == "INITIAL_CLUSTER_STATE"@,
        shared_settings()[8] == "INITIAL_CLUSTER_TOKEN"@,
        shared_settings()[9] == "CERT_FILE"@,
        shared_settings()[10] == "KEY_FILE"@,
        shared_settings()[11] == "TRUSTED_CA_FILE"@,
        shared_settings()[12] == "PEER_CERT_FILE"@,
        shared_settings()[13] == "PEER_KEY_FILE"@,
        shared_settings()[14] == "PEER_TRUSTED_CA_FILE"@,
        shared_settings()[15] == "SNAPSHOT_COUNT"@,
        shared_settings()[16] == "QUOTA_BACKEND_BYTES"@,
        shared_settings()[17] == "MAX_REQUEST_BYTES"@,
        shared_settings()[18] == "LOG_LEVEL"@,
{
}

} // verus!
