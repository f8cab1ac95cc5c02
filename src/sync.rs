//! The decisions of the synchronisation engine: answering greetings,
//! merging a seed's reply, resolving a changed file, addressing pushes and
//! resolving the path of a transfer request. The requests themselves, the
//! clock and the disk are left to the caller.
use vstd::prelude::*;
use vstd::string::*;

use crate::error::SyncError;
use crate::file_state::FileStateMap;
use crate::outside::{
    diff_paths, form_decode_first_name, form_encode, form_encoded, form_first_name, join_path,
    joined_path, path_diff,
};
use crate::registry::PeerRegistry;
use crate::serialization::{
    deserialize_other_nodes, encode_peer_list, is_wire_address, peers_round_trip,
    serialize_other_nodes, wire_entries,
};
use crate::text::{chars_of, views};

verus! {

/// The address of a peer that greeted from `host` and listens on `port`:
/// `host:port`, with an IPv6 host in brackets.
pub open spec fn peer_address_of(host: Seq<char>, is_ipv6: bool, port: Seq<char>) -> Seq<char> {
    (if is_ipv6 {
        seq!['['] + host + seq![']']
    } else {
        host
    }) + seq![':'] + port
}

/// Builds the address of a greeting peer from its socket's host and the
/// port that it names.
pub fn peer_address(host: &str, is_ipv6: bool, port: &str) -> (r: String)
    ensures
        r@ == peer_address_of(host@, is_ipv6, port@),
{
    let open = "[";
    let close = "]";
    let colon = ":";
    proof {
        reveal_strlit("[");
        reveal_strlit("]");
        reveal_strlit(":");
    }
    assert(open@ =~= seq!['[']);
    assert(close@ =~= seq![']']);
    assert(colon@ =~= seq![':']);
    let mut r = String::new();
    if is_ipv6 {
        r.append(open);
        r.append(host);
        r.append(close);
    } else {
        r.append(host);
    }
    r.append(colon);
    r.append(port);
    assert(r@ =~= peer_address_of(host@, is_ipv6, port@));
    r
}

/// Answers a greeting from `caller`: the wire form of the registry as it
/// stood before, after which `caller` is recorded.
pub fn answer_greeting(registry: &mut PeerRegistry, caller: String) -> (r: String)
    requires
        old(registry).wf(),
    ensures
        r@ == encode_peer_list(old(registry).entries()),
        final(registry).wf(),
        final(registry)@ == old(registry)@.insert(caller@),
{
    let before = registry.record_greeting(caller);
    serialize_other_nodes(&before)
}

/// After a peer greets a node that did not know it, the node knows it, and
/// the reply it sent back does not name it.
pub proof fn greeting_records_caller_and_leaves_it_out(registry: PeerRegistry, caller: Seq<char>)
    requires
        registry.wf(),
        !registry@.contains(caller),
        forall|a: Seq<char>| registry@.contains(a) ==> is_wire_address(a),
    ensures
        registry@.insert(caller).contains(caller),
        !wire_entries(encode_peer_list(registry.entries())).to_set().contains(caller),
{
    peers_round_trip(registry);
}

/// Takes in the reply of the seed `contact` to this node's greeting: the
/// seed and every peer that the reply names are recorded.
pub fn record_greet_reply(registry: &mut PeerRegistry, contact: String, reply: &str)
    requires
        old(registry).wf(),
    ensures
        final(registry).wf(),
        final(registry)@ == old(registry)@.insert(contact@).union(wire_entries(reply@).to_set()),
{
    registry.insert(contact);
    let others = deserialize_other_nodes(reply);
    registry.merge(&others);
}

/// The address of the greeting request to `contact`, naming the port that
/// this node listens on.
pub fn greet_url(contact: &str, my_port: &str) -> (r: String)
    ensures
        r@ == "http://"@ + contact@ + "/greet/"@ + my_port@,
{
    let mut r = String::new();
    r.append("http://");
    r.append(contact);
    r.append("/greet/");
    r.append(my_port);
    assert(r@ =~= "http://"@ + contact@ + "/greet/"@ + my_port@);
    r
}

/// The address of the request that pushes a file to `peer`, given the
/// file's form-encoded relative path.
pub open spec fn push_url_of(peer: Seq<char>, encoded_path: Seq<char>) -> Seq<char> {
    "http://"@ + peer + "/file/"@ + encoded_path
}

/// One push address for every known peer, in the registry's order, each
/// carrying the form-encoded `relative_path`.
pub fn publish_targets(other_nodes: &PeerRegistry, relative_path: &str) -> (r: Vec<String>)
    ensures
        r.len() == other_nodes.entries().len(),
        forall|i: int|
            0 <= i < r.len() ==> #[trigger] r[i]@ == push_url_of(
                other_nodes.entries()[i],
                form_encoded(relative_path@),
            ),
{
    let encoded = form_encode(relative_path);
    let addrs = other_nodes.addresses();
    let mut out: Vec<String> = Vec::new();
    let mut i: usize = 0;
    while i < addrs.len()
        invariant
            i <= addrs.len(),
            views(addrs@) == other_nodes.entries(),
            encoded@ == form_encoded(relative_path@),
            out.len() == i,
            forall|k: int|
                0 <= k < i ==> #[trigger] out[k]@ == push_url_of(
                    other_nodes.entries()[k],
                    form_encoded(relative_path@),
                ),
        decreases addrs.len() - i,
    {
        let mut u = String::new();
        u.append("http://");
        u.append(addrs[i].as_str());
        u.append("/file/");
        u.append(encoded.as_str());
        assert(addrs[i as int]@ == other_nodes.entries()[i as int]);
        assert(u@ =~= push_url_of(other_nodes.entries()[i as int], form_encoded(relative_path@)));
        out.push(u);
        i += 1;
    }
    out
}

/// A relative path that does not name a file under the root: empty,
/// absolute, or leading up out of it.
pub open spec fn escapes_root(rel: Seq<char>) -> bool {
    ||| rel.len() == 0
    ||| rel[0] == '/'
    ||| rel == seq!['.', '.']
    ||| (rel.len() >= 3 && rel[0] == '.' && rel[1] == '.' && rel[2] == '/')
}

/// The relative path of a changed file, if it lies under the root.
pub open spec fn resolved_change(dir: Seq<char>, file_path: Seq<char>) -> Option<Seq<char>> {
    match path_diff(file_path, dir) {
        Some(rel) => if escapes_root(rel) {
            None
        } else {
            Some(rel)
        },
        None => None,
    }
}

fn leaves_root(rel: &str) -> (r: bool)
    ensures
        r == escapes_root(rel@),
{
    let cs = chars_of(rel);
    let n = cs.len();
    proof {
        if n == 2 && cs@[0] == '.' && cs@[1] == '.' {
            assert(rel@ =~= seq!['.', '.']);
        }
    }
    n == 0 || cs[0] == '/' || (n == 2 && cs[0] == '.' && cs[1] == '.') || (n >= 3 && cs[0] == '.'
        && cs[1] == '.' && cs[2] == '/')
}

/// Resolves a changed file's absolute path against the watched root.
pub fn resolve_change(dir: &str, file_path: &str) -> (r: Result<String, SyncError>)
    ensures
        match resolved_change(dir@, file_path@) {
            Some(rel) => r is Ok && r->Ok_0@ == rel,
            None => r == Err::<String, SyncError>(SyncError::PathResolution),
        },
{
    match diff_paths(file_path, dir) {
        Some(rel) => {
            if leaves_root(rel.as_str()) {
                Err(SyncError::PathResolution)
            } else {
                Ok(rel)
            }
        },
        None => Err(SyncError::PathResolution),
    }
}

/// Logs a local change event observed at `now`: resolves the path and
/// records its time. On success the relative path is returned, for the
/// caller to read the file and push it; an event outside the root changes
/// nothing.
pub fn handle_file_change(dir: &str, file_timestamps: &mut FileStateMap, file_path: &str, now: u64)
    -> (r: Result<String, SyncError>)
    requires
        old(file_timestamps).wf(),
    ensures
        final(file_timestamps).wf(),
        match resolved_change(dir@, file_path@) {
            Some(rel) => r is Ok && r->Ok_0@ == rel && final(file_timestamps)@ == old(
                file_timestamps,
            )@.insert(rel, now),
            None => r == Err::<String, SyncError>(SyncError::PathResolution)
                && final(file_timestamps)@ == old(file_timestamps)@,
        },
{
    match resolve_change(dir, file_path) {
        Ok(rel) => {
            file_timestamps.record_change(rel.clone(), now);
            Ok(rel)
        },
        Err(e) => Err(e),
    }
}

/// Where a transfer request for a form-encoded path lands: the decoded
/// relative path and the file under `dir`. `None` when the request names
/// no path.
pub fn request_target(dir: &str, encoded_path: &str) -> (r: Option<(String, String)>)
    ensures
        match form_first_name(encoded_path@) {
            Some(rel) => match r {
                Some((found, full)) => found@ == rel && full@ == joined_path(dir@, rel),
                None => false,
            },
            None => r is None,
        },
{
    match form_decode_first_name(encoded_path) {
        Some(rel) => {
            let full = join_path(dir, rel.as_str());
            Some((rel, full))
        },
        None => None,
    }
}

} // verus!
