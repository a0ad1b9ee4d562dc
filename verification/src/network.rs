//! How peers talk to each other: the messages of the chunk and DAG protocols,
//! the record that names a published site in the DHT, and the decisions the
//! node takes on requests and replies.

use vstd::prelude::*;

use crate::json::{decimal, json_string, push_decimal, push_json_string};

verus! {

broadcast use vstd::string::group_string_axioms;

// ── Protocol identifiers ──
// Every Chimera peer uses the same strings, so they know they speak the same language.

/// Identifier of the chunk protocol: "give me chunk X" → "here are the bytes".
pub const CHUNK_PROTOCOL: &'static str = "/chimera/chunk/1.0.0";

/// Identifier of the DAG protocol: "give me DAG node X" → "here's the node info".
pub const DAG_PROTOCOL: &'static str = "/chimera/dag/1.0.0";

// ── Chunk Protocol Messages ──

/// "Hey peer, do you have this chunk?"
pub struct ChunkRequest {
    pub cid: String,
}

/// "Yes, here it is" (or "no, I don't have it")
pub struct ChunkResponse {
    pub cid: String,
    /// raw chunk bytes (empty if not found)
    pub data: Vec<u8>,
    pub found: bool,
}

// ── DAG Protocol Messages ──

/// "Hey peer, do you have this DAG node?"
pub struct DagRequest {
    pub cid: String,
}

/// A single link inside a DAG node (sent over the network).
pub struct DagLink {
    pub name: String,
    pub cid: String,
    pub size: u64,
}

impl View for DagLink {
    type V = crate::content::merkle::LinkView;

    open spec fn view(&self) -> crate::content::merkle::LinkView {
        crate::content::merkle::LinkView { name: self.name@, cid: self.cid@, size: self.size }
    }
}

/// The links, as `serde_json::to_string` writes them: the JSON kept with a
/// cached DAG node.
pub fn links_json_text(links: &[DagLink]) -> (json: String)
    ensures
        json@ == crate::content::merkle::links_json(links@.map_values(|l: DagLink| l@)),
{
    let mut out = String::new();
    out.append("[");
    let n = links.len();
    for i in 0..n
        invariant
            n == links@.len(),
            out@ == "["@ + crate::content::merkle::link_items_json(links@.take(i as int).map_values(|l: DagLink| l@)),
    {
        let ghost prev = links@.take(i as int).map_values(|l: DagLink| l@);
        let ghost next = links@.take(i + 1).map_values(|l: DagLink| l@);
        assert(next.drop_last() =~= prev);
        assert(next.last() == links@[i as int]@);
        if i > 0 {
            out.append(",");
        }
        let l = &links[i];
        let ghost before = out@;
        out.append("{\"name\":");
        push_json_string(&mut out, l.name.as_str());
        out.append(",\"cid\":");
        push_json_string(&mut out, l.cid.as_str());
        out.append(",\"size\":");
        push_decimal(&mut out, l.size);
        out.append("}");
        assert(out@ =~= before + crate::content::merkle::link_json(l@));
        assert(out@ =~= "["@ + crate::content::merkle::link_items_json(next));
    }
    assert(links@.take(n as int) =~= links@);
    out.append("]");
    out
}

/// A DAG node as sent over the network.
pub struct DagNodeInfo {
    pub cid: String,
    pub name: String,
    /// "file" or "directory"
    pub node_type: String,
    pub size: u64,
    pub links: Vec<DagLink>,
}

/// "Here's the DAG node" (or "I don't have it")
pub struct DagResponse {
    pub cid: String,
    /// None = "I don't have it"
    pub node: Option<DagNodeInfo>,
}

// ── DHT record ──
// Key: "/chimera/site/{site_name}" → Value: serialized DhtSiteRecord

/// The metadata stored in the DHT so other peers can find a published site.
pub struct DhtSiteRecord {
    pub root_cid: String,
    pub publisher_peer_id: String,
    pub total_size: u64,
    pub chunk_count: u32,
    pub published_at: String,
}

/// The DHT key under which a site is announced and looked up.
pub open spec fn site_key(site_name: Seq<char>) -> Seq<char> {
    "/chimera/site/"@ + site_name
}

/// The DHT key of a site.
pub fn site_record_key(site_name: &str) -> (key: String)
    ensures
        key@ == site_key(site_name@),
{
    let mut key = "/chimera/site/".to_string();
    key.append(site_name);
    key
}

/// Different sites are announced under different keys.
pub proof fn lemma_site_key_injective(a: Seq<char>, b: Seq<char>)
    ensures
        site_key(a) == site_key(b) ==> a == b,
{
    let p = "/chimera/site/"@;
    if site_key(a) == site_key(b) {
        assert(a =~= site_key(a).skip(p.len() as int));
        assert(b =~= site_key(b).skip(p.len() as int));
    }
}

/// The JSON of a site record, as `serde_json` writes it.
pub open spec fn site_record_json(
    root_cid: Seq<char>,
    publisher_peer_id: Seq<char>,
    total_size: u64,
    chunk_count: u32,
    published_at: Seq<char>,
) -> Seq<char> {
    "{\"root_cid\":"@ + json_string(root_cid) + ",\"publisher_peer_id\":"@ + json_string(publisher_peer_id)
        + ",\"total_size\":"@ + decimal(total_size as nat) + ",\"chunk_count\":"@ + decimal(chunk_count as nat)
        + ",\"published_at\":"@ + json_string(published_at) + "}"@
}

impl DhtSiteRecord {
    /// The JSON of this record.
    pub open spec fn json(&self) -> Seq<char> {
        site_record_json(
            self.root_cid@,
            self.publisher_peer_id@,
            self.total_size,
            self.chunk_count,
            self.published_at@,
        )
    }

    /// The value stored in the DHT for this record: the UTF-8 of its JSON.
    pub fn to_json_bytes(&self) -> (bytes: Vec<u8>)
        ensures
            bytes@ == vstd::utf8::encode_utf8(self.json()),
    {
        let mut out = String::new();
        out.append("{\"root_cid\":");
        push_json_string(&mut out, self.root_cid.as_str());
        out.append(",\"publisher_peer_id\":");
        push_json_string(&mut out, self.publisher_peer_id.as_str());
        out.append(",\"total_size\":");
        push_decimal(&mut out, self.total_size);
        out.append(",\"chunk_count\":");
        push_decimal(&mut out, self.chunk_count as u64);
        out.append(",\"published_at\":");
        push_json_string(&mut out, self.published_at.as_str());
        out.append("}");
        assert(out@ =~= self.json());
        vstd::slice::slice_to_vec(out.as_str().as_bytes())
    }
}

/// The record that announces a site published by `peer_id`.
pub fn site_announcement(
    root_cid: String,
    peer_id: String,
    total_size: u64,
    chunk_count: u32,
    published_at: String,
) -> (record: DhtSiteRecord)
    ensures
        record.root_cid == root_cid,
        record.publisher_peer_id == peer_id,
        record.total_size == total_size,
        record.chunk_count == chunk_count,
        record.published_at == published_at,
{
    DhtSiteRecord { root_cid, publisher_peer_id: peer_id, total_size, chunk_count, published_at }
}

// ── Serving and routing ──

/// A peer is asking us for a chunk: serve it from local storage. `stored` is
/// what local storage gave for the CID (`None` when we do not have it or it
/// could not be loaded).
pub fn answer_chunk_request(request: ChunkRequest, stored: Option<Vec<u8>>) -> (response: ChunkResponse)
    ensures
        response.cid == request.cid,
        response.found == (stored is Some),
        stored matches Some(data) ==> response.data@ == data@,
        stored is None ==> response.data@.len() == 0,
{
    match stored {
        Some(data) => ChunkResponse { cid: request.cid, data, found: true },
        None => ChunkResponse { cid: request.cid, data: Vec::new(), found: false },
    }
}

/// A peer is asking us for a DAG node: answer with the node we hold, if any.
pub fn answer_dag_request(request: DagRequest, stored: Option<DagNodeInfo>) -> (response: DagResponse)
    ensures
        response.cid == request.cid,
        response.node == stored,
{
    DagResponse { cid: request.cid, node: stored }
}

/// The message for a peer that does not hold a chunk.
pub open spec fn missing_chunk_message(cid: Seq<char>) -> Seq<char> {
    "Peer doesn't have chunk "@ + cid
}

/// The message for a peer that does not hold a DAG node.
pub open spec fn missing_node_message(cid: Seq<char>) -> Seq<char> {
    "Peer doesn't have DAG node "@ + cid
}

/// We asked a peer for a chunk: what the caller is answered.
pub fn chunk_reply(response: ChunkResponse) -> (reply: Result<Vec<u8>, String>)
    ensures
        response.found ==> reply is Ok && reply->Ok_0@ == response.data@,
        !response.found ==> reply is Err && reply->Err_0@ == missing_chunk_message(response.cid@),
{
    if response.found {
        Ok(response.data)
    } else {
        let mut msg = "Peer doesn't have chunk ".to_string();
        msg.append(response.cid.as_str());
        Err(msg)
    }
}

/// We asked a peer for a DAG node: what the caller is answered.
pub fn dag_reply(response: DagResponse) -> (reply: Result<DagNodeInfo, String>)
    ensures
        response.node is Some ==> reply == Ok::<DagNodeInfo, String>(response.node->Some_0),
        response.node is None ==> reply is Err && reply->Err_0@ == missing_node_message(response.cid@),
{
    match response.node {
        Some(node) => Ok(node),
        None => {
            let mut msg = "Peer doesn't have DAG node ".to_string();
            msg.append(response.cid.as_str());
            Err(msg)
        },
    }
}

/// How a DHT lookup of a site's record ended.
pub enum LookupOutcome {
    /// A record was found; what reading its value gave (the record, or the
    /// text of the error).
    Found(Result<DhtSiteRecord, String>),
    /// The lookup finished without finding a record.
    NotFound,
    /// The lookup failed; the text of the error.
    Failed(String),
}

/// The message for a DHT record whose value could not be read.
pub open spec fn bad_record_message(err: Seq<char>) -> Seq<char> {
    "Bad DHT record: "@ + err
}

/// The message for a site that no peer announced.
pub open spec fn site_not_found_message() -> Seq<char> {
    "Site not found in DHT"@
}

/// The message for a failed DHT lookup.
pub open spec fn lookup_failed_message(err: Seq<char>) -> Seq<char> {
    "DHT lookup failed: "@ + err
}

/// The message for a failed DHT announcement.
pub open spec fn put_failed_message(err: Seq<char>) -> Seq<char> {
    "DHT put failed: "@ + err
}

/// The message for a chunk request that could not be carried out.
pub open spec fn chunk_request_failed_message(err: Seq<char>) -> Seq<char> {
    "Chunk request failed: "@ + err
}

/// The message for a DAG node request that could not be carried out.
pub open spec fn dag_request_failed_message(err: Seq<char>) -> Seq<char> {
    "DAG request failed: "@ + err
}

fn prefixed(prefix: &str, text: &str) -> (msg: String)
    ensures
        msg@ == prefix@ + text@,
{
    let mut msg = prefix.to_string();
    msg.append(text);
    msg
}

/// We looked a site up in the DHT: what the caller is answered.
pub fn lookup_reply(outcome: LookupOutcome) -> (reply: Result<DhtSiteRecord, String>)
    ensures
        match outcome {
            LookupOutcome::Found(Ok(record)) => reply == Ok::<DhtSiteRecord, String>(record),
            LookupOutcome::Found(Err(err)) => reply is Err && reply->Err_0@ == bad_record_message(err@),
            LookupOutcome::NotFound => reply is Err && reply->Err_0@ == site_not_found_message(),
            LookupOutcome::Failed(err) => reply is Err && reply->Err_0@ == lookup_failed_message(err@),
        },
{
    match outcome {
        LookupOutcome::Found(Ok(record)) => Ok(record),
        LookupOutcome::Found(Err(err)) => Err(prefixed("Bad DHT record: ", err.as_str())),
        LookupOutcome::NotFound => Err("Site not found in DHT".to_string()),
        LookupOutcome::Failed(err) => Err(prefixed("DHT lookup failed: ", err.as_str())),
    }
}

/// We announced a site in the DHT: what the caller is answered, from the
/// outcome of storing the record (the text of the error when it failed).
pub fn put_reply(outcome: Result<(), String>) -> (reply: Result<(), String>)
    ensures
        outcome is Ok ==> reply is Ok,
        outcome matches Err(err) ==> reply is Err && reply->Err_0@ == put_failed_message(err@),
{
    match outcome {
        Ok(()) => Ok(()),
        Err(err) => Err(prefixed("DHT put failed: ", err.as_str())),
    }
}

/// A chunk request to a peer failed (the text of the failure): what the caller is answered.
pub fn chunk_request_failed(err: &str) -> (msg: String)
    ensures
        msg@ == chunk_request_failed_message(err@),
{
    prefixed("Chunk request failed: ", err)
}

/// A DAG node request to a peer failed (the text of the failure): what the caller is answered.
pub fn dag_request_failed(err: &str) -> (msg: String)
    ensures
        msg@ == dag_request_failed_message(err@),
{
    prefixed("DAG request failed: ", err)
}

/// After a connection is established: Kademlia is bootstrapped once the
/// bootstrap could be started after connecting (it races with the first connection).
pub fn bootstrapped_after_connect(bootstrapped: bool, bootstrap_started: bool) -> (now: bool)
    ensures
        now == (bootstrapped || bootstrap_started),
{
    bootstrapped || bootstrap_started
}

/// After a connection closes: losing the relay allows re-bootstrapping on the next connect.
pub fn bootstrapped_after_close(bootstrapped: bool, relay_peers: &Vec<String>, peer: &str) -> (now: bool)
    ensures
        now == (bootstrapped && !(exists|i: int| 0 <= i < relay_peers@.len() && #[trigger] relay_peers@[i]@ == peer@)),
{
    let pv = crate::text::chars_of(peer);
    let n = relay_peers.len();
    for i in 0..n
        invariant
            n == relay_peers@.len(),
            pv@ == peer@,
            forall|k: int| 0 <= k < i ==> #[trigger] relay_peers@[k]@ != peer@,
    {
        let rv = crate::text::chars_of(relay_peers[i].as_str());
        if crate::text::chars_equal(rv.as_slice(), pv.as_slice()) {
            return false;
        }
    }
    bootstrapped
}

} // verus!
