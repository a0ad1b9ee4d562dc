//! The Merkle DAG of a published folder: files link to their chunks (in order),
//! directories link to their children (sorted by name), and every node is named
//! by the CID of the JSON of its content.

use vstd::prelude::*;

use crate::content::chunker::{chunk_bytes, chunk_of, pieces, Chunk};
use crate::content::cid::{cid_from_bytes, cid_from_dag_json, cid_v1_sha256_text, DAG_JSON, RAW};
use crate::json::{decimal, json_string, push_decimal, push_json_string};

verus! {

broadcast use vstd::string::group_string_axioms;

// ── Data Structures ──

/// A link from one DAG node to another (or to a chunk).
/// Think of it as: "this directory contains a file called X with CID Y".
#[derive(Clone)]
pub struct DagLink {
    pub name: String,
    pub cid: String,
    pub size: u64,
}

/// A node in the Merkle DAG — either a file or a directory.
/// Files link to their chunks. Directories link to their children.
pub struct DagNode {
    /// computed from the node's content
    pub cid: String,
    /// "index.html" or "css" etc.
    pub name: String,
    /// "file" or "directory"
    pub node_type: String,
    /// total bytes this node represents
    pub size: u64,
    /// what this node points to
    pub links: Vec<DagLink>,
}

/// A chunk ready to be stored. Has its CID and raw data.
pub struct StoredChunk {
    pub cid: String,
    pub data: Vec<u8>,
    pub size: u64,
}

/// Everything that comes out of building a DAG from a folder.
pub struct DagBuildResult {
    pub root_cid: String,
    pub nodes: Vec<DagNode>,
    pub chunks: Vec<StoredChunk>,
    pub total_size: u64,
    pub file_count: u32,
    pub chunk_count: u32,
}

/// The value of a [`DagLink`].
pub struct LinkView {
    pub name: Seq<char>,
    pub cid: Seq<char>,
    pub size: u64,
}

/// The value of a [`DagNode`].
pub struct NodeView {
    pub cid: Seq<char>,
    pub name: Seq<char>,
    pub node_type: Seq<char>,
    pub size: u64,
    pub links: Seq<LinkView>,
}

/// The value of a [`StoredChunk`].
pub struct ChunkView {
    pub cid: Seq<char>,
    pub data: Seq<u8>,
    pub size: u64,
}

impl View for DagLink {
    type V = LinkView;

    open spec fn view(&self) -> LinkView {
        LinkView { name: self.name@, cid: self.cid@, size: self.size }
    }
}

/// The values of a sequence of links.
pub open spec fn link_views(links: Seq<DagLink>) -> Seq<LinkView> {
    links.map_values(|l: DagLink| l@)
}

impl View for DagNode {
    type V = NodeView;

    open spec fn view(&self) -> NodeView {
        NodeView {
            cid: self.cid@,
            name: self.name@,
            node_type: self.node_type@,
            size: self.size,
            links: link_views(self.links@),
        }
    }
}

impl View for StoredChunk {
    type V = ChunkView;

    open spec fn view(&self) -> ChunkView {
        ChunkView { cid: self.cid@, data: self.data@, size: self.size }
    }
}

/// The values of a sequence of nodes.
pub open spec fn node_views(nodes: Seq<DagNode>) -> Seq<NodeView> {
    nodes.map_values(|n: DagNode| n@)
}

/// The values of a sequence of stored chunks.
pub open spec fn chunk_views(chunks: Seq<StoredChunk>) -> Seq<ChunkView> {
    chunks.map_values(|c: StoredChunk| c@)
}

// ── The JSON that names a node ──

/// `{"name":...,"cid":...,"size":...}`
pub open spec fn link_json(l: LinkView) -> Seq<char> {
    "{\"name\":"@ + json_string(l.name) + ",\"cid\":"@ + json_string(l.cid) + ",\"size\":"@
        + decimal(l.size as nat) + "}"@
}

/// The links, as JSON objects separated by commas.
pub open spec fn link_items_json(links: Seq<LinkView>) -> Seq<char>
    decreases links.len(),
{
    if links.len() == 0 {
        Seq::empty()
    } else if links.len() == 1 {
        link_json(links[0])
    } else {
        link_items_json(links.drop_last()) + ","@ + link_json(links.last())
    }
}

/// A JSON array of links: what `serde_json::to_string` writes for `Vec<DagLink>`.
pub open spec fn links_json(links: Seq<LinkView>) -> Seq<char> {
    "["@ + link_items_json(links) + "]"@
}

/// What gets hashed to produce a node's CID: the node's fields without the CID,
/// `{"name":...,"node_type":...,"size":...,"links":[...]}`.
pub open spec fn node_content_json(
    name: Seq<char>,
    node_type: Seq<char>,
    size: u64,
    links: Seq<LinkView>,
) -> Seq<char> {
    "{\"name\":"@ + json_string(name) + ",\"node_type\":"@ + json_string(node_type) + ",\"size\":"@
        + decimal(size as nat) + ",\"links\":"@ + links_json(links) + "}"@
}

/// The CID of a node: the DAG-JSON CID of the UTF-8 bytes of its content.
pub open spec fn node_cid(name: Seq<char>, node_type: Seq<char>, size: u64, links: Seq<LinkView>) -> Seq<char> {
    cid_v1_sha256_text(DAG_JSON, vstd::utf8::encode_utf8(node_content_json(name, node_type, size, links)))
}

fn push_link_json(out: &mut String, l: &DagLink)
    ensures
        final(out)@ == old(out)@ + link_json(l@),
{
    let ghost start = out@;
    out.append("{\"name\":");
    push_json_string(out, l.name.as_str());
    out.append(",\"cid\":");
    push_json_string(out, l.cid.as_str());
    out.append(",\"size\":");
    push_decimal(out, l.size);
    out.append("}");
    assert(out@ =~= start + link_json(l@));
}

/// Appends the JSON array of the links.
pub fn push_links_json(out: &mut String, links: &[DagLink])
    ensures
        final(out)@ == old(out)@ + links_json(link_views(links@)),
{
    let ghost start = out@;
    out.append("[");
    let n = links.len();
    for i in 0..n
        invariant
            n == links@.len(),
            out@ == start + "["@ + link_items_json(link_views(links@.take(i as int))),
    {
        let ghost prev = link_views(links@.take(i as int));
        let ghost next = link_views(links@.take(i + 1));
        assert(next.drop_last() =~= prev);
        assert(next.last() == links@[i as int]@);
        if i > 0 {
            out.append(",");
        }
        push_link_json(out, &links[i]);
        if i == 0 {
            assert(next.len() == 1);
            assert(out@ =~= start + "["@ + link_items_json(next));
        } else {
            assert(out@ =~= start + "["@ + link_items_json(next));
        }
    }
    assert(links@.take(n as int) =~= links@);
    out.append("]");
    assert(out@ =~= start + links_json(link_views(links@)));
}

/// The JSON text of a node's content, as `serde_json::to_string` writes it.
pub fn node_content_text(name: &str, node_type: &str, size: u64, links: &[DagLink]) -> (json: String)
    ensures
        json@ == node_content_json(name@, node_type@, size, link_views(links@)),
{
    let mut out = String::new();
    out.append("{\"name\":");
    push_json_string(&mut out, name);
    out.append(",\"node_type\":");
    push_json_string(&mut out, node_type);
    out.append(",\"size\":");
    push_decimal(&mut out, size);
    out.append(",\"links\":");
    push_links_json(&mut out, links);
    out.append("}");
    assert(out@ =~= node_content_json(name@, node_type@, size, link_views(links@)));
    out
}

/// Compute a DAG node's CID by serializing its content to JSON and hashing it.
fn compute_node_cid(name: &str, node_type: &str, size: u64, links: &[DagLink]) -> (cid: String)
    ensures
        cid@ == node_cid(name@, node_type@, size, link_views(links@)),
{
    let json = node_content_text(name, node_type, size, links);
    cid_from_dag_json(json.as_str().as_bytes())
}

// ── The folder being published ──

/// A folder, as read from the file system: every entry with its name (the last
/// component of its path, as text), that name as the file system holds it
/// (its bytes, by which entries are ordered), its path as given, and what
/// reading it gave.
pub enum FsEntry {
    /// A regular file and its bytes, or the error that reading them gave.
    File { name: String, raw_name: Vec<u8>, path: String, contents: Result<Vec<u8>, String> },
    /// A directory and its entries (in the order the system listed them), or
    /// the error that listing it gave.
    Dir { name: String, raw_name: Vec<u8>, path: String, listing: Result<Vec<FsEntry>, String> },
    /// Something that is neither a regular file nor a directory.
    Other { name: String, raw_name: Vec<u8>, path: String },
    /// An entry of a listing that the system could not read.
    Broken { error: String },
}

/// The name of an entry (nothing for a broken one).
pub open spec fn entry_name(e: FsEntry) -> Seq<char> {
    match e {
        FsEntry::File { name, .. } => name@,
        FsEntry::Dir { name, .. } => name@,
        FsEntry::Other { name, .. } => name@,
        FsEntry::Broken { .. } => Seq::empty(),
    }
}

/// The bytes by which entries are ordered: the name as the file system holds it.
pub open spec fn name_key(e: FsEntry) -> Seq<u8> {
    match e {
        FsEntry::File { raw_name, .. } => raw_name@,
        FsEntry::Dir { raw_name, .. } => raw_name@,
        FsEntry::Other { raw_name, .. } => raw_name@,
        FsEntry::Broken { .. } => Seq::empty(),
    }
}

/// The sort keys of a listing.
pub open spec fn name_keys(entries: Seq<FsEntry>) -> Seq<Seq<u8>> {
    entries.map_values(|e: FsEntry| name_key(e))
}

/// Indices of the entries of a listing that could be read, in listing order.
pub open spec fn readable_indices(entries: Seq<FsEntry>) -> Seq<int>
    decreases entries.len(),
{
    if entries.len() == 0 {
        Seq::empty()
    } else if entries.last() is Broken {
        readable_indices(entries.drop_last())
    } else {
        readable_indices(entries.drop_last()).push(entries.len() - 1)
    }
}

/// The order in which the children of a directory are visited: the readable
/// entries, sorted by name (so the DAG is deterministic).
pub open spec fn visit_order(entries: Seq<FsEntry>) -> Seq<int> {
    crate::content::order::sort_indices(readable_indices(entries), name_keys(entries))
}

proof fn lemma_readable_indices(entries: Seq<FsEntry>)
    ensures
        readable_indices(entries).len() <= entries.len(),
        forall|t: int|
            0 <= t < readable_indices(entries).len() ==> 0 <= #[trigger] readable_indices(entries)[t]
                < entries.len() && !(entries[readable_indices(entries)[t]] is Broken),
        readable_indices(entries).no_duplicates(),
        forall|a: int, b: int|
            0 <= a < b < readable_indices(entries).len() ==> #[trigger] readable_indices(entries)[a]
                < #[trigger] readable_indices(entries)[b],
    decreases entries.len(),
{
    if entries.len() > 0 {
        lemma_readable_indices(entries.drop_last());
    }
}

/// Visiting a listing visits each readable entry once, in name order.
pub proof fn lemma_visit_order(entries: Seq<FsEntry>)
    ensures
        visit_order(entries).len() == readable_indices(entries).len(),
        visit_order(entries).len() <= entries.len(),
        visit_order(entries).to_multiset() == readable_indices(entries).to_multiset(),
        crate::content::order::sorted_by(visit_order(entries), name_keys(entries)),
        forall|t: int|
            0 <= t < visit_order(entries).len() ==> 0 <= #[trigger] visit_order(entries)[t]
                < entries.len() && !(entries[visit_order(entries)[t]] is Broken),
{
    broadcast use vstd::seq_lib::group_to_multiset_ensures;

    lemma_readable_indices(entries);
    crate::content::order::lemma_sort_indices(readable_indices(entries), name_keys(entries));
    let o = visit_order(entries);
    let r = readable_indices(entries);
    assert forall|t: int| 0 <= t < o.len() implies 0 <= #[trigger] o[t] < entries.len()
        && !(entries[o[t]] is Broken) by {
        assert(o.to_multiset().count(o[t]) > 0);
        assert(r.contains(o[t]));
    }
}

/// Bound for the second component of the termination measure.
pub open spec fn fold_limit(e: FsEntry) -> int {
    match e {
        FsEntry::Dir { listing: Ok(v), .. } => v@.len() + 1int,
        _ => 0,
    }
}

/// What building the subtree at an entry appends: its own node, the nodes
/// below it (children before their parent), and the chunks of its files.
pub struct Built {
    pub node: NodeView,
    pub nodes: Seq<NodeView>,
    pub chunks: Seq<ChunkView>,
}

/// The state of a directory walk after some of its children.
pub struct DirWalk {
    pub links: Seq<LinkView>,
    pub total: int,
    pub nodes: Seq<NodeView>,
    pub chunks: Seq<ChunkView>,
}

/// The name of the `i`-th chunk link of a file: `chunk0`, `chunk1`, ...
pub open spec fn chunk_link_name(i: int) -> Seq<char> {
    "chunk"@ + decimal(i as nat)
}

/// The links of a file node: one per piece of its bytes, in order.
pub open spec fn file_links(data: Seq<u8>) -> Seq<LinkView> {
    Seq::new(
        pieces(data).len(),
        |i: int|
            LinkView {
                name: chunk_link_name(i),
                cid: cid_v1_sha256_text(RAW, pieces(data)[i]),
                size: pieces(data)[i].len() as u64,
            },
    )
}

/// The chunks of a file: one per piece of its bytes, in order.
pub open spec fn file_chunks(data: Seq<u8>) -> Seq<ChunkView> {
    Seq::new(
        pieces(data).len(),
        |i: int|
            ChunkView {
                cid: cid_v1_sha256_text(RAW, pieces(data)[i]),
                data: pieces(data)[i],
                size: pieces(data)[i].len() as u64,
            },
    )
}

/// The node of a file called `name` that holds `data`.
pub open spec fn file_node(name: Seq<char>, data: Seq<u8>) -> NodeView {
    let links = file_links(data);
    let size = data.len() as u64;
    NodeView { cid: node_cid(name, "file"@, size, links), name, node_type: "file"@, size, links }
}

/// The node of a directory called `name` with the given links and size.
pub open spec fn dir_node(name: Seq<char>, links: Seq<LinkView>, size: u64) -> NodeView {
    NodeView {
        cid: node_cid(name, "directory"@, size, links),
        name,
        node_type: "directory"@,
        size,
        links,
    }
}

/// The link that a directory holds to a child node.
pub open spec fn link_to(n: NodeView) -> LinkView {
    LinkView { name: n.name, cid: n.cid, size: n.size }
}

/// The message for a file that could not be read.
pub open spec fn file_error(path: Seq<char>, err: Seq<char>) -> Seq<char> {
    "Failed to read file "@ + path + ": "@ + err
}

/// The message for a directory that could not be listed.
pub open spec fn dir_error(path: Seq<char>, err: Seq<char>) -> Seq<char> {
    "Failed to read dir "@ + path + ": "@ + err
}

/// The message for an entry that is neither a file nor a directory.
pub open spec fn other_error(path: Seq<char>) -> Seq<char> {
    path + " is not a file or directory"@
}

/// Building the subtree at `e`: its node and what it appends, or the first error.
pub open spec fn build_spec(e: FsEntry) -> Result<Built, Seq<char>>
    decreases e, fold_limit(e),
{
    match e {
        FsEntry::File { name, path, contents, .. } => match contents {
            Ok(data) => Ok(
                Built { node: file_node(name@, data@), nodes: Seq::empty(), chunks: file_chunks(data@) },
            ),
            Err(err) => Err(file_error(path@, err@)),
        },
        FsEntry::Dir { name, path, listing, .. } => match listing {
            Ok(v) => {
                proof {
                    lemma_visit_order(v@);
                }
                match walk_spec(e, visit_order(v@).len() as int) {
                    Ok(w) => Ok(
                        Built {
                            node: dir_node(name@, w.links, w.total as u64),
                            nodes: w.nodes,
                            chunks: w.chunks,
                        },
                    ),
                    Err(msg) => Err(msg),
                }
            },
            Err(err) => Err(dir_error(path@, err@)),
        },
        FsEntry::Other { path, .. } => Err(other_error(path@)),
        FsEntry::Broken { error } => Err(error@),
    }
}

/// Walking the first `k` children (in visit order) of the directory `parent`.
pub open spec fn walk_spec(parent: FsEntry, k: int) -> Result<DirWalk, Seq<char>>
    decreases parent, k,
{
    if k <= 0 {
        Ok(DirWalk { links: Seq::empty(), total: 0, nodes: Seq::empty(), chunks: Seq::empty() })
    } else {
        match parent {
            FsEntry::Dir { listing: Ok(v), .. } => {
                let order = visit_order(v@);
                if k > order.len() {
                    Err(Seq::empty())
                } else {
                    match walk_spec(parent, k - 1) {
                        Ok(w) => {
                            let j = order[k - 1];
                            if 0 <= j < v@.len() {
                                match build_spec(v@[j]) {
                                    Ok(b) => Ok(
                                        DirWalk {
                                            links: w.links.push(link_to(b.node)),
                                            total: w.total + b.node.size,
                                            nodes: w.nodes + b.nodes.push(b.node),
                                            chunks: w.chunks + b.chunks,
                                        },
                                    ),
                                    Err(msg) => Err(msg),
                                }
                            } else {
                                Err(Seq::empty())
                            }
                        },
                        Err(msg) => Err(msg),
                    }
                }
            },
            _ => Err(Seq::empty()),
        }
    }
}

/// How many bytes the readable files under `e` hold, counted in visit order.
pub open spec fn tree_bytes(e: FsEntry) -> nat
    decreases e, fold_limit(e),
{
    match e {
        FsEntry::File { contents: Ok(data), .. } => data@.len(),
        FsEntry::Dir { listing: Ok(v), .. } => {
            proof {
                lemma_visit_order(v@);
            }
            bytes_walk(e, visit_order(v@).len() as int)
        },
        _ => 0,
    }
}

/// The bytes under the first `k` children (in visit order) of `parent`.
pub open spec fn bytes_walk(parent: FsEntry, k: int) -> nat
    decreases parent, k,
{
    if k <= 0 {
        0
    } else {
        match parent {
            FsEntry::Dir { listing: Ok(v), .. } => {
                let order = visit_order(v@);
                if k > order.len() {
                    0
                } else {
                    let j = order[k - 1];
                    bytes_walk(parent, k - 1) + if 0 <= j < v@.len() {
                        tree_bytes(v@[j])
                    } else {
                        0
                    }
                }
            },
            _ => 0,
        }
    }
}

proof fn lemma_bytes_walk_monotone(parent: FsEntry, k: int, m: int)
    requires
        0 <= k <= m,
        parent matches FsEntry::Dir { listing: Ok(v), .. } && m <= visit_order(v@).len(),
    ensures
        bytes_walk(parent, k) <= bytes_walk(parent, m),
    decreases m - k,
{
    if k < m {
        lemma_bytes_walk_monotone(parent, k, m - 1);
    }
}

proof fn lemma_walk_error_sticks(parent: FsEntry, k: int, m: int)
    requires
        0 <= k <= m,
        parent matches FsEntry::Dir { listing: Ok(v), .. } && m <= visit_order(v@).len(),
        walk_spec(parent, k) is Err,
    ensures
        walk_spec(parent, m) == walk_spec(parent, k),
    decreases m - k,
{
    if k < m {
        lemma_walk_error_sticks(parent, k, m - 1);
    }
}

/// Build a DAG node for a single file, from its bytes.
/// Chunks the file, creates a CID for each chunk, then creates a file node
/// whose links point to all its chunks (in order).
fn build_file_node(name: &String, data: &Vec<u8>, all_chunks: &mut Vec<StoredChunk>) -> (node: DagNode)
    ensures
        node@ == file_node(name@, data@),
        chunk_views(final(all_chunks)@) == chunk_views(old(all_chunks)@) + file_chunks(data@),
{
    // Step 1: chunk the file
    let raw_chunks = chunk_bytes(data.as_slice());
    let dlen = data.len();
    let ghost ps = pieces(data@);
    let ghost start = chunk_views(all_chunks@);

    // Step 2: for each chunk, compute its CID and save it
    let mut links: Vec<DagLink> = Vec::new();
    let mut total_size: u64 = 0;
    let n = raw_chunks.len();
    proof {
        crate::content::chunker::lemma_pieces_reassemble(data@);
    }
    let mut idx: usize = 0;
    for chunk in it: raw_chunks
        invariant
            it.seq() == raw_chunks@,
            idx == it.index(),
            n == raw_chunks@.len(),
            n == ps.len(),
            ps == pieces(data@),
            forall|k: int| 0 <= k < n ==> chunk_of(#[trigger] raw_chunks@[k], ps[k]),
            link_views(links@) == file_links(data@).take(it.index() as int),
            chunk_views(all_chunks@) == start + file_chunks(data@).take(it.index() as int),
            total_size as int == ps.take(it.index() as int).flatten().len(),
            ps.flatten() == data@,
            dlen == data@.len(),
    {
        let ghost i = it.index() as int;
        assert(chunk_of(raw_chunks@[i], ps[i]));
        let chunk_cid = cid_from_bytes(chunk.data.as_slice());
        let size = chunk.size as u64;
        let mut link_name = "chunk".to_string();
        push_decimal(&mut link_name, idx as u64);
        assert(link_name@ == chunk_link_name(i));
        let link = DagLink { name: link_name, cid: chunk_cid.clone(), size };
        assert(link@ == file_links(data@)[i]);
        let ghost old_links = links@;
        let ghost old_chunks = all_chunks@;
        links.push(link);
        all_chunks.push(StoredChunk { cid: chunk_cid, data: chunk.data, size });
        proof {
            assert(ps.take(i + 1) =~= ps.take(i).push(ps[i]));
            ps.take(i).lemma_flatten_push(ps[i]);
            vstd::seq_lib::lemma_flatten_concat(ps.take(i + 1), ps.skip(i + 1));
            assert(ps.take(i + 1) + ps.skip(i + 1) =~= ps);
        }
        assert(ps.take(i + 1).flatten().len() <= data@.len());
        assert(ps.take(i + 1).flatten().len() == total_size + size);
        assert(total_size + size <= u64::MAX);
        total_size = total_size + size;
        assert(links@ == old_links.push(links@.last()));
        assert(link_views(links@) =~= link_views(old_links).push(file_links(data@)[i]));
        assert(link_views(links@) =~= file_links(data@).take(i + 1));
        assert(all_chunks@ == old_chunks.push(all_chunks@.last()));
        assert(all_chunks@.last()@ == file_chunks(data@)[i]);
        assert(chunk_views(all_chunks@) =~= chunk_views(old_chunks).push(file_chunks(data@)[i]));
        assert(chunk_views(all_chunks@) =~= start + file_chunks(data@).take(i + 1));
        idx = idx + 1;
    }
    assert(file_links(data@).take(n as int) =~= file_links(data@));
    assert(file_chunks(data@).take(n as int) =~= file_chunks(data@));
    assert(ps.take(n as int) =~= ps);

    // Step 3: compute this file node's own CID
    // (hash of: name + type + size + links)
    let node_type = "file".to_string();
    let node_cid = compute_node_cid(name.as_str(), node_type.as_str(), total_size, links.as_slice());
    DagNode { cid: node_cid, name: name.clone(), node_type, size: total_size, links }
}

/// The visit order of a listing, computed.
fn listing_order(entries: &Vec<FsEntry>) -> (order: Vec<usize>)
    ensures
        crate::content::order::int_seq(order@) == visit_order(entries@),
        order@.len() == visit_order(entries@).len(),
{
    let mut keys: Vec<Vec<u8>> = Vec::new();
    let mut readable: Vec<usize> = Vec::new();
    let n = entries.len();
    for t in 0..n
        invariant
            n == entries@.len(),
            crate::content::order::key_seqs(keys@) == name_keys(entries@.take(t as int)),
            crate::content::order::int_seq(readable@) == readable_indices(entries@.take(t as int)),
            forall|u: int| 0 <= u < readable@.len() ==> #[trigger] readable@[u] < t,
    {
        let ghost before = entries@.take(t as int);
        let ghost after = entries@.take(t + 1);
        assert(after.drop_last() =~= before);
        let key = match &entries[t] {
            FsEntry::File { raw_name, .. } => vstd::slice::slice_to_vec(raw_name.as_slice()),
            FsEntry::Dir { raw_name, .. } => vstd::slice::slice_to_vec(raw_name.as_slice()),
            FsEntry::Other { raw_name, .. } => vstd::slice::slice_to_vec(raw_name.as_slice()),
            FsEntry::Broken { .. } => Vec::new(),
        };
        assert(key@ == name_key(entries@[t as int]));
        let ghost old_keys = keys@;
        let ghost old_readable = readable@;
        keys.push(key);
        assert(keys@ == old_keys.push(key));
        assert(after =~= before.push(entries@[t as int]));
        assert(name_keys(after) =~= name_keys(before).push(name_key(entries@[t as int])));
        assert(crate::content::order::key_seqs(keys@) =~= crate::content::order::key_seqs(old_keys).push(key@));
        assert(crate::content::order::key_seqs(keys@) =~= name_keys(after));
        if !matches!(entries[t], FsEntry::Broken { .. }) {
            readable.push(t);
        }
        assert(crate::content::order::int_seq(readable@) =~= readable_indices(after));
    }
    assert(entries@.take(n as int) =~= entries@);
    proof {
        lemma_readable_indices(entries@);
    }
    let order = crate::content::order::sort_indices_by_keys(&keys, &readable);
    proof {
        lemma_visit_order(entries@);
    }
    order
}

/// What building the subtree at `entry` promises: on success its node (whose
/// size is the number of bytes below it) and exactly the nodes and chunks that
/// the specification appends; on failure the first error.
pub open spec fn build_outcome(
    entry: FsEntry,
    result: Result<DagNode, String>,
    old_nodes: Seq<DagNode>,
    new_nodes: Seq<DagNode>,
    old_chunks: Seq<StoredChunk>,
    new_chunks: Seq<StoredChunk>,
) -> bool {
    match build_spec(entry) {
        Ok(b) => {
            &&& result is Ok
            &&& result->Ok_0@ == b.node
            &&& result->Ok_0.size == tree_bytes(entry)
            &&& node_views(new_nodes) == node_views(old_nodes) + b.nodes
            &&& chunk_views(new_chunks) == chunk_views(old_chunks) + b.chunks
        },
        Err(msg) => result is Err && result->Err_0@ == msg,
    }
}

/// Recursively build a DAG node for a file or directory.
fn build_node(entry: &FsEntry, all_chunks: &mut Vec<StoredChunk>, all_nodes: &mut Vec<DagNode>) -> (result: Result<DagNode, String>)
    requires
        tree_bytes(*entry) <= u64::MAX,
    ensures
        build_outcome(*entry, result, old(all_nodes)@, final(all_nodes)@, old(all_chunks)@, final(all_chunks)@),
    decreases *entry, 1int,
{
    match entry {
        FsEntry::File { name, path, contents, .. } => match contents {
            Ok(data) => {
                let node = build_file_node(name, data, all_chunks);
                Ok(node)
            },
            Err(err) => {
                let mut msg = "Failed to read file ".to_string();
                msg.append(path.as_str());
                msg.append(": ");
                msg.append(err.as_str());
                assert(msg@ =~= file_error(path@, err@));
                Err(msg)
            },
        },
        FsEntry::Dir { name, path, listing, .. } => match listing {
            Ok(entries) => build_dir_node(entry, name, entries, all_chunks, all_nodes),
            Err(err) => {
                let mut msg = "Failed to read dir ".to_string();
                msg.append(path.as_str());
                msg.append(": ");
                msg.append(err.as_str());
                assert(msg@ =~= dir_error(path@, err@));
                Err(msg)
            },
        },
        FsEntry::Other { path, .. } => {
            let mut msg = path.clone();
            msg.append(" is not a file or directory");
            Err(msg)
        },
        FsEntry::Broken { error } => Err(error.clone()),
    }
}

/// Build a DAG node for a directory.
/// Recursively processes all children, then creates a directory node
/// whose links point to all child nodes.
fn build_dir_node(
    entry: &FsEntry,
    name: &String,
    entries: &Vec<FsEntry>,
    all_chunks: &mut Vec<StoredChunk>,
    all_nodes: &mut Vec<DagNode>,
) -> (result: Result<DagNode, String>)
    requires
        *entry matches FsEntry::Dir { name: n, listing: Ok(v), .. } && n == *name && v == *entries,
        tree_bytes(*entry) <= u64::MAX,
    ensures
        build_outcome(*entry, result, old(all_nodes)@, final(all_nodes)@, old(all_chunks)@, final(all_chunks)@),
    decreases *entry, 0int,
{
    // Entries that could be read, sorted by name (so the DAG is deterministic)
    let order = listing_order(entries);
    let n = order.len();
    let ghost vo = visit_order(entries@);
    let ghost start_nodes = node_views(all_nodes@);
    let ghost start_chunks = chunk_views(all_chunks@);
    proof {
        lemma_visit_order(entries@);
        assert(tree_bytes(*entry) == bytes_walk(*entry, n as int));
    }

    // Process each child
    let mut links: Vec<DagLink> = Vec::new();
    let mut total_size: u64 = 0;
    for k in 0..n
        invariant
            n == order@.len(),
            n == vo.len(),
            vo == visit_order(entries@),
            crate::content::order::int_seq(order@) == vo,
            forall|t: int| 0 <= t < vo.len() ==> 0 <= #[trigger] vo[t] < entries@.len(),
            *entry matches FsEntry::Dir { name: nm, listing: Ok(v), .. } && nm == *name && v == *entries,
            tree_bytes(*entry) == bytes_walk(*entry, n as int),
            tree_bytes(*entry) <= u64::MAX,
            walk_spec(*entry, k as int) is Ok,
            link_views(links@) == walk_spec(*entry, k as int)->Ok_0.links,
            total_size == walk_spec(*entry, k as int)->Ok_0.total,
            total_size == bytes_walk(*entry, k as int),
            node_views(all_nodes@) == start_nodes + walk_spec(*entry, k as int)->Ok_0.nodes,
            chunk_views(all_chunks@) == start_chunks + walk_spec(*entry, k as int)->Ok_0.chunks,
    {
        let j = order[k];
        assert(j as int == vo[k as int]);
        let child = &entries[j];
        proof {
            lemma_bytes_walk_monotone(*entry, k + 1, n as int);
            assert(bytes_walk(*entry, k + 1) == bytes_walk(*entry, k as int) + tree_bytes(*child));
        }
        let ghost w = walk_spec(*entry, k as int)->Ok_0;
        let ghost nodes_before = all_nodes@;
        let ghost chunks_before = all_chunks@;
        // Recursively build DAG for this child
        let child_node = match build_node(child, all_chunks, all_nodes) {
            Ok(c) => c,
            Err(msg) => {
                proof {
                    lemma_walk_error_sticks(*entry, k + 1, n as int);
                }
                return Err(msg);
            },
        };
        let ghost b = build_spec(*child)->Ok_0;
        let ghost old_links = links@;
        links.push(DagLink { name: child_node.name.clone(), cid: child_node.cid.clone(), size: child_node.size });
        assert(link_views(links@) =~= link_views(old_links).push(link_to(b.node)));
        total_size = total_size + child_node.size;
        // Save the child node (not the root — that gets added in build_dag)
        let ghost mid_nodes = all_nodes@;
        all_nodes.push(child_node);
        assert(node_views(all_nodes@) =~= node_views(mid_nodes).push(b.node));
        assert(node_views(all_nodes@) =~= start_nodes + walk_spec(*entry, k + 1)->Ok_0.nodes);
    }

    // Compute this directory node's CID
    let node_type = "directory".to_string();
    let node_cid = compute_node_cid(name.as_str(), node_type.as_str(), total_size, links.as_slice());
    Ok(DagNode { cid: node_cid, name: name.clone(), node_type, size: total_size, links })
}

/// How many bytes the readable files under `entry` hold, when that fits in a `u64`.
pub fn tree_bytes_checked(entry: &FsEntry) -> (n: Option<u64>)
    ensures
        tree_bytes(*entry) <= u64::MAX ==> n == Some(tree_bytes(*entry) as u64),
        tree_bytes(*entry) > u64::MAX ==> n is None,
    decreases *entry, 1int,
{
    match entry {
        FsEntry::File { contents: Ok(data), .. } => Some(data.len() as u64),
        FsEntry::Dir { listing: Ok(entries), .. } => dir_bytes_checked(entry, entries),
        _ => Some(0),
    }
}

fn dir_bytes_checked(entry: &FsEntry, entries: &Vec<FsEntry>) -> (n: Option<u64>)
    requires
        *entry matches FsEntry::Dir { listing: Ok(v), .. } && v == *entries,
    ensures
        tree_bytes(*entry) <= u64::MAX ==> n == Some(tree_bytes(*entry) as u64),
        tree_bytes(*entry) > u64::MAX ==> n is None,
    decreases *entry, 0int,
{
    let order = listing_order(entries);
    let n = order.len();
    let ghost vo = visit_order(entries@);
    proof {
        lemma_visit_order(entries@);
        assert(tree_bytes(*entry) == bytes_walk(*entry, n as int));
    }
    let mut total: u64 = 0;
    for k in 0..n
        invariant
            n == order@.len(),
            n == vo.len(),
            vo == visit_order(entries@),
            crate::content::order::int_seq(order@) == vo,
            forall|t: int| 0 <= t < vo.len() ==> 0 <= #[trigger] vo[t] < entries@.len(),
            *entry matches FsEntry::Dir { listing: Ok(v), .. } && v == *entries,
            tree_bytes(*entry) == bytes_walk(*entry, n as int),
            total == bytes_walk(*entry, k as int),
    {
        let j = order[k];
        assert(j as int == vo[k as int]);
        let child = &entries[j];
        proof {
            lemma_bytes_walk_monotone(*entry, k + 1, n as int);
            assert(bytes_walk(*entry, k + 1) == bytes_walk(*entry, k as int) + tree_bytes(*child));
        }
        match tree_bytes_checked(child) {
            Some(c) => match total.checked_add(c) {
                Some(t) => {
                    total = t;
                },
                None => {
                    return None;
                },
            },
            None => {
                return None;
            },
        }
    }
    Some(total)
}

/// The value of a [`DagBuildResult`].
pub struct DagView {
    pub root_cid: Seq<char>,
    pub nodes: Seq<NodeView>,
    pub chunks: Seq<ChunkView>,
    pub total_size: u64,
    pub file_count: u32,
    pub chunk_count: u32,
}

impl View for DagBuildResult {
    type V = DagView;

    open spec fn view(&self) -> DagView {
        DagView {
            root_cid: self.root_cid@,
            nodes: node_views(self.nodes@),
            chunks: chunk_views(self.chunks@),
            total_size: self.total_size,
            file_count: self.file_count,
            chunk_count: self.chunk_count,
        }
    }
}

/// How many of the nodes are file nodes.
pub open spec fn count_files(nodes: Seq<NodeView>) -> nat
    decreases nodes.len(),
{
    if nodes.len() == 0 {
        0
    } else {
        count_files(nodes.drop_last()) + if nodes.last().node_type == "file"@ {
            1nat
        } else {
            0nat
        }
    }
}

/// The message for a folder that is not a directory.
pub open spec fn not_a_directory(path: Seq<char>) -> Seq<char> {
    path + " is not a directory"@
}

/// Building the DAG of a folder: all nodes (the root last), all chunks, the
/// root CID, the total size, and how many files and chunks there are; or the
/// first error.
pub open spec fn dag_spec(root: FsEntry) -> Result<DagView, Seq<char>> {
    match root {
        FsEntry::Dir { .. } => match build_spec(root) {
            Ok(b) => Ok(
                DagView {
                    root_cid: b.node.cid,
                    nodes: b.nodes.push(b.node),
                    chunks: b.chunks,
                    total_size: b.node.size,
                    file_count: count_files(b.nodes) as u32,
                    chunk_count: b.chunks.len() as u32,
                },
            ),
            Err(msg) => Err(msg),
        },
        FsEntry::File { path, .. } => Err(not_a_directory(path@)),
        FsEntry::Other { path, .. } => Err(not_a_directory(path@)),
        FsEntry::Broken { error } => Err(error@),
    }
}

/// The value of the outcome of [`build_dag`].
pub open spec fn dag_result_view(r: Result<DagBuildResult, String>) -> Result<DagView, Seq<char>> {
    match r {
        Ok(d) => Ok(d@),
        Err(e) => Err(e@),
    }
}

fn count_file_nodes(nodes: &Vec<DagNode>) -> (count: usize)
    ensures
        count == count_files(node_views(nodes@)),
{
    let file = "file".to_string();
    let mut count: usize = 0;
    let n = nodes.len();
    for i in 0..n
        invariant
            n == nodes@.len(),
            file@ == "file"@,
            count == count_files(node_views(nodes@.take(i as int))),
            count <= i,
    {
        assert(node_views(nodes@.take(i + 1)).drop_last() =~= node_views(nodes@.take(i as int)));
        if nodes[i].node_type == file {
            count = count + 1;
        }
    }
    assert(nodes@.take(n as int) =~= nodes@);
    count
}

/// Build a Merkle DAG from a folder.
/// Returns all nodes, all chunks, and the root CID.
///
/// The folder's bytes must add up to at most `u64::MAX`.
pub fn build_dag(root: &FsEntry) -> (result: Result<DagBuildResult, String>)
    requires
        tree_bytes(*root) <= u64::MAX,
    ensures
        dag_result_view(result) == dag_spec(*root),
        result is Ok ==> result->Ok_0.root_cid@.len() > 0,
        result is Ok ==> result->Ok_0.file_count == crate::content::counts::files_in(*root) as u32,
{
    match root {
        FsEntry::Dir { .. } => {},
        FsEntry::File { path, .. } => {
            let mut msg = path.clone();
            msg.append(" is not a directory");
            return Err(msg);
        },
        FsEntry::Other { path, .. } => {
            let mut msg = path.clone();
            msg.append(" is not a directory");
            return Err(msg);
        },
        FsEntry::Broken { error } => {
            return Err(error.clone());
        },
    }

    // These collect all chunks and nodes as we recurse through the folder
    let mut all_chunks: Vec<StoredChunk> = Vec::new();
    let mut all_nodes: Vec<DagNode> = Vec::new();

    // Recursively build the DAG starting from the root folder
    let root_node = match build_node(root, &mut all_chunks, &mut all_nodes) {
        Ok(node) => node,
        Err(msg) => {
            return Err(msg);
        },
    };
    assert(node_views(all_nodes@) =~= build_spec(*root)->Ok_0.nodes);
    assert(chunk_views(all_chunks@) =~= build_spec(*root)->Ok_0.chunks);

    let root_cid = root_node.cid.clone();
    let total_size = root_node.size;
    let file_count = count_file_nodes(&all_nodes) as u32;
    let chunk_count = all_chunks.len() as u32;

    // Add the root node itself
    let ghost before = all_nodes@;
    all_nodes.push(root_node);
    assert(node_views(all_nodes@) =~= node_views(before).push(build_spec(*root)->Ok_0.node));

    let result = DagBuildResult {
        root_cid,
        nodes: all_nodes,
        chunks: all_chunks,
        total_size,
        file_count,
        chunk_count,
    };
    assert(result@ == dag_spec(*root)->Ok_0);
    assert(result.root_cid@[0] == 'b');
    proof {
        crate::content::counts::lemma_dag_counts_files(*root);
    }
    Ok(result)
}

// ── Laws ──

/// The entries of a listing in the order they are visited.
pub open spec fn visited(v: Seq<FsEntry>) -> Seq<FsEntry> {
    visit_order(v).map_values(|i: int| v[i])
}

/// The readable entries of a listing have distinct names.
pub open spec fn distinct_names(v: Seq<FsEntry>) -> bool {
    forall|i: int, j: int|
        0 <= i < v.len() && 0 <= j < v.len() && i != j && !(v[i] is Broken) && !(v[j] is Broken)
            ==> name_key(#[trigger] v[i]) != name_key(#[trigger] v[j])
}

pub(crate) proof fn lemma_visited_members(v: Seq<FsEntry>)
    ensures
        forall|x: FsEntry| #[trigger] visited(v).contains(x) <==> (v.contains(x) && !(x is Broken)),
        forall|p: int, q: int|
            0 <= p < q < visited(v).len() ==> !crate::content::order::bytes_lt(
                name_key(#[trigger] visited(v)[q]),
                name_key(#[trigger] visited(v)[p]),
            ),
        visited(v).len() == visit_order(v).len(),
{
    broadcast use vstd::seq_lib::group_to_multiset_ensures;

    lemma_visit_order(v);
    lemma_readable_indices(v);
    let o = visit_order(v);
    let r = readable_indices(v);
    assert forall|x: FsEntry| #[trigger] visited(v).contains(x) <== (v.contains(x) && !(x is Broken)) by {
        if v.contains(x) && !(x is Broken) {
            let j = choose|j: int| 0 <= j < v.len() && v[j] == x;
            lemma_readable_contains(v, j);
            assert(r.to_multiset().count(j) > 0);
            assert(o.to_multiset().count(j) > 0);
            assert(o.contains(j));
            let t = choose|t: int| 0 <= t < o.len() && o[t] == j;
            assert(visited(v)[t] == x);
        }
    }
    assert forall|p: int, q: int|
        0 <= p < q < visited(v).len() implies !crate::content::order::bytes_lt(
        name_key(#[trigger] visited(v)[q]),
        name_key(#[trigger] visited(v)[p]),
    ) by {
        assert(name_keys(v)[o[q]] == name_key(v[o[q]]));
        assert(name_keys(v)[o[p]] == name_key(v[o[p]]));
    }
}

proof fn lemma_readable_contains(v: Seq<FsEntry>, j: int)
    requires
        0 <= j < v.len(),
        !(v[j] is Broken),
    ensures
        readable_indices(v).contains(j),
    decreases v.len(),
{
    if j < v.len() - 1 {
        lemma_readable_contains(v.drop_last(), j);
        let r = readable_indices(v.drop_last());
        let t = choose|t: int| 0 <= t < r.len() && r[t] == j;
        if !(v.last() is Broken) {
            assert(readable_indices(v)[t] == j);
        }
    } else {
        assert(readable_indices(v).last() == j);
    }
}

proof fn lemma_strictly_sorted_unique(s: Seq<FsEntry>, t: Seq<FsEntry>)
    requires
        forall|x: FsEntry| s.contains(x) <==> t.contains(x),
        forall|p: int, q: int|
            0 <= p < q < s.len() ==> crate::content::order::bytes_lt(name_key(#[trigger] s[p]), name_key(#[trigger] s[q])),
        forall|p: int, q: int|
            0 <= p < q < t.len() ==> crate::content::order::bytes_lt(name_key(#[trigger] t[p]), name_key(#[trigger] t[q])),
    ensures
        s == t,
    decreases s.len() + t.len(),
{
    if s.len() == 0 {
        if t.len() > 0 {
            assert(t.contains(t[0]));
        }
        assert(s =~= t);
    } else if t.len() == 0 {
        assert(s.contains(s[0]));
    } else {
        assert(s.contains(s[0]));
        assert(t.contains(t[0]));
        let j = choose|j: int| 0 <= j < t.len() && t[j] == s[0];
        let i = choose|i: int| 0 <= i < s.len() && s[i] == t[0];
        if i > 0 {
            crate::content::order::lemma_bytes_lt_order(name_key(s[0]), name_key(s[i]), name_key(s[i]));
        }
        if j > 0 {
            crate::content::order::lemma_bytes_lt_order(name_key(t[0]), name_key(t[j]), name_key(t[j]));
        }
        if i > 0 && j > 0 {
            crate::content::order::lemma_bytes_lt_order(name_key(s[0]), name_key(s[i]), name_key(t[j]));
        }
        assert(s[0] == t[0]);
        let s1 = s.drop_first();
        let t1 = t.drop_first();
        assert forall|x: FsEntry| s1.contains(x) <==> t1.contains(x) by {
            if s1.contains(x) {
                let p = choose|p: int| 0 <= p < s1.len() && s1[p] == x;
                assert(s.contains(x));
                let q = choose|q: int| 0 <= q < t.len() && t[q] == x;
                if q == 0 {
                    crate::content::order::lemma_bytes_lt_order(name_key(s[0]), name_key(s[p + 1]), name_key(s[0]));
                }
                assert(t1[q - 1] == x);
            }
            if t1.contains(x) {
                let p = choose|p: int| 0 <= p < t1.len() && t1[p] == x;
                assert(t.contains(x));
                let q = choose|q: int| 0 <= q < s.len() && s[q] == x;
                if q == 0 {
                    crate::content::order::lemma_bytes_lt_order(name_key(t[0]), name_key(t[p + 1]), name_key(t[0]));
                }
                assert(s1[q - 1] == x);
            }
        }
        lemma_strictly_sorted_unique(s1, t1);
        assert(s =~= seq![s[0]] + s1);
        assert(t =~= seq![t[0]] + t1);
    }
}

pub(crate) proof fn lemma_visited_strict(v: Seq<FsEntry>)
    requires
        distinct_names(v),
    ensures
        forall|p: int, q: int|
            0 <= p < q < visited(v).len() ==> crate::content::order::bytes_lt(
                name_key(#[trigger] visited(v)[p]),
                name_key(#[trigger] visited(v)[q]),
            ),
{
    lemma_visited_members(v);
    lemma_visit_order(v);
    let o = visit_order(v);
    assert forall|p: int, q: int|
        0 <= p < q < visited(v).len() implies crate::content::order::bytes_lt(
        name_key(#[trigger] visited(v)[p]),
        name_key(#[trigger] visited(v)[q]),
    ) by {
        let a = visited(v)[p];
        let b = visited(v)[q];
        crate::content::order::lemma_bytes_lt_order(name_key(a), name_key(b), name_key(b));
        if !crate::content::order::bytes_lt(name_key(a), name_key(b)) {
            // then the keys are equal
            assert(name_key(a) == name_key(b));
            // the visit order holds each index once
            assert(o[p] != o[q]) by {
                broadcast use vstd::seq_lib::group_to_multiset_ensures;
                lemma_readable_indices(v);
                lemma_index_once(o, readable_indices(v), p, q);
            }
        }
    }
}

proof fn lemma_index_once(o: Seq<int>, r: Seq<int>, p: int, q: int)
    requires
        o.to_multiset() == r.to_multiset(),
        r.no_duplicates(),
        0 <= p < q < o.len(),
    ensures
        o[p] != o[q],
{
    broadcast use vstd::seq_lib::group_to_multiset_ensures;

    r.lemma_multiset_has_no_duplicates();
    o.lemma_multiset_has_no_duplicates_conv();
}


/// Walks over listings whose visited entries build alike, one by one, agree.
pub(crate) proof fn lemma_walks_agree(a: FsEntry, b: FsEntry, k: int)
    requires
        a matches FsEntry::Dir { listing: Ok(va), .. },
        b matches FsEntry::Dir { listing: Ok(vb), .. },
        visited(a->listing->Ok_0@).len() == visited(b->listing->Ok_0@).len(),
        forall|t: int|
            0 <= t < visited(a->listing->Ok_0@).len() ==> build_spec(#[trigger] visited(a->listing->Ok_0@)[t])
                == build_spec(visited(b->listing->Ok_0@)[t]),
        0 <= k,
    ensures
        walk_spec(a, k) == walk_spec(b, k),
    decreases k,
{
    if k > 0 {
        let va = a->listing->Ok_0@;
        let vb = b->listing->Ok_0@;
        lemma_visit_order(va);
        lemma_visit_order(vb);
        lemma_visited_members(va);
        lemma_visited_members(vb);
        lemma_walks_agree(a, b, k - 1);
        if k <= visit_order(va).len() {
            assert(visited(va)[k - 1] == va[visit_order(va)[k - 1]]);
            assert(visited(vb)[k - 1] == vb[visit_order(vb)[k - 1]]);
        }
    }
}

/// The DAG does not depend on the order in which the system lists a
/// directory: two listings of the same entries (each readable name once) give
/// the same node, the same nodes below it and the same chunks.
pub proof fn lemma_listing_order_irrelevant(a: FsEntry, b: FsEntry)
    requires
        a matches FsEntry::Dir { listing: Ok(va), .. },
        b matches FsEntry::Dir { listing: Ok(vb), .. },
        a->Dir_name == b->Dir_name,
        a->listing->Ok_0@.to_multiset() == b->listing->Ok_0@.to_multiset(),
        distinct_names(a->listing->Ok_0@),
        distinct_names(b->listing->Ok_0@),
    ensures
        build_spec(a) == build_spec(b),
        dag_spec(a) == dag_spec(b),
{
    broadcast use vstd::seq_lib::group_to_multiset_ensures;

    let va = a->listing->Ok_0@;
    let vb = b->listing->Ok_0@;
    lemma_visited_members(va);
    lemma_visited_members(vb);
    lemma_visited_strict(va);
    lemma_visited_strict(vb);
    assert forall|x: FsEntry| visited(va).contains(x) <==> visited(vb).contains(x) by {
        assert(va.contains(x) <==> va.to_multiset().count(x) > 0);
        assert(vb.contains(x) <==> vb.to_multiset().count(x) > 0);
    }
    lemma_strictly_sorted_unique(visited(va), visited(vb));
    lemma_visit_order(va);
    lemma_visit_order(vb);
    lemma_walks_agree(a, b, visit_order(va).len() as int);
}

/// The chunks of a file hold its bytes: in order they concatenate back to
/// the file, and the `i`-th link of the file node names and sizes the `i`-th chunk.
pub proof fn lemma_file_chunks_reassemble(name: Seq<char>, data: Seq<u8>)
    ensures
        file_chunks(data).map_values(|c: ChunkView| c.data).flatten() == data,
        file_node(name, data).links.len() == file_chunks(data).len(),
        forall|i: int|
            0 <= i < file_chunks(data).len() ==> (#[trigger] file_node(name, data).links[i]).cid
                == file_chunks(data)[i].cid && file_node(name, data).links[i].size
                == file_chunks(data)[i].size,
{
    crate::content::chunker::lemma_pieces_reassemble(data);
    assert(file_chunks(data).map_values(|c: ChunkView| c.data) =~= pieces(data));
}

proof fn lemma_sizes(e: FsEntry)
    requires
        tree_bytes(e) <= u64::MAX,
    ensures
        build_spec(e) is Ok ==> build_spec(e)->Ok_0.node.size == tree_bytes(e),
        build_spec(e) is Ok ==> build_spec(e)->Ok_0.node.name == entry_name(e),
    decreases e, fold_limit(e),
{
    match e {
        FsEntry::Dir { listing: Ok(v), .. } => {
            lemma_visit_order(v@);
            let n = visit_order(v@).len() as int;
            lemma_walk_sizes(e, n);
        },
        _ => {},
    }
}

pub(crate) proof fn lemma_walk_sizes(parent: FsEntry, k: int)
    requires
        parent matches FsEntry::Dir { listing: Ok(v), .. } && 0 <= k <= visit_order(v@).len(),
        bytes_walk(parent, visit_order(parent->listing->Ok_0@).len() as int) <= u64::MAX,
    ensures
        walk_spec(parent, k) is Ok ==> walk_spec(parent, k)->Ok_0.total == bytes_walk(parent, k),
        walk_spec(parent, k) is Ok ==> walk_spec(parent, k)->Ok_0.links.len() == k,
        walk_spec(parent, k) is Ok ==> forall|i: int|
            0 <= i < k ==> (#[trigger] walk_spec(parent, k)->Ok_0.links[i]).name == entry_name(
                parent->listing->Ok_0@[visit_order(parent->listing->Ok_0@)[i]],
            ),
    decreases parent, k,
{
    if k > 0 {
        let v = parent->listing->Ok_0;
        let n = visit_order(v@).len() as int;
        lemma_walk_sizes(parent, k - 1);
        lemma_visit_order(v@);
        lemma_bytes_walk_monotone(parent, k, n);
        let j = visit_order(v@)[k - 1];
        let child = v@[j];
        assert(tree_bytes(child) <= bytes_walk(parent, k));
        lemma_sizes(child);
        if walk_spec(parent, k) is Ok {
            let w = walk_spec(parent, k - 1)->Ok_0;
            let w2 = walk_spec(parent, k)->Ok_0;
            assert forall|i: int| 0 <= i < k implies (#[trigger] w2.links[i]).name == entry_name(
                v@[visit_order(v@)[i]],
            ) by {
                if i < k - 1 {
                    assert(w2.links[i] == w.links[i]);
                }
            }
        }
    }
}

/// The `i`-th child of a directory in visit order.
pub open spec fn child_at(parent: FsEntry, i: int) -> FsEntry {
    parent->listing->Ok_0@[visit_order(parent->listing->Ok_0@)[i]]
}

/// What two sequences hold, their concatenation holds.
proof fn lemma_contains_append<A>(a: Seq<A>, b: Seq<A>)
    ensures
        forall|x: A| #[trigger] a.contains(x) ==> (a + b).contains(x),
        forall|x: A| #[trigger] b.contains(x) ==> (a + b).contains(x),
{
    assert forall|x: A| #[trigger] a.contains(x) implies (a + b).contains(x) by {
        let t = choose|t: int| 0 <= t < a.len() && a[t] == x;
        assert((a + b)[t] == x);
    }
    assert forall|x: A| #[trigger] b.contains(x) implies (a + b).contains(x) by {
        let t = choose|t: int| 0 <= t < b.len() && b[t] == x;
        assert((a + b)[a.len() + t] == x);
    }
}

/// One step of a directory walk that succeeded: the walk before it succeeded
/// too, and the step added the next child's link, nodes, chunks and bytes.
pub(crate) proof fn lemma_walk_step(parent: FsEntry, k: int)
    requires
        parent matches FsEntry::Dir { listing: Ok(v), .. } && 0 < k <= visit_order(v@).len(),
        walk_spec(parent, k) is Ok,
    ensures
        ({
            let v = parent->listing->Ok_0@;
            let j = visit_order(v)[k - 1];
            let w = walk_spec(parent, k)->Ok_0;
            let w0 = walk_spec(parent, k - 1)->Ok_0;
            let b = build_spec(v[j])->Ok_0;
            &&& walk_spec(parent, k - 1) is Ok
            &&& 0 <= j < v.len()
            &&& build_spec(v[j]) is Ok
            &&& w.links == w0.links.push(link_to(b.node))
            &&& w.nodes == w0.nodes + b.nodes.push(b.node)
            &&& w.chunks == w0.chunks + b.chunks
            &&& bytes_walk(parent, k) == bytes_walk(parent, k - 1) + tree_bytes(v[j])
            &&& w.links.len() == w0.links.len() + 1
        }),
{
}

/// A walk that succeeded over `k` children holds `k` links.
proof fn lemma_walk_len(parent: FsEntry, k: int)
    requires
        parent matches FsEntry::Dir { listing: Ok(v), .. } && 0 <= k <= visit_order(v@).len(),
        walk_spec(parent, k) is Ok,
    ensures
        walk_spec(parent, k)->Ok_0.links.len() == k,
    decreases k,
{
    if k > 0 {
        lemma_walk_step(parent, k);
        lemma_walk_len(parent, k - 1);
    }
}

/// The `i`-th child (in visit order) of a directory whose walk succeeded was
/// built: the walk links to its node, and holds its node, the nodes below it
/// and its chunks.
pub(crate) proof fn lemma_walk_child(parent: FsEntry, k: int, i: int)
    requires
        parent matches FsEntry::Dir { listing: Ok(v), .. } && 0 <= i < k <= visit_order(v@).len(),
        walk_spec(parent, k) is Ok,
    ensures
        0 <= visit_order(parent->listing->Ok_0@)[i] < parent->listing->Ok_0@.len(),
        build_spec(child_at(parent, i)) is Ok,
        walk_spec(parent, k)->Ok_0.links[i] == link_to(build_spec(child_at(parent, i))->Ok_0.node),
        walk_spec(parent, k)->Ok_0.nodes.contains(build_spec(child_at(parent, i))->Ok_0.node),
        forall|x: NodeView| #[trigger] build_spec(child_at(parent, i))->Ok_0.nodes.contains(x)
            ==> walk_spec(parent, k)->Ok_0.nodes.contains(x),
        forall|c: ChunkView| #[trigger] build_spec(child_at(parent, i))->Ok_0.chunks.contains(c)
            ==> walk_spec(parent, k)->Ok_0.chunks.contains(c),
        tree_bytes(child_at(parent, i)) <= bytes_walk(parent, k),
    decreases k,
{
    let v = parent->listing->Ok_0@;
    lemma_walk_step(parent, k);
    let w = walk_spec(parent, k)->Ok_0;
    let w0 = walk_spec(parent, k - 1)->Ok_0;
    let j = visit_order(v)[k - 1];
    let b = build_spec(v[j])->Ok_0;
    lemma_contains_append(w0.nodes, b.nodes.push(b.node));
    lemma_contains_append(b.nodes, seq![b.node]);
    assert(b.nodes.push(b.node) == b.nodes + seq![b.node]);
    assert(seq![b.node][0] == b.node);
    assert(seq![b.node].contains(b.node));
    assert(b.nodes.push(b.node).contains(b.node));
    lemma_contains_append(w0.chunks, b.chunks);
    lemma_walk_len(parent, k - 1);
    if i < k - 1 {
        lemma_walk_child(parent, k - 1, i);
        assert(w.links[i] == w0.links[i]);
    }
}

/// A built DAG accounts for the folder: its size is the number of bytes of
/// the files in it, its root is the last node and is the directory itself,
/// and it counts its chunks and its file nodes.
pub proof fn lemma_dag_accounts(root: FsEntry)
    requires
        tree_bytes(root) <= u64::MAX,
        dag_spec(root) is Ok,
    ensures
        dag_spec(root)->Ok_0.total_size == tree_bytes(root),
        dag_spec(root)->Ok_0.nodes.len() >= 1,
        dag_spec(root)->Ok_0.nodes.last().cid == dag_spec(root)->Ok_0.root_cid,
        dag_spec(root)->Ok_0.nodes.last().node_type == "directory"@,
        dag_spec(root)->Ok_0.nodes.last().name == entry_name(root),
        dag_spec(root)->Ok_0.nodes.last().size == dag_spec(root)->Ok_0.total_size,
        dag_spec(root)->Ok_0.chunk_count == dag_spec(root)->Ok_0.chunks.len() as u32,
        dag_spec(root)->Ok_0.file_count == count_files(dag_spec(root)->Ok_0.nodes.drop_last()) as u32,
{
    lemma_sizes(root);
    assert(dag_spec(root)->Ok_0.nodes.drop_last() =~= build_spec(root)->Ok_0.nodes);
}

/// A directory links to each of its readable entries once, under their names,
/// in the byte-wise order of the names as the file system holds them.
pub proof fn lemma_dir_links_sorted(e: FsEntry)
    requires
        e matches FsEntry::Dir { listing: Ok(v), .. },
        tree_bytes(e) <= u64::MAX,
        build_spec(e) is Ok,
    ensures
        ({
            let v = e->listing->Ok_0@;
            let links = build_spec(e)->Ok_0.node.links;
            &&& links.len() == readable_indices(v).len()
            &&& forall|i: int|
                0 <= i < links.len() ==> (#[trigger] links[i]).name == entry_name(v[visit_order(v)[i]])
            &&& forall|i: int, j: int|
                0 <= i < j < links.len() ==> !crate::content::order::bytes_lt(
                    name_key(#[trigger] v[visit_order(v)[j]]),
                    name_key(#[trigger] v[visit_order(v)[i]]),
                )
        }),
{
    let v = e->listing->Ok_0@;
    lemma_visit_order(v);
    let n = visit_order(v).len() as int;
    lemma_walk_sizes(e, n);
    let links = build_spec(e)->Ok_0.node.links;
    let o = visit_order(v);
    assert forall|i: int, j: int| 0 <= i < j < links.len() implies !crate::content::order::bytes_lt(
        name_key(#[trigger] v[visit_order(v)[j]]),
        name_key(#[trigger] v[visit_order(v)[i]]),
    ) by {
        assert(name_keys(v)[o[j]] == name_key(v[o[j]]));
        assert(name_keys(v)[o[i]] == name_key(v[o[i]]));
    }
}

} // verus!
