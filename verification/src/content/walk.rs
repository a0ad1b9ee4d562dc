//! Following a published DAG back to the files it was built from: from a node,
//! the first link with the next path segment's name leads to the node with
//! that link's CID, and the chunks a file links to, looked up by CID and
//! concatenated, are the file's bytes.

use vstd::prelude::*;

use crate::content::chunker::pieces;
use crate::content::merkle::{
    build_spec, bytes_walk, child_at, dag_spec, entry_name, file_chunks, file_links, file_node,
    lemma_file_chunks_reassemble, lemma_visit_order, lemma_walk_child, lemma_walk_sizes, tree_bytes,
    visit_order, visited, walk_spec, ChunkView, FsEntry, LinkView, NodeView,
};

verus! {

/// Index of the first name equal to `s`, or `names.len()` when none is.
pub open spec fn first_name_index(names: Seq<Seq<char>>, s: Seq<char>) -> int
    decreases names.len(),
{
    if names.len() == 0 {
        0
    } else if names[0] == s {
        0
    } else {
        1 + first_name_index(names.drop_first(), s)
    }
}

/// The names of some links.
pub open spec fn link_names(links: Seq<LinkView>) -> Seq<Seq<char>> {
    links.map_values(|l: LinkView| l.name)
}

/// The names of some entries.
pub open spec fn entry_names(entries: Seq<FsEntry>) -> Seq<Seq<char>> {
    entries.map_values(|e: FsEntry| entry_name(e))
}

/// The entry reached from `e` by following the path segments `segs` through
/// directories (the first visited entry of each name).
pub open spec fn entry_at(e: FsEntry, segs: Seq<Seq<char>>) -> Option<FsEntry>
    decreases segs.len(),
{
    if segs.len() == 0 {
        Some(e)
    } else {
        match e {
            FsEntry::Dir { listing: Ok(v), .. } => {
                let vis = visited(v@);
                let i = first_name_index(entry_names(vis), segs[0]);
                if 0 <= i < vis.len() {
                    entry_at(vis[i], segs.drop_first())
                } else {
                    None
                }
            },
            _ => None,
        }
    }
}

/// The first node with CID `cid`.
pub open spec fn find_node(nodes: Seq<NodeView>, cid: Seq<char>) -> Option<NodeView>
    decreases nodes.len(),
{
    if nodes.len() == 0 {
        None
    } else if nodes[0].cid == cid {
        Some(nodes[0])
    } else {
        find_node(nodes.drop_first(), cid)
    }
}

/// The first chunk with CID `cid`.
pub open spec fn find_chunk(chunks: Seq<ChunkView>, cid: Seq<char>) -> Option<ChunkView>
    decreases chunks.len(),
{
    if chunks.len() == 0 {
        None
    } else if chunks[0].cid == cid {
        Some(chunks[0])
    } else {
        find_chunk(chunks.drop_first(), cid)
    }
}

/// The node reached from `node` by following the path segments `segs`: each
/// time the first link of that name, to the node of its CID.
pub open spec fn follow_path(nodes: Seq<NodeView>, node: NodeView, segs: Seq<Seq<char>>) -> Option<NodeView>
    decreases segs.len(),
{
    if segs.len() == 0 {
        Some(node)
    } else {
        let i = first_name_index(link_names(node.links), segs[0]);
        if 0 <= i < node.links.len() {
            match find_node(nodes, node.links[i].cid) {
                Some(next) => follow_path(nodes, next, segs.drop_first()),
                None => None,
            }
        } else {
            None
        }
    }
}

/// The data of the chunks that `links` point to, in order (if all are there).
pub open spec fn linked_data(chunks: Seq<ChunkView>, links: Seq<LinkView>) -> Option<Seq<Seq<u8>>>
    decreases links.len(),
{
    if links.len() == 0 {
        Some(Seq::empty())
    } else {
        match (linked_data(chunks, links.drop_last()), find_chunk(chunks, links.last().cid)) {
            (Some(ds), Some(c)) => Some(ds.push(c.data)),
            _ => None,
        }
    }
}

/// The bytes of a file node: its chunks, concatenated.
pub open spec fn read_file(chunks: Seq<ChunkView>, node: NodeView) -> Option<Seq<u8>> {
    match linked_data(chunks, node.links) {
        Some(ds) => Some(ds.flatten()),
        None => None,
    }
}

/// Nodes with the same CID are the same node, and chunks with the same CID
/// are the same chunk.
pub open spec fn cids_identify(nodes: Seq<NodeView>, chunks: Seq<ChunkView>) -> bool {
    &&& forall|i: int, j: int|
        0 <= i < nodes.len() && 0 <= j < nodes.len() && #[trigger] nodes[i].cid == #[trigger] nodes[j].cid
            ==> nodes[i] == nodes[j]
    &&& forall|i: int, j: int|
        0 <= i < chunks.len() && 0 <= j < chunks.len() && #[trigger] chunks[i].cid == #[trigger] chunks[j].cid
            ==> chunks[i] == chunks[j]
}

proof fn lemma_find_node(nodes: Seq<NodeView>, chunks: Seq<ChunkView>, x: NodeView)
    requires
        cids_identify(nodes, chunks),
        nodes.contains(x),
    ensures
        find_node(nodes, x.cid) == Some(x),
    decreases nodes.len(),
{
    let j = choose|j: int| 0 <= j < nodes.len() && nodes[j] == x;
    if nodes[0].cid == x.cid {
        assert(nodes[0] == nodes[j]);
    } else {
        let rest = nodes.drop_first();
        assert(rest[j - 1] == x);
        assert forall|a: int, b: int|
            0 <= a < rest.len() && 0 <= b < rest.len() && #[trigger] rest[a].cid == #[trigger] rest[b].cid
                implies rest[a] == rest[b] by {
            assert(rest[a] == nodes[a + 1] && rest[b] == nodes[b + 1]);
        }
        lemma_find_node(rest, chunks, x);
    }
}

proof fn lemma_find_chunk(nodes: Seq<NodeView>, chunks: Seq<ChunkView>, x: ChunkView)
    requires
        cids_identify(nodes, chunks),
        chunks.contains(x),
    ensures
        find_chunk(chunks, x.cid) == Some(x),
    decreases chunks.len(),
{
    let j = choose|j: int| 0 <= j < chunks.len() && chunks[j] == x;
    if chunks[0].cid == x.cid {
        assert(chunks[0] == chunks[j]);
    } else {
        let rest = chunks.drop_first();
        assert(rest[j - 1] == x);
        assert forall|a: int, b: int|
            0 <= a < rest.len() && 0 <= b < rest.len() && #[trigger] rest[a].cid == #[trigger] rest[b].cid
                implies rest[a] == rest[b] by {
            assert(rest[a] == chunks[a + 1] && rest[b] == chunks[b + 1]);
        }
        lemma_find_chunk(nodes, rest, x);
    }
}

/// The links of a file node lead, in order, to its chunks' data.
proof fn lemma_linked_prefix(nodes: Seq<NodeView>, chunks: Seq<ChunkView>, data: Seq<u8>, k: int)
    requires
        0 <= k <= pieces(data).len(),
        cids_identify(nodes, chunks),
        forall|c: ChunkView| #[trigger] file_chunks(data).contains(c) ==> chunks.contains(c),
    ensures
        linked_data(chunks, file_links(data).take(k)) == Some(
            file_chunks(data).take(k).map_values(|c: ChunkView| c.data),
        ),
    decreases k,
{
    if k == 0 {
        assert(file_links(data).take(0) =~= Seq::<LinkView>::empty());
        assert(file_chunks(data).take(0).map_values(|c: ChunkView| c.data) =~= Seq::<Seq<u8>>::empty());
    } else {
        lemma_linked_prefix(nodes, chunks, data, k - 1);
        let ls = file_links(data).take(k);
        assert(ls.drop_last() =~= file_links(data).take(k - 1));
        let c = file_chunks(data)[k - 1];
        assert(file_chunks(data).contains(c));
        lemma_find_chunk(nodes, chunks, c);
        assert(ls.last().cid == c.cid);
        assert(file_chunks(data).take(k).map_values(|c: ChunkView| c.data) =~= file_chunks(data).take(
            k - 1,
        ).map_values(|c: ChunkView| c.data).push(c.data));
    }
}

/// Reading a file node whose chunks are all there gives back the file's bytes.
proof fn lemma_read_file(nodes: Seq<NodeView>, chunks: Seq<ChunkView>, name: Seq<char>, data: Seq<u8>)
    requires
        cids_identify(nodes, chunks),
        forall|c: ChunkView| #[trigger] file_chunks(data).contains(c) ==> chunks.contains(c),
    ensures
        read_file(chunks, file_node(name, data)) == Some(data),
{
    let n = pieces(data).len() as int;
    lemma_linked_prefix(nodes, chunks, data, n);
    assert(file_links(data).take(n) =~= file_links(data));
    assert(file_chunks(data).take(n) =~= file_chunks(data));
    lemma_file_chunks_reassemble(name, data);
}

/// The child of a directory that a path segment leads to.
spec fn next_entry(e: FsEntry, seg: Seq<char>) -> FsEntry {
    child_at(e, first_name_index(entry_names(visited(e->listing->Ok_0@)), seg))
}

/// What the DAG holds of a built entry: its node, the nodes below it and its chunks.
spec fn holds_built(e: FsEntry, nodes: Seq<NodeView>, chunks: Seq<ChunkView>) -> bool {
    &&& build_spec(e) is Ok
    &&& nodes.contains(build_spec(e)->Ok_0.node)
    &&& forall|x: NodeView| #[trigger] build_spec(e)->Ok_0.nodes.contains(x) ==> nodes.contains(x)
    &&& forall|c: ChunkView| #[trigger] build_spec(e)->Ok_0.chunks.contains(c) ==> chunks.contains(c)
}

/// A directory's node links to its visited entries under their names, and
/// what it appends is what the walk over its entries appended.
proof fn lemma_dir_built(e: FsEntry)
    requires
        e matches FsEntry::Dir { listing: Ok(v), .. },
        tree_bytes(e) <= u64::MAX,
        build_spec(e) is Ok,
    ensures
        ({
            let v = e->listing->Ok_0@;
            let w = walk_spec(e, visit_order(v).len() as int);
            let b = build_spec(e)->Ok_0;
            &&& w is Ok
            &&& b.node.links == w->Ok_0.links
            &&& b.nodes == w->Ok_0.nodes
            &&& b.chunks == w->Ok_0.chunks
            &&& link_names(b.node.links) == entry_names(visited(v))
        }),
{
    let v = e->listing->Ok_0@;
    lemma_visit_order(v);
    let n = visit_order(v).len() as int;
    let w = walk_spec(e, n)->Ok_0;
    lemma_walk_sizes(e, n);
    assert(link_names(w.links) =~= entry_names(visited(v)));
}

/// One step down a path: the first segment leads from a directory's node to
/// the node of the child of that name, which the DAG holds too.
proof fn lemma_follow_step(e: FsEntry, segs: Seq<Seq<char>>, nodes: Seq<NodeView>, chunks: Seq<ChunkView>)
    requires
        tree_bytes(e) <= u64::MAX,
        holds_built(e, nodes, chunks),
        cids_identify(nodes, chunks),
        segs.len() > 0,
        entry_at(e, segs) is Some,
    ensures
        e matches FsEntry::Dir { listing: Ok(v), .. },
        tree_bytes(next_entry(e, segs[0])) <= u64::MAX,
        holds_built(next_entry(e, segs[0]), nodes, chunks),
        entry_at(e, segs) == entry_at(next_entry(e, segs[0]), segs.drop_first()),
        follow_path(nodes, build_spec(e)->Ok_0.node, segs) == follow_path(
            nodes,
            build_spec(next_entry(e, segs[0]))->Ok_0.node,
            segs.drop_first(),
        ),
{
    let v = e->listing->Ok_0@;
    lemma_visit_order(v);
    let n = visit_order(v).len() as int;
    lemma_dir_built(e);
    let w = walk_spec(e, n)->Ok_0;
    let vis = visited(v);
    let i = first_name_index(entry_names(vis), segs[0]);
    lemma_walk_child(e, n, i);
    let child = child_at(e, i);
    assert(vis[i] == child);
    let cb = build_spec(child)->Ok_0;
    assert forall|x: NodeView| #[trigger] cb.nodes.contains(x) implies nodes.contains(x) by {
        assert(w.nodes.contains(x));
    }
    assert forall|c: ChunkView| #[trigger] cb.chunks.contains(c) implies chunks.contains(c) by {
        assert(w.chunks.contains(c));
    }
    lemma_find_node(nodes, chunks, cb.node);
}

/// Following path segments from the node of an entry reaches the node of the
/// file at that path, and reading it gives back the file's bytes.
proof fn lemma_follow(e: FsEntry, segs: Seq<Seq<char>>, nodes: Seq<NodeView>, chunks: Seq<ChunkView>)
    requires
        tree_bytes(e) <= u64::MAX,
        holds_built(e, nodes, chunks),
        cids_identify(nodes, chunks),
        entry_at(e, segs) matches Some(FsEntry::File { contents: Ok(data), .. }),
    ensures
        ({
            let f = entry_at(e, segs)->Some_0;
            let data = f->contents->Ok_0@;
            &&& follow_path(nodes, build_spec(e)->Ok_0.node, segs) == Some(file_node(entry_name(f), data))
            &&& read_file(chunks, file_node(entry_name(f), data)) == Some(data)
        }),
    decreases segs.len(),
{
    if segs.len() == 0 {
        let data = e->contents->Ok_0@;
        assert(build_spec(e)->Ok_0.chunks == file_chunks(data));
        lemma_read_file(nodes, chunks, entry_name(e), data);
    } else {
        lemma_follow_step(e, segs, nodes, chunks);
        lemma_follow(next_entry(e, segs[0]), segs.drop_first(), nodes, chunks);
    }
}

/// What was published can be read back: in the DAG of a folder, following
/// the segments of a file's path from the root node (each time the first
/// link of that name, to the node with that link's CID) reaches that file's
/// node, and its chunks, looked up by CID and concatenated, are the file's
/// bytes. This holds as long as no two different nodes, and no two
/// different chunks, of the DAG share a CID.
pub proof fn lemma_published_file_reads_back(root: FsEntry, segs: Seq<Seq<char>>)
    requires
        tree_bytes(root) <= u64::MAX,
        dag_spec(root) is Ok,
        cids_identify(dag_spec(root)->Ok_0.nodes, dag_spec(root)->Ok_0.chunks),
        entry_at(root, segs) matches Some(FsEntry::File { contents: Ok(data), .. }),
    ensures
        ({
            let d = dag_spec(root)->Ok_0;
            let f = entry_at(root, segs)->Some_0;
            let data = f->contents->Ok_0@;
            &&& follow_path(d.nodes, d.nodes.last(), segs) == Some(file_node(entry_name(f), data))
            &&& read_file(d.chunks, file_node(entry_name(f), data)) == Some(data)
        }),
{
    let d = dag_spec(root)->Ok_0;
    let b = build_spec(root)->Ok_0;
    assert(d.nodes == b.nodes.push(b.node));
    assert(d.nodes[b.nodes.len() as int] == b.node);
    assert forall|x: NodeView| #[trigger] b.nodes.contains(x) implies d.nodes.contains(x) by {
        let t = choose|t: int| 0 <= t < b.nodes.len() && b.nodes[t] == x;
        assert(d.nodes[t] == x);
    }
    lemma_follow(root, segs, d.nodes, d.chunks);
}

} // verus!
