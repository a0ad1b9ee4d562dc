//! Counting the files of a folder: a DAG's file count is the number of its
//! file nodes, one per readable regular file of the folder at any depth.

use vstd::prelude::*;

use crate::content::merkle::{
    build_spec, count_files, dag_spec, fold_limit, lemma_visit_order, lemma_walk_step, visit_order, walk_spec,
    FsEntry, NodeView,
};

verus! {

/// The file nodes among `nodes`.
pub open spec fn file_nodes(nodes: Seq<NodeView>) -> Seq<NodeView> {
    nodes.filter(|n: NodeView| n.node_type == "file"@)
}

/// Counting file nodes counts every node of type `file`, whatever else it holds.
pub proof fn lemma_count_files(nodes: Seq<NodeView>)
    ensures
        count_files(nodes) == file_nodes(nodes).len(),
    decreases nodes.len(),
{
    if nodes.len() > 0 {
        lemma_count_files(nodes.drop_last());
        assert(nodes.drop_last().push(nodes.last()) =~= nodes);
        nodes.drop_last().lemma_filter_push(nodes.last(), |n: NodeView| n.node_type == "file"@);
    }
}

/// How many readable regular files lie under `e`, at any depth.
pub open spec fn files_in(e: FsEntry) -> nat
    decreases e, fold_limit(e),
{
    match e {
        FsEntry::File { contents: Ok(_), .. } => 1,
        FsEntry::Dir { listing: Ok(v), .. } => {
            proof {
                lemma_visit_order(v@);
            }
            files_walk(e, visit_order(v@).len() as int)
        },
        _ => 0,
    }
}

/// The readable regular files under the first `k` children (in visit order) of `parent`.
pub open spec fn files_walk(parent: FsEntry, k: int) -> nat
    decreases parent, k,
{
    if k <= 0 {
        0
    } else {
        match parent {
            FsEntry::Dir { listing: Ok(v), .. } => {
                let order = visit_order(v@);
                if k > order.len() {
                    0
                } else {
                    let j = order[k - 1];
                    files_walk(parent, k - 1) + if 0 <= j < v@.len() {
                        files_in(v@[j])
                    } else {
                        0
                    }
                }
            },
            _ => 0,
        }
    }
}

proof fn lemma_files_built(e: FsEntry)
    requires
        build_spec(e) is Ok,
    ensures
        file_nodes(build_spec(e)->Ok_0.nodes.push(build_spec(e)->Ok_0.node)).len() == files_in(e),
    decreases e, fold_limit(e),
{
    let pred = |n: NodeView| n.node_type == "file"@;
    let b = build_spec(e)->Ok_0;
    b.nodes.lemma_filter_push(b.node, pred);
    reveal_strlit("file");
    reveal_strlit("directory");
    match e {
        FsEntry::File { .. } => {
            reveal(Seq::filter);
            assert(b.nodes.filter(pred) =~= Seq::<NodeView>::empty());
        },
        FsEntry::Dir { listing: Ok(v), .. } => {
            lemma_visit_order(v@);
            let n = visit_order(v@).len() as int;
            lemma_files_walked(e, n);
            assert(b.node.node_type != "file"@);
        },
        _ => {},
    }
}

proof fn lemma_files_walked(parent: FsEntry, k: int)
    requires
        parent matches FsEntry::Dir { listing: Ok(v), .. } && 0 <= k <= visit_order(v@).len(),
        walk_spec(parent, k) is Ok,
    ensures
        file_nodes(walk_spec(parent, k)->Ok_0.nodes).len() == files_walk(parent, k),
    decreases parent, k,
{
    if k > 0 {
        let v = parent->listing->Ok_0@;
        lemma_walk_step(parent, k);
        lemma_files_walked(parent, k - 1);
        let j = visit_order(v)[k - 1];
        let child = v[j];
        lemma_files_built(child);
        let w0 = walk_spec(parent, k - 1)->Ok_0;
        let cb = build_spec(child)->Ok_0;
        Seq::filter_distributes_over_add(w0.nodes, cb.nodes.push(cb.node), |n: NodeView| n.node_type == "file"@);
    } else {
        reveal(Seq::filter);
    }
}

/// A DAG counts its files: its file count is the number of its file nodes,
/// which is the number of readable regular files in the folder at any depth,
/// however many chunks each of them has (as a `u32`).
pub proof fn lemma_dag_counts_files(root: FsEntry)
    requires
        dag_spec(root) is Ok,
    ensures
        dag_spec(root)->Ok_0.file_count == file_nodes(dag_spec(root)->Ok_0.nodes).len() as u32,
        file_nodes(dag_spec(root)->Ok_0.nodes).len() == files_in(root),
{
    let b = build_spec(root)->Ok_0;
    lemma_count_files(b.nodes);
    lemma_files_built(root);
    b.nodes.lemma_filter_push(b.node, |n: NodeView| n.node_type == "file"@);
    reveal_strlit("file");
    reveal_strlit("directory");
    assert(b.node.node_type != "file"@);
}

} // verus!
