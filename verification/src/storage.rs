//! What is stored about chunks, DAG nodes and sites, and where chunk blobs live.
//!
//! The chunk bytes live on the filesystem, as files named by their CID inside
//! sharded subdirectories; the records live in a database. This module holds
//! the records and the layout; reading and writing them is the application's.

use vstd::prelude::*;

use crate::text::{chars_of, join_path, path_join, string_of};

verus! {

broadcast use vstd::string::group_string_axioms;

/// A chunk that we hold.
pub struct ChunkRecord {
    pub cid: String,
    pub size: i64,
    pub is_pinned: bool,
}

/// A stored DAG node.
pub struct DagNodeRecord {
    pub cid: String,
    pub name: String,
    pub node_type: String,
    pub size: i64,
    /// JSON string of [{cid, name, size}, ...]
    pub links_json: String,
}

/// A published or visited site.
pub struct SiteRecord {
    pub name: String,
    pub root_cid: String,
    pub total_size: i64,
    pub chunk_count: i32,
    pub file_count: i32,
    pub is_local: bool,
    pub is_pinned: bool,
    pub published_at: String,
    pub publisher_peer_id: String,
}

/// The row recorded for a site: a local site is pinned, a visited one is not.
pub open spec fn site_row_spec(
    name: Seq<char>,
    root_cid: Seq<char>,
    total_size: i64,
    chunk_count: i32,
    file_count: i32,
    is_local: bool,
    published_at: Seq<char>,
    publisher_peer_id: Seq<char>,
    row: SiteRecord,
) -> bool {
    &&& row.name@ == name
    &&& row.root_cid@ == root_cid
    &&& row.total_size == total_size
    &&& row.chunk_count == chunk_count
    &&& row.file_count == file_count
    &&& row.is_local == is_local
    &&& row.is_pinned == is_local
    &&& row.published_at@ == published_at
    &&& row.publisher_peer_id@ == publisher_peer_id
}

/// The row to record for a site; local sites are auto-pinned.
pub fn site_row(
    name: &str,
    root_cid: &str,
    total_size: i64,
    chunk_count: i32,
    file_count: i32,
    is_local: bool,
    published_at: &str,
    publisher_peer_id: &str,
) -> (row: SiteRecord)
    ensures
        site_row_spec(
            name@,
            root_cid@,
            total_size,
            chunk_count,
            file_count,
            is_local,
            published_at@,
            publisher_peer_id@,
            row,
        ),
        row.name@ == name@,
        row.root_cid@ == root_cid@,
        row.total_size == total_size,
        row.chunk_count == chunk_count,
        row.file_count == file_count,
        row.is_local == is_local,
        row.is_pinned == is_local,
        row.published_at@ == published_at@,
        row.publisher_peer_id@ == publisher_peer_id@,
{
    SiteRecord {
        name: name.to_string(),
        root_cid: root_cid.to_string(),
        total_size,
        chunk_count,
        file_count,
        is_local,
        is_pinned: is_local,
        published_at: published_at.to_string(),
        publisher_peer_id: publisher_peer_id.to_string(),
    }
}

/// A site row holds what it was given: each field is the value of the same
/// name (its chunk count the chunk count, its file count the file count, and
/// so on), and it is pinned exactly when the site is local.
pub proof fn lemma_site_row_fields(
    name: Seq<char>,
    root_cid: Seq<char>,
    total_size: i64,
    chunk_count: i32,
    file_count: i32,
    is_local: bool,
    published_at: Seq<char>,
    publisher_peer_id: Seq<char>,
    row: SiteRecord,
)
    requires
        site_row_spec(
            name,
            root_cid,
            total_size,
            chunk_count,
            file_count,
            is_local,
            published_at,
            publisher_peer_id,
            row,
        ),
    ensures
        row.name@ == name,
        row.root_cid@ == root_cid,
        row.total_size == total_size,
        row.chunk_count == chunk_count,
        row.file_count == file_count,
        row.is_local == is_local,
        row.is_pinned == is_local,
        row.published_at@ == published_at,
        row.publisher_peer_id@ == publisher_peer_id,
{
}

/// Manages where chunk blobs are stored on the filesystem.
///
/// Chunks are stored as files named by their CID, inside sharded subdirectories.
/// Example: chunk with CID "bafkreigxyz..." gets stored at:
///   <base_dir>/chunks/ba/bafkreigxyz...
///
/// The "ba" subdirectory (first 2 chars of CID) prevents any single folder
/// from having too many files, which would slow down the filesystem.
pub struct ChunkStore {
    chunks_dir: String,
}

impl ChunkStore {
    /// The directory that holds the shards.
    pub closed spec fn dir(&self) -> Seq<char> {
        self.chunks_dir@
    }

    /// The store whose chunks live under `<base_dir>/chunks`.
    pub fn in_base_dir(base_dir: &str) -> (store: ChunkStore)
        ensures
            store.dir() == path_join(base_dir@, "chunks"@),
    {
        ChunkStore { chunks_dir: join_path(base_dir, "chunks") }
    }

    /// The directory that holds the shards.
    pub fn chunks_dir(&self) -> (dir: &str)
        ensures
            dir@ == self.dir(),
    {
        self.chunks_dir.as_str()
    }

    /// Get the full file path for a chunk CID.
    /// Uses the first 2 characters of the CID as a shard directory ("xx" when
    /// it is shorter).
    pub fn chunk_path(&self, cid: &str) -> (path: String)
        ensures
            path@ == path_join(path_join(self.dir(), shard_of(cid@)), cid@),
    {
        let shard = shard(cid);
        let dir = join_path(self.chunks_dir.as_str(), shard.as_str());
        join_path(dir.as_str(), cid)
    }
}

/// The shard directory of a CID: its first two characters, or "xx" when it
/// has fewer than two.
pub open spec fn shard_of(cid: Seq<char>) -> Seq<char> {
    if cid.len() >= 2 {
        cid.take(2)
    } else {
        "xx"@
    }
}

/// The shard directory of a CID.
pub fn shard(cid: &str) -> (s: String)
    ensures
        s@ == shard_of(cid@),
{
    // Take first 2 chars for sharding (e.g., "ba" from "bafkreig...")
    let cs = chars_of(cid);
    if cs.len() >= 2 {
        let head = vstd::slice::slice_subrange(cs.as_slice(), 0, 2);
        assert(head@ =~= cid@.take(2));
        string_of(head)
    } else {
        "xx".to_string()
    }
}

} // verus!
