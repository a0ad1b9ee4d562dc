//! Publishing a static site from a local folder: the checks on the site name and
//! the folder, and everything that has to be stored once the DAG is built.

use vstd::prelude::*;

use crate::content::merkle::{
    build_dag, dag_spec, links_json, link_views, push_links_json, tree_bytes, DagBuildResult,
    DagNode, FsEntry,
};
use crate::storage::{site_row, site_row_spec, ChunkRecord, DagNodeRecord, SiteRecord};
use crate::text::{chars_equal_str, chars_of};

verus! {

broadcast use vstd::string::group_string_axioms;

/// A character allowed in a site name: a lowercase ASCII letter, a digit, or `-`.
pub open spec fn site_name_char(c: char) -> bool {
    ('a' <= c && c <= 'z') || ('0' <= c && c <= '9') || c == '-'
}

/// Index of the first character of `s` that is not allowed in a site name,
/// or `s.len()` when there is none.
pub open spec fn first_bad_char(s: Seq<char>) -> int
    decreases s.len(),
{
    if s.len() == 0 {
        0
    } else if !site_name_char(s[0]) {
        0
    } else {
        1 + first_bad_char(s.drop_first())
    }
}

/// The message for a site name of the wrong length.
pub open spec fn name_length_message() -> Seq<char> {
    "Site name must be 3-63 characters"@
}

/// The message for a site name that starts or ends with a hyphen.
pub open spec fn name_hyphen_message() -> Seq<char> {
    "Site name cannot start or end with a hyphen"@
}

/// The message for a site name holding the character `c`.
pub open spec fn name_char_message(c: char) -> Seq<char> {
    "Site name can only contain lowercase letters, numbers, and hyphens. Found: '"@ + seq![c] + "'"@
}

/// Site name rules: lowercase letters, numbers, and hyphens. 3-63 chars (its
/// UTF-8 length in bytes). Must start and end with a letter or number (not a hyphen).
pub open spec fn site_name_check(name: Seq<char>) -> Result<(), Seq<char>> {
    let byte_len = vstd::utf8::encode_utf8(name).len();
    if byte_len < 3 || byte_len > 63 {
        Err(name_length_message())
    } else if name[0] == '-' || name.last() == '-' {
        Err(name_hyphen_message())
    } else if first_bad_char(name) < name.len() {
        Err(name_char_message(name[first_bad_char(name)]))
    } else {
        Ok(())
    }
}

proof fn lemma_first_bad_char(s: Seq<char>)
    ensures
        0 <= first_bad_char(s) <= s.len(),
        forall|i: int| 0 <= i < first_bad_char(s) ==> site_name_char(#[trigger] s[i]),
        first_bad_char(s) < s.len() ==> !site_name_char(s[first_bad_char(s)]),
    decreases s.len(),
{
    if s.len() > 0 && site_name_char(s[0]) {
        lemma_first_bad_char(s.drop_first());
        assert forall|i: int| 0 <= i < first_bad_char(s) implies site_name_char(#[trigger] s[i]) by {
            if i > 0 {
                assert(s[i] == s.drop_first()[i - 1]);
            }
        }
    }
}

/// The site name rules, in characters: a name is accepted exactly when it is
/// 3 to 63 characters long, every character is a lowercase ASCII letter, a
/// digit or a hyphen, and it neither starts nor ends with a hyphen.
pub proof fn lemma_site_name_rules(name: Seq<char>)
    ensures
        site_name_check(name) is Ok <==> {
            &&& 3 <= name.len() <= 63
            &&& name[0] != '-'
            &&& name.last() != '-'
            &&& forall|i: int| 0 <= i < name.len() ==> site_name_char(#[trigger] name[i])
        },
{
    lemma_first_bad_char(name);
    if forall|i: int| 0 <= i < name.len() ==> site_name_char(#[trigger] name[i]) {
        assert(vstd::utf8::is_ascii_chars(name));
        vstd::utf8::is_ascii_chars_encode_utf8(name);
        if first_bad_char(name) < name.len() {
            assert(site_name_char(name[first_bad_char(name)]));
        }
    }
    if site_name_check(name) is Ok {
        assert forall|i: int| 0 <= i < name.len() implies site_name_char(#[trigger] name[i]) by {
            assert(first_bad_char(name) == name.len());
        }
        assert(vstd::utf8::is_ascii_chars(name));
        vstd::utf8::is_ascii_chars_encode_utf8(name);
    }
}

/// Checks a site name against the rules.
pub fn validate_site_name(name: &str) -> (result: Result<(), String>)
    ensures
        match site_name_check(name@) {
            Ok(()) => result is Ok,
            Err(msg) => result is Err && result->Err_0@ == msg,
        },
{
    let byte_len = name.as_bytes().len();
    if byte_len < 3 || byte_len > 63 {
        return Err("Site name must be 3-63 characters".to_string());
    }
    let cs = chars_of(name);
    proof {
        if cs@.len() == 0 {
            assert(vstd::utf8::encode_utf8(name@).len() == 0);
        }
    }
    if cs.len() == 0 || cs[0] == '-' || cs[cs.len() - 1] == '-' {
        return Err("Site name cannot start or end with a hyphen".to_string());
    }
    let n = cs.len();
    proof {
        lemma_first_bad_char(name@);
    }
    for i in 0..n
        invariant
            n == cs@.len(),
            cs@ == name@,
            3 <= vstd::utf8::encode_utf8(name@).len() <= 63,
            name@.len() > 0 && name@[0] != '-' && name@.last() != '-',
            0 <= first_bad_char(name@) <= name@.len(),
            forall|k: int| 0 <= k < first_bad_char(name@) ==> site_name_char(#[trigger] name@[k]),
            first_bad_char(name@) < name@.len() ==> !site_name_char(name@[first_bad_char(name@)]),
            forall|k: int| 0 <= k < i ==> site_name_char(#[trigger] name@[k]),
    {
        let ch = cs[i];
        if !(('a' <= ch && ch <= 'z') || ('0' <= ch && ch <= '9') || ch == '-') {
            let mut msg = "Site name can only contain lowercase letters, numbers, and hyphens. Found: '".to_string();
            crate::text::push_char(&mut msg, ch);
            msg.append("'");
            assert(first_bad_char(name@) == i);
            assert(msg@ =~= name_char_message(ch));

            return Err(msg);
        }
    }
    Ok(())
}

/// `Path::extension` of a file called `name` is `html` or `htm`: the name ends
/// with `.html` or `.htm` and something comes before that dot.
pub open spec fn has_html_extension(name: Seq<char>) -> bool {
    (name.len() > 5 && name.skip(name.len() - 5) == ".html"@) || (name.len() > 4 && name.skip(
        name.len() - 4,
    ) == ".htm"@)
}

/// Whether a file called `name` is an HTML file.
pub fn is_html_name(name: &str) -> (html: bool)
    ensures
        html == has_html_extension(name@),
{
    let cs = chars_of(name);
    let n = cs.len();
    if n > 5 && chars_equal_str(vstd::slice::slice_subrange(cs.as_slice(), n - 5, n), ".html") {
        assert(cs@.subrange(n - 5, n as int) =~= name@.skip(name@.len() - 5));
        return true;
    }
    if n > 4 && chars_equal_str(vstd::slice::slice_subrange(cs.as_slice(), n - 4, n), ".htm") {
        assert(cs@.subrange(n - 4, n as int) =~= name@.skip(name@.len() - 4));
        return true;
    }
    proof {
        if n > 5 {
            assert(cs@.subrange(n - 5, n as int) =~= name@.skip(name@.len() - 5));
        }
        if n > 4 {
            assert(cs@.subrange(n - 4, n as int) =~= name@.skip(name@.len() - 4));
        }
    }
    false
}

/// The message for a directory that could not be listed while looking for HTML.
pub open spec fn listing_error(err: Seq<char>) -> Seq<char> {
    "Failed to read directory: "@ + err
}

/// The message for an entry that could not be read while looking for HTML.
pub open spec fn entry_error(err: Seq<char>) -> Seq<char> {
    "Failed to read entry: "@ + err
}

/// Whether the directory `e` holds an `.html` or `.htm` file (recursively),
/// looking at entries in listing order; or the first error met on the way.
pub open spec fn html_spec(e: FsEntry) -> Result<bool, Seq<char>>
    decreases e, crate::content::merkle::fold_limit(e),
{
    match e {
        FsEntry::Dir { listing: Ok(v), .. } => html_walk(e, v@.len() as int),
        FsEntry::Dir { listing: Err(err), .. } => Err(listing_error(err@)),
        _ => Ok(false),
    }
}

/// Looking for HTML among the first `k` entries of the directory `parent`.
pub open spec fn html_walk(parent: FsEntry, k: int) -> Result<bool, Seq<char>>
    decreases parent, k,
{
    if k <= 0 {
        Ok(false)
    } else {
        match parent {
            FsEntry::Dir { listing: Ok(v), .. } => {
                if k > v@.len() {
                    Ok(false)
                } else {
                    match html_walk(parent, k - 1) {
                        Ok(false) => match v@[k - 1] {
                            FsEntry::Broken { error } => Err(entry_error(error@)),
                            FsEntry::File { name, .. } => Ok(has_html_extension(name@)),
                            FsEntry::Dir { .. } => html_spec(v@[k - 1]),
                            FsEntry::Other { .. } => Ok(false),
                        },
                        other => other,
                    }
                }
            },
            _ => Ok(false),
        }
    }
}

proof fn lemma_html_walk_settles(parent: FsEntry, k: int, m: int)
    requires
        0 <= k <= m,
        parent matches FsEntry::Dir { listing: Ok(v), .. } && m <= v@.len(),
        html_walk(parent, k) != Ok::<bool, Seq<char>>(false),
    ensures
        html_walk(parent, m) == html_walk(parent, k),
    decreases m - k,
{
    if k < m {
        lemma_html_walk_settles(parent, k, m - 1);
    }
}

/// An entry that is an HTML file, or a directory in which HTML is found.
pub open spec fn html_hit(x: FsEntry) -> bool {
    ||| x matches FsEntry::File { name, .. } && has_html_extension(name@)
    ||| x is Dir && html_spec(x) == Ok::<bool, Seq<char>>(true)
}

/// An entry that can be looked through without an error.
pub open spec fn html_clean(x: FsEntry) -> bool {
    &&& !(x is Broken)
    &&& x is Dir ==> html_spec(x) is Ok
}

proof fn lemma_html_walk_prefix(e: FsEntry, k: int)
    requires
        e matches FsEntry::Dir { listing: Ok(v), .. } && 0 <= k <= v@.len(),
    ensures
        html_walk(e, k) == Ok::<bool, Seq<char>>(true) <==> exists|i: int|
            0 <= i < k && html_hit(#[trigger] e->listing->Ok_0@[i]) && forall|j: int|
                0 <= j < i ==> html_clean(#[trigger] e->listing->Ok_0@[j]),
        html_walk(e, k) == Ok::<bool, Seq<char>>(false) <==> forall|i: int|
            0 <= i < k ==> html_clean(#[trigger] e->listing->Ok_0@[i]) && !html_hit(e->listing->Ok_0@[i]),
    decreases k,
{
    let v = e->listing->Ok_0@;
    if k > 0 {
        lemma_html_walk_prefix(e, k - 1);
        let x = v[k - 1];
        let prev = html_walk(e, k - 1);
        if prev == Ok::<bool, Seq<char>>(false) {
            assert(html_walk(e, k) == Ok::<bool, Seq<char>>(false) <==> (html_clean(x) && !html_hit(x))) by {
                assert(k <= v.len());
                assert(html_walk(e, k - 1) == Ok::<bool, Seq<char>>(false));
                match x {
                    FsEntry::Broken { error } => {
                        assert(html_walk(e, k) == Err::<bool, Seq<char>>(entry_error(error@)));
                    },
                    FsEntry::File { name, .. } => {
                        assert(html_walk(e, k) == Ok::<bool, Seq<char>>(has_html_extension(name@)));
                        assert(html_hit(x) == has_html_extension(name@));
                        assert(html_clean(x));
                    },
                    FsEntry::Dir { .. } => {
                        assert(html_walk(e, k) == html_spec(x));
                        let r = html_spec(x);
                        if r is Ok {
                            assert(r == Ok::<bool, Seq<char>>(r->Ok_0));
                        }
                    },
                    FsEntry::Other { .. } => {
                        assert(html_walk(e, k) == Ok::<bool, Seq<char>>(false));
                    },
                }
            }
            if html_walk(e, k) == Ok::<bool, Seq<char>>(false) {
                assert forall|i: int| 0 <= i < k implies html_clean(#[trigger] v[i]) && !html_hit(v[i]) by {
                    if i < k - 1 {
                        assert(html_clean(v[i]) && !html_hit(v[i]));
                    }
                }
            }
            if forall|i: int| 0 <= i < k ==> html_clean(#[trigger] v[i]) && !html_hit(v[i]) {
                assert(html_clean(v[k - 1]) && !html_hit(v[k - 1]));
            }
            if html_walk(e, k) == Ok::<bool, Seq<char>>(true) {
                assert(html_hit(x));
                assert(forall|j: int| 0 <= j < k - 1 ==> html_clean(#[trigger] v[j]));
            }
            assert forall|i: int|
                0 <= i < k && html_hit(#[trigger] v[i]) && (forall|j: int| 0 <= j < i ==> html_clean(#[trigger] v[j]))
                implies html_walk(e, k) == Ok::<bool, Seq<char>>(true) by {
                if i < k - 1 {
                    assert(!html_hit(v[i]));
                }
            }
        } else if prev == Ok::<bool, Seq<char>>(true) {
            let i = choose|i: int|
                0 <= i < k - 1 && html_hit(#[trigger] v[i]) && forall|j: int| 0 <= j < i ==> html_clean(#[trigger] v[j]);
            assert(0 <= i < k && html_hit(v[i]));
            assert(!(html_clean(v[i]) && !html_hit(v[i])));
        } else {
            // an error before the last entry: neither a hit with a clean way to it, nor all clean
            assert forall|i: int|
                0 <= i < k && html_hit(#[trigger] v[i]) implies !(forall|j: int|
                0 <= j < i ==> html_clean(#[trigger] v[j])) by {
                if forall|j: int| 0 <= j < i ==> html_clean(#[trigger] v[j]) {
                    if i < k - 1 {
                        assert(exists|i2: int|
                            0 <= i2 < k - 1 && html_hit(#[trigger] v[i2]) && forall|j: int|
                                0 <= j < i2 ==> html_clean(#[trigger] v[j]));
                    } else if exists|i2: int| 0 <= i2 < k - 1 && html_hit(#[trigger] v[i2]) {
                        let i2 = choose|i2: int| 0 <= i2 < k - 1 && html_hit(#[trigger] v[i2]);
                        assert(exists|i3: int|
                            0 <= i3 < k - 1 && html_hit(#[trigger] v[i3]) && forall|j: int|
                                0 <= j < i3 ==> html_clean(#[trigger] v[j]));
                    } else {
                        assert(forall|i3: int| 0 <= i3 < k - 1 ==> html_clean(#[trigger] v[i3]) && !html_hit(v[i3]));
                    }
                }
            }
            if forall|i: int| 0 <= i < k ==> html_clean(#[trigger] v[i]) && !html_hit(v[i]) {
                assert(forall|i: int| 0 <= i < k - 1 ==> html_clean(#[trigger] v[i]) && !html_hit(v[i]));
            }
        }
    }
}

/// Where HTML is found: a folder holds HTML (`Ok(true)`) exactly when one of
/// its entries, at any position of the listing, is an `.html`/`.htm` file or a
/// directory holding HTML (at any depth), with no error met before it; and it
/// holds none (`Ok(false)`) exactly when every entry can be looked through and
/// none is such an entry.
pub proof fn lemma_html_search(e: FsEntry)
    requires
        e matches FsEntry::Dir { listing: Ok(v), .. },
    ensures
        html_spec(e) == Ok::<bool, Seq<char>>(true) <==> exists|i: int|
            0 <= i < e->listing->Ok_0@.len() && html_hit(#[trigger] e->listing->Ok_0@[i]) && forall|j: int|
                0 <= j < i ==> html_clean(#[trigger] e->listing->Ok_0@[j]),
        html_spec(e) == Ok::<bool, Seq<char>>(false) <==> forall|i: int|
            0 <= i < e->listing->Ok_0@.len() ==> html_clean(#[trigger] e->listing->Ok_0@[i]) && !html_hit(
                e->listing->Ok_0@[i],
            ),
{
    lemma_html_walk_prefix(e, e->listing->Ok_0@.len() as int);
}

/// A name with something before `.html` or `.htm` is an HTML file's name.
pub proof fn lemma_html_names(x: Seq<char>)
    requires
        x.len() > 0,
    ensures
        has_html_extension(x + ".html"@),
        has_html_extension(x + ".htm"@),
{
    reveal_strlit(".html");
    reveal_strlit(".htm");
    assert((x + ".html"@).skip((x + ".html"@).len() - 5) =~= ".html"@);
    assert((x + ".htm"@).skip((x + ".htm"@).len() - 4) =~= ".htm"@);
}

/// The value of an outcome that holds a `String` error.
pub open spec fn bool_result_view(r: Result<bool, String>) -> Result<bool, Seq<char>> {
    match r {
        Ok(b) => Ok(b),
        Err(e) => Err(e@),
    }
}

/// Check if a folder contains at least one .html file (recursively).
pub fn has_html_file(dir: &FsEntry) -> (result: Result<bool, String>)
    ensures
        bool_result_view(result) == html_spec(*dir),
    decreases *dir, 1int,
{
    let entries = match dir {
        FsEntry::Dir { listing: Ok(v), .. } => v,
        FsEntry::Dir { listing: Err(err), .. } => {
            let mut msg = "Failed to read directory: ".to_string();
            msg.append(err.as_str());
            return Err(msg);
        },
        _ => {
            return Ok(false);
        },
    };
    let n = entries.len();
    for k in 0..n
        invariant
            n == entries@.len(),
            *dir matches FsEntry::Dir { listing: Ok(v), .. } && v == *entries,
            html_walk(*dir, k as int) == Ok::<bool, Seq<char>>(false),
    {
        let step: Result<bool, String> = match &entries[k] {
            FsEntry::Broken { error } => {
                let mut msg = "Failed to read entry: ".to_string();
                msg.append(error.as_str());
                Err(msg)
            },
            FsEntry::File { name, .. } => Ok(is_html_name(name.as_str())),
            FsEntry::Dir { .. } => has_html_file(&entries[k]),
            FsEntry::Other { .. } => Ok(false),
        };
        assert(bool_result_view(step) == html_walk(*dir, k + 1));
        match step {
            Ok(false) => {},
            other => {
                proof {
                    lemma_html_walk_settles(*dir, k + 1, n as int);
                }
                return other;
            },
        }
    }
    Ok(false)
}

/// The result of publishing a site. This is what gets returned to the frontend.
pub struct PublishResult {
    pub site_name: String,
    pub root_cid: String,
    pub total_size: u64,
    pub chunk_count: u32,
    pub file_count: u32,
}

/// Everything that publishing a folder stores, in the order it is stored:
/// the chunk blobs (`dag.chunks`), one chunk record per chunk, one node record
/// per DAG node, and the site record; and what is answered to the frontend.
pub struct PublishPlan {
    pub dag: DagBuildResult,
    pub chunk_records: Vec<ChunkRecord>,
    pub node_records: Vec<DagNodeRecord>,
    pub site: SiteRecord,
    pub result: PublishResult,
}

/// The record of a published chunk: pinned, since we published it.
pub open spec fn chunk_record_of(c: crate::content::merkle::ChunkView, r: ChunkRecord) -> bool {
    &&& r.cid@ == c.cid
    &&& r.size == c.size as i64
    &&& r.is_pinned
}

/// The record of a DAG node: its links as JSON.
pub open spec fn node_record_of(n: crate::content::merkle::NodeView, r: DagNodeRecord) -> bool {
    &&& r.cid@ == n.cid
    &&& r.name@ == n.name
    &&& r.node_type@ == n.node_type
    &&& r.size == n.size as i64
    &&& r.links_json@ == links_json(n.links)
}

/// The path of the folder being published, as given.
pub open spec fn folder_path(e: FsEntry) -> Seq<char> {
    match e {
        FsEntry::File { path, .. } => path@,
        FsEntry::Dir { path, .. } => path@,
        FsEntry::Other { path, .. } => path@,
        FsEntry::Broken { .. } => Seq::empty(),
    }
}

/// The message for a folder that is not a directory.
pub open spec fn folder_not_dir_message(path: Seq<char>) -> Seq<char> {
    "'"@ + path + "' is not a directory"@
}

/// The message for a folder without HTML.
pub open spec fn no_html_message() -> Seq<char> {
    "Folder must contain at least one .html file"@
}

/// Why publishing `folder` as `site_name` fails, checked in this order: the
/// name, that the folder is a directory, that it holds HTML, and building its
/// DAG; `None` when it succeeds.
pub open spec fn publish_error(site_name: Seq<char>, folder: FsEntry) -> Option<Seq<char>> {
    match site_name_check(site_name) {
        Err(msg) => Some(msg),
        Ok(()) => if !(folder is Dir) {
            Some(folder_not_dir_message(folder_path(folder)))
        } else {
            match html_spec(folder) {
                Err(msg) => Some(msg),
                Ok(false) => Some(no_html_message()),
                Ok(true) => match dag_spec(folder) {
                    Err(msg) => Some(msg),
                    Ok(_) => None,
                },
            }
        },
    }
}

/// `plan` stores exactly the DAG of `folder`, as site `site_name` published
/// locally at `published_at`.
pub open spec fn plan_of(site_name: Seq<char>, folder: FsEntry, published_at: Seq<char>, plan: PublishPlan) -> bool {
    let d = dag_spec(folder)->Ok_0;
    &&& dag_spec(folder) is Ok
    &&& plan.dag@ == d
    &&& plan.chunk_records@.len() == d.chunks.len()
    &&& forall|i: int| 0 <= i < d.chunks.len() ==> chunk_record_of(d.chunks[i], #[trigger] plan.chunk_records@[i])
    &&& plan.node_records@.len() == d.nodes.len()
    &&& forall|i: int| 0 <= i < d.nodes.len() ==> node_record_of(d.nodes[i], #[trigger] plan.node_records@[i])
    &&& site_row_spec(
        site_name,
        d.root_cid,
        d.total_size as i64,
        d.chunk_count as i32,
        d.file_count as i32,
        true,
        published_at,
        "local"@,
        plan.site,
    )
    &&& plan.result.site_name@ == site_name
    &&& plan.result.root_cid@ == d.root_cid
    &&& plan.result.total_size == d.total_size
    &&& plan.result.chunk_count == d.chunk_count
    &&& plan.result.file_count == d.file_count
}

fn chunk_records(dag: &DagBuildResult) -> (records: Vec<ChunkRecord>)
    ensures
        records@.len() == dag@.chunks.len(),
        forall|i: int| 0 <= i < dag@.chunks.len() ==> chunk_record_of(dag@.chunks[i], #[trigger] records@[i]),
{
    let mut records: Vec<ChunkRecord> = Vec::new();
    let n = dag.chunks.len();
    for i in 0..n
        invariant
            n == dag.chunks@.len(),
            records@.len() == i,
            forall|k: int| 0 <= k < i ==> chunk_record_of(dag@.chunks[k], #[trigger] records@[k]),
    {
        let c = &dag.chunks[i];
        records.push(ChunkRecord { cid: c.cid.clone(), size: c.size as i64, is_pinned: true });
    }
    records
}

fn node_records(nodes: &Vec<DagNode>) -> (records: Vec<DagNodeRecord>)
    ensures
        records@.len() == nodes@.len(),
        forall|i: int|
            0 <= i < nodes@.len() ==> node_record_of(#[trigger] nodes@[i]@, records@[i]),
{
    let mut records: Vec<DagNodeRecord> = Vec::new();
    let n = nodes.len();
    for i in 0..n
        invariant
            n == nodes@.len(),
            records@.len() == i,
            forall|k: int| 0 <= k < i ==> node_record_of(#[trigger] nodes@[k]@, records@[k]),
    {
        let node = &nodes[i];
        let mut links_json = String::new();
        push_links_json(&mut links_json, node.links.as_slice());
        records.push(
            DagNodeRecord {
                cid: node.cid.clone(),
                name: node.name.clone(),
                node_type: node.node_type.clone(),
                size: node.size as i64,
                links_json,
            },
        );
    }
    records
}

/// Publish a static site from a local folder: everything but the storing.
///
/// 1. Validates the input
/// 2. Builds the Merkle DAG (chunks all files, generates CIDs)
/// 3. Lists what to save: chunks to disk, DAG nodes and the site record to the database
///
/// The folder's bytes must add up to at most `u64::MAX`.
pub fn prepare_publish(site_name: &str, folder: &FsEntry, published_at: &str) -> (result: Result<PublishPlan, String>)
    requires
        tree_bytes(*folder) <= u64::MAX,
    ensures
        match publish_error(site_name@, *folder) {
            Some(msg) => result is Err && result->Err_0@ == msg,
            None => result is Ok && plan_of(site_name@, *folder, published_at@, result->Ok_0),
        },
{
    // ── Step 1: Validate ──
    match validate_site_name(site_name) {
        Ok(()) => {},
        Err(msg) => {
            return Err(msg);
        },
    }
    let path = match folder {
        FsEntry::Dir { .. } => None,
        FsEntry::File { path, .. } => Some(path.clone()),
        FsEntry::Other { path, .. } => Some(path.clone()),
        FsEntry::Broken { .. } => Some(String::new()),
    };
    if let Some(path) = path {
        let mut msg = "'".to_string();
        msg.append(path.as_str());
        msg.append("' is not a directory");
        assert(msg@ =~= folder_not_dir_message(folder_path(*folder)));
        return Err(msg);
    }

    // Check that there's at least one HTML file
    let has_html = match has_html_file(folder) {
        Ok(b) => b,
        Err(msg) => {
            return Err(msg);
        },
    };
    if !has_html {
        return Err("Folder must contain at least one .html file".to_string());
    }

    // ── Step 2: Build the Merkle DAG ──
    let dag = match build_dag(folder) {
        Ok(d) => d,
        Err(msg) => {
            return Err(msg);
        },
    };

    // ── Step 3: What to save ──
    let chunk_records = chunk_records(&dag);
    let node_records = node_records(&dag.nodes);
    let site = site_row(
        site_name,
        dag.root_cid.as_str(),
        dag.total_size as i64,
        dag.chunk_count as i32,
        dag.file_count as i32,
        true,  // is_local = true (we're the publisher)
        published_at,
        "local",  // peer ID will be set once networking is added
    );
    let result = PublishResult {
        site_name: site_name.to_string(),
        root_cid: dag.root_cid.clone(),
        total_size: dag.total_size,
        chunk_count: dag.chunk_count,
        file_count: dag.file_count,
    };
    Ok(PublishPlan { dag, chunk_records, node_records, site, result })
}

} // verus!
