//! Retrieving a file of a published site: the path within the site, the walk
//! down the DAG by path segments, the reassembly of the file from its chunks,
//! and its content type.

use vstd::prelude::*;

use crate::network::{DagLink, DagNodeInfo, DhtSiteRecord};
use crate::storage::{site_row, site_row_spec, DagNodeRecord, SiteRecord};
use crate::text::{chars_equal, chars_equal_str, chars_of, push_char, string_of};

verus! {

broadcast use vstd::string::group_string_axioms;

/// The result of fetching a file from a chimera:// site.
pub struct RetrievedFile {
    pub content_type: String,
    pub body: Vec<u8>,
}

/// `s` without its leading slashes.
pub open spec fn trim_leading_slashes(s: Seq<char>) -> Seq<char>
    decreases s.len(),
{
    if s.len() > 0 && s[0] == '/' {
        trim_leading_slashes(s.drop_first())
    } else {
        s
    }
}

/// `s` without its leading slashes.
pub fn trim_leading_slashes_of(s: &str) -> (t: String)
    ensures
        t@ == trim_leading_slashes(s@),
{
    let cs = chars_of(s);
    let n = cs.len();
    let mut start: usize = 0;
    assert(cs@.skip(0) =~= cs@);
    while start < n && cs[start] == '/'
        invariant
            n == cs@.len(),
            cs@ == s@,
            start <= n,
            trim_leading_slashes(cs@) == trim_leading_slashes(cs@.skip(start as int)),
        decreases n - start,
    {
        assert(cs@.skip(start as int).drop_first() =~= cs@.skip(start + 1));
        start = start + 1;
    }
    let rest = vstd::slice::slice_subrange(cs.as_slice(), start, n);
    assert(rest@ =~= cs@.skip(start as int));
    string_of(rest)
}

/// The path within the site: `index.html` for an empty path or `/`,
/// otherwise the path without its leading slashes.
pub open spec fn request_path_spec(file_path: Seq<char>) -> Seq<char> {
    if file_path.len() == 0 || file_path == seq!['/'] {
        "index.html"@
    } else {
        trim_leading_slashes(file_path)
    }
}

/// The path within the site that a request names (defaults to index.html).
pub fn request_path(file_path: &str) -> (path: String)
    ensures
        path@ == request_path_spec(file_path@),
{
    let cs = chars_of(file_path);
    if cs.len() == 0 || (cs.len() == 1 && cs[0] == '/') {
        proof {
            if cs@.len() == 1 {
                assert(file_path@ =~= seq!['/']);
            }
        }
        return "index.html".to_string();
    }
    proof {
        assert(file_path@ != seq!['/']) by {
            if file_path@ == seq!['/'] {
                assert(cs@.len() == 1);
            }
        }
    }
    trim_leading_slashes_of(file_path)
}

/// Splitting `s` at every `/`: the pieces before the last slash that are not
/// empty, and the piece after it.
pub open spec fn split_slashes(s: Seq<char>) -> (Seq<Seq<char>>, Seq<char>)
    decreases s.len(),
{
    if s.len() == 0 {
        (Seq::empty(), Seq::empty())
    } else {
        let (done, cur) = split_slashes(s.drop_last());
        if s.last() == '/' {
            (if cur.len() > 0 {
                done.push(cur)
            } else {
                done
            }, Seq::empty())
        } else {
            (done, cur.push(s.last()))
        }
    }
}

/// The non-empty pieces of `s` between slashes, in order.
pub open spec fn segments_spec(s: Seq<char>) -> Seq<Seq<char>> {
    let (done, cur) = split_slashes(s);
    if cur.len() > 0 {
        done.push(cur)
    } else {
        done
    }
}

proof fn lemma_split_slash_free(s: Seq<char>)
    requires
        forall|i: int| 0 <= i < s.len() ==> s[i] != '/',
    ensures
        split_slashes(s) == (Seq::<Seq<char>>::empty(), s),
    decreases s.len(),
{
    if s.len() > 0 {
        lemma_split_slash_free(s.drop_last());
        assert(s.drop_last().push(s.last()) =~= s);
    }
}

proof fn lemma_split_after(a: Seq<char>, q: Seq<char>)
    requires
        split_slashes(a).1.len() == 0,
    ensures
        split_slashes(a + q) == (split_slashes(a).0 + split_slashes(q).0, split_slashes(q).1),
    decreases q.len(),
{
    if q.len() == 0 {
        assert(a + q =~= a);
        assert(split_slashes(a).0 + Seq::<Seq<char>>::empty() =~= split_slashes(a).0);
    } else {
        lemma_split_after(a, q.drop_last());
        assert((a + q).drop_last() =~= a + q.drop_last());
        assert((a + q).last() == q.last());
        let (d, c) = split_slashes(q.drop_last());
        assert((split_slashes(a).0 + d).push(c) =~= split_slashes(a).0 + d.push(c));
    }
}

/// Segments of paths joined by a slash: the segments of `p`, then those of `q`.
/// With [`lemma_segments_piece`] this fixes the segments of every path: they
/// are all its non-empty pieces between slashes, in order.
pub proof fn lemma_segments_join(p: Seq<char>, q: Seq<char>)
    ensures
        segments_spec(p + seq!['/'] + q) == segments_spec(p) + segments_spec(q),
{
    let a = p + seq!['/'];
    assert(a.drop_last() =~= p);
    assert(split_slashes(a) == (segments_spec(p), Seq::<char>::empty()));
    lemma_split_after(a, q);
    let (d, c) = split_slashes(q);
    if c.len() > 0 {
        assert((segments_spec(p) + d).push(c) =~= segments_spec(p) + d.push(c));
    }
}

/// A piece without slashes is one segment, or none when it is empty.
pub proof fn lemma_segments_piece(s: Seq<char>)
    requires
        forall|i: int| 0 <= i < s.len() ==> s[i] != '/',
    ensures
        s.len() == 0 ==> segments_spec(s) == Seq::<Seq<char>>::empty(),
        s.len() > 0 ==> segments_spec(s) == seq![s],
{
    lemma_split_slash_free(s);
    assert(Seq::<Seq<char>>::empty().push(s) =~= seq![s]);
}

/// The views of a sequence of strings.
pub open spec fn string_views(v: Seq<String>) -> Seq<Seq<char>> {
    v.map_values(|s: String| s@)
}

/// "css/style.css" → ["css", "style.css"]
pub fn path_segments(path: &str) -> (segments: Vec<String>)
    ensures
        string_views(segments@) == segments_spec(path@),
{
    let cs = chars_of(path);
    let n = cs.len();
    let mut done: Vec<String> = Vec::new();
    let mut cur: Vec<char> = Vec::new();
    for i in 0..n
        invariant
            n == cs@.len(),
            cs@ == path@,
            (string_views(done@), cur@) == split_slashes(path@.take(i as int)),
    {
        assert(path@.take(i + 1).drop_last() =~= path@.take(i as int));
        if cs[i] == '/' {
            if cur.len() > 0 {
                let ghost before = done@;
                done.push(string_of(cur.as_slice()));
                assert(string_views(done@) =~= string_views(before).push(cur@));
            }
            cur = Vec::new();
        } else {
            cur.push(cs[i]);
        }
    }
    assert(path@.take(n as int) =~= path@);
    if cur.len() > 0 {
        let ghost before = done@;
        done.push(string_of(cur.as_slice()));
        assert(string_views(done@) =~= string_views(before).push(cur@));
    }
    done
}

/// The part of `path` after its last `.` (all of it when it has none).
pub open spec fn after_last_dot(path: Seq<char>) -> Seq<char>
    decreases path.len(),
{
    if path.len() == 0 {
        path
    } else if path.last() == '.' {
        Seq::empty()
    } else {
        after_last_dot(path.drop_last()).push(path.last())
    }
}

/// The MIME content type for a file extension.
pub open spec fn mime_for(ext: Seq<char>) -> Seq<char> {
    if ext == "html"@ || ext == "htm"@ {
        "text/html"@
    } else if ext == "css"@ {
        "text/css"@
    } else if ext == "js"@ || ext == "mjs"@ {
        "application/javascript"@
    } else if ext == "json"@ {
        "application/json"@
    } else if ext == "png"@ {
        "image/png"@
    } else if ext == "jpg"@ || ext == "jpeg"@ {
        "image/jpeg"@
    } else if ext == "gif"@ {
        "image/gif"@
    } else if ext == "svg"@ {
        "image/svg+xml"@
    } else if ext == "ico"@ {
        "image/x-icon"@
    } else if ext == "webp"@ {
        "image/webp"@
    } else if ext == "woff"@ {
        "font/woff"@
    } else if ext == "woff2"@ {
        "font/woff2"@
    } else if ext == "ttf"@ {
        "font/ttf"@
    } else if ext == "txt"@ {
        "text/plain"@
    } else {
        "application/octet-stream"@
    }
}

/// Map file extension to MIME content type.
pub fn content_type_from_path(path: &str) -> (content_type: &'static str)
    ensures
        content_type@ == mime_for(after_last_dot(path@)),
{
    let cs = chars_of(path);
    let n = cs.len();
    let mut start: usize = n;
    assert(path@.take(n as int) =~= path@);
    assert(path@.skip(n as int) =~= Seq::<char>::empty());
    assert(after_last_dot(path@) =~= after_last_dot(path@.take(n as int)) + path@.skip(n as int));
    while start > 0 && cs[start - 1] != '.'
        invariant
            n == cs@.len(),
            cs@ == path@,
            start <= n,
            after_last_dot(path@) == after_last_dot(path@.take(start as int)) + path@.skip(start as int),
        decreases start,
    {
        assert(path@.take(start as int).drop_last() =~= path@.take(start - 1));
        assert(path@.skip(start - 1) =~= seq![path@[start - 1]] + path@.skip(start as int));
        start = start - 1;
    }
    proof {
        if start > 0 {
            assert(path@.take(start as int).last() == '.');
        }
        assert(path@.take(0) =~= Seq::<char>::empty());
    }
    let ext = vstd::slice::slice_subrange(cs.as_slice(), start, n);
    assert(ext@ =~= after_last_dot(path@));
    if chars_equal_str(ext, "html") || chars_equal_str(ext, "htm") {
        "text/html"
    } else if chars_equal_str(ext, "css") {
        "text/css"
    } else if chars_equal_str(ext, "js") || chars_equal_str(ext, "mjs") {
        "application/javascript"
    } else if chars_equal_str(ext, "json") {
        "application/json"
    } else if chars_equal_str(ext, "png") {
        "image/png"
    } else if chars_equal_str(ext, "jpg") || chars_equal_str(ext, "jpeg") {
        "image/jpeg"
    } else if chars_equal_str(ext, "gif") {
        "image/gif"
    } else if chars_equal_str(ext, "svg") {
        "image/svg+xml"
    } else if chars_equal_str(ext, "ico") {
        "image/x-icon"
    } else if chars_equal_str(ext, "webp") {
        "image/webp"
    } else if chars_equal_str(ext, "woff") {
        "font/woff"
    } else if chars_equal_str(ext, "woff2") {
        "font/woff2"
    } else if chars_equal_str(ext, "ttf") {
        "font/ttf"
    } else if chars_equal_str(ext, "txt") {
        "text/plain"
    } else {
        "application/octet-stream"
    }
}

/// The extension of a path is its longest suffix without a dot: what follows
/// the last `.`, or the whole path when it has none.
pub proof fn lemma_after_last_dot(path: Seq<char>)
    ensures
        after_last_dot(path).len() <= path.len(),
        path.skip(path.len() - after_last_dot(path).len()) == after_last_dot(path),
        forall|i: int| 0 <= i < after_last_dot(path).len() ==> #[trigger] after_last_dot(path)[i] != '.',
        after_last_dot(path).len() < path.len() ==> path[path.len() - after_last_dot(path).len() - 1] == '.',
    decreases path.len(),
{
    if path.len() > 0 && path.last() != '.' {
        let p = path.drop_last();
        lemma_after_last_dot(p);
        let r = after_last_dot(p);
        assert(path.skip(path.len() - r.len() - 1) =~= p.skip(p.len() - r.len()).push(path.last()));
        assert forall|i: int| 0 <= i < r.len() + 1 implies #[trigger] r.push(path.last())[i] != '.' by {
            if i < r.len() {
                assert(r.push(path.last())[i] == r[i]);
            }
        }
        if r.len() < p.len() {
            assert(path[path.len() - r.len() - 2] == p[p.len() - r.len() - 1]);
        }
    } else if path.len() > 0 {
        assert(path.skip(path.len() as int) =~= Seq::<char>::empty());
    } else {
        assert(path.skip(0) =~= path);
    }
}

/// After a `.`, a name without dots is the extension.
proof fn lemma_after_dot_ext(x: Seq<char>, ext: Seq<char>)
    requires
        forall|i: int| 0 <= i < ext.len() ==> ext[i] != '.',
    ensures
        after_last_dot(x + seq!['.'] + ext) == ext,
    decreases ext.len(),
{
    if ext.len() == 0 {
        assert(x + seq!['.'] + ext =~= x + seq!['.']);
    } else {
        lemma_after_dot_ext(x, ext.drop_last());
        assert((x + seq!['.'] + ext).drop_last() =~= x + seq!['.'] + ext.drop_last());
        assert(ext.drop_last().push(ext.last()) =~= ext);
    }
}

/// The content types of the known extensions: a path ending in `.html` or
/// `.htm` is served as HTML, `.js` or `.mjs` as JavaScript, and so on, whatever
/// comes before the last dot.
pub proof fn lemma_content_types(x: Seq<char>)
    ensures
        mime_for(after_last_dot(x + seq!['.'] + "html"@)) == "text/html"@,
        mime_for(after_last_dot(x + seq!['.'] + "htm"@)) == "text/html"@,
        mime_for(after_last_dot(x + seq!['.'] + "css"@)) == "text/css"@,
        mime_for(after_last_dot(x + seq!['.'] + "js"@)) == "application/javascript"@,
        mime_for(after_last_dot(x + seq!['.'] + "mjs"@)) == "application/javascript"@,
        mime_for(after_last_dot(x + seq!['.'] + "json"@)) == "application/json"@,
        mime_for(after_last_dot(x + seq!['.'] + "png"@)) == "image/png"@,
        mime_for(after_last_dot(x + seq!['.'] + "jpg"@)) == "image/jpeg"@,
        mime_for(after_last_dot(x + seq!['.'] + "jpeg"@)) == "image/jpeg"@,
        mime_for(after_last_dot(x + seq!['.'] + "gif"@)) == "image/gif"@,
        mime_for(after_last_dot(x + seq!['.'] + "svg"@)) == "image/svg+xml"@,
        mime_for(after_last_dot(x + seq!['.'] + "ico"@)) == "image/x-icon"@,
        mime_for(after_last_dot(x + seq!['.'] + "webp"@)) == "image/webp"@,
        mime_for(after_last_dot(x + seq!['.'] + "woff"@)) == "font/woff"@,
        mime_for(after_last_dot(x + seq!['.'] + "woff2"@)) == "font/woff2"@,
        mime_for(after_last_dot(x + seq!['.'] + "ttf"@)) == "font/ttf"@,
        mime_for(after_last_dot(x + seq!['.'] + "txt"@)) == "text/plain"@,
{
    reveal_strlit("html");
    reveal_strlit("htm");
    reveal_strlit("css");
    reveal_strlit("js");
    reveal_strlit("mjs");
    reveal_strlit("json");
    reveal_strlit("png");
    reveal_strlit("jpg");
    reveal_strlit("jpeg");
    reveal_strlit("gif");
    reveal_strlit("svg");
    reveal_strlit("ico");
    reveal_strlit("webp");
    reveal_strlit("woff");
    reveal_strlit("woff2");
    reveal_strlit("ttf");
    reveal_strlit("txt");
    lemma_after_dot_ext(x, "html"@);
    lemma_after_dot_ext(x, "htm"@);
    lemma_after_dot_ext(x, "css"@);
    lemma_after_dot_ext(x, "js"@);
    lemma_after_dot_ext(x, "mjs"@);
    lemma_after_dot_ext(x, "json"@);
    lemma_after_dot_ext(x, "png"@);
    lemma_after_dot_ext(x, "jpg"@);
    lemma_after_dot_ext(x, "jpeg"@);
    lemma_after_dot_ext(x, "gif"@);
    lemma_after_dot_ext(x, "svg"@);
    lemma_after_dot_ext(x, "ico"@);
    lemma_after_dot_ext(x, "webp"@);
    lemma_after_dot_ext(x, "woff"@);
    lemma_after_dot_ext(x, "woff2"@);
    lemma_after_dot_ext(x, "ttf"@);
    lemma_after_dot_ext(x, "txt"@);
    assert(mime_for("html"@) == "text/html"@) by {}
    assert(mime_for("htm"@) == "text/html"@) by {}
    assert(mime_for("css"@) == "text/css"@) by {
        assert("css"@[0] != "htm"@[0]);
    }
    assert(mime_for("js"@) == "application/javascript"@) by {}
    assert(mime_for("mjs"@) == "application/javascript"@) by {
        assert("mjs"@[0] != "htm"@[0] && "mjs"@[0] != "css"@[0]);
    }
    assert(mime_for("json"@) == "application/json"@) by {
        assert("json"@[0] != "html"@[0]);
    }
    assert(mime_for("png"@) == "image/png"@) by {
        assert("png"@[0] != "htm"@[0] && "png"@[0] != "css"@[0] && "png"@[0] != "mjs"@[0]);
    }
    assert(mime_for("jpg"@) == "image/jpeg"@) by {
        assert("jpg"@[0] != "htm"@[0] && "jpg"@[0] != "css"@[0] && "jpg"@[0] != "mjs"@[0] && "jpg"@[0] != "png"@[0]);
    }
    assert(mime_for("jpeg"@) == "image/jpeg"@) by {
        assert("jpeg"@[0] != "html"@[0] && "jpeg"@[1] != "json"@[1]);
    }
    assert(mime_for("gif"@) == "image/gif"@) by {
        assert("gif"@[0] != "htm"@[0] && "gif"@[0] != "css"@[0] && "gif"@[0] != "mjs"@[0] && "gif"@[0] != "png"@[0] && "gif"@[0] != "jpg"@[0]);
    }
    assert(mime_for("svg"@) == "image/svg+xml"@) by {
        assert("svg"@[0] != "htm"@[0] && "svg"@[0] != "css"@[0] && "svg"@[0] != "mjs"@[0] && "svg"@[0] != "png"@[0] && "svg"@[0] != "jpg"@[0] && "svg"@[0] != "gif"@[0]);
    }
    assert(mime_for("ico"@) == "image/x-icon"@) by {
        assert("ico"@[0] != "htm"@[0] && "ico"@[0] != "css"@[0] && "ico"@[0] != "mjs"@[0] && "ico"@[0] != "png"@[0] && "ico"@[0] != "jpg"@[0] && "ico"@[0] != "gif"@[0] && "ico"@[0] != "svg"@[0]);
    }
    assert(mime_for("webp"@) == "image/webp"@) by {
        assert("webp"@[0] != "html"@[0] && "webp"@[0] != "json"@[0] && "webp"@[0] != "jpeg"@[0]);
    }
    assert(mime_for("woff"@) == "font/woff"@) by {
        assert("woff"@[0] != "html"@[0] && "woff"@[0] != "json"@[0] && "woff"@[0] != "jpeg"@[0] && "woff"@[1] != "webp"@[1]);
    }
    assert(mime_for("woff2"@) == "font/woff2"@) by {}
    assert(mime_for("ttf"@) == "font/ttf"@) by {
        assert("ttf"@[0] != "htm"@[0] && "ttf"@[0] != "css"@[0] && "ttf"@[0] != "mjs"@[0] && "ttf"@[0] != "png"@[0] && "ttf"@[0] != "jpg"@[0] && "ttf"@[0] != "gif"@[0] && "ttf"@[0] != "svg"@[0] && "ttf"@[0] != "ico"@[0]);
    }
    assert(mime_for("txt"@) == "text/plain"@) by {
        assert("txt"@[0] != "htm"@[0] && "txt"@[0] != "css"@[0] && "txt"@[0] != "mjs"@[0] && "txt"@[0] != "png"@[0] && "txt"@[0] != "jpg"@[0] && "txt"@[0] != "gif"@[0] && "txt"@[0] != "svg"@[0] && "txt"@[0] != "ico"@[0] && "txt"@[1] != "ttf"@[1]);
    }
}

/// Index of the first link named `name`, or `links.len()` when there is none.
pub open spec fn first_link_named(links: Seq<DagLink>, name: Seq<char>) -> int
    decreases links.len(),
{
    if links.len() == 0 {
        0
    } else if links[0].name@ == name {
        0
    } else {
        1 + first_link_named(links.drop_first(), name)
    }
}

proof fn lemma_first_link_named(links: Seq<DagLink>, name: Seq<char>)
    ensures
        0 <= first_link_named(links, name) <= links.len(),
        forall|i: int| 0 <= i < first_link_named(links, name) ==> #[trigger] links[i].name@ != name,
        first_link_named(links, name) < links.len() ==> links[first_link_named(links, name)].name@ == name,
    decreases links.len(),
{
    if links.len() > 0 && links[0].name@ != name {
        lemma_first_link_named(links.drop_first(), name);
        assert forall|i: int| 0 <= i < first_link_named(links, name) implies #[trigger] links[i].name@ != name by {
            if i > 0 {
                assert(links[i] == links.drop_first()[i - 1]);
            }
        }
    }
}

/// The message for a path segment that a directory does not hold.
pub open spec fn not_found_message(segment: Seq<char>, dir_name: Seq<char>) -> Seq<char> {
    "'"@ + segment + "' not found in directory '"@ + dir_name + "'"@
}

/// One step down the DAG: the CID that the first link of `node` named
/// `segment` points to.
pub fn find_link(node: &DagNodeInfo, segment: &str) -> (cid: Result<String, String>)
    ensures
        first_link_named(node.links@, segment@) < node.links@.len() ==> cid is Ok && cid->Ok_0@
            == node.links@[first_link_named(node.links@, segment@)].cid@,
        first_link_named(node.links@, segment@) == node.links@.len() ==> cid is Err && cid->Err_0@
            == not_found_message(segment@, node.name@),
{
    proof {
        lemma_first_link_named(node.links@, segment@);
    }
    let seg = chars_of(segment);
    let n = node.links.len();
    for i in 0..n
        invariant
            n == node.links@.len(),
            seg@ == segment@,
            0 <= first_link_named(node.links@, segment@) <= n,
            forall|k: int| 0 <= k < first_link_named(node.links@, segment@) ==> #[trigger] node.links@[k].name@ != segment@,
            first_link_named(node.links@, segment@) < n ==> node.links@[first_link_named(node.links@, segment@)].name@ == segment@,
            forall|k: int| 0 <= k < i ==> #[trigger] node.links@[k].name@ != segment@,
    {
        let name = chars_of(node.links[i].name.as_str());
        if chars_equal(name.as_slice(), seg.as_slice()) {
            return Ok(node.links[i].cid.clone());
        }
    }
    let mut msg = "'".to_string();
    msg.append(segment);
    msg.append("' not found in directory '");
    msg.append(node.name.as_str());
    msg.append("'");
    Err(msg)
}

/// The message for an intermediate path segment that is not a directory.
pub open spec fn not_a_directory_message(segment: Seq<char>) -> Seq<char> {
    "'"@ + segment + "' is not a directory"@
}

/// If there are more segments after `segment`, the node it led to must be a directory.
pub fn check_intermediate(node: &DagNodeInfo, segment: &str, is_last: bool) -> (ok: Result<(), String>)
    ensures
        (!is_last && node.node_type@ != "directory"@) ==> ok is Err && ok->Err_0@ == not_a_directory_message(segment@),
        !(!is_last && node.node_type@ != "directory"@) ==> ok is Ok,
{
    let t = chars_of(node.node_type.as_str());
    if !is_last && !chars_equal_str(t.as_slice(), "directory") {
        let mut msg = "'".to_string();
        msg.append(segment);
        msg.append("' is not a directory");
        return Err(msg);
    }
    Ok(())
}

/// The message for a path that names a directory.
pub open spec fn is_directory_message(path: Seq<char>) -> Seq<char> {
    "'"@ + path + "' is a directory, not a file"@
}

/// The node that a path leads to must be a file.
pub fn check_file(node: &DagNodeInfo, path: &str) -> (ok: Result<(), String>)
    ensures
        node.node_type@ != "file"@ ==> ok is Err && ok->Err_0@ == is_directory_message(path@),
        node.node_type@ == "file"@ ==> ok is Ok,
{
    let t = chars_of(node.node_type.as_str());
    if !chars_equal_str(t.as_slice(), "file") {
        let mut msg = "'".to_string();
        msg.append(path);
        msg.append("' is a directory, not a file");
        return Err(msg);
    }
    Ok(())
}

/// The views of a sequence of byte vectors.
pub open spec fn byte_views(parts: Seq<Vec<u8>>) -> Seq<Seq<u8>> {
    parts.map_values(|p: Vec<u8>| p@)
}

/// Concatenate the chunks of a file, in order.
pub fn reassemble(parts: &Vec<Vec<u8>>) -> (body: Vec<u8>)
    ensures
        body@ == byte_views(parts@).flatten(),
{
    let mut body: Vec<u8> = Vec::new();
    let n = parts.len();
    for i in 0..n
        invariant
            n == parts@.len(),
            body@ == byte_views(parts@.take(i as int)).flatten(),
    {
        let ghost before = byte_views(parts@.take(i as int));
        body.extend_from_slice(parts[i].as_slice());
        assert(byte_views(parts@.take(i + 1)) =~= before.push(parts@[i as int]@));
        proof {
            before.lemma_flatten_push(parts@[i as int]@);
        }
    }
    assert(parts@.take(n as int) =~= parts@);
    body
}

/// A DAG node from local storage, as sent over the network. `links` are the
/// links that the record's JSON holds.
pub fn node_info_from_record(record: DagNodeRecord, links: Vec<DagLink>) -> (node: DagNodeInfo)
    ensures
        node.cid == record.cid,
        node.name == record.name,
        node.node_type == record.node_type,
        node.size == record.size as u64,
        node.links == links,
{
    DagNodeInfo {
        cid: record.cid,
        name: record.name,
        node_type: record.node_type,
        size: record.size as u64,
        links,
    }
}

/// The site row cached after resolving a site through the DHT: not local
/// (hence not pinned), and with no file count, which the DHT record lacks.
pub fn cached_site(site_name: &str, record: &DhtSiteRecord) -> (row: SiteRecord)
    ensures
        site_row_spec(
            site_name@,
            record.root_cid@,
            record.total_size as i64,
            record.chunk_count as i32,
            0,
            false,
            record.published_at@,
            record.publisher_peer_id@,
            row,
        ),
{
    site_row(
        site_name,
        record.root_cid.as_str(),
        record.total_size as i64,
        record.chunk_count as i32,
        0,  // file_count not in DHT record
        false,
        record.published_at.as_str(),
        record.publisher_peer_id.as_str(),
    )
}

} // verus!
