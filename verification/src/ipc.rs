//! What the frontend is sent, and how the addresses it asks for are read.

use vstd::prelude::*;

use crate::json::{decimal, push_decimal};
use crate::retriever::trim_leading_slashes;
use crate::storage::SiteRecord;
use crate::text::{chars_equal_str, chars_of, push_chars, string_of};

verus! {

broadcast use vstd::string::group_string_axioms;

/// What publishing answers to the frontend.
pub struct PublishResult {
    pub site_name: String,
    pub root_cid: String,
    pub total_size: u64,
    pub chunk_count: u32,
    pub file_count: u32,
}

/// A published site, as listed to the frontend.
pub struct SiteInfo {
    pub name: String,
    pub root_cid: String,
    pub total_size: i64,
    pub chunk_count: i32,
    pub file_count: i32,
    pub published_at: String,
    pub is_local: bool,
    pub is_pinned: bool,
}

/// Content returned for chimera:// URLs.
pub struct WebContent {
    pub content_type: String,
    pub body: Vec<u8>,
    pub file_path: String,
}

/// The listing entry of a stored site.
pub fn site_info(s: SiteRecord) -> (info: SiteInfo)
    ensures
        info.name == s.name,
        info.root_cid == s.root_cid,
        info.total_size == s.total_size,
        info.chunk_count == s.chunk_count,
        info.file_count == s.file_count,
        info.published_at == s.published_at,
        info.is_local == s.is_local,
        info.is_pinned == s.is_pinned,
{
    SiteInfo {
        name: s.name,
        root_cid: s.root_cid,
        total_size: s.total_size,
        chunk_count: s.chunk_count,
        file_count: s.file_count,
        published_at: s.published_at,
        is_local: s.is_local,
        is_pinned: s.is_pinned,
    }
}

/// What the frontend's answer to publishing holds.
pub fn publish_answer(r: crate::publisher::PublishResult) -> (answer: PublishResult)
    ensures
        answer.site_name == r.site_name,
        answer.root_cid == r.root_cid,
        answer.total_size == r.total_size,
        answer.chunk_count == r.chunk_count,
        answer.file_count == r.file_count,
{
    PublishResult {
        site_name: r.site_name,
        root_cid: r.root_cid,
        total_size: r.total_size,
        chunk_count: r.chunk_count,
        file_count: r.file_count,
    }
}

/// Index of the first `/` in `s`, or `s.len()` when there is none.
pub open spec fn first_slash(s: Seq<char>) -> int
    decreases s.len(),
{
    if s.len() == 0 {
        0
    } else if s[0] == '/' {
        0
    } else {
        1 + first_slash(s.drop_first())
    }
}

proof fn lemma_first_slash(s: Seq<char>)
    ensures
        0 <= first_slash(s) <= s.len(),
        forall|i: int| 0 <= i < first_slash(s) ==> #[trigger] s[i] != '/',
        first_slash(s) < s.len() ==> s[first_slash(s)] == '/',
    decreases s.len(),
{
    if s.len() > 0 && s[0] != '/' {
        lemma_first_slash(s.drop_first());
        assert forall|i: int| 0 <= i < first_slash(s) implies #[trigger] s[i] != '/' by {
            if i > 0 {
                assert(s[i] == s.drop_first()[i - 1]);
            }
        }
    }
}

fn find_slash(cs: &[char]) -> (p: usize)
    ensures
        p == first_slash(cs@),
        p <= cs@.len(),
        p < cs@.len() ==> cs@[p as int] == '/',
        forall|i: int| 0 <= i < p ==> #[trigger] cs@[i] != '/',
{
    proof {
        lemma_first_slash(cs@);
    }
    let mut p: usize = 0;
    while p < cs.len() && cs[p] != '/'
        invariant
            p <= cs@.len(),
            0 <= first_slash(cs@) <= cs@.len(),
            forall|i: int| 0 <= i < first_slash(cs@) ==> #[trigger] cs@[i] != '/',
            first_slash(cs@) < cs@.len() ==> cs@[first_slash(cs@)] == '/',
            forall|i: int| 0 <= i < p ==> #[trigger] cs@[i] != '/',
        decreases cs@.len() - p,
    {
        p = p + 1;
    }
    p
}

/// The scheme of the browser's own sites.
pub open spec fn chimera_scheme() -> Seq<char> {
    "chimera://"@
}

/// The message for an address without a site name.
pub open spec fn no_site_message() -> Seq<char> {
    "No site name in URL"@
}

/// Reading a chimera:// URL: `None` for other URLs (the frontend handles
/// those); otherwise the site name and the path within the site
/// ("chimera://my-site/about.html" → "my-site", "/about.html"; no path gives
/// "/index.html"), or an error when the site name is empty.
pub open spec fn url_spec(url: Seq<char>) -> Option<Result<(Seq<char>, Seq<char>), Seq<char>>> {
    let scheme = chimera_scheme();
    if url.len() < scheme.len() || url.take(scheme.len() as int) != scheme {
        None
    } else {
        let rest = url.skip(scheme.len() as int);
        let p = first_slash(rest);
        let (site, path) = if p < rest.len() {
            (rest.take(p), seq!['/'] + rest.skip(p + 1))
        } else {
            (rest, "/index.html"@)
        };
        if site.len() == 0 {
            Some(Err(no_site_message()))
        } else {
            Some(Ok((site, path)))
        }
    }
}

proof fn lemma_first_slash_after(site: Seq<char>, rest: Seq<char>)
    requires
        forall|i: int| 0 <= i < site.len() ==> #[trigger] site[i] != '/',
    ensures
        first_slash(site + seq!['/'] + rest) == site.len(),
    decreases site.len(),
{
    if site.len() > 0 {
        lemma_first_slash_after(site.drop_first(), rest);
        assert((site + seq!['/'] + rest).drop_first() =~= site.drop_first() + seq!['/'] + rest);
    }
}

/// Reading back a chimera:// URL: the address of a page `/path` of the site
/// `site` (a name without slashes) gives that site and that page, and the
/// address of the site alone gives its index page.
pub proof fn lemma_url_round_trip(site: Seq<char>, path: Seq<char>)
    requires
        site.len() > 0,
        forall|i: int| 0 <= i < site.len() ==> #[trigger] site[i] != '/',
    ensures
        url_spec(chimera_scheme() + site + seq!['/'] + path) == Some(
            Ok::<(Seq<char>, Seq<char>), Seq<char>>((site, seq!['/'] + path)),
        ),
        url_spec(chimera_scheme() + site) == Some(
            Ok::<(Seq<char>, Seq<char>), Seq<char>>((site, "/index.html"@)),
        ),
{
    let scheme = chimera_scheme();
    let url = scheme + site + seq!['/'] + path;
    assert(url.take(scheme.len() as int) =~= scheme);
    assert(url.skip(scheme.len() as int) =~= site + seq!['/'] + path);
    lemma_first_slash_after(site, path);
    let rest = site + seq!['/'] + path;
    assert(rest.take(site.len() as int) =~= site);
    assert(rest.skip(site.len() + 1int) =~= path);
    let url2 = scheme + site;
    assert(url2.take(scheme.len() as int) =~= scheme);
    assert(url2.skip(scheme.len() as int) =~= site);
    lemma_first_slash(site);
    if first_slash(site) < site.len() {
        assert(site[first_slash(site)] != '/');
    }
}

/// The value of what [`parse_chimera_url`] gives.
pub open spec fn url_view(r: Option<Result<(String, String), String>>) -> Option<Result<(Seq<char>, Seq<char>), Seq<char>>> {
    match r {
        None => None,
        Some(Ok((a, b))) => Some(Ok((a@, b@))),
        Some(Err(e)) => Some(Err(e@)),
    }
}

/// Parse "chimera://my-site/about.html" → site_name="my-site", file_path="/about.html".
pub fn parse_chimera_url(url: &str) -> (parsed: Option<Result<(String, String), String>>)
    ensures
        url_view(parsed) == url_spec(url@),
{
    proof {
        reveal_strlit("chimera://");
    }
    let cs = chars_of(url);
    if cs.len() < 10 || !chars_equal_str(vstd::slice::slice_subrange(cs.as_slice(), 0, 10), "chimera://") {
        proof {
            if cs@.len() >= 10 {
                assert(cs@.subrange(0, 10) =~= url@.take(10));
            }
        }
        return None;
    }
    assert(cs@.subrange(0, 10) =~= url@.take(10));
    let rest = vstd::slice::slice_subrange(cs.as_slice(), 10, cs.len());
    assert(rest@ =~= url@.skip(10));
    let p = find_slash(rest);
    let (site, path) = if p < rest.len() {
        let site = string_of(vstd::slice::slice_subrange(rest, 0, p));
        let mut path = String::new();
        crate::text::push_char(&mut path, '/');
        push_chars(&mut path, vstd::slice::slice_subrange(rest, p + 1, rest.len()));
        assert(site@ =~= rest@.take(p as int));
        assert(path@ =~= seq!['/'] + rest@.skip(p + 1));
        (site, path)
    } else {
        (string_of(rest), "/index.html".to_string())
    };
    if site.as_str().unicode_len() == 0 {
        return Some(Err("No site name in URL".to_string()));
    }
    Some(Ok((site, path)))
}

/// An error page for the content protocol.
pub open spec fn error_page_spec(status: u16, msg: Seq<char>) -> Seq<char> {
    "<html><body><h1>Error "@ + decimal(status as nat) + "</h1><p>"@ + msg + "</p></body></html>"@
}

/// The HTML body of an error answer.
pub fn error_page(status: u16, msg: &str) -> (body: String)
    ensures
        body@ == error_page_spec(status, msg@),
{
    let mut body = "<html><body><h1>Error ".to_string();
    push_decimal(&mut body, status as u64);
    body.append("</h1><p>");
    body.append(msg);
    body.append("</p></body></html>");
    body
}

/// Where a request of the content protocol goes.
pub struct ContentRoute {
    pub site_name: String,
    pub file_path: String,
    /// The site name came from the request: it becomes the current site, so
    /// that absolute paths (like /assets/foo.js) resolve to it.
    pub remember_site: bool,
}

/// The first segment of a request path (format: /site-name/path/to/file).
pub open spec fn first_segment_spec(path: Seq<char>) -> Seq<char> {
    let p = trim_leading_slashes(path);
    p.take(first_slash(p))
}

/// Routing a request for `path` (format: /site-name/path/to/file) when the
/// last site browsed is `current_site` and `first_is_site` tells whether the
/// first path segment is a known site: the site, the file path within it,
/// and whether the site came from the request; or the message of a 404.
pub open spec fn route_spec(path: Seq<char>, current_site: Seq<char>, first_is_site: bool) -> Result<
    (Seq<char>, Seq<char>, bool),
    Seq<char>,
> {
    let p = trim_leading_slashes(path);
    if p.len() == 0 {
        Err(no_site_message())
    } else {
        let k = first_slash(p);
        let first = p.take(k);
        let rest = if k < p.len() {
            p.skip(k + 1)
        } else {
            Seq::empty()
        };
        let fp = if rest.len() == 0 {
            "/index.html"@
        } else {
            seq!['/'] + rest
        };
        if first_is_site {
            Ok((first, fp, true))
        } else if current_site.len() == 0 {
            Err("No site context for this request"@)
        } else {
            Ok((current_site, seq!['/'] + p, false))
        }
    }
}

/// The value of a routing outcome.
pub open spec fn route_view(r: Result<ContentRoute, String>) -> Result<(Seq<char>, Seq<char>, bool), Seq<char>> {
    match r {
        Ok(c) => Ok((c.site_name@, c.file_path@, c.remember_site)),
        Err(e) => Err(e@),
    }
}

/// The first segment of a request path: the name to look up as a site.
pub fn first_segment(path: &str) -> (segment: String)
    ensures
        segment@ == first_segment_spec(path@),
{
    let path = crate::retriever::trim_leading_slashes_of(path);
    let cs = chars_of(path.as_str());
    let k = find_slash(cs.as_slice());
    let first_chars = vstd::slice::slice_subrange(cs.as_slice(), 0, k);
    assert(first_chars@ =~= cs@.take(k as int));
    string_of(first_chars)
}

/// Where a request of the content protocol goes.
///
/// `first_is_site` tells whether the first path segment is a known site (one
/// stored locally or announced in the DHT). If it isn't, the request is for a
/// resource (like /assets/foo.js) of the last-browsed site.
pub fn route_content(path: &str, current_site: &str, first_is_site: bool) -> (route: Result<ContentRoute, String>)
    ensures
        route_view(route) == route_spec(path@, current_site@, first_is_site),
{
    let path = crate::retriever::trim_leading_slashes_of(path);
    let cs = chars_of(path.as_str());
    if cs.len() == 0 {
        return Err("No site name in URL".to_string());
    }
    let k = find_slash(cs.as_slice());
    let first_chars = vstd::slice::slice_subrange(cs.as_slice(), 0, k);
    let rest = if k < cs.len() {
        vstd::slice::slice_subrange(cs.as_slice(), k + 1, cs.len())
    } else {
        vstd::slice::slice_subrange(cs.as_slice(), 0, 0)
    };
    assert(k < cs@.len() ==> rest@ =~= cs@.skip(k + 1));
    assert(k == cs@.len() ==> rest@ =~= Seq::<char>::empty());
    let fp = if rest.len() == 0 {
        "/index.html".to_string()
    } else {
        let mut fp = String::new();
        crate::text::push_char(&mut fp, '/');
        push_chars(&mut fp, rest);
        fp
    };
    let first = string_of(first_chars);
    assert(first@ =~= cs@.take(k as int));
    if first_is_site {
        return Ok(ContentRoute { site_name: first, file_path: fp, remember_site: true });
    }
    if current_site.unicode_len() == 0 {
        return Err("No site context for this request".to_string());
    }
    let mut file_path = String::new();
    crate::text::push_char(&mut file_path, '/');
    file_path.append(path.as_str());
    Ok(ContentRoute { site_name: current_site.to_string(), file_path, remember_site: false })
}

} // verus!
