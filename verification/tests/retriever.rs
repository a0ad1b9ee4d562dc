use chimera::content::merkle::{build_dag, FsEntry};
use chimera::network::{DagLink, DagNodeInfo, DhtSiteRecord};
use chimera::retriever::{
    cached_site, check_file, check_intermediate, content_type_from_path, find_link, path_segments,
    reassemble, request_path,
};

fn node(name: &str, node_type: &str, links: &[(&str, &str)]) -> DagNodeInfo {
    DagNodeInfo {
        cid: format!("cid-{}", name),
        name: name.to_string(),
        node_type: node_type.to_string(),
        size: 0,
        links: links
            .iter()
            .map(|(n, c)| DagLink { name: n.to_string(), cid: c.to_string(), size: 1 })
            .collect(),
    }
}

#[test]
fn request_paths_default_to_index() {
    assert_eq!(request_path(""), "index.html");
    assert_eq!(request_path("/"), "index.html");
    assert_eq!(request_path("/about.html"), "about.html");
    assert_eq!(request_path("//css/style.css"), "css/style.css");
    assert_eq!(request_path("a/b"), "a/b");
}

#[test]
fn segments_skip_empty_pieces() {
    assert_eq!(path_segments("css/style.css"), vec!["css", "style.css"]);
    assert_eq!(path_segments("/a//b/"), vec!["a", "b"]);
    assert!(path_segments("").is_empty());
    assert!(path_segments("///").is_empty());
}

#[test]
fn content_types_by_extension() {
    assert_eq!(content_type_from_path("index.html"), "text/html");
    assert_eq!(content_type_from_path("a.htm"), "text/html");
    assert_eq!(content_type_from_path("css/style.css"), "text/css");
    assert_eq!(content_type_from_path("app.mjs"), "application/javascript");
    assert_eq!(content_type_from_path("data.json"), "application/json");
    assert_eq!(content_type_from_path("img/a.b.jpeg"), "image/jpeg");
    assert_eq!(content_type_from_path("logo.svg"), "image/svg+xml");
    assert_eq!(content_type_from_path("font.woff2"), "font/woff2");
    assert_eq!(content_type_from_path("notes.txt"), "text/plain");
    assert_eq!(content_type_from_path("README"), "application/octet-stream");
    assert_eq!(content_type_from_path("archive.tar.gz"), "application/octet-stream");
    assert_eq!(content_type_from_path("html"), "text/html");
}

#[test]
fn links_are_followed_by_name() {
    let root = node("site", "directory", &[("css", "c1"), ("index.html", "c2"), ("css", "c3")]);
    assert_eq!(find_link(&root, "index.html"), Ok("c2".to_string()));
    assert_eq!(find_link(&root, "css"), Ok("c1".to_string()));
    assert_eq!(
        find_link(&root, "missing.html"),
        Err("'missing.html' not found in directory 'site'".to_string())
    );
}

#[test]
fn only_directories_can_be_walked_through_and_only_files_fetched() {
    let f = node("a.html", "file", &[]);
    let d = node("css", "directory", &[]);
    assert_eq!(check_intermediate(&f, "a.html", false), Err("'a.html' is not a directory".to_string()));
    assert_eq!(check_intermediate(&f, "a.html", true), Ok(()));
    assert_eq!(check_intermediate(&d, "css", false), Ok(()));
    assert_eq!(check_file(&f, "a.html"), Ok(()));
    assert_eq!(check_file(&d, "css"), Err("'css' is a directory, not a file".to_string()));
}

#[test]
fn chunks_are_concatenated_in_order() {
    assert_eq!(reassemble(&vec![b"ab".to_vec(), vec![], b"cde".to_vec()]), b"abcde".to_vec());
    assert!(reassemble(&vec![]).is_empty());
}

#[test]
fn a_published_file_comes_back_whole() {
    let data: Vec<u8> = (0..(chimera::content::chunker::CHUNK_SIZE * 2 + 5)).map(|i| (i % 7) as u8).collect();
    let site = FsEntry::Dir {
        name: "s".to_string(), raw_name: b"s".to_vec(),
        path: "/s".to_string(),
        listing: Ok(vec![FsEntry::File { name: "big.bin".to_string(), raw_name: b"big.bin".to_vec(), path: "/s/big.bin".to_string(), contents: Ok(data.clone()) }]),
    };
    let dag = build_dag(&site).unwrap();
    let file_node = &dag.nodes[0];
    let parts: Vec<Vec<u8>> = file_node
        .links
        .iter()
        .map(|l| dag.chunks.iter().find(|c| c.cid == l.cid).unwrap().data.clone())
        .collect();
    assert_eq!(reassemble(&parts), data);
}

#[test]
fn sites_resolved_through_the_dht_are_cached_unpinned() {
    let record = DhtSiteRecord {
        root_cid: "root".to_string(),
        publisher_peer_id: "peer".to_string(),
        total_size: 10,
        chunk_count: 2,
        published_at: "now".to_string(),
    };
    let row = cached_site("my-site", &record);
    assert_eq!(row.name, "my-site");
    assert_eq!(row.root_cid, "root");
    assert_eq!(row.file_count, 0);
    assert!(!row.is_local);
    assert!(!row.is_pinned);
    assert_eq!(row.publisher_peer_id, "peer");
}
