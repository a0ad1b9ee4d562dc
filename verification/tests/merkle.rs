use chimera::content::cid::{cid_from_bytes, cid_from_dag_json};
use chimera::content::merkle::{build_dag, tree_bytes_checked, node_content_text, push_links_json, DagLink, FsEntry};
use chimera::json::push_json_string;

fn file(dir: &str, name: &str, contents: &str) -> FsEntry {
    FsEntry::File {
        name: name.to_string(), raw_name: name.as_bytes().to_vec(),
        path: format!("{}/{}", dir, name),
        contents: Ok(contents.as_bytes().to_vec()),
    }
}

fn dir(path: &str, name: &str, entries: Vec<FsEntry>) -> FsEntry {
    FsEntry::Dir { name: name.to_string(), raw_name: name.as_bytes().to_vec(), path: path.to_string(), listing: Ok(entries) }
}

/// test_site/
///   index.html
///   css/
///     style.css
fn create_test_site(test_name: &str) -> FsEntry {
    let root = format!("/tmp/chimera_test_{}", test_name);
    let css = dir(&format!("{}/css", root), "css", vec![file(&format!("{}/css", root), "style.css", "body { color: red; }")]);
    dir(
        &root,
        &format!("chimera_test_{}", test_name),
        vec![file(&root, "index.html", "<h1>Hello Chimera</h1>"), css],
    )
}

#[test]
fn test_build_dag_basic() {
    let site_dir = create_test_site("basic");
    let result = build_dag(&site_dir).unwrap();

    // Should have 2 files
    assert_eq!(result.file_count, 2);

    // Should have 2 chunks (each file is small = 1 chunk each)
    assert_eq!(result.chunk_count, 2);

    // Root CID should exist
    assert!(!result.root_cid.is_empty());

    // Total size should be the sum of file sizes
    let expected_size = "<h1>Hello Chimera</h1>".len() + "body { color: red; }".len();
    assert_eq!(result.total_size, expected_size as u64);
}

#[test]
fn test_dag_has_correct_structure() {
    let site_dir = create_test_site("structure");
    let result = build_dag(&site_dir).unwrap();

    // Find the root node (last one added)
    let root = result.nodes.iter().find(|n| n.cid == result.root_cid).unwrap();
    assert_eq!(root.node_type, "directory");

    // Root should have 2 links: "css" (dir) and "index.html" (file)
    assert_eq!(root.links.len(), 2);

    let link_names: Vec<&str> = root.links.iter().map(|l| l.name.as_str()).collect();
    assert!(link_names.contains(&"css"));
    assert!(link_names.contains(&"index.html"));
}

#[test]
fn test_dag_is_deterministic() {
    let site_dir = create_test_site("deterministic");

    // Build DAG twice from the same folder
    let result1 = build_dag(&site_dir).unwrap();
    let result2 = build_dag(&site_dir).unwrap();

    // Root CID should be identical both times
    assert_eq!(result1.root_cid, result2.root_cid);
}

#[test]
fn test_not_a_directory() {
    let file = FsEntry::File {
        name: "chimera_test_file.txt".to_string(), raw_name: b"chimera_test_file.txt".to_vec(),
        path: "/tmp/chimera_test_file.txt".to_string(),
        contents: Ok(b"hello".to_vec()),
    };

    let result = build_dag(&file);
    assert!(result.is_err());
    assert_eq!(result.err().unwrap(), "/tmp/chimera_test_file.txt is not a directory");
}

#[test]
fn listing_order_does_not_change_the_dag() {
    let a = dir("/s", "s", vec![file("/s", "b.html", "b"), file("/s", "a.css", "a"), file("/s", "C.txt", "c")]);
    let b = dir("/s", "s", vec![file("/s", "C.txt", "c"), file("/s", "b.html", "b"), file("/s", "a.css", "a")]);
    let ra = build_dag(&a).unwrap();
    let rb = build_dag(&b).unwrap();
    assert_eq!(ra.root_cid, rb.root_cid);
    let root = ra.nodes.last().unwrap();
    let names: Vec<&str> = root.links.iter().map(|l| l.name.as_str()).collect();
    // byte-wise order: upper case before lower case
    assert_eq!(names, vec!["C.txt", "a.css", "b.html"]);
}

#[test]
fn nodes_come_children_first_root_last() {
    let site = create_test_site("order");
    let result = build_dag(&site).unwrap();
    let types: Vec<&str> = result.nodes.iter().map(|n| n.node_type.as_str()).collect();
    let names: Vec<&str> = result.nodes.iter().map(|n| n.name.as_str()).collect();
    assert_eq!(names, vec!["style.css", "css", "index.html", "chimera_test_order"]);
    assert_eq!(types, vec!["file", "directory", "file", "directory"]);
    assert_eq!(result.nodes.last().unwrap().cid, result.root_cid);
    assert_eq!(result.chunks[0].data, b"body { color: red; }");
    assert_eq!(result.chunks[0].cid, cid_from_bytes(b"body { color: red; }"));
    assert_eq!(result.chunks[1].cid, cid_from_bytes(b"<h1>Hello Chimera</h1>"));
}

#[test]
fn file_node_links_its_chunks_and_is_named_by_its_json() {
    let site = dir("/s", "s", vec![file("/s", "index.html", "<h1>Hi</h1>")]);
    let result = build_dag(&site).unwrap();
    let file_node = &result.nodes[0];
    let chunk_cid = cid_from_bytes(b"<h1>Hi</h1>");
    assert_eq!(file_node.links.len(), 1);
    assert_eq!(file_node.links[0].name, "chunk0");
    assert_eq!(file_node.links[0].cid, chunk_cid);
    assert_eq!(file_node.links[0].size, 11);
    let json = format!(
        "{{\"name\":\"index.html\",\"node_type\":\"file\",\"size\":11,\"links\":[{{\"name\":\"chunk0\",\"cid\":\"{}\",\"size\":11}}]}}",
        chunk_cid
    );
    assert_eq!(node_content_text("index.html", "file", 11, &file_node.links), json);
    assert_eq!(file_node.cid, cid_from_dag_json(json.as_bytes()));
    assert_eq!(result.total_size, 11);
}

#[test]
fn empty_file_gets_one_empty_chunk() {
    let site = dir("/s", "s", vec![file("/s", "index.html", "")]);
    let result = build_dag(&site).unwrap();
    assert_eq!(result.chunk_count, 1);
    assert_eq!(result.chunks[0].size, 0);
    assert_eq!(result.total_size, 0);
}

#[test]
fn unreadable_entries_are_skipped_but_errors_stop_the_build() {
    let site = dir("/s", "s", vec![FsEntry::Broken { error: "gone".to_string() }, file("/s", "a.html", "x")]);
    let result = build_dag(&site).unwrap();
    assert_eq!(result.nodes.last().unwrap().links.len(), 1);

    let bad = dir(
        "/s",
        "s",
        vec![
            FsEntry::File { name: "b.txt".to_string(), raw_name: b"b.txt".to_vec(), path: "/s/b.txt".to_string(), contents: Err("denied".to_string()) },
            FsEntry::Other { name: "a.sock".to_string(), raw_name: b"a.sock".to_vec(), path: "/s/a.sock".to_string() },
        ],
    );
    // "a.sock" comes first by name
    assert_eq!(build_dag(&bad).err().unwrap(), "/s/a.sock is not a file or directory");
    let bad_file = dir(
        "/s",
        "s",
        vec![FsEntry::File { name: "b.txt".to_string(), raw_name: b"b.txt".to_vec(), path: "/s/b.txt".to_string(), contents: Err("denied".to_string()) }],
    );
    assert_eq!(build_dag(&bad_file).err().unwrap(), "Failed to read file /s/b.txt: denied");
    let bad_dir = FsEntry::Dir { name: "s".to_string(), raw_name: b"s".to_vec(), path: "/s".to_string(), listing: Err("no access".to_string()) };
    assert_eq!(build_dag(&bad_dir).err().unwrap(), "Failed to read dir /s: no access");
}

#[test]
fn json_strings_are_escaped_as_serde_json_does() {
    for s in ["plain", "quote\" back\\slash", "tab\tnew\nline\r", "\u{1}\u{8}\u{c}\u{1f}\u{7f}", "ünïcödé €"] {
        let mut out = String::new();
        push_json_string(&mut out, s);
        assert_eq!(out, serde_json::to_string(s).unwrap());
    }
}

#[test]
fn links_json_is_an_array_of_objects() {
    let links = vec![
        DagLink { name: "a".to_string(), cid: "b1".to_string(), size: 1 },
        DagLink { name: "c\"d".to_string(), cid: "b2".to_string(), size: 1234567890123 },
    ];
    let mut out = String::new();
    push_links_json(&mut out, &links);
    assert_eq!(out, "[{\"name\":\"a\",\"cid\":\"b1\",\"size\":1},{\"name\":\"c\\\"d\",\"cid\":\"b2\",\"size\":1234567890123}]");
    let mut empty = String::new();
    push_links_json(&mut empty, &[]);
    assert_eq!(empty, "[]");
}

#[test]
fn published_file_reads_back_by_path() {
    let big: Vec<u8> = (0..600_000u32).map(|i| (i % 251) as u8).collect();
    let site = dir(
        "/site",
        "site",
        vec![
            file("/site", "index.html", "<p>home</p>"),
            dir(
                "/site/docs",
                "docs",
                vec![FsEntry::File { name: "big.bin".to_string(), raw_name: b"big.bin".to_vec(), path: "/site/docs/big.bin".to_string(), contents: Ok(big.clone()) }],
            ),
        ],
    );
    let result = build_dag(&site).unwrap();
    let mut node = result.nodes.last().unwrap();
    assert_eq!(node.cid, result.root_cid);
    for seg in ["docs", "big.bin"] {
        let link = node.links.iter().find(|l| l.name == seg).unwrap();
        node = result.nodes.iter().find(|n| n.cid == link.cid).unwrap();
    }
    assert_eq!(node.node_type, "file");
    assert_eq!(node.links.len(), 3);
    let mut body: Vec<u8> = Vec::new();
    for link in &node.links {
        let chunk = result.chunks.iter().find(|c| c.cid == link.cid).unwrap();
        body.extend_from_slice(&chunk.data);
    }
    assert_eq!(body, big);
}

#[test]
fn nested_listing_order_does_not_change_the_dag() {
    let sub_a = dir("/s/d", "d", vec![file("/s/d", "y.js", "y"), file("/s/d", "x.js", "x")]);
    let sub_b = dir("/s/d", "d", vec![file("/s/d", "x.js", "x"), file("/s/d", "y.js", "y")]);
    let a = dir("/s", "s", vec![file("/s", "index.html", "i"), sub_a]);
    let b = dir("/s", "s", vec![sub_b, file("/s", "index.html", "i")]);
    let ra = build_dag(&a).unwrap();
    let rb = build_dag(&b).unwrap();
    assert_eq!(ra.root_cid, rb.root_cid);
    let na: Vec<&str> = ra.nodes.iter().map(|n| n.cid.as_str()).collect();
    let nb: Vec<&str> = rb.nodes.iter().map(|n| n.cid.as_str()).collect();
    assert_eq!(na, nb);
}

#[test]
fn entries_are_ordered_by_their_raw_names() {
    // a name that is not UTF-8 (byte 0x80) is shown as U+FFFD but ordered by its bytes
    let odd = FsEntry::File {
        name: "\u{FFFD}".to_string(),
        raw_name: vec![0x80],
        path: "/s/\u{FFFD}".to_string(),
        contents: Ok(b"odd".to_vec()),
    };
    let site = dir("/s", "s", vec![file("/s", "ø.html", "o"), odd]);
    let result = build_dag(&site).unwrap();
    let names: Vec<&str> = result.nodes.last().unwrap().links.iter().map(|l| l.name.as_str()).collect();
    assert_eq!(names, vec!["\u{FFFD}", "ø.html"]);
}

#[test]
fn tree_bytes_are_counted_when_they_fit() {
    let site = create_test_site("bytes");
    let expected = ("<h1>Hello Chimera</h1>".len() + "body { color: red; }".len()) as u64;
    assert_eq!(tree_bytes_checked(&site), Some(expected));
    assert_eq!(tree_bytes_checked(&file("/s", "a", "abc")), Some(3));
}
