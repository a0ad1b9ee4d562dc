use chimera::content::merkle::FsEntry;
use chimera::publisher::{has_html_file, is_html_name, prepare_publish, validate_site_name};

fn file(dir: &str, name: &str, contents: &str) -> FsEntry {
    FsEntry::File {
        name: name.to_string(), raw_name: name.as_bytes().to_vec(),
        path: format!("{}/{}", dir, name),
        contents: Ok(contents.as_bytes().to_vec()),
    }
}

fn create_test_site(test_name: &str) -> FsEntry {
    let root = format!("/tmp/chimera_pub_site_{}", test_name);
    let css = FsEntry::Dir {
        name: "css".to_string(), raw_name: b"css".to_vec(),
        path: format!("{}/css", root),
        listing: Ok(vec![file(&format!("{}/css", root), "style.css", "body {}")]),
    };
    FsEntry::Dir {
        name: format!("chimera_pub_site_{}", test_name), raw_name: format!("chimera_pub_site_{}", test_name).as_bytes().to_vec(),
        path: root.clone(),
        listing: Ok(vec![file(&root, "index.html", "<h1>Hello</h1>"), css]),
    }
}

#[test]
fn test_validate_site_name() {
    // Valid names
    assert!(validate_site_name("my-site").is_ok());
    assert!(validate_site_name("hello123").is_ok());
    assert!(validate_site_name("abc").is_ok());

    // Invalid names
    assert!(validate_site_name("ab").is_err()); // too short
    assert!(validate_site_name("AB").is_err()); // uppercase
    assert!(validate_site_name("-bad").is_err()); // starts with hyphen
    assert!(validate_site_name("bad-").is_err()); // ends with hyphen
    assert!(validate_site_name("has space").is_err()); // space
    assert!(validate_site_name("has_under").is_err()); // underscore
}

#[test]
fn site_name_messages() {
    assert_eq!(validate_site_name("ab").unwrap_err(), "Site name must be 3-63 characters");
    assert_eq!(validate_site_name(&"a".repeat(64)).unwrap_err(), "Site name must be 3-63 characters");
    assert!(validate_site_name(&"a".repeat(63)).is_ok());
    assert_eq!(validate_site_name("-bad").unwrap_err(), "Site name cannot start or end with a hyphen");
    assert_eq!(
        validate_site_name("has space").unwrap_err(),
        "Site name can only contain lowercase letters, numbers, and hyphens. Found: ' '"
    );
    // length counts bytes: two two-byte characters are four bytes
    assert_eq!(
        validate_site_name("éé").unwrap_err(),
        "Site name can only contain lowercase letters, numbers, and hyphens. Found: 'é'"
    );
}

#[test]
fn test_invalid_site_name() {
    let site_dir = create_test_site("bad_name");

    // Too short
    assert!(prepare_publish("ab", &site_dir, "2026-03-14T12:00:00Z").is_err());

    // Uppercase
    assert!(prepare_publish("MyBadSite", &site_dir, "2026-03-14T12:00:00Z").is_err());

    // Starts with hyphen
    assert!(prepare_publish("-bad", &site_dir, "2026-03-14T12:00:00Z").is_err());

    // Contains space
    assert!(prepare_publish("bad site", &site_dir, "2026-03-14T12:00:00Z").is_err());
}

#[test]
fn test_folder_must_have_html() {
    let site_dir = FsEntry::Dir {
        name: "chimera_pub_site_nohtml".to_string(), raw_name: b"chimera_pub_site_nohtml".to_vec(),
        path: "/tmp/chimera_pub_site_nohtml".to_string(),
        listing: Ok(vec![file("/tmp/chimera_pub_site_nohtml", "readme.txt", "no html here")]),
    };

    let result = prepare_publish("no-html", &site_dir, "2026-03-14T12:00:00Z");
    assert!(result.is_err());
    assert!(result.err().unwrap().contains("html"));
}

#[test]
fn test_publish_site_works() {
    let site_dir = create_test_site("basic");
    let plan = prepare_publish("my-test-site", &site_dir, "2026-03-14T12:00:00Z").ok().unwrap();
    let result = &plan.result;
    assert_eq!(result.site_name, "my-test-site");
    assert!(!result.root_cid.is_empty());
    assert_eq!(result.file_count, 2);
    assert_eq!(result.chunk_count, 2);
    assert!(result.total_size > 0);
    assert_eq!(plan.site.root_cid, result.root_cid);
    assert!(plan.site.is_local);
    assert!(plan.site.is_pinned);
    assert_eq!(plan.site.publisher_peer_id, "local");
    assert_eq!(plan.chunk_records.len(), 2);
    assert!(plan.chunk_records.iter().all(|c| c.is_pinned));
    assert_eq!(plan.node_records.len(), 4);
    assert_eq!(plan.node_records[0].links_json, format!(
        "[{{\"name\":\"chunk0\",\"cid\":\"{}\",\"size\":7}}]",
        plan.dag.chunks[0].cid
    ));
    // the root CID is a DAG node, not a chunk
    assert!(plan.chunk_records.iter().all(|c| c.cid != result.root_cid));
}

#[test]
fn folder_that_is_not_a_directory() {
    let f = file("/tmp", "x.html", "<p>");
    assert_eq!(
        prepare_publish("abc", &f, "t").err().unwrap(),
        "'/tmp/x.html' is not a directory"
    );
}

#[test]
fn html_names_follow_path_extensions() {
    assert!(is_html_name("index.html"));
    assert!(is_html_name("a.htm"));
    assert!(is_html_name("x.tar.html"));
    assert!(!is_html_name(".html"));
    assert!(!is_html_name("index.HTML"));
    assert!(!is_html_name("index.html.bak"));
    assert!(!is_html_name("html"));
}

#[test]
fn html_is_found_in_subdirectories_and_errors_are_reported() {
    let nested = FsEntry::Dir {
        name: "s".to_string(), raw_name: b"s".to_vec(),
        path: "/s".to_string(),
        listing: Ok(vec![FsEntry::Dir {
            name: "pages".to_string(), raw_name: b"pages".to_vec(),
            path: "/s/pages".to_string(),
            listing: Ok(vec![file("/s/pages", "about.htm", "")]),
        }]),
    };
    assert_eq!(has_html_file(&nested), Ok(true));
    let broken = FsEntry::Dir {
        name: "s".to_string(), raw_name: b"s".to_vec(),
        path: "/s".to_string(),
        listing: Ok(vec![FsEntry::Broken { error: "io".to_string() }, file("/s", "a.html", "")]),
    };
    assert_eq!(has_html_file(&broken), Err("Failed to read entry: io".to_string()));
    let unlisted = FsEntry::Dir { name: "s".to_string(), raw_name: b"s".to_vec(), path: "/s".to_string(), listing: Err("denied".to_string()) };
    assert_eq!(has_html_file(&unlisted), Err("Failed to read directory: denied".to_string()));
}

#[test]
fn test_publish_creates_chunks_on_disk() {
    let site_dir = create_test_site("chunks_on_disk");
    let plan = prepare_publish("disk-test", &site_dir, "2026-03-14T12:00:00Z").ok().unwrap();

    // Every chunk recorded in the database is one that is saved to disk
    assert_eq!(plan.chunk_records.len(), plan.result.chunk_count as usize);
    for record in &plan.chunk_records {
        assert!(plan.dag.chunks.iter().any(|c| c.cid == record.cid));
    }
}
