use chimera::ipc::{error_page, first_segment, parse_chimera_url, route_content};
use chimera::node::{keypair_seed, listen_address, relay_circuit_address, relay_listen_address, NodeConfig, RELAY_BOOTSTRAP};
use chimera::storage::{shard, site_row, ChunkStore};

#[test]
fn config_paths() {
    let config = NodeConfig::default_config(Some("/home/noel"));
    assert_eq!(config.data_dir, "/home/noel/.chimera");
    assert!(config.bootstrap_nodes.is_empty());
    assert_eq!(config.tcp_port, 0);
    let started = NodeConfig::with_relay(Some("/home/noel"));
    assert_eq!(started.data_dir, "/home/noel/.chimera");
    assert_eq!(started.bootstrap_nodes, vec![RELAY_BOOTSTRAP.to_string()]);
    assert_eq!(started.tcp_port, 0);
    assert_eq!(config.keypair_path(), "/home/noel/.chimera/identity/keypair.bin");
    assert_eq!(config.chunks_dir(), "/home/noel/.chimera/chunks");
    assert_eq!(config.database_path(), "/home/noel/.chimera/chimera.db");
    assert_eq!(NodeConfig::default_config(None).data_dir, "./.chimera");
    assert_eq!(NodeConfig::default_config(Some("/")).data_dir, "/.chimera");
}

#[test]
fn chunk_paths_are_sharded() {
    let store = ChunkStore::in_base_dir("/data");
    assert_eq!(store.chunks_dir(), "/data/chunks");
    assert_eq!(store.chunk_path("bafkreigxyz"), "/data/chunks/ba/bafkreigxyz");
    assert_eq!(store.chunk_path("b"), "/data/chunks/xx/b");
    assert_eq!(shard("éa"), "éa");
    assert_eq!(shard("aéb"), "aé");
    assert_eq!(shard("é"), "xx");
    assert_eq!(store.chunk_path("aéb"), "/data/chunks/aé/aéb");
}

#[test]
fn local_sites_are_pinned() {
    let row = site_row("my-site", "cid_root", 5000, 10, 3, true, "2026-03-14T12:00:00Z", "peer123");
    assert!(row.is_local);
    assert!(row.is_pinned);
    let visited = site_row("my-site", "cid_root", 5000, 10, 3, false, "t", "p");
    assert!(!visited.is_pinned);
}

#[test]
fn keypair_seeds() {
    let old: Vec<u8> = (0..64).collect();
    assert_eq!(keypair_seed(old), (0..32).collect::<Vec<u8>>());
    let new: Vec<u8> = (0..32).collect();
    assert_eq!(keypair_seed(new.clone()), new);
}

#[test]
fn addresses() {
    assert_eq!(listen_address(0), "/ip4/0.0.0.0/tcp/0");
    assert_eq!(listen_address(4001), "/ip4/0.0.0.0/tcp/4001");
    assert_eq!(relay_listen_address("/ip4/1.2.3.4/tcp/4001/p2p/R"), "/ip4/1.2.3.4/tcp/4001/p2p/R/p2p-circuit");
    assert_eq!(relay_circuit_address("/ip4/1.2.3.4/tcp/4001/p2p/R", "P"), "/ip4/1.2.3.4/tcp/4001/p2p/R/p2p-circuit/p2p/P");
}

#[test]
fn chimera_urls() {
    assert_eq!(parse_chimera_url("https://example.com"), None);
    assert_eq!(
        parse_chimera_url("chimera://my-site/about.html"),
        Some(Ok(("my-site".to_string(), "/about.html".to_string())))
    );
    assert_eq!(
        parse_chimera_url("chimera://my-site"),
        Some(Ok(("my-site".to_string(), "/index.html".to_string())))
    );
    assert_eq!(
        parse_chimera_url("chimera://my-site/css/a.css"),
        Some(Ok(("my-site".to_string(), "/css/a.css".to_string())))
    );
    assert_eq!(parse_chimera_url("chimera:///x"), Some(Err("No site name in URL".to_string())));
}

#[test]
fn content_requests_are_routed() {
    assert_eq!(first_segment("/sample/css/style.css"), "sample");
    assert_eq!(first_segment("//sample"), "sample");
    let r = route_content("/sample/css/style.css", "", true).unwrap();
    assert_eq!((r.site_name.as_str(), r.file_path.as_str(), r.remember_site), ("sample", "/css/style.css", true));
    let r = route_content("/sample", "", true).unwrap();
    assert_eq!(r.file_path, "/index.html");
    // a first segment that is not a known site is a resource of the last-browsed site
    let r = route_content("/assets/foo.js", "sample", false).unwrap();
    assert_eq!((r.site_name.as_str(), r.file_path.as_str(), r.remember_site), ("sample", "/assets/foo.js", false));
    let r = route_content("/Assets/foo.js", "sample", false).unwrap();
    assert_eq!((r.site_name.as_str(), r.file_path.as_str(), r.remember_site), ("sample", "/Assets/foo.js", false));
    assert_eq!(route_content("/", "", false).err().unwrap(), "No site name in URL");
    assert_eq!(route_content("/assets/foo.js", "", false).err().unwrap(), "No site context for this request");
}

#[test]
fn error_pages() {
    assert_eq!(
        error_page(404, "No site name in URL"),
        "<html><body><h1>Error 404</h1><p>No site name in URL</p></body></html>"
    );
}
