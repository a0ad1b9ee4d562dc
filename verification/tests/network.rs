use chimera::network::{
    links_json_text, DagLink,
    answer_chunk_request, answer_dag_request, bootstrapped_after_close, bootstrapped_after_connect,
    chunk_reply, dag_reply, site_announcement, site_record_key, ChunkRequest, ChunkResponse,
    DagRequest, DagResponse, CHUNK_PROTOCOL, DAG_PROTOCOL, chunk_request_failed, dag_request_failed,
    lookup_reply, put_reply, LookupOutcome,
};

#[test]
fn protocol_names() {
    assert_eq!(CHUNK_PROTOCOL, "/chimera/chunk/1.0.0");
    assert_eq!(DAG_PROTOCOL, "/chimera/dag/1.0.0");
}

#[test]
fn site_keys() {
    assert_eq!(site_record_key("my-site"), "/chimera/site/my-site");
}

#[test]
fn site_records_are_written_as_serde_json_writes_them() {
    let record = site_announcement(
        "bafyroot".to_string(),
        "12D3Koo".to_string(),
        5000,
        10,
        "2026-03-14T12:00:00Z".to_string(),
    );
    let bytes = record.to_json_bytes();
    assert_eq!(
        String::from_utf8(bytes.clone()).unwrap(),
        "{\"root_cid\":\"bafyroot\",\"publisher_peer_id\":\"12D3Koo\",\"total_size\":5000,\"chunk_count\":10,\"published_at\":\"2026-03-14T12:00:00Z\"}"
    );
    let value: serde_json::Value = serde_json::from_slice(&bytes).unwrap();
    assert_eq!(value["total_size"], serde_json::Value::from(5000u64));
}

#[test]
fn chunk_requests_are_served_from_storage() {
    let found = answer_chunk_request(ChunkRequest { cid: "c".to_string() }, Some(b"xyz".to_vec()));
    assert!(found.found);
    assert_eq!(found.data, b"xyz");
    assert_eq!(found.cid, "c");
    let missing = answer_chunk_request(ChunkRequest { cid: "c".to_string() }, None);
    assert!(!missing.found);
    assert!(missing.data.is_empty());
}

#[test]
fn replies_are_routed_to_the_caller() {
    let ok = chunk_reply(ChunkResponse { cid: "c".to_string(), data: b"d".to_vec(), found: true });
    assert_eq!(ok, Ok(b"d".to_vec()));
    let err = chunk_reply(ChunkResponse { cid: "c".to_string(), data: vec![], found: false });
    assert_eq!(err, Err("Peer doesn't have chunk c".to_string()));
    let none = dag_reply(answer_dag_request(DagRequest { cid: "n".to_string() }, None));
    assert_eq!(none.err().unwrap(), "Peer doesn't have DAG node n");
}

#[test]
fn bootstrapping_follows_the_relay_connection() {
    assert!(bootstrapped_after_connect(false, true));
    assert!(!bootstrapped_after_connect(false, false));
    assert!(bootstrapped_after_connect(true, false));
    let relays = vec!["relay-peer".to_string()];
    assert!(!bootstrapped_after_close(true, &relays, "relay-peer"));
    assert!(bootstrapped_after_close(true, &relays, "other-peer"));
    assert!(!bootstrapped_after_close(false, &relays, "other-peer"));
}

#[test]
fn served_chunks_reach_the_caller_unchanged() {
    let served = answer_chunk_request(ChunkRequest { cid: "c".to_string() }, Some(vec![0, 1, 2, 255]));
    assert_eq!(chunk_reply(served), Ok(vec![0, 1, 2, 255]));
    let refused = answer_chunk_request(ChunkRequest { cid: "c".to_string() }, None);
    assert_eq!(chunk_reply(refused), Err("Peer doesn't have chunk c".to_string()));
}

#[test]
fn cached_node_links_are_json() {
    let links = vec![DagLink { name: "chunk0".to_string(), cid: "bafk".to_string(), size: 3 }];
    assert_eq!(links_json_text(&links), "[{\"name\":\"chunk0\",\"cid\":\"bafk\",\"size\":3}]");
    let parsed: serde_json::Value = serde_json::from_str(&links_json_text(&links)).unwrap();
    assert_eq!(parsed[0]["size"], serde_json::Value::from(3u64));
}

#[test]
fn dht_lookup_outcomes_answer_the_caller() {
    let record = site_announcement("bafyroot".to_string(), "12D3peer".to_string(), 10, 1, "2024-01-01".to_string());
    let found = lookup_reply(LookupOutcome::Found(Ok(record))).unwrap();
    assert_eq!(found.root_cid, "bafyroot");
    assert_eq!(found.publisher_peer_id, "12D3peer");
    match lookup_reply(LookupOutcome::Found(Err("expected value at line 1".to_string()))) {
        Err(msg) => assert_eq!(msg, "Bad DHT record: expected value at line 1"),
        Ok(_) => panic!("a bad record is no site"),
    }
    match lookup_reply(LookupOutcome::NotFound) {
        Err(msg) => assert_eq!(msg, "Site not found in DHT"),
        Ok(_) => panic!("nothing was found"),
    }
    match lookup_reply(LookupOutcome::Failed("NotFound { key: .. }".to_string())) {
        Err(msg) => assert_eq!(msg, "DHT lookup failed: NotFound { key: .. }"),
        Ok(_) => panic!("the lookup failed"),
    }
}

#[test]
fn dht_put_and_request_failures_are_reported() {
    assert_eq!(put_reply(Ok(())), Ok(()));
    assert_eq!(put_reply(Err("QuorumFailed".to_string())), Err("DHT put failed: QuorumFailed".to_string()));
    assert_eq!(chunk_request_failed("Timeout"), "Chunk request failed: Timeout");
    assert_eq!(dag_request_failed("Connection closed"), "DAG request failed: Connection closed");
}
