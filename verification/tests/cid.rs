use chimera::content::cid::{cid_from_bytes, cid_from_dag_json};

#[test]
fn test_cid_from_bytes() {
    let cid = cid_from_bytes(b"hello world");
    // Should start with "baf" (base32, CIDv1)
    assert!(cid.starts_with("baf"));
    // Should be consistent - same input = same CID
    assert_eq!(cid, cid_from_bytes(b"hello world"));
}

#[test]
fn test_different_data_different_cid() {
    let cid_a = cid_from_bytes(b"hello");
    let cid_b = cid_from_bytes(b"world");
    assert_ne!(cid_a, cid_b);
}

#[test]
fn test_cid_from_dag_json() {
    let json = b"{\"name\": \"index.html\"}";
    let cid = cid_from_dag_json(json);
    // CIDv1 base32 strings always start with 'b'
    assert!(cid.starts_with('b'));
}

#[test]
fn test_raw_and_dag_cids_differ() {
    // Same bytes but different codecs should produce different CIDs
    let data = b"same data";
    let raw_cid = cid_from_bytes(data);
    let dag_cid = cid_from_dag_json(data);
    assert_ne!(raw_cid, dag_cid);
}

#[test]
fn raw_cid_of_hello_world() {
    assert_eq!(
        cid_from_bytes(b"hello world"),
        "bafkreifzjut3te2nhyekklss27nh3k72ysco7y32koao5eei66wof36n5e"
    );
}

#[test]
fn cid_lengths_and_prefixes_by_codec() {
    for data in [&b""[..], b"x", b"hello world"] {
        let raw = cid_from_bytes(data);
        assert_eq!(raw.len(), 59);
        assert!(raw.starts_with("baf"));
        let dag = cid_from_dag_json(data);
        assert_eq!(dag.len(), 61);
        assert!(dag.starts_with("bag"));
    }
}
