use chimera::content::chunker::{chunk_bytes, hex_encode, sha256_hash, CHUNK_SIZE};

#[test]
fn test_small_file_one_chunk() {
    let data = b"hello world";
    let chunks = chunk_bytes(data);
    assert_eq!(chunks.len(), 1);
    assert_eq!(chunks[0].size, 11);
    assert_eq!(chunks[0].data, b"hello world");
    // hash should be 64 hex chars (32 bytes)
    assert_eq!(chunks[0].hash_hex.len(), 64);
}

#[test]
fn test_exact_chunk_size() {
    let data = vec![0u8; CHUNK_SIZE];
    let chunks = chunk_bytes(&data);
    assert_eq!(chunks.len(), 1);
    assert_eq!(chunks[0].size, CHUNK_SIZE);
}

#[test]
fn test_multiple_chunks() {
    // 2.5 chunks worth of data
    let data = vec![42u8; CHUNK_SIZE * 2 + 1000];
    let chunks = chunk_bytes(&data);
    assert_eq!(chunks.len(), 3);
    assert_eq!(chunks[0].size, CHUNK_SIZE);
    assert_eq!(chunks[1].size, CHUNK_SIZE);
    assert_eq!(chunks[2].size, 1000);
}

#[test]
fn test_empty_file() {
    let chunks = chunk_bytes(&[]);
    assert_eq!(chunks.len(), 1);
    assert_eq!(chunks[0].size, 0);
}

#[test]
fn test_same_data_same_hash() {
    let chunks_a = chunk_bytes(b"same content");
    let chunks_b = chunk_bytes(b"same content");
    assert_eq!(chunks_a[0].hash_hex, chunks_b[0].hash_hex);
}

#[test]
fn test_different_data_different_hash() {
    let chunks_a = chunk_bytes(b"content A");
    let chunks_b = chunk_bytes(b"content B");
    assert_ne!(chunks_a[0].hash_hex, chunks_b[0].hash_hex);
}

#[test]
fn sha256_of_hello_world() {
    let hash = sha256_hash(b"hello world");
    assert_eq!(hash.len(), 32);
    assert_eq!(
        hex_encode(&hash),
        "b94d27b9934d3e08a52e52d7da7dabfac484efe37a5380ee9088f7ace2efcde9"
    );
}

#[test]
fn hex_is_lower_case_two_digits_per_byte() {
    assert_eq!(hex_encode(&[0x00, 0x0f, 0xa0, 0xff]), "000fa0ff");
    assert_eq!(hex_encode(&[]), "");
}

#[test]
fn chunk_hash_hex_names_the_chunk_hash() {
    let chunks = chunk_bytes(b"hello world");
    assert_eq!(chunks[0].hash, sha256_hash(b"hello world"));
    assert_eq!(chunks[0].hash_hex, hex_encode(&chunks[0].hash));
}

#[test]
fn chunks_reassemble_to_the_input() {
    let data: Vec<u8> = (0..(CHUNK_SIZE * 3 + 7)).map(|i| (i % 251) as u8).collect();
    let chunks = chunk_bytes(&data);
    assert_eq!(chunks.len(), 4);
    let mut joined = Vec::new();
    for c in &chunks {
        assert!(c.size <= CHUNK_SIZE);
        assert_eq!(c.size, c.data.len());
        joined.extend_from_slice(&c.data);
    }
    assert_eq!(joined, data);
    assert_eq!(chunks[3].size, 7);
}

#[test]
fn one_byte_over_a_chunk_makes_two() {
    let data = vec![1u8; CHUNK_SIZE + 1];
    let chunks = chunk_bytes(&data);
    assert_eq!(chunks.len(), 2);
    assert_eq!(chunks[1].size, 1);
}
