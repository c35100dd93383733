use gateway::cache::{CachedChunk, CachedResponse};

fn sample() -> CachedResponse {
    CachedResponse {
        status: 200,
        headers: vec![
            ("content-type".into(), "application/json".into()),
            ("x-request-id".into(), "abc123".into()),
        ],
        chunks: vec![
            CachedChunk {
                data: br#"{"id":"chatcmpl-1","object":"chat.completion","choices":[{"message":{"role":"assistant","content":"Hello, world!"}}]}"#.to_vec(),
            },
            CachedChunk {
                data: br#"{"usage":{"prompt_tokens":10,"completion_tokens":3,"total_tokens":13}}"#.to_vec(),
            },
        ],
        finished_at_ms: 1_700_000_000_000,
    }
}

#[test]
fn round_trip() {
    let original = sample();
    let blob = original.encode().expect("encode");
    let decoded = CachedResponse::decode(&blob).expect("decode");
    assert_eq!(decoded.status, original.status);
    assert_eq!(decoded.headers, original.headers);
    assert_eq!(decoded.chunks.len(), original.chunks.len());
    for (a, b) in decoded.chunks.iter().zip(original.chunks.iter()) {
        assert_eq!(a.data, b.data);
    }
    assert_eq!(decoded.finished_at_ms, original.finished_at_ms);
}

#[test]
fn compresses_realistic_payload() {
    let big_text = "The quick brown fox jumps over the lazy dog. ".repeat(200);
    let payload = CachedResponse {
        status: 200,
        headers: vec![("content-type".into(), "text/event-stream".into())],
        chunks: vec![CachedChunk { data: big_text.into_bytes() }],
        finished_at_ms: 0,
    };
    let chunks: Vec<Vec<u8>> = payload.chunks.iter().map(|c| c.data.clone()).collect();
    let raw = bincode::serde::encode_to_vec(
        (payload.status, &payload.headers, &chunks, payload.finished_at_ms),
        bincode::config::standard(),
    )
    .unwrap();
    let compressed = payload.encode().unwrap();
    assert!(
        compressed.len() * 2 < raw.len(),
        "expected >=2x compression, raw={} compressed={}",
        raw.len(),
        compressed.len()
    );
}

#[test]
fn decode_rejects_garbage() {
    assert!(CachedResponse::decode(b"not a zstd frame").is_err());
}

#[test]
fn encoded_blob_is_a_zstd_frame() {
    let blob = sample().encode().unwrap();
    assert_eq!(&blob[..4], &[0x28, 0xb5, 0x2f, 0xfd]);
    let raw = zstd::decode_all(blob.as_slice()).unwrap();
    assert_ne!(raw, blob);
}

#[test]
fn valid_zstd_of_other_bytes_is_rejected() {
    let frame = zstd::encode_all(&b"\xff\xff\xff"[..], 3).unwrap();
    assert!(CachedResponse::decode(&frame).is_err());
}

#[test]
fn empty_response_round_trips() {
    let r = CachedResponse { status: 204, headers: vec![], chunks: vec![], finished_at_ms: -5 };
    let back = CachedResponse::decode(&r.encode().unwrap()).unwrap();
    assert_eq!(back.status, 204);
    assert!(back.headers.is_empty());
    assert!(back.chunks.is_empty());
    assert_eq!(back.finished_at_ms, -5);
}
