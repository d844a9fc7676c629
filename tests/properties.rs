use std::io::Write;

use astarte_device_sdk::properties::{extract_set_properties, properties_from_inflated, PropertiesError, PurgeSet};

fn compress(text: &[u8]) -> Vec<u8> {
    let mut enc = flate2::write::ZlibEncoder::new(Vec::new(), flate2::Compression::default());
    enc.write_all(text).unwrap();
    enc.finish().unwrap()
}

#[test]
fn purge_text_entries() {
    let set = PurgeSet::from_text("A/p1;;B/p3;");
    assert!(set.contains("A", "/p1"));
    assert!(set.contains("B", "/p3"));
    assert!(!set.contains("A", "/p2"));
    assert!(!set.contains("", ""));
}

#[test]
fn extract_set_properties_decompresses() {
    let text = b"com.example.DP/1/name;com.example.DP/2/name";
    let mut payload = (text.len() as u32).to_le_bytes().to_vec();
    payload.extend_from_slice(&compress(text));
    let set = extract_set_properties(&payload).unwrap();
    assert!(set.contains("com.example.DP", "/1/name"));
    assert!(set.contains("com.example.DP", "/2/name"));
    assert!(!set.contains("com.example.DP", "/3/name"));
}

#[test]
fn properties_from_inflated_checks_size_and_text() {
    assert!(matches!(properties_from_inflated(3, b"A/b".to_vec()), Ok(s) if s.contains("A", "/b")));
    assert!(matches!(properties_from_inflated(4, b"A/b".to_vec()), Err(PropertiesError::SizeMismatch)));
    assert!(matches!(properties_from_inflated(2, vec![0xc3, 0x28]), Err(PropertiesError::Utf8)));
}
