use rebase_indexer::manifest::{file_hash, Manifest};

#[test]
fn file_hash_is_deterministic_and_fixed_width() {
    let a = file_hash("hello world");
    assert_eq!(a, file_hash("hello world"));
    assert_ne!(a, file_hash("hello world!"));
    assert_eq!(a.len(), 32); // 16 bytes -> 32 hex chars
    assert!(a.chars().all(|c| c.is_ascii_hexdigit()));
}

#[test]
fn file_hash_is_the_sha256_prefix_in_lowercase_hex() {
    // SHA-256("hello world") = b94d27b9934d3e08a52e52d7da7dabfac484efe37a5380ee9088f7ace2efcde9
    assert_eq!(file_hash("hello world"), "b94d27b9934d3e08a52e52d7da7dabfa");
}

#[test]
fn manifest_insert_then_get() {
    let mut m = Manifest::new();
    assert!(m.is_empty());
    m.insert("src/main.rs".to_string(), "deadbeef".to_string());
    m.insert("a'b.rs".to_string(), "cafef00d".to_string());
    assert_eq!(m.len(), 2);
    assert_eq!(m.get("src/main.rs").map(|s| s.as_str()), Some("deadbeef"));
    assert_eq!(m.get("a'b.rs").map(|s| s.as_str()), Some("cafef00d"));
    assert_eq!(m.get("missing.rs"), None);
}

#[test]
fn manifest_insert_replaces_and_keeps_order() {
    let mut m = Manifest::new();
    m.insert("a".to_string(), "1".to_string());
    m.insert("b".to_string(), "2".to_string());
    m.insert("a".to_string(), "3".to_string());
    assert_eq!(m.len(), 2);
    let keys: Vec<&str> = m.entries().iter().map(|e| e.0.as_str()).collect();
    assert_eq!(keys, vec!["a", "b"]);
    assert_eq!(m.get("a").map(|s| s.as_str()), Some("3"));
}
