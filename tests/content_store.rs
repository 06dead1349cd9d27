use oxen::content_store::ContentStore;
use oxen::hashing::hash_buffer;

#[test]
fn put_then_get_returns_the_same_bytes() {
    let mut store = ContentStore::new();
    let bytes = b"hello world".to_vec();
    let key = store.put("schema_1", &bytes);
    assert_eq!(key, hash_buffer(&bytes));
    assert_eq!(store.get("schema_1", &key), Some(bytes.clone()));
    assert!(store.has("schema_1", &key));
}

#[test]
fn put_is_idempotent() {
    let mut store = ContentStore::new();
    let bytes = vec![1u8, 2, 3];
    let k1 = store.put("ns", &bytes);
    let k2 = store.put("ns", &bytes);
    assert_eq!(k1, k2);
    assert_eq!(store.get("ns", &k1), Some(bytes));
}

#[test]
fn namespaces_do_not_collide() {
    let mut store = ContentStore::new();
    store.put_with_key("a", "k", &vec![1u8]);
    store.put_with_key("b", "k", &vec![2u8]);
    assert_eq!(store.get("a", "k"), Some(vec![1u8]));
    assert_eq!(store.get("b", "k"), Some(vec![2u8]));
    assert_eq!(store.get("c", "k"), None);
    assert!(!store.has("c", "k"));
}

#[test]
fn creating_a_namespace_twice_is_a_no_op() {
    let mut store = ContentStore::new();
    assert!(!store.has_namespace("ns"));
    store.create_namespace("ns");
    store.create_namespace("ns");
    assert!(store.has_namespace("ns"));
}

#[test]
fn hash_differs_for_different_content() {
    assert_ne!(hash_buffer(b"a"), hash_buffer(b"b"));
    assert_eq!(hash_buffer(b"a"), hash_buffer(b"a"));
    assert!(hash_buffer(b"").chars().all(|c| c.is_ascii_hexdigit()));
}

#[test]
fn hash_is_a_hex_digest_not_the_input() {
    let h = hash_buffer(b"hello");
    assert_ne!(h, "hello");
    assert!(!h.is_empty() && h.len() <= 32);
    assert!(h.chars().all(|c| c.is_ascii_hexdigit() && !c.is_ascii_uppercase()));
}
