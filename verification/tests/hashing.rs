use starlume::hashing::{config_hash, sha256_bytes};
use starlume::ops::PatcherConfig;
use starlume::strmap::StrMap;

#[test]
fn sha256_of_abc_is_the_known_digest() {
    assert_eq!(
        sha256_bytes(b"abc"),
        "ba7816bf8f01cfea414140de5dae2223b00361a396177a9cb410ff61f20015ad"
    );
}

#[test]
fn config_hash_is_sha256_of_the_compact_json() {
    let mut options = StrMap::new();
    options.insert("tag", "[x]".to_string());
    options.insert("mode", "a\"b\\c\nd\u{1}".to_string());
    let config = PatcherConfig { enabled: Some(true), options };
    // Keys in id order; quote, backslash, newline and other controls escaped.
    let json = "{\"enabled\":true,\"options\":{\"mode\":\"a\\\"b\\\\c\\nd\\u0001\",\"tag\":\"[x]\"}}";
    assert_eq!(config_hash(&config), sha256_bytes(json.as_bytes()));
}

#[test]
fn config_hash_of_the_default_config() {
    let json = "{\"enabled\":null,\"options\":{}}";
    assert_eq!(config_hash(&PatcherConfig::new()), sha256_bytes(json.as_bytes()));
}
