use imprint::paths::{is_temp_file, join, temp_path};
use imprint::types::hash_to_hex;
use imprint::vault::{shard_path, vault_root};

#[test]
fn temp_path_appends_the_suffix() {
    assert_eq!(temp_path("/data/a.txt"), "/data/a.txt.imprint_tmp");
    assert!(is_temp_file("/data/a.txt.imprint_tmp"));
    assert!(!is_temp_file("/data/a.txt"));
}

#[test]
fn join_adds_one_separator() {
    assert_eq!(join("/home/u", "x"), "/home/u/x");
    assert_eq!(join("/", "x"), "/x");
    assert_eq!(join("", "x"), "x");
}

#[test]
fn shard_path_layout() {
    let mut hash = [0u8; 32];
    hash[0] = 0xab;
    hash[1] = 0x0c;
    hash[31] = 0xff;
    let hex = hash_to_hex(&hash);
    assert_eq!(hex.len(), 64);
    assert!(hex.starts_with("ab0c"));
    assert!(hex.ends_with("ff"));
    let root = vault_root("/home/u");
    assert_eq!(root, "/home/u/.imprint/store");
    assert_eq!(shard_path(&root, &hash), format!("/home/u/.imprint/store/ab/0c/{}", hex));
}
