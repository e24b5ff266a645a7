use rust_feeds::authstore::{generate_sha, AuthDbObject, AuthStore};
use sha2::Digest;

fn row(owner: &[u8], secret: &[u8], allow_sub: &[u8], allow_pub: &[u8]) -> AuthDbObject {
    AuthDbObject {
        owner: owner.to_vec(),
        secret: secret.to_vec(),
        allow_sub: allow_sub.to_vec(),
        allow_pub: allow_pub.to_vec(),
    }
}

fn alice_store() -> AuthStore {
    let mut store = AuthStore::new();
    store.feed_cache(&vec![row(b"alice", b"s3cr3t", b"weather, news", b"weather")]);
    store
}

#[test]
fn generate_sha_matches_sha256_of_nonce_then_secret() {
    let nonce = [7u8; 32];
    let got = generate_sha(b"s3cr3t", &nonce);
    let mut input = nonce.to_vec();
    input.extend_from_slice(b"s3cr3t");
    let expected = sha2::Sha256::digest(&input).to_vec();
    assert_eq!(got, expected);
    assert_eq!(got.len(), 32);
}

#[test]
fn challenge_correct_response_authenticates() {
    let store = alice_store();
    let nonce = [7u8; 32];
    let response = generate_sha(b"s3cr3t", &nonce);
    assert!(store.auth_user(b"alice", &nonce, response.as_slice()));
}

#[test]
fn challenge_bit_flipped_response_fails() {
    let store = alice_store();
    let nonce = [7u8; 32];
    let mut response = generate_sha(b"s3cr3t", &nonce);
    for i in 0..response.len() {
        response[i] ^= 1;
        assert!(!store.auth_user(b"alice", &nonce, response.as_slice()));
        response[i] ^= 1;
    }
}

#[test]
fn challenge_replay_against_new_nonce_fails() {
    let store = alice_store();
    let old_nonce = [7u8; 32];
    let old_response = generate_sha(b"s3cr3t", &old_nonce);
    let new_nonce = [8u8; 32];
    assert!(!store.auth_user(b"alice", &new_nonce, old_response.as_slice()));
}

#[test]
fn unknown_owner_fails() {
    let store = alice_store();
    let nonce = [7u8; 32];
    let response = generate_sha(b"s3cr3t", &nonce);
    assert!(!store.auth_user(b"mallory", &nonce, response.as_slice()));
}

#[test]
fn channel_lists_are_split_and_trimmed() {
    let store = alice_store();
    assert!(store.auth_sub(b"alice", b"weather"));
    assert!(store.auth_sub(b"alice", b"news"));
    assert!(!store.auth_sub(b"alice", b"sports"));
    assert!(store.auth_pub(b"alice", b"weather"));
    assert!(!store.auth_pub(b"alice", b"news"));
}

#[test]
fn channel_list_whitespace_trimmed() {
    let mut store = AuthStore::new();
    store.feed_cache(&vec![row(b"bob", b"pw", b"  a ,\tb\t, c", b"")]);
    assert!(store.auth_sub(b"bob", b"a"));
    assert!(store.auth_sub(b"bob", b"b"));
    assert!(store.auth_sub(b"bob", b"c"));
    assert!(!store.auth_sub(b"bob", b" a "));
}

#[test]
fn feed_cache_replaces_existing_owner() {
    let mut store = AuthStore::new();
    store.feed_cache(&vec![row(b"alice", b"old", b"a", b"")]);
    store.feed_cache(&vec![row(b"alice", b"new", b"b", b"")]);
    assert!(!store.auth_sub(b"alice", b"a"));
    assert!(store.auth_sub(b"alice", b"b"));
    let nonce = [1u8; 32];
    let response = generate_sha(b"new", &nonce);
    assert!(store.auth_user(b"alice", &nonce, response.as_slice()));
}

#[test]
fn update_cache_keeps_existing_owner() {
    let mut store = AuthStore::new();
    store.feed_cache(&vec![row(b"alice", b"old", b"a", b"")]);
    store.update_cache(&vec![
        row(b"alice", b"new", b"b", b""),
        row(b"bob", b"pw", b"c", b""),
    ]);
    // alice keeps her old entry; bob is new and comes in
    assert!(store.auth_sub(b"alice", b"a"));
    assert!(!store.auth_sub(b"alice", b"b"));
    assert!(store.auth_sub(b"bob", b"c"));
}

#[test]
fn empty_store_authenticates_nobody() {
    let store = AuthStore::new();
    let nonce = [0u8; 32];
    let response = generate_sha(b"", &nonce);
    assert!(!store.auth_user(b"", &nonce, response.as_slice()));
    assert!(!store.auth_pub(b"alice", b"weather"));
    assert!(!store.auth_sub(b"alice", b"weather"));
}
