//! Credential store and handshake: parsing, SHA-1 verification and the
//! capability exchange.

use kdb_codec::auth::{client_greeting, process_client_chunk, AccountStore, HandshakeStep,
    sha1_hex_digest};

fn sha1_hex(data: &[u8]) -> String {
    let mut hasher = sha1_smol::Sha1::new();
    hasher.update(data);
    hasher.digest().to_string()
}

#[test]
fn handshake_success_over_tcp() {
    // credential file holds alice with the SHA-1 of "s3cret"; the client
    // greets with `alice:s3cret` and the TCP capability byte 0x03
    let file = format!("alice:{}\n", sha1_hex(b"s3cret"));
    let store = AccountStore::parse(file.as_bytes());

    let greeting = client_greeting("alice:s3cret", 0x03);
    assert_eq!(greeting.last(), Some(&0x00));

    let mut buffered: Vec<u8> = Vec::new();
    match process_client_chunk(&mut buffered, &greeting, &store) {
        HandshakeStep::Accept(cap) => assert_eq!(cap, 0x03),
        _ => panic!("handshake should be accepted"),
    }
}

#[test]
fn handshake_rejects_wrong_password() {
    let file = format!("alice:{}\n", sha1_hex(b"s3cret"));
    let store = AccountStore::parse(file.as_bytes());

    let mut buffered: Vec<u8> = Vec::new();
    let greeting = client_greeting("alice:wrong", 0x03);
    assert!(matches!(
        process_client_chunk(&mut buffered, &greeting, &store),
        HandshakeStep::Reject
    ));
}

#[test]
fn handshake_rejects_unknown_user() {
    let file = format!("alice:{}\n", sha1_hex(b"s3cret"));
    let store = AccountStore::parse(file.as_bytes());

    let mut buffered: Vec<u8> = Vec::new();
    let greeting = client_greeting("mallory:s3cret", 0x03);
    assert!(matches!(
        process_client_chunk(&mut buffered, &greeting, &store),
        HandshakeStep::Reject
    ));
}

#[test]
fn handshake_rejects_malformed_credential() {
    let file = format!("alice:{}\n", sha1_hex(b"s3cret"));
    let store = AccountStore::parse(file.as_bytes());

    let mut buffered: Vec<u8> = Vec::new();
    let greeting = vec![b'n', b'o', b'c', b'o', b'l', b'o', b'n', 0x03];
    assert!(matches!(
        process_client_chunk(&mut buffered, &greeting, &store),
        HandshakeStep::Reject
    ));
}

#[test]
fn handshake_buffers_partial_greeting() {
    let file = format!("alice:{}\n", sha1_hex(b"s3cret"));
    let store = AccountStore::parse(file.as_bytes());

    let mut buffered: Vec<u8> = Vec::new();
    // the greeting arrives in two chunks, split before the capability byte
    assert!(matches!(
        process_client_chunk(&mut buffered, b"alice:s3", &store),
        HandshakeStep::NeedMore
    ));
    match process_client_chunk(&mut buffered, b"cret\x03\x00", &store) {
        HandshakeStep::Accept(cap) => assert_eq!(cap, 0x03),
        _ => panic!("handshake should be accepted after the second chunk"),
    }
}

#[test]
fn handshake_uds_capability_byte() {
    let file = format!("bob:{}\n", sha1_hex(b"pw"));
    let store = AccountStore::parse(file.as_bytes());

    let mut buffered: Vec<u8> = Vec::new();
    let greeting = client_greeting("bob:pw", 0x06);
    match process_client_chunk(&mut buffered, &greeting, &store) {
        HandshakeStep::Accept(cap) => assert_eq!(cap, 0x06),
        _ => panic!("handshake should be accepted"),
    }
}

#[test]
fn authenticate_matches_stored_digest() {
    let file = format!(
        "alice:{}\r\nbob:{}\nbroken-line\n",
        sha1_hex(b"s3cret"),
        sha1_hex(b"hunter2")
    );
    let store = AccountStore::parse(file.as_bytes());

    assert!(store.authenticate("alice", b"s3cret"));
    assert!(store.authenticate("bob", b"hunter2"));
    assert!(!store.authenticate("alice", b"hunter2"));
    assert!(!store.authenticate("carol", b"s3cret"));
}

#[test]
fn empty_store_rejects_everyone() {
    let store = AccountStore::new();
    assert!(!store.authenticate("alice", b"s3cret"));
}

#[test]
fn sha1_digest_is_forty_lowercase_hex_chars() {
    let digest = sha1_hex_digest(b"s3cret");
    assert_eq!(digest.len(), 40);
    assert!(digest.chars().all(|c| c.is_ascii_hexdigit() && !c.is_ascii_uppercase()));
    assert_eq!(digest, sha1_hex(b"s3cret"));
}
