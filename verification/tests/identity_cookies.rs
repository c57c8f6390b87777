//! Client identifiers, their string form, and the cookie jar.

use readtrack::cookies::CookieJar;
use readtrack::identity::{
    current_identifier, ensure_client_id_set, get_client_id, ClientId, Identifier,
};

#[test]
fn client_id_spelling_is_canonical() {
    let c = ClientId(0x00112233445566778899aabbccddeeff);
    assert_eq!(c.to_string(), "00112233-4455-6677-8899-aabbccddeeff");
    let nil = ClientId(0);
    assert_eq!(nil.to_string(), "00000000-0000-0000-0000-000000000000");
    let max = ClientId(u128::MAX);
    assert_eq!(max.to_string(), "ffffffff-ffff-ffff-ffff-ffffffffffff");
}

#[test]
fn client_id_round_trips() {
    let c = ClientId(0xdeadbeef0123456789abcdef00ff00ff);
    let s = c.to_string();
    assert_eq!(ClientId::from_str(&s), Some(c));
    let fresh = ClientId::new();
    assert_ne!(fresh.0, 0);
    assert_eq!(ClientId::from_str(&fresh.to_string()), Some(fresh));
}

#[test]
fn client_id_parses_either_case() {
    let lower = ClientId::from_str("00112233-4455-6677-8899-aabbccddeeff");
    let upper = ClientId::from_str("00112233-4455-6677-8899-AABBCCDDEEFF");
    assert_eq!(lower, Some(ClientId(0x00112233445566778899aabbccddeeff)));
    assert_eq!(lower, upper);
}

#[test]
fn client_id_rejects_malformed_text() {
    assert_eq!(ClientId::from_str(""), None);
    assert_eq!(ClientId::from_str("0011223344556677-8899aabbccddeeff"), None);
    assert_eq!(ClientId::from_str("00112233-4455-6677-8899-aabbccddeef"), None);
    assert_eq!(ClientId::from_str("00112233-4455-6677-8899-aabbccddeeffa"), None);
    assert_eq!(ClientId::from_str("00112233x4455-6677-8899-aabbccddeeff"), None);
    assert_eq!(ClientId::from_str("0011223g-4455-6677-8899-aabbccddeeff"), None);
    assert_eq!(ClientId::from_str("00112233-4455-6677-8899-aabbccddee f"), None);
}

#[test]
fn cookie_jar_stores_and_overwrites() {
    let mut jar = CookieJar::new();
    assert!(jar.get_cookie("lang").is_none());
    jar.set_cookie("lang", "de");
    assert_eq!(jar.get_cookie("lang").as_deref(), Some("de"));
    jar.set_cookie("lang", "en");
    assert_eq!(jar.get_cookie("lang").as_deref(), Some("en"));
    jar.set_cookie("other", "x");
    assert_eq!(jar.get_cookie("lang").as_deref(), Some("en"));
    assert_eq!(jar.get_cookie("other").as_deref(), Some("x"));
    assert!(jar.get_cookie("missing").is_none());
}

#[test]
fn get_or_insert_keeps_existing_values() {
    let mut jar = CookieJar::new();
    assert_eq!(jar.get_or_insert_cookie("k", "first"), "first");
    assert_eq!(jar.get_or_insert_cookie("k", "second"), "first");
    assert_eq!(jar.get_cookie("k").as_deref(), Some("first"));
}

#[test]
fn ensure_client_id_persists_one_identifier() {
    let mut jar = CookieJar::new();
    assert!(get_client_id(&jar).is_none());
    assert_eq!(current_identifier(&jar), Identifier::Anonymous);

    ensure_client_id_set(&mut jar);
    let first = get_client_id(&jar).expect("an identifier was just persisted");
    assert_ne!(first.0, 0);

    // A second call keeps the persisted identifier.
    ensure_client_id_set(&mut jar);
    let second = get_client_id(&jar).expect("the identifier is still there");
    assert_eq!(first, second);
    assert_eq!(current_identifier(&jar), Identifier::Known(first));
}

#[test]
fn ensure_client_id_replaces_garbage() {
    let mut jar = CookieJar::new();
    jar.set_cookie("client_id", "not-a-client-id");
    assert!(get_client_id(&jar).is_none());
    ensure_client_id_set(&mut jar);
    assert!(get_client_id(&jar).is_some());
}
