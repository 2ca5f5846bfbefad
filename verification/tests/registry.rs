use websocket_adapter::{DecodeError, RegistryError, TypeRegistry};

#[derive(Debug, PartialEq)]
enum Payload {
    Ping,
    Pong,
    Move(i64),
}

type Decoder = fn(&[u8]) -> Option<Payload>;

fn ping(bytes: &[u8]) -> Option<Payload> {
    if bytes == b"{}" {
        Some(Payload::Ping)
    } else {
        None
    }
}

fn pong(bytes: &[u8]) -> Option<Payload> {
    if bytes == b"{}" {
        Some(Payload::Pong)
    } else {
        None
    }
}

fn steps(bytes: &[u8]) -> Option<Payload> {
    serde_json::from_slice::<i64>(bytes).ok().map(Payload::Move)
}

#[test]
fn a_new_registry_knows_no_tag() {
    let registry: TypeRegistry<Decoder> = TypeRegistry::new();
    assert!(!registry.is_registered("ping"));
    assert!(!registry.is_registered(""));
    assert_eq!(registry.decode_payload("ping", b"{}"), Err(DecodeError::UnknownTag));
}

#[test]
fn register_binds_a_tag() {
    let mut registry: TypeRegistry<Decoder> = TypeRegistry::new();
    assert_eq!(registry.register("ping", ping), Ok(()));
    assert!(registry.is_registered("ping"));
    assert!(!registry.is_registered("pong"));
    assert!(!registry.is_registered("pin"));
    assert_eq!(registry.register("pong", pong), Ok(()));
    assert_eq!(registry.register("move", steps), Ok(()));
    assert!(registry.is_registered("ping"));
    assert!(registry.is_registered("pong"));
    assert!(registry.is_registered("move"));
}

#[test]
fn registering_a_tag_twice_is_refused_and_the_first_decoder_stays() {
    let mut registry: TypeRegistry<Decoder> = TypeRegistry::new();
    assert_eq!(registry.register("ping", ping), Ok(()));
    assert_eq!(registry.register("ping", steps), Err(RegistryError::DuplicateTag));
    assert_eq!(registry.decode_payload("ping", b"{}"), Ok(Payload::Ping));
    assert_eq!(registry.decode_payload("ping", b"3"), Err(DecodeError::Malformed));
    assert_eq!(registry.register("ping", ping), Err(RegistryError::DuplicateTag));
    assert_eq!(registry.decode_payload("ping", b"{}"), Ok(Payload::Ping));
}

#[test]
fn decode_payload_applies_the_decoder_of_the_tag() {
    let mut registry: TypeRegistry<Decoder> = TypeRegistry::new();
    registry.register("ping", ping).unwrap();
    registry.register("pong", pong).unwrap();
    registry.register("move", steps).unwrap();
    assert_eq!(registry.decode_payload("ping", b"{}"), Ok(Payload::Ping));
    assert_eq!(registry.decode_payload("pong", b"{}"), Ok(Payload::Pong));
    assert_eq!(registry.decode_payload("move", b"-17"), Ok(Payload::Move(-17)));
}

#[test]
fn decode_payload_reports_an_unknown_tag() {
    let mut registry: TypeRegistry<Decoder> = TypeRegistry::new();
    registry.register("ping", ping).unwrap();
    assert_eq!(registry.decode_payload("pong", b"{}"), Err(DecodeError::UnknownTag));
    assert_eq!(registry.decode_payload("", b"{}"), Err(DecodeError::UnknownTag));
}

#[test]
fn decode_payload_reports_a_payload_that_the_decoder_refuses() {
    let mut registry: TypeRegistry<Decoder> = TypeRegistry::new();
    registry.register("move", steps).unwrap();
    assert_eq!(registry.decode_payload("move", b"{}"), Err(DecodeError::Malformed));
    assert_eq!(registry.decode_payload("move", b""), Err(DecodeError::Malformed));
    assert_eq!(registry.decode_payload("move", b"1.5"), Err(DecodeError::Malformed));
}

#[test]
fn registries_are_independent() {
    let mut first: TypeRegistry<Decoder> = TypeRegistry::new();
    let mut second: TypeRegistry<Decoder> = TypeRegistry::new();
    first.register("ping", ping).unwrap();
    assert!(!second.is_registered("ping"));
    assert_eq!(second.register("ping", pong), Ok(()));
    assert_eq!(first.decode_payload("ping", b"{}"), Ok(Payload::Ping));
    assert_eq!(second.decode_payload("ping", b"{}"), Ok(Payload::Pong));
}
