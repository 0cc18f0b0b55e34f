use actor_engine::identity::{generate, Identity};

#[test]
fn identity_roundtrip_and_equality() {
    let a = Identity::from_bits(42);
    assert_eq!(a.bits(), 42);
    assert_eq!(a, Identity::from_bits(42));
    assert_ne!(a, Identity::from_bits(43));
    let copied = a;
    assert_eq!(copied, a);
}

#[test]
fn generated_identities_are_usable_as_routing_keys() {
    let id = generate();
    assert_eq!(Identity::from_bits(id.bits()), id);
}
