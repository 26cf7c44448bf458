use lv2_state::ident::{IdentifierCache, INVALID_ID};

#[test]
fn identifiers_are_assigned_in_order() {
    let mut cache = IdentifierCache::new();
    assert_eq!(1, cache.map_uri(b"urn:example:alpha"));
    assert_eq!(2, cache.map_uri(b"urn:example:beta"));
    assert_eq!(3, cache.map_uri(b"urn:example:gamma"));
}

#[test]
fn mapping_is_stable() {
    let mut cache = IdentifierCache::new();
    let a = cache.map_uri(b"urn:example:alpha");
    let b = cache.map_uri(b"urn:example:beta");
    assert_eq!(a, cache.map_uri(b"urn:example:alpha"));
    assert_eq!(b, cache.map_uri(b"urn:example:beta"));
    assert_ne!(a, b);
    assert_ne!(a, INVALID_ID);
    assert_ne!(b, INVALID_ID);
}

#[test]
fn unmap_inverts_map() {
    let mut cache = IdentifierCache::new();
    let id = cache.map_uri(b"urn:example:alpha");
    assert_eq!(Some(b"urn:example:alpha".to_vec()), cache.unmap(id));
    assert_eq!(None, cache.unmap(INVALID_ID));
    assert_eq!(None, cache.unmap(id + 1));
}
