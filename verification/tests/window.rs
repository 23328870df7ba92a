use led::window::ID;

#[test]
fn new_creates_id_with_given_value() {
    let id = ID::new(10);
    assert_eq!(id.value(), 10);
}

#[test]
fn value_returns_inner_value() {
    let id = ID(99);
    assert_eq!(id.value(), 99);
}

#[test]
fn to_string_returns_string_representation() {
    let id = ID(1234);
    assert_eq!(id.to_string(), "1234");
}

#[test]
fn from_string_parses_valid_string() {
    assert_eq!(ID::from_string("56"), Some(ID(56)));
}

#[test]
fn from_string_returns_none_for_invalid_string() {
    assert_eq!(ID::from_string("notanumber"), None);
    assert_eq!(ID::from_string(""), None);
    assert_eq!(ID::from_string("-1"), None);
}

#[test]
fn from_string_accepts_leading_plus_and_zeros() {
    assert_eq!(ID::from_string("+56"), Some(ID(56)));
    assert_eq!(ID::from_string("0042"), Some(ID(42)));
    assert_eq!(ID::from_string("+"), None);
    assert_eq!(ID::from_string("4294967295"), Some(ID(u32::MAX)));
    assert_eq!(ID::from_string("4294967296"), None);
}

#[test]
fn id_string_codec_round_trips() {
    for v in [0u32, 1, 9, 10, 4061, u32::MAX] {
        let id = ID(v);
        assert_eq!(ID::from_string(&id.to_string()), Some(id));
    }
    assert_eq!(ID(0).to_string(), "0");
    assert_eq!(ID(u32::MAX).to_string(), "4294967295");
}

#[test]
fn next_increments_id_and_returns_new_value() {
    let mut id = ID::new(7);
    let next = id.next();
    assert_eq!(id.value(), 8);
    assert_eq!(next.value(), 8);
}

#[test]
fn next_on_max_value_wraps_to_zero() {
    let mut id = ID::new(u32::MAX);
    let next = id.next();
    assert_eq!(id.value(), 0);
    assert_eq!(next.value(), 0);
}

#[test]
fn ids_with_same_value_are_equal() {
    assert_eq!(ID(42), ID(42));
}

#[test]
fn ids_with_different_values_are_not_equal() {
    assert_ne!(ID(1), ID(2));
}
