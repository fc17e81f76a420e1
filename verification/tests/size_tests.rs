use rsxtree::size::Unit;

#[test]
fn classifier_boundaries() {
    assert!(matches!(Unit::new(0), Unit::Byte(0)));
    assert!(matches!(Unit::new(9999), Unit::Byte(9999)));
    assert!(matches!(Unit::new(10000), Unit::KByte(10000)));
    assert!(matches!(Unit::new(999999), Unit::KByte(999999)));
    assert!(matches!(Unit::new(1000000), Unit::MByte(1000000)));
    assert!(matches!(Unit::new(999999999), Unit::MByte(999999999)));
    assert!(matches!(Unit::new(1000000000), Unit::GByte(1000000000)));
    assert!(matches!(Unit::new(u64::MAX), Unit::GByte(u64::MAX)));
}

#[test]
fn ordering_compares_byte_values_not_tags() {
    // 2048 bytes and 2.0 kilobytes are the same size.
    assert_eq!(Unit::Byte(2048), Unit::KByte(2048));
    assert!(Unit::Byte(100) < Unit::KByte(2048));
    assert!(Unit::GByte(5_000_000_000) > Unit::MByte(900_000_000));
    assert_eq!(
        Unit::Byte(2048).partial_cmp(&Unit::KByte(2048)),
        Some(std::cmp::Ordering::Equal)
    );
}

#[test]
fn to_bytes_returns_the_underlying_count() {
    assert_eq!(Unit::new(12345).to_bytes(), 12345);
    assert_eq!(Unit::GByte(7_000_000_000).to_bytes(), 7_000_000_000);
}
