use moolah_core::PositiveF64;

#[test]
fn test_positve_f32() {
    assert!(PositiveF64::try_from(-10).is_err());
    assert!(PositiveF64::try_from(0).is_ok());
    assert!(PositiveF64::try_from(100).is_ok());
}
