use spacecal_for_monado::xr::hand_tracking::Hand;

#[test]
fn test_hand_enum() {
    assert_eq!(Hand::Left, Hand::Left);
    assert_ne!(Hand::Left, Hand::Right);
}
