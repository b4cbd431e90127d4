use catan::{Cost, Hand, ResourceCounts, ResourceError};

#[test]
fn test_resource_counts() {
    let mut counts = ResourceCounts::default();
    counts.add(ResourceCounts::new([1, 0, 0, 0, 0]));
    assert_eq!(counts.0, [1, 0, 0, 0, 0]);
    counts.add(ResourceCounts::new([4, 0, 0, 0, 0]));
    assert_eq!(counts.0, [5, 0, 0, 0, 0]);
    counts.add(ResourceCounts::new([0, 1, 0, 0, 0]));
    assert_eq!(counts.0, [5, 1, 0, 0, 0]);
}

#[test]
fn test_resource_counts_covers() {
    let mut counts = ResourceCounts::default();
    counts.add(ResourceCounts::new([1, 0, 0, 0, 0]));
    assert!(!counts.covers(&Cost::road().resources()));
    counts.add(ResourceCounts::new([0, 0, 4, 0, 0]));
    assert!(counts.covers(&Cost::road().resources()));
}

#[test]
fn test_resource_counts_try_subtract() {
    let mut counts = ResourceCounts::default();
    counts.add(ResourceCounts::new([1, 0, 0, 0, 0]));
    counts.add(ResourceCounts::new([0, 0, 1, 0, 0]));
    assert!(counts.try_subtract(&Cost::road().resources()));
    assert_eq!(counts, ResourceCounts::default())
}

#[test]
fn counts_test_get_resource() {
    let resources = ResourceCounts([0, 1, 2, 5, 0]);
    assert_eq!(resources.get_resource(0), ResourceCounts::new([0, 1, 0, 0, 0]));
    assert_eq!(resources.get_resource(1), ResourceCounts::new([0, 0, 1, 0, 0]));
    assert_eq!(resources.get_resource(2), ResourceCounts::new([0, 0, 1, 0, 0]));
    assert_eq!(resources.get_resource(8), ResourceCounts::new([0, 1, 0, 0, 0]));
}

#[test]
fn test_hand_pay_with_not_enough_resources() {
    let mut hand = Hand::default();
    assert_eq!(hand.pay(&Cost::road()), Err(ResourceError::NotEnoughResources));
    assert_eq!(hand.resources(), ResourceCounts::default());
}

#[test]
fn test_hand_pay_with_enough_resources() {
    let mut hand = Hand::default();
    hand.add(ResourceCounts::new([1, 0, 0, 0, 0]));
    hand.add(ResourceCounts::new([0, 0, 1, 0, 0]));
    assert_eq!(hand.pay(&Cost::road()), Ok(()));
    assert_eq!(hand.resources(), ResourceCounts::default());
}

#[test]
fn test_hand_add() {
    let mut hand = Hand::default();
    hand.add(ResourceCounts::new([0, 0, 1, 0, 0]));
    assert_eq!(hand.resources(), ResourceCounts::new([0, 0, 1, 0, 0]));
}

#[test]
fn hand_test_get_resource() {
    let hand = Hand::new(ResourceCounts::new([0, 1, 2, 5, 0]));
    assert_eq!(hand.get_resource(0), Ok(ResourceCounts::new([0, 1, 0, 0, 0])));
    assert_eq!(hand.get_resource(1), Ok(ResourceCounts::new([0, 0, 1, 0, 0])));
    assert_eq!(hand.get_resource(2), Ok(ResourceCounts::new([0, 0, 1, 0, 0])));
    assert_eq!(hand.get_resource(8), Ok(ResourceCounts::new([0, 1, 0, 0, 0])));

    let hand = Hand::new(ResourceCounts::default());
    assert_eq!(hand.get_resource(4), Err(ResourceError::IsEmpty));
}
