use bufkit_data::location::{
    all_locations, insert_location, retrieve_location, retrieve_or_add_location, update_location,
};
use bufkit_data::Location;

#[test]
fn test_new_location() {
    let loc = Location::new(46_920_000, -114_080_000, 972, None);
    assert_eq!(loc.latitude(), 46_920_000);
    assert_eq!(loc.longitude(), -114_080_000);
    assert_eq!(loc.elevation(), 972);
    assert_eq!(loc.tz_offset(), None);
    assert!(!loc.is_valid());
    assert_eq!(loc.id(), -1);

    let loc = loc.with_elevation(1000).with_tz_offset(-7 * 3600);
    assert_eq!(loc.elevation(), 1000);
    assert_eq!(loc.tz_offset(), Some(-25200));
    assert_eq!(loc.with_tz_offset(None).tz_offset(), None);
    assert!(loc.same_place(&Location::new(46_920_000, -114_080_000, 1000, None)));
    assert!(!loc.same_place(&Location::new(46_920_000, -114_080_000, 972, None)));
}

#[test]
fn test_checked_new_location() {
    assert_eq!(
        Location::checked_new(90_000_000, 180_000_000, 0, 3600),
        Some(Location::new(90_000_000, 180_000_000, 0, 3600))
    );
    assert_eq!(
        Location::checked_new(-90_000_000, -180_000_000, -5, None),
        Some(Location::new(-90_000_000, -180_000_000, -5, None))
    );
    assert_eq!(Location::checked_new(90_000_001, 0, 0, None), None);
    assert_eq!(Location::checked_new(-90_000_001, 0, 0, None), None);
    assert_eq!(Location::checked_new(0, 180_000_001, 0, None), None);
    assert_eq!(Location::checked_new(0, -180_000_001, 0, None), None);
}

#[test]
fn test_table_of_locations() {
    let mut locations = vec![];
    let first = insert_location(&mut locations, Location::new(1, 2, 3, None)).unwrap();
    let second = retrieve_or_add_location(&mut locations, 4, 5, 6).unwrap();
    assert_eq!(first.id(), 1);
    assert_eq!(second.id(), 2);
    assert_eq!(retrieve_or_add_location(&mut locations, 1, 2, 3), Some(first));
    assert_eq!(retrieve_location(&locations, 4, 5, 6), Some(second));
    assert_eq!(retrieve_location(&locations, 4, 5, 7), None);

    // A second row for a place that has one is not made.
    assert_eq!(insert_location(&mut locations, Location::new(1, 2, 3, 3600)), None);
    assert_eq!(locations.len(), 2);

    let updated = update_location(&mut locations, Location::new(4, 5, 6, 7200)).unwrap();
    assert_eq!(updated.id(), 2);
    assert_eq!(updated.tz_offset(), Some(7200));
    assert_eq!(update_location(&mut locations, Location::new(7, 8, 9, 0)), None);
    assert_eq!(all_locations(&locations), vec![first, updated]);
}

#[test]
fn test_parse_row_to_location() {
    let loc = Location::parse_row_to_location(4, 46_920_000, -114_080_000, 972, Some(-25200)).unwrap();
    assert_eq!(loc.id(), 4);
    assert!(loc.is_valid());
    assert_eq!(loc.latitude(), 46_920_000);
    assert_eq!(loc.longitude(), -114_080_000);
    assert_eq!(loc.elevation(), 972);
    assert_eq!(loc.tz_offset(), Some(-25200));
    assert_eq!(Location::parse_row_to_location(4, 90_000_001, 0, 0, None), None);
    assert_eq!(Location::parse_row_to_location(4, 0, -180_000_001, 0, None), None);
}

#[test]
fn test_restore_location_in_a_table() {
    let mut locations = vec![];
    let here = Location::parse_row_to_location(1, 1, 2, 3, None).unwrap();
    assert!(bufkit_data::location::restore_location(&mut locations, here));
    assert!(!bufkit_data::location::restore_location(&mut locations, here));
    assert!(!bufkit_data::location::restore_location(
        &mut locations,
        Location::parse_row_to_location(3, 4, 5, 6, None).unwrap()
    ));
    assert_eq!(locations, vec![here]);
    assert_eq!(bufkit_data::location::locate_location(&locations, 1, 2, 3), Some(0));
    assert_eq!(bufkit_data::location::locate_location(&locations, 1, 2, 4), None);
}
