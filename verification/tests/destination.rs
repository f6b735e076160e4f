//! Destination names.

use retinue::DestinationName;

#[test]
fn aspects_join_with_dots() {
    let n = DestinationName::new("example_utilities", &["announcesample", "fruits"]);
    assert_eq!(n.expanded(), "example_utilities.announcesample.fruits");
}

#[test]
fn no_aspects_is_just_the_app_name() {
    let n = DestinationName::new("retinue", &[]);
    assert_eq!(n.expanded(), "retinue");
}
