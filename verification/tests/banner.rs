use cssforge::banner::{art_for_width, banner_compact, banner_mini, banner_wide, reserved_height};

#[test]
fn picks_art_by_width() {
    assert_eq!(art_for_width(120).unwrap().len(), banner_wide().len());
    assert_eq!(art_for_width(90).unwrap().len(), banner_wide().len());
    assert_eq!(art_for_width(60).unwrap().len(), banner_compact().len());
    assert_eq!(art_for_width(45).unwrap().len(), banner_mini().len());
    assert!(art_for_width(35).is_none());
}

#[test]
fn hides_when_viewport_is_short() {
    assert_eq!(reserved_height(120, 8), 0);
    assert!(reserved_height(120, 24) > 0);
}

#[test]
fn banner_edges_and_heights() {
    assert_eq!(art_for_width(82).unwrap().len(), 6);
    assert_eq!(art_for_width(81).unwrap().len(), 5);
    assert_eq!(art_for_width(54).unwrap().len(), 5);
    assert_eq!(art_for_width(53).unwrap().len(), 4);
    assert_eq!(art_for_width(42).unwrap().len(), 4);
    assert!(art_for_width(41).is_none());
    assert_eq!(reserved_height(120, 14), 8);
    assert_eq!(reserved_height(120, 13), 0);
    assert_eq!(reserved_height(30, 9), 3);
    assert_eq!(reserved_height(30, 8), 0);
}
