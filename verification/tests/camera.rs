use portals::camera::{PortalPerspectiveProjection, DEFAULT_FAR, DEFAULT_NEAR, NEAR_CLIP_MIN};

#[test]
fn default_projection() {
    let projection = PortalPerspectiveProjection::default();
    assert_eq!(projection.near(), 100_000);
    assert_eq!(projection.far(), 1_000_000_000);
    assert_eq!(DEFAULT_NEAR, 100_000);
    assert_eq!(DEFAULT_FAR, 1_000_000_000);
    assert_eq!(NEAR_CLIP_MIN, 50_000);
}

#[test]
fn near_plane_is_clamped_to_the_clip_range() {
    let mut projection = PortalPerspectiveProjection::default();
    let far = projection.far();
    let cases: [(u64, u32); 8] = [
        (0, 50_000),
        (30_000, 50_000),
        (49_999, 50_000),
        (50_000, 50_000),
        (50_001, 50_001),
        (500_000_000, 500_000_000),
        (1_000_000_000, 1_000_000_000),
        (1_100_000_000, 1_000_000_000),
    ];
    for (distance, expected) in cases {
        projection.set_near(distance);
        assert_eq!(projection.near(), expected);
        assert_eq!(projection.far(), far);
        assert!(NEAR_CLIP_MIN <= projection.near() && projection.near() <= projection.far());
    }
}

#[test]
fn near_plane_with_a_close_far_plane() {
    let mut projection = PortalPerspectiveProjection::new(60_000, 70_000).unwrap();
    projection.set_near(500_000_000);
    assert_eq!(projection.near(), 70_000);
    projection.set_near(0);
    assert_eq!(projection.near(), 50_000);
    projection.set_near(65_000);
    assert_eq!(projection.near(), 65_000);

    let mut flat = PortalPerspectiveProjection::new(50_000, 50_000).unwrap();
    flat.set_near(10);
    assert_eq!(flat.near(), 50_000);
    flat.set_near(u64::MAX);
    assert_eq!(flat.near(), 50_000);
}

#[test]
fn a_projection_needs_clip_distances_in_order() {
    assert!(PortalPerspectiveProjection::new(50_000, 50_000).is_some());
    assert!(PortalPerspectiveProjection::new(100_000, 1_000_000_000).is_some());
    assert_eq!(PortalPerspectiveProjection::new(49_999, 1_000_000_000), None);
    assert_eq!(PortalPerspectiveProjection::new(0, 1_000_000_000), None);
    assert_eq!(PortalPerspectiveProjection::new(200_000, 100_000), None);
    assert_eq!(PortalPerspectiveProjection::new(100_000, 40_000), None);
    let projection = PortalPerspectiveProjection::new(75_000, 90_000).unwrap();
    assert_eq!(projection.near(), 75_000);
    assert_eq!(projection.far(), 90_000);
}

#[test]
fn moving_the_near_plane_twice() {
    let mut once = PortalPerspectiveProjection::default();
    once.set_near(2_500_000);
    let mut twice = PortalPerspectiveProjection::default();
    twice.set_near(77);
    twice.set_near(2_500_000);
    assert_eq!(once, twice);
    twice.set_near(2_500_000);
    assert_eq!(once, twice);
    let mut held = PortalPerspectiveProjection::default();
    held.set_near(3);
    let before = held;
    held.set_near(50_000);
    assert_eq!(held, before);
}
