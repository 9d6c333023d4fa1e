use portals::camera::{Extent2d, DEFAULT_FAR, DEFAULT_NEAR, NEAR_CLIP_MIN};
use portals::controls::Controls;
use portals::kind::{Color, Portal1, Portal2, PortalId};
use portals::math::{Pose, Size2, Vec3};
use portals::placement::{PortalSurface, Ray};
use portals::registry::{remove_portals, PortalHandle, PortalMaterial, PortalRegistry, SpawnPortal};
use portals::solver::solve_camera;

fn display() -> Option<Extent2d> {
    Some(Extent2d { width: 1280, height: 720 })
}

fn pose_at(x: i32, y: i32, z: i32) -> Pose {
    Pose { translation: Vec3 { x, y, z }, ..Pose::identity() }
}

fn spawn(registry: &mut PortalRegistry, id: PortalId, pose: Pose) -> PortalHandle {
    registry
        .spawn_portal(SpawnPortal { portal_kind: id, transform: pose }, display())
        .unwrap()
}

/// Every link in the registry points at a portal that points back.
fn links_are_mutual(registry: &PortalRegistry) -> bool {
    registry.handles().iter().all(|&x| match registry.pair_of(x) {
        Some(y) => registry.contains(y) && registry.pair_of(y) == Some(x) && y.id == x.id.pair(),
        None => true,
    })
}

fn count(registry: &PortalRegistry, id: PortalId) -> usize {
    registry
        .handles()
        .iter()
        .filter(|&&h| registry.get(h).unwrap().id == id)
        .count()
}

#[test]
fn new_registry_is_empty() {
    let registry = PortalRegistry::new();
    assert_eq!(registry.len(), 0);
    assert_eq!(registry.handles(), vec![]);
    assert_eq!(registry.find(PortalId::A), None);
    assert_eq!(registry.find(PortalId::B), None);
}

#[test]
fn first_portal_is_alone_and_dark() {
    let mut registry = PortalRegistry::new();
    let pose = pose_at(1_000_000, 2_000_000, 3_000_000);
    let a = spawn(&mut registry, PortalId::A, pose);
    assert_eq!(a, PortalHandle { id: PortalId::A, generation: 0 });
    let portal = registry.get(a).unwrap();
    assert_eq!(portal.id, PortalId::A);
    assert_eq!(portal.transform, pose);
    assert_eq!(portal.pair, None);
    assert!(!portal.camera.is_active);
    assert_eq!(portal.camera.target, Extent2d { width: 1280, height: 720 });
    assert_eq!(portal.camera.projection.near(), DEFAULT_NEAR);
    assert_eq!(portal.camera.projection.far(), DEFAULT_FAR);
    assert_eq!(registry.len(), 1);
    assert_eq!(registry.find(PortalId::A), Some(a));
    assert_eq!(registry.find(PortalId::B), None);
}

#[test]
fn second_portal_links_both() {
    let mut registry = PortalRegistry::new();
    let pose_a = pose_at(0, 0, 0);
    let pose_b = pose_at(5_000_000, 0, 0);
    let a = spawn(&mut registry, PortalId::A, pose_a);
    let b = spawn(&mut registry, PortalId::B, pose_b);
    assert_eq!(registry.pair_of(a), Some(b));
    assert_eq!(registry.pair_of(b), Some(a));
    assert!(registry.get(a).unwrap().camera.is_active);
    assert!(registry.get(b).unwrap().camera.is_active);
    assert_eq!(registry.get(a).unwrap().transform, pose_a);
    assert_eq!(registry.get(b).unwrap().transform, pose_b);
    assert_eq!(registry.handles(), vec![a, b]);
    assert_eq!(registry.len(), 2);
}

#[test]
fn respawn_replaces_and_relinks() {
    let mut registry = PortalRegistry::new();
    let a = spawn(&mut registry, PortalId::A, pose_at(0, 0, 0));
    let b = spawn(&mut registry, PortalId::B, pose_at(5_000_000, 0, 0));
    assert!(registry.pair_of(a).is_some());
    assert!(registry.pair_of(b).is_some());

    let pose_a2 = pose_at(0, 7_000_000, 0);
    let a2 = spawn(&mut registry, PortalId::A, pose_a2);
    assert_ne!(a2, a);
    assert!(!registry.contains(a));
    assert_eq!(registry.get(a), None);
    assert_eq!(registry.pair_of(a), None);
    assert_eq!(registry.pair_of(b), Some(a2));
    assert_eq!(registry.pair_of(a2), Some(b));
    assert_eq!(registry.get(a2).unwrap().transform, pose_a2);
    assert_eq!(registry.len(), 2);
}

#[test]
fn despawn_unlinks_the_partner_until_the_next_spawn() {
    let mut registry = PortalRegistry::new();
    let a = spawn(&mut registry, PortalId::A, pose_at(0, 0, 0));
    let b = spawn(&mut registry, PortalId::B, pose_at(5_000_000, 0, 0));

    let removed = registry.despawn(a).unwrap();
    assert_eq!(removed.id, PortalId::A);
    assert_eq!(removed.pair, Some(b));
    assert_eq!(registry.pair_of(b), None);
    assert!(!registry.get(b).unwrap().camera.is_active);
    assert_eq!(registry.len(), 1);

    let a2 = spawn(&mut registry, PortalId::A, pose_at(0, 0, 0));
    assert_eq!(registry.pair_of(b), Some(a2));
    assert!(registry.get(b).unwrap().camera.is_active);
}

#[test]
fn despawn_of_a_stale_handle_changes_nothing() {
    let mut registry = PortalRegistry::new();
    let a = spawn(&mut registry, PortalId::A, pose_at(0, 0, 0));
    let a2 = spawn(&mut registry, PortalId::A, pose_at(1, 1, 1));
    assert_eq!(registry.despawn(a), None);
    assert!(registry.contains(a2));
    assert_eq!(registry.len(), 1);
    assert_eq!(registry.despawn(PortalHandle { id: PortalId::B, generation: 0 }), None);
    assert_eq!(registry.len(), 1);
}

#[test]
fn exactly_one_portal_per_identity_after_each_spawn() {
    let mut registry = PortalRegistry::new();
    let order = [
        PortalId::A,
        PortalId::A,
        PortalId::B,
        PortalId::A,
        PortalId::B,
        PortalId::B,
        PortalId::A,
    ];
    for (step, id) in order.iter().enumerate() {
        let handle = spawn(&mut registry, *id, pose_at(step as i32, 0, 0));
        assert_eq!(count(&registry, *id), 1);
        assert_eq!(registry.find(*id), Some(handle));
        assert!(count(&registry, id.pair()) <= 1);
        assert_eq!(handle.generation, step as u64);
    }
}

#[test]
fn links_stay_mutual_through_spawns_and_despawns() {
    let mut registry = PortalRegistry::new();
    assert!(links_are_mutual(&registry));
    let a = spawn(&mut registry, PortalId::A, pose_at(0, 0, 0));
    assert!(links_are_mutual(&registry));
    let b = spawn(&mut registry, PortalId::B, pose_at(1, 0, 0));
    assert!(links_are_mutual(&registry));
    registry.despawn(a);
    assert!(links_are_mutual(&registry));
    let a = spawn(&mut registry, PortalId::A, pose_at(2, 0, 0));
    assert!(links_are_mutual(&registry));
    let b2 = spawn(&mut registry, PortalId::B, pose_at(3, 0, 0));
    assert!(links_are_mutual(&registry));
    assert!(!registry.contains(b));
    registry.despawn(b2);
    assert!(links_are_mutual(&registry));
    assert_eq!(registry.pair_of(a), None);
    registry.remove_all();
    assert!(links_are_mutual(&registry));
}

#[test]
fn spawn_without_a_display_does_nothing() {
    let mut registry = PortalRegistry::new();
    let a = spawn(&mut registry, PortalId::A, pose_at(0, 0, 0));
    let event = SpawnPortal { portal_kind: PortalId::B, transform: pose_at(1, 0, 0) };
    assert_eq!(registry.spawn_portal(event, None), None);
    assert_eq!(registry.len(), 1);
    assert_eq!(registry.pair_of(a), None);
    let event = SpawnPortal { portal_kind: PortalId::A, transform: pose_at(1, 0, 0) };
    assert_eq!(registry.spawn_portal(event, None), None);
    assert!(registry.contains(a));
}

#[test]
fn resize_reaches_every_target() {
    let mut registry = PortalRegistry::new();
    let a = spawn(&mut registry, PortalId::A, pose_at(0, 0, 0));
    let b = spawn(&mut registry, PortalId::B, pose_at(1, 0, 0));
    registry.resize_portal_view_image(Some(Extent2d { width: 800, height: 600 }));
    for handle in registry.handles() {
        assert_eq!(registry.get(handle).unwrap().camera.target, Extent2d { width: 800, height: 600 });
    }
    assert_eq!(registry.pair_of(a), Some(b));
    assert_eq!(registry.pair_of(b), Some(a));
    assert!(registry.get(a).unwrap().camera.is_active);
}

#[test]
fn resize_without_a_display_keeps_the_targets() {
    let mut registry = PortalRegistry::new();
    let a = spawn(&mut registry, PortalId::A, pose_at(0, 0, 0));
    registry.resize_portal_view_image(None);
    assert_eq!(registry.get(a).unwrap().camera.target, Extent2d { width: 1280, height: 720 });
}

#[test]
fn resize_of_an_empty_registry_is_a_no_op() {
    let mut registry = PortalRegistry::new();
    registry.resize_portal_view_image(Some(Extent2d { width: 800, height: 600 }));
    assert_eq!(registry.len(), 0);
}

#[test]
fn a_portal_spawned_after_a_resize_has_the_new_size() {
    let mut registry = PortalRegistry::new();
    let a = spawn(&mut registry, PortalId::A, pose_at(0, 0, 0));
    registry.resize_portal_view_image(Some(Extent2d { width: 800, height: 600 }));
    let event = SpawnPortal { portal_kind: PortalId::B, transform: pose_at(1, 0, 0) };
    let b = registry
        .spawn_portal(event, Some(Extent2d { width: 800, height: 600 }))
        .unwrap();
    assert_eq!(registry.get(a).unwrap().camera.target, registry.get(b).unwrap().camera.target);
}

#[test]
fn remove_portals_only_when_asked() {
    let mut registry = PortalRegistry::new();
    let a = spawn(&mut registry, PortalId::A, pose_at(0, 0, 0));
    let b = spawn(&mut registry, PortalId::B, pose_at(1, 0, 0));

    let idle = Controls { shoot1: true, jump: true, ..Controls::default() };
    assert!(!remove_portals(&idle, &mut registry));
    assert_eq!(registry.handles(), vec![a, b]);

    let asked = Controls { remove_portals: true, ..Controls::default() };
    assert!(remove_portals(&asked, &mut registry));
    assert_eq!(registry.len(), 0);
    assert!(!registry.contains(a));
    assert!(!registry.contains(b));
}

#[test]
fn remove_portals_without_portals_is_a_no_op() {
    let mut registry = PortalRegistry::new();
    let asked = Controls { remove_portals: true, ..Controls::default() };
    assert!(remove_portals(&asked, &mut registry));
    assert_eq!(registry.len(), 0);
    let a = spawn(&mut registry, PortalId::A, pose_at(0, 0, 0));
    assert_eq!(a.generation, 0);
}

#[test]
fn handles_are_not_given_out_twice() {
    let mut registry = PortalRegistry::new();
    let a = spawn(&mut registry, PortalId::A, pose_at(0, 0, 0));
    registry.remove_all();
    let a2 = spawn(&mut registry, PortalId::A, pose_at(0, 0, 0));
    assert_ne!(a, a2);
    assert!(!registry.contains(a));
    assert!(registry.contains(a2));
}

#[test]
fn the_camera_follows_the_player() {
    let mut registry = PortalRegistry::new();
    let entrance = Pose::identity();
    let exit = Pose {
        translation: Vec3 { x: 10_000_000, y: 0, z: 0 },
        right: Vec3 { x: 0, y: 0, z: -1_000_000 },
        up: Vec3 { x: 0, y: 1_000_000, z: 0 },
        back: Vec3 { x: 1_000_000, y: 0, z: 0 },
    };
    let a = spawn(&mut registry, PortalId::A, entrance);
    let b = spawn(&mut registry, PortalId::B, exit);
    assert_eq!(registry.get(a).unwrap().camera.transform, Pose::identity());

    let player = pose_at(500_000, 1_700_000, 3_000_000);
    let moved = registry.move_portal_camera(a, &player).unwrap();
    assert_eq!(Some(moved), solve_camera(&entrance, &exit, &player));
    assert_eq!(moved.world.translation, Vec3 { x: 7_000_000, y: 1_700_000, z: 500_000 });
    let camera = registry.get(a).unwrap().camera;
    assert_eq!(camera.transform, moved.local);
    assert_eq!(camera.projection.near(), 3_484_250);
    assert_eq!(camera.projection.far(), DEFAULT_FAR);
    assert!(camera.is_active);
    assert_eq!(camera.target, Extent2d { width: 1280, height: 720 });

    // The other camera stays until it is moved itself.
    assert_eq!(registry.get(b).unwrap().camera.transform, Pose::identity());
    assert_eq!(registry.get(b).unwrap().camera.projection.near(), DEFAULT_NEAR);
    let moved = registry.move_portal_camera(b, &player).unwrap();
    assert_eq!(Some(moved), solve_camera(&exit, &entrance, &player));
    assert_eq!(registry.get(b).unwrap().camera.transform, moved.local);
    assert_eq!(registry.get(b).unwrap().camera.projection.near(), 10_106_433);
    assert_eq!(registry.get(a).unwrap().camera.projection.near(), 3_484_250);

    assert_eq!(registry.pair_of(a), Some(b));
    assert_eq!(registry.get(a).unwrap().transform, entrance);
    assert_eq!(registry.get(b).unwrap().transform, exit);
}

#[test]
fn every_linked_camera_follows_the_player() {
    let entrance = Pose::identity();
    let exit = Pose {
        translation: Vec3 { x: 10_000_000, y: 0, z: 0 },
        right: Vec3 { x: 0, y: 0, z: -1_000_000 },
        up: Vec3 { x: 0, y: 1_000_000, z: 0 },
        back: Vec3 { x: 1_000_000, y: 0, z: 0 },
    };
    let player = pose_at(500_000, 1_700_000, 3_000_000);

    let mut registry = PortalRegistry::new();
    registry.move_portal_cameras(&player);
    assert_eq!(registry.len(), 0);

    let a = spawn(&mut registry, PortalId::A, entrance);
    let alone = registry.get(a).unwrap();
    registry.move_portal_cameras(&player);
    assert_eq!(registry.get(a).unwrap(), alone);

    let b = spawn(&mut registry, PortalId::B, exit);
    let mut one_by_one = registry.clone();
    registry.move_portal_cameras(&player);
    one_by_one.move_portal_camera(a, &player);
    one_by_one.move_portal_camera(b, &player);
    assert_eq!(registry.get(a), one_by_one.get(a));
    assert_eq!(registry.get(b), one_by_one.get(b));

    let first = registry.get(a).unwrap().camera;
    let second = registry.get(b).unwrap().camera;
    assert_eq!(first.transform, solve_camera(&entrance, &exit, &player).unwrap().local);
    assert_eq!(second.transform, solve_camera(&exit, &entrance, &player).unwrap().local);
    assert_eq!(first.projection.near(), 3_484_250);
    assert_eq!(second.projection.near(), 10_106_433);
    assert_eq!(registry.pair_of(a), Some(b));
    assert_eq!(registry.pair_of(b), Some(a));

    // Cameras that would leave the world stay where they are.
    let mut registry = PortalRegistry::new();
    let a = spawn(&mut registry, PortalId::A, Pose::identity());
    let b = spawn(&mut registry, PortalId::B, pose_at(i32::MAX, 0, 0));
    let before = (registry.get(a), registry.get(b));
    registry.move_portal_cameras(&pose_at(-1, 0, 3_000_000));
    assert_eq!((registry.get(a), registry.get(b)), before);
    registry.move_portal_cameras(&pose_at(1, 0, 3_000_000));
    assert_eq!(
        registry.get(a).unwrap().camera.transform.translation,
        Vec3 { x: i32::MAX - 1, y: 0, z: -3_000_000 }
    );
    assert_eq!(
        registry.get(b).unwrap().camera.transform.translation,
        Vec3 { x: -1, y: 0, z: -3_000_000 }
    );
}

#[test]
fn the_near_plane_is_at_the_players_distance_from_the_entrance() {
    // Two portals at one place, turned a twelfth about the vertical.
    let turned = Pose::from_quaternion(Vec3 { x: 0, y: 0, z: 0 }, 28_978, 0, 7_765, 0).unwrap();
    let mut registry = PortalRegistry::new();
    let a = spawn(&mut registry, PortalId::A, turned);
    let _b = spawn(&mut registry, PortalId::B, turned);
    for (distance, near) in [
        (20_000_000, 19_999_998),
        (200_000_000, 199_999_999),
        (1_000_000_000, 999_999_999),
        (1_100_000_000, 1_000_000_000),
        (30_000, 50_000),
    ] {
        let moved = registry.move_portal_camera(a, &pose_at(distance, 0, 0)).unwrap();
        assert!((moved.world.translation.x + distance).abs() <= 4);
        assert_eq!(registry.get(a).unwrap().camera.projection.near(), near);
    }
}

#[test]
fn a_portal_needs_a_rigid_pose() {
    let rounded = Pose {
        translation: Vec3 { x: 0, y: 0, z: 0 },
        right: Vec3 { x: 866_025, y: 0, z: -500_000 },
        up: Vec3 { x: 0, y: 1_000_000, z: 0 },
        back: Vec3 { x: 500_000, y: 0, z: 866_025 },
    };
    let mut registry = PortalRegistry::new();
    let a = spawn(&mut registry, PortalId::A, Pose::identity());
    let event = SpawnPortal { portal_kind: PortalId::A, transform: rounded };
    assert_eq!(registry.spawn_portal(event, display()), None);
    let event = SpawnPortal { portal_kind: PortalId::B, transform: rounded };
    assert_eq!(registry.spawn_portal(event, display()), None);
    assert_eq!(registry.handles(), vec![a]);
    assert_eq!(registry.pair_of(a), None);

    // The same turn from a quaternion is rigid.
    let turned = Pose::from_quaternion(Vec3 { x: 0, y: 0, z: 0 }, 28_978, 0, 7_765, 0).unwrap();
    let b = spawn(&mut registry, PortalId::B, turned);
    assert_eq!(b.generation, 1);
    assert_eq!(registry.pair_of(a), Some(b));
}

#[test]
fn near_plane_follows_the_distance_within_the_clip_range() {
    // With both portals at the origin the camera is as far from the exit
    // as the player is from the entrance.
    let mut registry = PortalRegistry::new();
    let a = spawn(&mut registry, PortalId::A, Pose::identity());
    let b = spawn(&mut registry, PortalId::B, Pose::identity());
    let far = registry.get(a).unwrap().camera.projection.far();
    assert_eq!(far, 1_000_000_000);
    let cases: [(i32, u32); 7] = [
        (0, 50_000),
        (30_000, 50_000),
        (50_000, 50_000),
        (50_001, 50_001),
        (500_000_000, 500_000_000),
        (1_000_000_000, 1_000_000_000),
        (1_100_000_000, 1_000_000_000),
    ];
    for (distance, near) in cases {
        let moved = registry.move_portal_camera(a, &pose_at(0, 0, distance)).unwrap();
        assert_eq!(moved.world.translation, Vec3 { x: 0, y: 0, z: -distance });
        let projection = registry.get(a).unwrap().camera.projection;
        assert_eq!(projection.near(), near);
        assert_eq!(projection.far(), far);
        assert!(NEAR_CLIP_MIN <= projection.near() && projection.near() <= projection.far());
    }
    assert!(registry.move_portal_camera(a, &pose_at(3_000_000, 4_000_000, 0)).is_some());
    assert_eq!(registry.get(a).unwrap().camera.projection.near(), 5_000_000);
    assert_eq!(registry.get(b).unwrap().camera.projection.near(), DEFAULT_NEAR);
}

#[test]
fn the_camera_of_a_lone_portal_is_not_moved() {
    let mut registry = PortalRegistry::new();
    let a = spawn(&mut registry, PortalId::A, pose_at(0, 0, 0));
    let player = pose_at(2_500_000, 0, 0);
    assert_eq!(registry.move_portal_camera(a, &player), None);
    assert_eq!(registry.get(a).unwrap().camera.projection.near(), DEFAULT_NEAR);
    assert_eq!(registry.get(a).unwrap().camera.transform, Pose::identity());
    let stale = PortalHandle { id: PortalId::B, generation: 7 };
    assert_eq!(registry.move_portal_camera(stale, &player), None);

    let b = spawn(&mut registry, PortalId::B, pose_at(0, 0, 0));
    let a2 = spawn(&mut registry, PortalId::A, pose_at(0, 0, 0));
    assert_eq!(registry.move_portal_camera(a, &player), None);
    assert!(registry.move_portal_camera(a2, &player).is_some());
    assert_eq!(registry.get(a2).unwrap().camera.projection.near(), 2_500_000);
    assert_eq!(registry.get(b).unwrap().camera.projection.near(), DEFAULT_NEAR);
}

#[test]
fn a_camera_that_would_leave_the_world_stays() {
    let mut registry = PortalRegistry::new();
    let a = spawn(&mut registry, PortalId::A, Pose::identity());
    let b = spawn(&mut registry, PortalId::B, pose_at(i32::MAX, 0, 0));
    assert!(registry.move_portal_camera(a, &pose_at(1, 0, 2_000_000)).is_some());
    let before = registry.get(a).unwrap();
    assert_eq!(before.camera.projection.near(), 2_000_000);
    assert_eq!(registry.move_portal_camera(a, &pose_at(-1, 0, 3_000_000)), None);
    assert_eq!(registry.get(a).unwrap(), before);
    assert_eq!(registry.pair_of(b), Some(a));
}

#[test]
fn a_shot_places_a_portal_in_one_step() {
    let wall = PortalSurface {
        transform: Pose::identity(),
        size: Size2 { width: 4_000_000, height: 2_000_000 },
    };
    let ray = Ray {
        origin: Vec3 { x: 300_000, y: 0, z: 5_000_000 },
        direction: Vec3 { x: 0, y: 0, z: -1_000_000 },
    };
    let surfaces = vec![wall];
    let mut registry = PortalRegistry::new();

    let idle = Controls::default();
    assert_eq!(registry.shoot(&idle, &ray, 100_000_000, &surfaces, display()), None);
    assert_eq!(registry.len(), 0);

    let first = Controls { shoot1: true, ..Controls::default() };
    let a = registry.shoot(&first, &ray, 100_000_000, &surfaces, display()).unwrap();
    assert_eq!(a, PortalHandle { id: PortalId::A, generation: 0 });
    assert_eq!(registry.get(a).unwrap().transform, pose_at(300_000, 0, 10_000));
    assert_eq!(registry.get(a).unwrap().pair, None);

    let second = Controls { shoot2: true, ..Controls::default() };
    let b = registry.shoot(&second, &ray, 100_000_000, &surfaces, display()).unwrap();
    assert_eq!(b, PortalHandle { id: PortalId::B, generation: 1 });
    assert_eq!(registry.pair_of(a), Some(b));
    assert_eq!(registry.pair_of(b), Some(a));

    // A shot that misses, one out of reach and one without a display change nothing.
    let aside = Ray { origin: Vec3 { x: 9_000_000, y: 0, z: 5_000_000 }, ..ray };
    assert_eq!(registry.shoot(&first, &aside, 100_000_000, &surfaces, display()), None);
    assert_eq!(registry.shoot(&first, &ray, 1_000_000, &surfaces, display()), None);
    assert_eq!(registry.shoot(&first, &ray, 100_000_000, &surfaces, None), None);
    assert_eq!(registry.handles(), vec![a, b]);

    let a2 = registry.shoot(&first, &ray, 100_000_000, &surfaces, display()).unwrap();
    assert_eq!(registry.handles(), vec![a2, b]);
    assert_eq!(registry.pair_of(b), Some(a2));
}

#[test]
fn a_lone_portal_shows_its_colour_and_a_linked_one_its_view() {
    let mut registry = PortalRegistry::new();
    let a = spawn(&mut registry, PortalId::A, pose_at(0, 0, 0));
    assert_eq!(
        registry.get(a).unwrap().material(),
        PortalMaterial::FlatColor(Color { red: 600, green: 700, blue: 800 })
    );
    let b = spawn(&mut registry, PortalId::B, pose_at(1, 0, 0));
    assert_eq!(registry.get(a).unwrap().material(), PortalMaterial::PortalView);
    assert_eq!(registry.get(b).unwrap().material(), PortalMaterial::PortalView);
    registry.despawn(a);
    assert_eq!(
        registry.get(b).unwrap().material(),
        PortalMaterial::FlatColor(Color { red: 800, green: 700, blue: 600 })
    );
}

#[test]
fn a_request_can_be_made_from_a_portal_type() {
    let pose = pose_at(4, 5, 6);
    assert_eq!(
        SpawnPortal::new(Portal1, pose),
        SpawnPortal { portal_kind: PortalId::A, transform: pose }
    );
    assert_eq!(
        SpawnPortal::new(Portal2, pose),
        SpawnPortal { portal_kind: PortalId::B, transform: pose }
    );
}

#[test]
fn a_clone_is_independent() {
    let mut registry = PortalRegistry::new();
    let a = spawn(&mut registry, PortalId::A, pose_at(0, 0, 0));
    let snapshot = registry.clone();
    registry.remove_all();
    assert!(snapshot.contains(a));
    assert!(!registry.contains(a));
}
