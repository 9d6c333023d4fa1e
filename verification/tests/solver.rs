use portals::math::{Pose, Vec3, UNIT};
use portals::solver::{solve_camera, CameraPose};

fn v(x: i32, y: i32, z: i32) -> Vec3 {
    Vec3 { x, y, z }
}

fn pose(translation: Vec3, right: Vec3, up: Vec3, back: Vec3) -> Pose {
    Pose { translation, right, up, back }
}

fn player_at(x: i32, y: i32, z: i32) -> Pose {
    Pose { translation: v(x, y, z), ..Pose::identity() }
}

fn slanted() -> Pose {
    pose(v(3_000_001, -7, 1_234_567), v(600_000, 0, -800_000), v(0, UNIT, 0), v(800_000, 0, 600_000))
}

#[test]
fn through_one_portal_and_out_of_the_other() {
    let entrance = Pose::identity();
    let exit = pose(v(10_000_000, 0, 0), v(0, 0, -UNIT), v(0, UNIT, 0), v(UNIT, 0, 0));
    let player = player_at(500_000, 1_700_000, 3_000_000);

    let camera = pose(v(7_000_000, 1_700_000, 500_000), v(0, 0, UNIT), v(0, UNIT, 0), v(-UNIT, 0, 0));
    assert_eq!(
        solve_camera(&entrance, &exit, &player),
        Some(CameraPose { local: camera, world: camera })
    );

    // The same pair from the other side.
    assert_eq!(
        solve_camera(&exit, &entrance, &player),
        Some(CameraPose {
            local: Pose { translation: v(-9_500_000, 1_700_000, -7_000_000), ..Pose::identity() },
            world: pose(v(3_000_000, 1_700_000, 9_500_000), v(0, 0, -UNIT), v(0, UNIT, 0), v(UNIT, 0, 0)),
        })
    );
}

#[test]
fn the_world_pose_is_the_local_pose_taken_out_of_the_portal() {
    let entrance = pose(v(10_000_000, 0, 0), v(0, 0, -UNIT), v(0, UNIT, 0), v(UNIT, 0, 0));
    let exit = slanted();
    let player = player_at(500_000, 1_700_000, 3_000_000);
    let camera = solve_camera(&entrance, &exit, &player).unwrap();
    assert_eq!(entrance.compose(&camera.local), Some(camera.world));
    assert_eq!(entrance.relative(&camera.world), Some(camera.local));
    assert_eq!(
        exit.compose(&entrance.relative(&player).unwrap().half_turn().unwrap()),
        Some(camera.world)
    );
}

#[test]
fn a_portal_linked_with_itself_turns_the_player_around() {
    let player = player_at(1_000_000, 1_700_000, -4_000_000);

    let identity = Pose::identity();
    let turned = pose(v(-1_000_000, 1_700_000, 4_000_000), v(-UNIT, 0, 0), v(0, UNIT, 0), v(0, 0, -UNIT));
    assert_eq!(player.half_turn(), Some(turned));
    assert_eq!(
        solve_camera(&identity, &identity, &player),
        Some(CameraPose { local: turned, world: turned })
    );

    let portal = slanted();
    assert!(portal.is_rigid());
    let seen = portal.relative(&player).unwrap();
    let camera = solve_camera(&portal, &portal, &player).unwrap();
    assert_eq!(Some(camera.local), seen.half_turn());
    assert_eq!(
        camera.local,
        pose(v(-2_987_653, 1_700_007, 4_740_741), v(-600_000, 0, -800_000), v(0, UNIT, 0), v(800_000, 0, -600_000))
    );
    assert_eq!(
        camera.world,
        pose(v(5_000_002, 1_700_000, 6_469_134), v(-UNIT, 0, 0), v(0, UNIT, 0), v(0, 0, -UNIT))
    );
    assert_eq!(portal.compose(&camera.local), Some(camera.world));
}

#[test]
fn a_camera_out_of_range_is_none() {
    let entrance = Pose::identity();
    let exit = Pose { translation: v(i32::MAX, 0, 0), ..Pose::identity() };
    assert_eq!(solve_camera(&entrance, &exit, &player_at(-1, 0, 0)), None);
    assert!(solve_camera(&entrance, &exit, &player_at(1, 0, 0)).is_some());
    assert_eq!(solve_camera(&entrance, &entrance, &player_at(i32::MIN, 0, 0)), None);
    let far = Pose { translation: v(i32::MIN, 0, 0), ..Pose::identity() };
    assert_eq!(solve_camera(&far, &entrance, &player_at(1, 0, 0)), None);
}

fn close(a: Vec3, b: Vec3, steps: i32) -> bool {
    (a.x as i64 - b.x as i64).abs() <= steps as i64
        && (a.y as i64 - b.y as i64).abs() <= steps as i64
        && (a.z as i64 - b.z as i64).abs() <= steps as i64
}

fn poses_close(a: Pose, b: Pose, steps: i32) -> bool {
    close(a.translation, b.translation, steps)
        && close(a.right, b.right, steps)
        && close(a.up, b.up, steps)
        && close(a.back, b.back, steps)
}

fn length(a: Vec3) -> u64 {
    Vec3 { x: 0, y: 0, z: 0 }.distance(a)
}

/// The portal turned by a twelfth of a turn about the vertical: half the
/// angle has the cosine and sine 0.96593 and 0.25882.
fn twelfth() -> Pose {
    Pose::from_quaternion(v(0, 0, 0), 28_978, 0, 7_765, 0).unwrap()
}

/// A wall that leans: turned about all three axes.
fn leaning() -> Pose {
    Pose::from_quaternion(v(20_000_000, 3_000_000, 15_000_000), 19_000, 9_000, 12_000, -5_000).unwrap()
}

#[test]
fn two_portals_turned_a_twelfth_at_one_place() {
    let portal = twelfth();
    assert!(portal.is_rigid());
    assert_eq!(portal.right, v(779_429_259, 0, -450_028_340));
    for (distance, world, local) in [
        (20_000_000, -19_999_998, v(-17_320_269, 0, -10_000_409)),
        (200_000_000, -199_999_999, v(-173_202_708, 0, -100_004_107)),
        (1_000_000_000, -999_999_999, v(-866_013_544, 0, -500_020_538)),
    ] {
        let player = player_at(distance, 0, 0);
        let camera = solve_camera(&portal, &portal, &player).unwrap();
        // The player turned half about the portal: on the other side, as far away.
        assert!(close(camera.world.translation, v(-distance, 0, 0), 4));
        assert_eq!(camera.world.translation, v(world, 0, 0));
        assert_eq!(camera.local.translation, local);
        // The entrance takes the local pose to the world pose.
        assert!(poses_close(portal.compose(&camera.local).unwrap(), camera.world, 3));
        // The camera is as far from the exit as the player from the entrance.
        let near = portal.translation.distance(camera.world.translation);
        let far = player.translation.distance(portal.translation);
        assert_eq!(far, distance as u64);
        assert!(far - 8 <= near && near <= far);
    }
}

#[test]
fn the_camera_through_leaning_portals() {
    let entrance = leaning();
    let exit = Pose::from_quaternion(v(5_000_000, 1_000_000, 10_000_000), 21_000, 0, 8_700, 0).unwrap();
    assert_eq!(entrance.unit(), 611_000_000);
    assert_eq!(exit.unit(), 516_690_000);
    // The player's own axes need not be rigid: these are rounded to the step.
    let player = pose(
        v(7_300_000, 1_700_000, -2_500_000),
        v(866_025, 0, -500_000),
        v(0, UNIT, 0),
        v(500_000, 0, 866_025),
    );
    let camera = solve_camera(&entrance, &exit, &player).unwrap();
    assert_eq!(camera.world.translation, v(5_940_406, -14_646_317, 24_951_198));
    assert_eq!(camera.local.translation, v(-15_925_413, -17_250_261, 7_543_256));
    assert_eq!(camera.world.right, v(-863_174, 393_790, 316_000));

    assert!(poses_close(entrance.compose(&camera.local).unwrap(), camera.world, 3));
    assert_eq!(entrance.relative(&camera.world), Some(camera.local));
    assert_eq!(
        exit.compose(&entrance.relative(&player).unwrap().half_turn().unwrap()),
        Some(camera.world)
    );

    let near = exit.translation.distance(camera.world.translation);
    let far = player.translation.distance(entrance.translation);
    assert_eq!((near, far), (21_661_715, 21_661_717));
    assert!(far - 8 <= near && near <= far);

    for (of_player, in_world, in_frame) in [
        (player.right, camera.world.right, camera.local.right),
        (player.up, camera.world.up, camera.local.up),
        (player.back, camera.world.back, camera.local.back),
    ] {
        assert!(length(of_player) - 8 <= length(in_world) && length(in_world) <= length(of_player));
        assert!(length(of_player) - 12 <= length(in_frame) && length(in_frame) <= length(of_player));
    }
}

#[test]
fn a_leaning_portal_linked_with_itself() {
    let portal = leaning();
    let player = player_at(7_300_000, 1_700_000, -2_500_000);
    let camera = solve_camera(&portal, &portal, &player).unwrap();
    assert_eq!(camera.world.translation, v(11_906_531, -16_134_960, 21_130_171));

    // Half a turn about the portal's vertical axis: twice the part along
    // the axis, less the point, from the portal's position.
    let n = portal.unit() as i128;
    let from = [
        (player.translation.x - portal.translation.x) as i128,
        (player.translation.y - portal.translation.y) as i128,
        (player.translation.z - portal.translation.z) as i128,
    ];
    let up = [portal.up.x as i128, portal.up.y as i128, portal.up.z as i128];
    let along = up[0] * from[0] + up[1] * from[1] + up[2] * from[2];
    let turned = |i: usize| (up[i] * 2 * along - from[i] * n * n) / (n * n);
    let expected = v(
        portal.translation.x + turned(0) as i32,
        portal.translation.y + turned(1) as i32,
        portal.translation.z + turned(2) as i32,
    );
    assert_eq!(expected, v(11_906_531, -16_134_961, 21_130_171));
    assert!(close(camera.world.translation, expected, 4));
}

#[test]
fn portals_that_are_not_rigid_have_no_camera() {
    let identity = Pose::identity();
    let rounded = pose(v(0, 0, 0), v(866_025, 0, -500_000), v(0, UNIT, 0), v(500_000, 0, 866_025));
    assert!(!rounded.is_rigid());
    let player = player_at(20_000_000, 0, 0);
    assert_eq!(solve_camera(&rounded, &identity, &player), None);
    assert_eq!(solve_camera(&identity, &rounded, &player), None);
    assert_eq!(solve_camera(&rounded, &rounded, &player), None);
    let stretched = pose(v(0, 0, 0), v(2 * UNIT, 0, 0), v(0, UNIT, 0), v(0, 0, UNIT));
    assert_eq!(solve_camera(&stretched, &identity, &player), None);
    assert!(solve_camera(&identity, &identity, &player).is_some());
    // Axes of another length are another unit, not another size.
    let fine = pose(v(0, 0, 0), v(2 * UNIT, 0, 0), v(0, 2 * UNIT, 0), v(0, 0, 2 * UNIT));
    assert_eq!(
        solve_camera(&fine, &fine, &player).map(|camera| camera.world),
        solve_camera(&identity, &identity, &player).map(|camera| camera.world)
    );
}

#[test]
fn a_player_at_the_entrance_looks_out_of_the_exit() {
    let entrance = leaning();
    let exit = Pose::from_quaternion(v(5_000_000, 1_000_000, 10_000_000), 21_000, 0, 8_700, 0).unwrap();
    let camera = solve_camera(&entrance, &exit, &entrance).unwrap();
    assert_eq!(camera.world.translation, exit.translation);
    let scaled = |c: i32, sign: i64| (c as i64 * sign * entrance.unit() as i64 / exit.unit() as i64) as i32;
    assert_eq!(
        camera.world.right,
        v(scaled(exit.right.x, -1), scaled(exit.right.y, -1), scaled(exit.right.z, -1))
    );
    assert_eq!(camera.world.up, v(scaled(exit.up.x, 1), scaled(exit.up.y, 1), scaled(exit.up.z, 1)));
    assert_eq!(
        camera.world.back,
        v(scaled(exit.back.x, -1), scaled(exit.back.y, -1), scaled(exit.back.z, -1))
    );
    // With both at one unit the axes are those of the exit, two of them turned over.
    let first = Pose::identity();
    let second = pose(v(10_000_000, 0, 0), v(0, 0, -UNIT), v(0, UNIT, 0), v(UNIT, 0, 0));
    let camera = solve_camera(&first, &second, &first).unwrap();
    assert_eq!(camera.world, second.compose(&first.half_turn().unwrap()).unwrap());
    assert_eq!(camera.world, pose(v(10_000_000, 0, 0), v(0, 0, UNIT), v(0, UNIT, 0), v(-UNIT, 0, 0)));
}
