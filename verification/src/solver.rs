//! Where the camera of a portal stands: where the player would stand, had
//! they walked in at the portal's exit and come out of the portal, facing
//! the other way.

use vstd::prelude::*;
use crate::math::{
    is_integer_sqrt, lemma_root_exists, lemma_root_is_unique, lemma_to_vec3, lemma_toward_zero, toward_zero, Int3,
    Pose, Vec3,
};
use crate::transform::{
    half_turned, lemma_dot_commutes, lemma_rounded_length, lemma_rounded_product, lemma_rows_undo_columns,
    lemma_there_and_back, lemma_turn_back_keeps_length, lemma_turn_by_rows, lemma_turn_keeps_length, within,
};

verus! {

/// The pose of a portal's camera.
#[derive(Clone, Copy, Debug, PartialEq, Eq, Structural)]
pub struct CameraPose {
    /// The pose in the frame of the portal that the camera belongs to.
    pub local: Pose,
    /// The pose in the world.
    pub world: Pose,
}

/// The pose of the camera of the portal at `entrance`, which is linked
/// with the portal at `exit`, for a player whose camera is at `player`.
/// Both portals must be rigid.
///
/// The player's camera as the entrance has it, turned by half a turn about
/// the vertical axis, is the pose of the portal's camera as the exit has
/// it. The exit takes it to the world, and the entrance takes it from the
/// world to its own frame. `None` where a portal is not rigid or a
/// coordinate on the way is out of range.
pub open spec fn spec_solve_camera(entrance: Pose, exit: Pose, player: Pose) -> Option<CameraPose> {
    if entrance.spec_is_rigid() && exit.spec_is_rigid() {
        match entrance.spec_relative(player) {
            Some(seen) => match seen.spec_half_turn() {
                Some(turned) => match exit.spec_compose(turned) {
                    Some(world) => match entrance.spec_relative(world) {
                        Some(local) => Some(CameraPose { local, world }),
                        None => None,
                    },
                    None => None,
                },
                None => None,
            },
            None => None,
        }
    } else {
        None
    }
}

/// The pose of the camera of the portal at `entrance`, which is linked
/// with the portal at `exit`, for a player whose camera is at `player`:
/// see [`spec_solve_camera`]. Up to rounding, the entrance takes the
/// camera's pose in its own frame to the pose in the world, the camera is
/// as far from the exit as the player is from the entrance, and behind a
/// portal linked with a portal at the same pose it is the player turned
/// by half a turn about the portal's vertical axis.
pub fn solve_camera(entrance: &Pose, exit: &Pose, player: &Pose) -> (camera: Option<CameraPose>)
    ensures
        camera == spec_solve_camera(*entrance, *exit, *player),
        camera matches Some(c) ==> {
            &&& within(entrance.spec_point_to_world(c.local.translation), c.world.translation@, 3)
            &&& within(entrance.spec_direction_to_world(c.local.right), c.world.right@, 3)
            &&& within(entrance.spec_direction_to_world(c.local.up), c.world.up@, 3)
            &&& within(entrance.spec_direction_to_world(c.local.back), c.world.back@, 3)
            &&& player.translation.spec_distance(entrance.translation) - 8 <= exit.translation.spec_distance(
                c.world.translation,
            ) <= player.translation.spec_distance(entrance.translation)
            &&& *exit == *entrance ==> within(
                c.world.translation@,
                turned_about_vertical(*entrance, player.translation),
                4,
            )
        },
{
    proof {
        if spec_solve_camera(*entrance, *exit, *player) is Some {
            lemma_local_pose_is_the_world_pose(*entrance, *exit, *player);
            lemma_camera_is_as_far_as_the_player(*entrance, *exit, *player);
            if *exit == *entrance {
                lemma_camera_of_a_portal_linked_with_itself(*entrance, *player);
            }
        }
    }
    if !entrance.is_rigid() || !exit.is_rigid() {
        return None;
    }
    let seen = match entrance.relative(player) {
        Some(seen) => seen,
        None => {
            return None;
        },
    };
    let turned = match seen.half_turn() {
        Some(turned) => turned,
        None => {
            return None;
        },
    };
    let world = match exit.compose(&turned) {
        Some(world) => world,
        None => {
            return None;
        },
    };
    match entrance.relative(&world) {
        Some(local) => Some(CameraPose { local, world }),
        None => None,
    }
}

/// `point` turned by half a turn about the vertical axis of `portal`, the
/// axis through its position along `up`: twice the part of the point along
/// the axis, less the point, measured from the portal and rounded toward
/// zero.
pub open spec fn turned_about_vertical(portal: Pose, point: Vec3) -> Int3 {
    let n = portal.spec_unit();
    let from = point@.minus(portal.translation@);
    let up = portal.up@;
    portal.translation@.plus(up.times(2 * up.dot(from)).minus(from.times(n * n)).over(n * n))
}

/// What the solver gives, step by step, where it gives a pose.
proof fn lemma_steps(entrance: Pose, exit: Pose, player: Pose)
    requires
        spec_solve_camera(entrance, exit, player) is Some,
    ensures
        ({
            let camera = spec_solve_camera(entrance, exit, player).unwrap();
            let seen = entrance.spec_turn_back(player.translation@.minus(entrance.translation@)).over(
                entrance.spec_unit(),
            );
            let turned = Int3 { x: -seen.x, y: seen.y, z: -seen.z };
            &&& entrance.spec_is_rigid()
            &&& exit.spec_is_rigid()
            &&& camera.world.translation@ == exit.translation@.plus(exit.spec_turn(turned).over(exit.spec_unit()))
            &&& camera.local.translation@ == entrance.spec_point_to_local(camera.world.translation)
            &&& camera.local.right@ == entrance.spec_direction_to_local(camera.world.right)
            &&& camera.local.up@ == entrance.spec_direction_to_local(camera.world.up)
            &&& camera.local.back@ == entrance.spec_direction_to_local(camera.world.back)
        }),
{
    let seen = entrance.spec_relative(player).unwrap();
    let turned = seen.spec_half_turn().unwrap();
    let world = exit.spec_compose(turned).unwrap();
    lemma_to_vec3(entrance.spec_point_to_local(player.translation));
    lemma_to_vec3(half_turned(seen.translation));
    lemma_to_vec3(exit.spec_point_to_world(turned.translation));
    lemma_to_vec3(entrance.spec_point_to_local(world.translation));
    lemma_to_vec3(entrance.spec_direction_to_local(world.right));
    lemma_to_vec3(entrance.spec_direction_to_local(world.up));
    lemma_to_vec3(entrance.spec_direction_to_local(world.back));
}

/// The entrance takes the camera's pose in its own frame to the camera's
/// pose in the world, up to rounding: position and axes come out within
/// three steps of those of the world pose.
pub proof fn lemma_local_pose_is_the_world_pose(entrance: Pose, exit: Pose, player: Pose)
    requires
        spec_solve_camera(entrance, exit, player) is Some,
    ensures
        ({
            let camera = spec_solve_camera(entrance, exit, player).unwrap();
            &&& within(
                entrance.spec_point_to_world(camera.local.translation),
                camera.world.translation@,
                3,
            )
            &&& within(entrance.spec_direction_to_world(camera.local.right), camera.world.right@, 3)
            &&& within(entrance.spec_direction_to_world(camera.local.up), camera.world.up@, 3)
            &&& within(entrance.spec_direction_to_world(camera.local.back), camera.world.back@, 3)
        }),
{
    let camera = spec_solve_camera(entrance, exit, player).unwrap();
    lemma_steps(entrance, exit, player);
    lemma_there_and_back(entrance, camera.world.translation@.minus(entrance.translation@));
    lemma_there_and_back(entrance, camera.world.right@);
    lemma_there_and_back(entrance, camera.world.up@);
    lemma_there_and_back(entrance, camera.world.back@);
}

/// Two roundings against one: `x` divided by `n`, against `exact` divided
/// by `n` squared, where `n` times `x` is less than three times `n`
/// squared off `exact`.
proof fn lemma_two_roundings(x: int, exact: int, n: int)
    requires
        n > 0,
        -3 * (n * n) < n * x - exact < 3 * (n * n),
    ensures
        -4 <= toward_zero(x, n) - toward_zero(exact, n * n) <= 4,
{
    let nn = n * n;
    assert(nn > 0) by (nonlinear_arith)
        requires
            n > 0,
            nn == n * n,
    ;
    lemma_toward_zero(x, n);
    lemma_toward_zero(exact, nn);
    let q = toward_zero(x, n);
    let r = toward_zero(exact, nn);
    assert(-5 < q - r < 5) by (nonlinear_arith)
        requires
            n > 0,
            nn == n * n,
            x - n < n * q < x + n,
            exact - nn < nn * r < exact + nn,
            -3 * nn < n * x - exact < 3 * nn,
    ;
}

/// One coordinate of the camera of a portal linked with itself: `row` is
/// the row of the portal's axes for the coordinate, `up` the coordinate of
/// its vertical axis, `from` the player seen from the portal's position.
proof fn lemma_turned_coordinate(portal: Pose, row: Int3, up: int, from: Int3, coordinate: int)
    requires
        portal.spec_is_rigid(),
        -portal.spec_unit() <= row.x <= portal.spec_unit(),
        -portal.spec_unit() <= row.y <= portal.spec_unit(),
        -portal.spec_unit() <= row.z <= portal.spec_unit(),
        row.y == up,
        row.dot(portal.spec_turn_back(from)) == portal.spec_unit() * portal.spec_unit() * coordinate,
    ensures
        ({
            let n = portal.spec_unit();
            let seen = portal.spec_turn_back(from).over(n);
            let turned = Int3 { x: -seen.x, y: seen.y, z: -seen.z };
            -4 <= toward_zero(row.dot(turned), n) - toward_zero(
                up * (2 * portal.up@.dot(from)) - coordinate * (n * n),
                n * n,
            ) <= 4
        }),
{
    let n = portal.spec_unit();
    let nn = n * n;
    let along = portal.spec_turn_back(from);
    let seen = along.over(n);
    let turned = Int3 { x: -seen.x, y: seen.y, z: -seen.z };
    let flipped = Int3 { x: -row.x, y: row.y, z: -row.z };
    lemma_rounded_product(flipped, along, n);
    assert(flipped.dot(seen) == row.dot(turned)) by (nonlinear_arith)
        requires
            flipped.x == -row.x,
            flipped.y == row.y,
            flipped.z == -row.z,
            turned.x == -seen.x,
            turned.y == seen.y,
            turned.z == -seen.z,
            flipped.dot(seen) == flipped.x * seen.x + flipped.y * seen.y + flipped.z * seen.z,
            row.dot(turned) == row.x * turned.x + row.y * turned.y + row.z * turned.z,
    ;
    lemma_dot_commutes(portal.up@, from);
    let exact = up * (2 * portal.up@.dot(from)) - coordinate * nn;
    assert(flipped.dot(along) == exact) by (nonlinear_arith)
        requires
            flipped.x == -row.x,
            flipped.y == row.y,
            flipped.z == -row.z,
            flipped.dot(along) == flipped.x * along.x + flipped.y * along.y + flipped.z * along.z,
            row.x * along.x + row.y * along.y + row.z * along.z == nn * coordinate,
            along.y == portal.up@.dot(from),
            row.y == up,
            exact == up * (2 * portal.up@.dot(from)) - coordinate * nn,
    ;
    lemma_two_roundings(row.dot(turned), exact, n);
}

/// A portal that is its own exit shows the player turned around: the
/// camera of a portal linked with a portal at the same pose stands where
/// the player's camera stands, turned by half a turn about the portal's
/// vertical axis, up to rounding: within four steps.
pub proof fn lemma_camera_of_a_portal_linked_with_itself(portal: Pose, player: Pose)
    requires
        spec_solve_camera(portal, portal, player) is Some,
    ensures
        within(
            spec_solve_camera(portal, portal, player).unwrap().world.translation@,
            turned_about_vertical(portal, player.translation),
            4,
        ),
{
    let n = portal.spec_unit();
    let from = player.translation@.minus(portal.translation@);
    let seen = portal.spec_turn_back(from).over(n);
    let turned = Int3 { x: -seen.x, y: seen.y, z: -seen.z };
    let rows = portal.spec_rows();
    lemma_steps(portal, portal, player);
    lemma_rows_undo_columns(portal, from);
    lemma_turn_by_rows(portal, turned);
    lemma_turned_coordinate(portal, rows.0@, portal.up.x as int, from, from.x);
    lemma_turned_coordinate(portal, rows.1@, portal.up.y as int, from, from.y);
    lemma_turned_coordinate(portal, rows.2@, portal.up.z as int, from, from.z);
}

/// The camera stands as far behind the exit as the player stands in front
/// of the entrance, up to rounding: no farther, and at most eight steps
/// nearer.
pub proof fn lemma_camera_is_as_far_as_the_player(entrance: Pose, exit: Pose, player: Pose)
    requires
        spec_solve_camera(entrance, exit, player) is Some,
    ensures
        ({
            let camera = spec_solve_camera(entrance, exit, player).unwrap();
            let near = exit.translation.spec_distance(camera.world.translation);
            let far = player.translation.spec_distance(entrance.translation);
            far - 8 <= near <= far
        }),
{
    let camera = spec_solve_camera(entrance, exit, player).unwrap();
    let from = player.translation@.minus(entrance.translation@);
    let along = entrance.spec_turn_back(from);
    let seen = along.over(entrance.spec_unit());
    let turned = Int3 { x: -seen.x, y: seen.y, z: -seen.z };
    let out = exit.spec_turn(turned);
    let behind = out.over(exit.spec_unit());
    lemma_steps(entrance, exit, player);
    lemma_turn_back_keeps_length(entrance, from);
    lemma_turn_keeps_length(exit, turned);
    assert(from.dot(from) >= 0 && seen.dot(seen) >= 0 && behind.dot(behind) >= 0) by (nonlinear_arith)
        requires
            from.dot(from) == from.x * from.x + from.y * from.y + from.z * from.z,
            seen.dot(seen) == seen.x * seen.x + seen.y * seen.y + seen.z * seen.z,
            behind.dot(behind) == behind.x * behind.x + behind.y * behind.y + behind.z * behind.z,
    ;
    lemma_root_exists(from.dot(from));
    lemma_root_exists(seen.dot(seen));
    lemma_root_exists(behind.dot(behind));
    let far = choose|root: int| is_integer_sqrt(from.dot(from), root);
    let middle = choose|root: int| is_integer_sqrt(seen.dot(seen), root);
    let near = choose|root: int| is_integer_sqrt(behind.dot(behind), root);
    lemma_rounded_length(along, entrance.spec_unit(), from.dot(from), far, middle);
    assert(turned.dot(turned) == seen.dot(seen)) by (nonlinear_arith)
        requires
            turned.x == -seen.x,
            turned.y == seen.y,
            turned.z == -seen.z,
            seen.dot(seen) == seen.x * seen.x + seen.y * seen.y + seen.z * seen.z,
            turned.dot(turned) == turned.x * turned.x + turned.y * turned.y + turned.z * turned.z,
    ;
    lemma_rounded_length(out, exit.spec_unit(), turned.dot(turned), middle, near);
    let gap = exit.translation@.minus(camera.world.translation@);
    assert(gap.dot(gap) == behind.dot(behind)) by (nonlinear_arith)
        requires
            gap.x == -behind.x,
            gap.y == -behind.y,
            gap.z == -behind.z,
            gap.dot(gap) == gap.x * gap.x + gap.y * gap.y + gap.z * gap.z,
            behind.dot(behind) == behind.x * behind.x + behind.y * behind.y + behind.z * behind.z,
    ;
    lemma_root_is_unique(
        gap.dot(gap),
        near,
        exit.translation.spec_distance(camera.world.translation),
    );
    lemma_root_is_unique(from.dot(from), far, player.translation.spec_distance(entrance.translation));
}

/// The camera's axes are as long as the player's, up to rounding: each
/// axis of the camera in the world is no longer than that axis of the
/// player's camera and at most eight steps shorter, and in the frame of
/// the entrance at most twelve.
pub proof fn lemma_camera_axes_keep_their_length(entrance: Pose, exit: Pose, player: Pose, axis: int)
    requires
        spec_solve_camera(entrance, exit, player) is Some,
        0 <= axis < 3,
    ensures
        ({
            let camera = spec_solve_camera(entrance, exit, player).unwrap();
            let of_player = if axis == 0 { player.right } else if axis == 1 { player.up } else { player.back };
            let in_world = if axis == 0 { camera.world.right } else if axis == 1 { camera.world.up } else {
                camera.world.back
            };
            let in_frame = if axis == 0 { camera.local.right } else if axis == 1 { camera.local.up } else {
                camera.local.back
            };
            &&& crate::transform::length(of_player) - 8 <= crate::transform::length(in_world)
                <= crate::transform::length(of_player)
            &&& crate::transform::length(of_player) - 12 <= crate::transform::length(in_frame)
                <= crate::transform::length(of_player)
        }),
{
    let camera = spec_solve_camera(entrance, exit, player).unwrap();
    let of_player = if axis == 0 { player.right } else if axis == 1 { player.up } else { player.back };
    let in_world = if axis == 0 { camera.world.right } else if axis == 1 { camera.world.up } else {
        camera.world.back
    };
    let in_frame = if axis == 0 { camera.local.right } else if axis == 1 { camera.local.up } else {
        camera.local.back
    };
    let seen_pose = entrance.spec_relative(player).unwrap();
    let turned_pose = seen_pose.spec_half_turn().unwrap();
    let of_seen = if axis == 0 { seen_pose.right } else if axis == 1 { seen_pose.up } else { seen_pose.back };
    let of_turned = if axis == 0 { turned_pose.right } else if axis == 1 { turned_pose.up } else {
        turned_pose.back
    };
    lemma_steps(entrance, exit, player);
    lemma_to_vec3(entrance.spec_direction_to_local(of_player));
    lemma_to_vec3(half_turned(of_seen));
    lemma_to_vec3(exit.spec_direction_to_world(of_turned));
    lemma_to_vec3(entrance.spec_direction_to_local(in_world));
    lemma_length_through(entrance, of_player@, true, of_seen@);
    lemma_same_length(of_seen@, of_turned@);
    lemma_length_through(exit, of_turned@, false, in_world@);
    lemma_length_through(entrance, in_world@, true, in_frame@);
}

/// The length of a vector and of the same vector with some signs changed
/// is the same.
proof fn lemma_same_length(a: Int3, b: Int3)
    requires
        b.x == a.x || b.x == -a.x,
        b.y == a.y || b.y == -a.y,
        b.z == a.z || b.z == -a.z,
    ensures
        a.dot(a) == b.dot(b),
{
    assert(a.x * a.x == b.x * b.x) by (nonlinear_arith)
        requires
            b.x == a.x || b.x == -a.x,
    ;
    assert(a.y * a.y == b.y * b.y) by (nonlinear_arith)
        requires
            b.y == a.y || b.y == -a.y,
    ;
    assert(a.z * a.z == b.z * b.z) by (nonlinear_arith)
        requires
            b.z == a.z || b.z == -a.z,
    ;
}

/// The length of what a rigid pose makes of a vector, on the way into its
/// frame or out of it: no more than the length of the vector, and at most
/// four steps less.
proof fn lemma_length_through(frame: Pose, v: Int3, inward: bool, result: Int3)
    requires
        frame.spec_is_rigid(),
        result == (if inward {
            frame.spec_turn_back(v).over(frame.spec_unit())
        } else {
            frame.spec_turn(v).over(frame.spec_unit())
        }),
    ensures
        ({
            let before = choose|root: int| is_integer_sqrt(v.dot(v), root);
            let after = choose|root: int| is_integer_sqrt(result.dot(result), root);
            &&& is_integer_sqrt(v.dot(v), before)
            &&& is_integer_sqrt(result.dot(result), after)
            &&& before - 4 <= after <= before
        }),
{
    assert(v.dot(v) >= 0 && result.dot(result) >= 0) by (nonlinear_arith)
        requires
            v.dot(v) == v.x * v.x + v.y * v.y + v.z * v.z,
            result.dot(result) == result.x * result.x + result.y * result.y + result.z * result.z,
    ;
    lemma_root_exists(v.dot(v));
    lemma_root_exists(result.dot(result));
    let before = choose|root: int| is_integer_sqrt(v.dot(v), root);
    let after = choose|root: int| is_integer_sqrt(result.dot(result), root);
    if inward {
        lemma_turn_back_keeps_length(frame, v);
        lemma_rounded_length(frame.spec_turn_back(v), frame.spec_unit(), v.dot(v), before, after);
    } else {
        lemma_turn_keeps_length(frame, v);
        lemma_rounded_length(frame.spec_turn(v), frame.spec_unit(), v.dot(v), before, after);
    }
}

/// With both portals at the identity the camera is the player's camera
/// turned by half a turn about the vertical axis of the world.
pub proof fn lemma_camera_of_portals_at_the_identity(player: Pose)
    ensures
        spec_solve_camera(Pose::spec_identity(), Pose::spec_identity(), player) == (match player.spec_half_turn() {
            Some(turned) => Some(CameraPose { local: turned, world: turned }),
            None => None,
        }),
{
    crate::transform::lemma_identity(player);
    match player.spec_half_turn() {
        Some(turned) => {
            crate::transform::lemma_identity(turned);
        },
        None => {},
    }
}

/// With the player's camera at the pose of the entrance, the portal's
/// camera stands at the exit, turned by half a turn: at the position of
/// the exit, with the first and the third axis of the exit turned over,
/// each axis measured in the unit of the entrance.
pub proof fn lemma_camera_of_a_player_at_the_entrance(entrance: Pose, exit: Pose)
    requires
        spec_solve_camera(entrance, exit, entrance) is Some,
    ensures
        ({
            let camera = spec_solve_camera(entrance, exit, entrance).unwrap();
            let n = entrance.spec_unit();
            let m = exit.spec_unit();
            &&& camera.world.translation == exit.translation
            &&& camera.world.right@ == exit.right@.times(-n).over(m)
            &&& camera.world.up@ == exit.up@.times(n).over(m)
            &&& camera.world.back@ == exit.back@.times(-n).over(m)
        }),
{
    let n = entrance.spec_unit();
    let m = exit.spec_unit();
    let seen = entrance.spec_relative(entrance).unwrap();
    let turned = seen.spec_half_turn().unwrap();
    let world = exit.spec_compose(turned).unwrap();
    lemma_steps(entrance, exit, entrance);
    lemma_toward_zero(n, n);
    lemma_toward_zero(0, n);
    lemma_toward_zero(0, m);
    lemma_dot_commutes(entrance.up@, entrance.right@);
    lemma_dot_commutes(entrance.back@, entrance.right@);
    lemma_dot_commutes(entrance.back@, entrance.up@);
    assert(entrance.translation@.minus(entrance.translation@) == (Int3 { x: 0, y: 0, z: 0 }));
    assert(entrance.spec_turn_back(Int3 { x: 0, y: 0, z: 0 }) == (Int3 { x: 0, y: 0, z: 0 }));
    assert(entrance.spec_turn_back(entrance.right@) == (Int3 { x: n * n, y: 0, z: 0 }));
    assert(entrance.spec_turn_back(entrance.up@) == (Int3 { x: 0, y: n * n, z: 0 }));
    assert(entrance.spec_turn_back(entrance.back@) == (Int3 { x: 0, y: 0, z: n * n }));
    lemma_to_vec3(Int3 { x: 0, y: 0, z: 0 });
    lemma_to_vec3(Int3 { x: n, y: 0, z: 0 });
    lemma_to_vec3(Int3 { x: 0, y: n, z: 0 });
    lemma_to_vec3(Int3 { x: 0, y: 0, z: n });
    assert(seen.translation@ == (Int3 { x: 0, y: 0, z: 0 }));
    assert(seen.right@ == (Int3 { x: n, y: 0, z: 0 }));
    assert(seen.up@ == (Int3 { x: 0, y: n, z: 0 }));
    assert(seen.back@ == (Int3 { x: 0, y: 0, z: n }));
    lemma_to_vec3(half_turned(seen.translation));
    lemma_to_vec3(half_turned(seen.right));
    lemma_to_vec3(half_turned(seen.up));
    lemma_to_vec3(half_turned(seen.back));
    lemma_along_an_axis(exit, turned.translation@, 0, 0, 0);
    lemma_along_an_axis(exit, turned.right@, -n, 0, 0);
    lemma_along_an_axis(exit, turned.up@, 0, n, 0);
    lemma_along_an_axis(exit, turned.back@, 0, 0, -n);
    lemma_to_vec3(exit.spec_point_to_world(turned.translation));
    lemma_to_vec3(exit.spec_direction_to_world(turned.right));
    lemma_to_vec3(exit.spec_direction_to_world(turned.up));
    lemma_to_vec3(exit.spec_direction_to_world(turned.back));
}

/// What a pose makes of a vector along one of its axes: that axis, as many
/// times as long as the vector says.
proof fn lemma_along_an_axis(frame: Pose, v: Int3, x: int, y: int, z: int)
    requires
        v.x == x,
        v.y == y,
        v.z == z,
        x == 0 || y == 0,
        x == 0 || z == 0,
        y == 0 || z == 0,
    ensures
        y == 0 && z == 0 ==> frame.spec_turn(v) == frame.right@.times(x),
        x == 0 && z == 0 ==> frame.spec_turn(v) == frame.up@.times(y),
        x == 0 && y == 0 ==> frame.spec_turn(v) == frame.back@.times(z),
{
    assert(x == 0 ==> frame.right.x * x == 0 && frame.right.y * x == 0 && frame.right.z * x == 0)
        by (nonlinear_arith);
    assert(y == 0 ==> frame.up.x * y == 0 && frame.up.y * y == 0 && frame.up.z * y == 0) by (nonlinear_arith);
    assert(z == 0 ==> frame.back.x * z == 0 && frame.back.y * z == 0 && frame.back.z * z == 0)
        by (nonlinear_arith);
}

} // verus!
