//! Poses as maps between frames: taking points and directions from one
//! frame to another, chaining poses, and undoing them.
//!
//! A pose maps its own frame to the frame it is given in: a point goes to
//! the position of the pose plus its coordinates along the three axes,
//! measured in the length of the axes, the pose's unit. The way back takes
//! the coordinates along the axes. It undoes the way there, up to the
//! rounding of a step, where the pose is rigid: where its axes are of one
//! whole length and at right angles exactly. [`Pose::from_quaternion`]
//! makes such a pose for every turn. Whatever is computed is divided once,
//! rounded toward zero, so that a result and its mirror image round alike.

use vstd::prelude::*;
use crate::math::{
    div_toward_zero, integer_sqrt, is_integer_sqrt, lemma_product_bound, lemma_root_is_unique, lemma_toward_zero,
    lemma_to_vec3, lemma_toward_zero_product, toward_zero, Int3, Pose, Vec3, UNIT,
};

verus! {

/// The vector of the three numbers, where each is a coordinate.
fn narrow(x: i128, y: i128, z: i128) -> (vector: Option<Vec3>)
    ensures
        vector is Some <==> (Int3 { x: x as int, y: y as int, z: z as int }).in_world(),
        vector matches Some(v) ==> v@ == (Int3 { x: x as int, y: y as int, z: z as int }),
{
    if -0x8000_0000 <= x && x <= 0x7fff_ffff && -0x8000_0000 <= y && y <= 0x7fff_ffff && -0x8000_0000 <= z && z
        <= 0x7fff_ffff {
        Some(Vec3 { x: x as i32, y: y as i32, z: z as i32 })
    } else {
        None
    }
}

/// `right * x + up * y + back * z`, for numbers of up to thirty-four bits.
fn weighted_sum(right: i32, up: i32, back: i32, x: i128, y: i128, z: i128) -> (sum: i128)
    requires
        -0x2_0000_0000 <= x <= 0x2_0000_0000,
        -0x2_0000_0000 <= y <= 0x2_0000_0000,
        -0x2_0000_0000 <= z <= 0x2_0000_0000,
    ensures
        sum == right * x + up * y + back * z,
        -0x3_0000_0000_0000_0000 <= sum <= 0x3_0000_0000_0000_0000,
{
    proof {
        lemma_product_bound(right as int, x as int, 0x8000_0000, 0x2_0000_0000);
        lemma_product_bound(up as int, y as int, 0x8000_0000, 0x2_0000_0000);
        lemma_product_bound(back as int, z as int, 0x8000_0000, 0x2_0000_0000);
    }
    (right as i128) * x + (up as i128) * y + (back as i128) * z
}

/// `v` turned by half a turn about the vertical axis: its first and third
/// coordinate change sign.
pub open spec fn half_turned(v: Vec3) -> Int3 {
    Int3 { x: -v.x, y: v.y as int, z: -v.z }
}

fn half_turn_vector(v: Vec3) -> (turned: Option<Vec3>)
    ensures
        turned is Some <==> half_turned(v).in_world(),
        turned matches Some(t) ==> t@ == half_turned(v),
{
    narrow(-(v.x as i128), v.y as i128, -(v.z as i128))
}

/// A pose taken apart: how long its axes are, and the pose with axes of
/// length [`UNIT`] that is left.
#[derive(Clone, Copy, Debug, PartialEq, Eq, Structural)]
pub struct Decomposition {
    /// The lengths of the three axes; that of the first with a minus sign
    /// where the axes are a mirror image of the world's.
    pub scale: Vec3,
    /// The pose with each axis divided by its length.
    pub rotation: Pose,
}

/// The length of `v`, rounded down.
pub open spec fn length(v: Vec3) -> int {
    choose|root: int| is_integer_sqrt(v@.dot(v@), root)
}

/// `v` made as long as [`UNIT`]: each coordinate times `UNIT`, divided by
/// `scale`, which is the length of `v` or the length with a minus sign.
pub open spec fn rescaled(v: Vec3, scale: int) -> Int3 {
    if scale > 0 {
        v@.times(UNIT as int).over(scale)
    } else {
        v@.times(-UNIT).over(-scale)
    }
}

/// The length of `v`, rounded down.
fn length_of(v: Vec3) -> (len: u64)
    ensures
        len == length(v),
        is_integer_sqrt(v@.dot(v@), len as int),
        len <= 0x1_0000_0000_0000,
{
    let squared = v.dot(v);
    proof {
        assert(v.x * v.x >= 0 && v.y * v.y >= 0 && v.z * v.z >= 0) by (nonlinear_arith);
    }
    let len = integer_sqrt(squared as u128);
    proof {
        lemma_root_is_unique(v@.dot(v@), len as int, length(v));
        if len > 0x1_0000_0000_0000 {
            assert(len * len > 0x1_8000_0000_0000_0000) by (nonlinear_arith)
                requires
                    len > 0x1_0000_0000_0000,
            ;
        }
    }
    len
}

/// `v` made as long as [`UNIT`], for a `scale` that is not zero; `None`
/// where a coordinate is out of range.
fn rescale(v: Vec3, scale: i64) -> (unit: Option<Vec3>)
    requires
        scale != 0,
        -0x1_0000_0000_0000 <= scale <= 0x1_0000_0000_0000,
    ensures
        unit is Some <==> rescaled(v, scale as int).in_world(),
        unit matches Some(u) ==> u@ == rescaled(v, scale as int),
{
    let factor: i128 = if scale > 0 { UNIT as i128 } else { -(UNIT as i128) };
    let divisor: i128 = if scale > 0 { scale as i128 } else { -(scale as i128) };
    proof {
        lemma_product_bound(v.x as int, factor as int, 0x8000_0000, 1_000_000);
        lemma_product_bound(v.y as int, factor as int, 0x8000_0000, 1_000_000);
        lemma_product_bound(v.z as int, factor as int, 0x8000_0000, 1_000_000);
    }
    narrow(
        div_toward_zero((v.x as i128) * factor, divisor),
        div_toward_zero((v.y as i128) * factor, divisor),
        div_toward_zero((v.z as i128) * factor, divisor),
    )
}

/// `a * b - c * d`.
fn minor(a: i32, b: i32, c: i32, d: i32) -> (value: i128)
    ensures
        value == a * b - c * d,
        -0x8000_0000_0000_0000 <= value <= 0x8000_0000_0000_0000,
{
    proof {
        lemma_product_bound(a as int, b as int, 0x8000_0000, 0x8000_0000);
        lemma_product_bound(c as int, d as int, 0x8000_0000, 0x8000_0000);
    }
    (a as i128) * (b as i128) - (c as i128) * (d as i128)
}

/// How far from zero the coordinates of a quaternion may be for
/// [`Pose::from_quaternion`] to give a pose for certain.
pub const QUATERNION_LIMIT: i32 = 23_170;

/// The squared length of the quaternion `(w, x, y, z)`.
pub open spec fn quaternion_norm(w: int, x: int, y: int, z: int) -> int {
    w * w + x * x + y * y + z * z
}

/// The three axes of the frame that is turned as the quaternion
/// `(w, x, y, z)` says, each as long as the quaternion's squared length.
pub open spec fn quaternion_axes(w: int, x: int, y: int, z: int) -> (Int3, Int3, Int3) {
    (
        Int3 { x: w * w + x * x - y * y - z * z, y: 2 * (x * y + w * z), z: 2 * (x * z - w * y) },
        Int3 { x: 2 * (x * y - w * z), y: w * w - x * x + y * y - z * z, z: 2 * (y * z + w * x) },
        Int3 { x: 2 * (x * z + w * y), y: 2 * (y * z - w * x), z: w * w - x * x - y * y + z * z },
    )
}

/// `a * b`.
fn square(a: i32, b: i32) -> (product: i128)
    ensures
        product == a * b,
        -0x4000_0000_0000_0000 <= product <= 0x4000_0000_0000_0000,
{
    proof {
        lemma_product_bound(a as int, b as int, 0x8000_0000, 0x8000_0000);
    }
    (a as i128) * (b as i128)
}

impl Pose {
    /// The length of the axes of this pose, by its first axis, rounded
    /// down: what one unit of its frame is stored as.
    pub open spec fn spec_unit(self) -> int {
        length(self.right)
    }

    /// The vector with the coordinates `v` along the axes of this pose, in
    /// the frame the axes are given in, a unit of the pose times as long.
    pub open spec fn spec_turn(self, v: Int3) -> Int3 {
        self.right@.times(v.x).plus(self.up@.times(v.y)).plus(self.back@.times(v.z))
    }

    /// The coordinates of `v` along the axes of this pose, a unit of the
    /// pose times as large.
    pub open spec fn spec_turn_back(self, v: Int3) -> Int3 {
        Int3 { x: v.dot(self.right@), y: v.dot(self.up@), z: v.dot(self.back@) }
    }

    /// The direction that is `direction` in the frame of this pose, in the
    /// frame the pose is given in.
    pub open spec fn spec_direction_to_world(self, direction: Vec3) -> Int3 {
        self.spec_turn(direction@).over(self.spec_unit())
    }

    /// The direction `direction` as the frame of this pose has it.
    pub open spec fn spec_direction_to_local(self, direction: Vec3) -> Int3 {
        self.spec_turn_back(direction@).over(self.spec_unit())
    }

    /// The point that is `point` in the frame of this pose, in the frame
    /// the pose is given in.
    pub open spec fn spec_point_to_world(self, point: Vec3) -> Int3 {
        self.translation@.plus(self.spec_turn(point@).over(self.spec_unit()))
    }

    /// The point `point` as the frame of this pose has it.
    pub open spec fn spec_point_to_local(self, point: Vec3) -> Int3 {
        self.spec_turn_back(point@.minus(self.translation@)).over(self.spec_unit())
    }

    /// The pose `inner`, given in the frame of this pose, in the frame
    /// this pose is given in: this pose applied after `inner`. The axes
    /// of the result keep the length they have in `inner`, up to rounding.
    /// `None` where the axes of this pose have no length or a coordinate
    /// of the result is out of range.
    pub open spec fn spec_compose(self, inner: Pose) -> Option<Pose> {
        let translation = self.spec_point_to_world(inner.translation);
        let right = self.spec_direction_to_world(inner.right);
        let up = self.spec_direction_to_world(inner.up);
        let back = self.spec_direction_to_world(inner.back);
        if self.spec_unit() > 0 && translation.in_world() && right.in_world() && up.in_world() && back.in_world() {
            Some(
                Pose {
                    translation: translation.to_vec3(),
                    right: right.to_vec3(),
                    up: up.to_vec3(),
                    back: back.to_vec3(),
                },
            )
        } else {
            None
        }
    }

    /// The pose `other` as the frame of this pose has it: the position and
    /// the axes of `other` along the axes of this pose, which is the
    /// reverse of this pose applied after `other` where this pose is
    /// rigid. `None` where the axes of this pose have no length or a
    /// coordinate of the result is out of range.
    pub open spec fn spec_relative(self, other: Pose) -> Option<Pose> {
        let translation = self.spec_point_to_local(other.translation);
        let right = self.spec_direction_to_local(other.right);
        let up = self.spec_direction_to_local(other.up);
        let back = self.spec_direction_to_local(other.back);
        if self.spec_unit() > 0 && translation.in_world() && right.in_world() && up.in_world() && back.in_world() {
            Some(
                Pose {
                    translation: translation.to_vec3(),
                    right: right.to_vec3(),
                    up: up.to_vec3(),
                    back: back.to_vec3(),
                },
            )
        } else {
            None
        }
    }

    /// The rows of the axes of this pose: the axes of its reverse.
    pub open spec fn spec_rows(self) -> (Vec3, Vec3, Vec3) {
        (
            Vec3 { x: self.right.x, y: self.up.x, z: self.back.x },
            Vec3 { x: self.right.y, y: self.up.y, z: self.back.y },
            Vec3 { x: self.right.z, y: self.up.z, z: self.back.z },
        )
    }

    /// The reverse of this pose: its axes are the rows of the axes of this
    /// pose, and its position is the position of this pose along its own
    /// axes, with the opposite sign. That is the pose that undoes this one
    /// where this one is rigid. `None` where the axes have no length or a
    /// coordinate of the position is out of range.
    pub open spec fn spec_inverse(self) -> Option<Pose> {
        let along = self.spec_turn_back(self.translation@).over(self.spec_unit());
        let translation = Int3 { x: -along.x, y: -along.y, z: -along.z };
        if self.spec_unit() > 0 && translation.in_world() {
            Some(
                Pose {
                    translation: translation.to_vec3(),
                    right: self.spec_rows().0,
                    up: self.spec_rows().1,
                    back: self.spec_rows().2,
                },
            )
        } else {
            None
        }
    }

    /// This pose turned by half a turn about the vertical axis of the
    /// frame it is given in: the first and third coordinate of its
    /// position and of each axis change sign. `None` where a coordinate of
    /// the result is out of range.
    pub open spec fn spec_half_turn(self) -> Option<Pose> {
        let translation = half_turned(self.translation);
        let right = half_turned(self.right);
        let up = half_turned(self.up);
        let back = half_turned(self.back);
        if translation.in_world() && right.in_world() && up.in_world() && back.in_world() {
            Some(
                Pose {
                    translation: translation.to_vec3(),
                    right: right.to_vec3(),
                    up: up.to_vec3(),
                    back: back.to_vec3(),
                },
            )
        } else {
            None
        }
    }

    /// The volume that the three axes span, with a minus sign where they
    /// are a mirror image of the world's axes.
    pub open spec fn spec_determinant(self) -> int {
        self.right.x * (self.up.y * self.back.z - self.up.z * self.back.y) - self.right.y * (self.up.x
            * self.back.z - self.up.z * self.back.x) + self.right.z * (self.up.x * self.back.y - self.up.y
            * self.back.x)
    }

    /// This pose taken apart into the lengths of its axes, in steps, and
    /// the pose with axes of length [`UNIT`]: each length rounded down,
    /// that of the first axis with a minus sign where the axes are a
    /// mirror image, each axis `UNIT` times as long and then divided by its
    /// length. Against the unit of the pose the lengths say how the pose
    /// stretches what it maps.
    /// `None` where an axis has no length or a coordinate of the result is
    /// out of range.
    pub open spec fn spec_decompose(self) -> Option<Decomposition> {
        let x = if self.spec_determinant() < 0 { -length(self.right) } else { length(self.right) };
        let y = length(self.up);
        let z = length(self.back);
        let scale = Int3 { x, y, z };
        let right = rescaled(self.right, x);
        let up = rescaled(self.up, y);
        let back = rescaled(self.back, z);
        if x != 0 && y != 0 && z != 0 && scale.in_world() && right.in_world() && up.in_world() && back.in_world() {
            Some(
                Decomposition {
                    scale: scale.to_vec3(),
                    rotation: Pose {
                        translation: self.translation,
                        right: right.to_vec3(),
                        up: up.to_vec3(),
                        back: back.to_vec3(),
                    },
                },
            )
        } else {
            None
        }
    }

    /// Whether the pose is rigid: its three axes have one length, a whole
    /// number of steps that is not zero, and stand at right angles to each
    /// other exactly, read as columns and read as rows. A rigid pose turns
    /// and moves what it maps, and changes no length.
    pub open spec fn spec_is_rigid(self) -> bool {
        let unit = self.spec_unit() * self.spec_unit();
        let x = self.spec_rows().0@;
        let y = self.spec_rows().1@;
        let z = self.spec_rows().2@;
        &&& self.spec_unit() > 0
        &&& self.right@.dot(self.right@) == unit
        &&& self.up@.dot(self.up@) == unit
        &&& self.back@.dot(self.back@) == unit
        &&& self.right@.dot(self.up@) == 0
        &&& self.right@.dot(self.back@) == 0
        &&& self.up@.dot(self.back@) == 0
        &&& x.dot(x) == unit
        &&& y.dot(y) == unit
        &&& z.dot(z) == unit
        &&& x.dot(y) == 0
        &&& x.dot(z) == 0
        &&& y.dot(z) == 0
    }

    /// The pose at `translation` that is turned as the quaternion
    /// `(w, x, y, z)` says: about the axis `(x, y, z)`, by twice the angle
    /// whose cosine and sine are to each other as `w` and the length of
    /// the axis. The quaternion need not be of any particular length; its
    /// squared length is the length of the axes.
    pub open spec fn spec_quaternion_pose(translation: Vec3, w: i32, x: i32, y: i32, z: i32) -> Pose {
        let axes = quaternion_axes(w as int, x as int, y as int, z as int);
        Pose { translation, right: axes.0.to_vec3(), up: axes.1.to_vec3(), back: axes.2.to_vec3() }
    }

    /// The rigid pose at `translation` that is turned as the quaternion
    /// `(w, x, y, z)` says: [`Pose::spec_quaternion_pose`], where the
    /// quaternion is not zero and the axes are in range.
    pub open spec fn spec_from_quaternion(translation: Vec3, w: i32, x: i32, y: i32, z: i32) -> Option<Pose> {
        let axes = quaternion_axes(w as int, x as int, y as int, z as int);
        if quaternion_norm(w as int, x as int, y as int, z as int) > 0 && axes.0.in_world() && axes.1.in_world()
            && axes.2.in_world() {
            Some(Pose::spec_quaternion_pose(translation, w, x, y, z))
        } else {
            None
        }
    }

    /// The rigid pose at `translation` that is turned as the quaternion
    /// `(w, x, y, z)` says: see [`Pose::spec_from_quaternion`]. Every
    /// quaternion but zero gives a pose, as long as its axes are in range,
    /// which they are where no coordinate of the quaternion is beyond
    /// [`QUATERNION_LIMIT`] either way. The pose is rigid, and its unit is
    /// the squared length of the quaternion.
    pub fn from_quaternion(translation: Vec3, w: i32, x: i32, y: i32, z: i32) -> (pose: Option<Pose>)
        ensures
            pose == Pose::spec_from_quaternion(translation, w, x, y, z),
            pose matches Some(p) ==> p.spec_is_rigid() && p.spec_unit() == quaternion_norm(
                w as int,
                x as int,
                y as int,
                z as int,
            ),
            -QUATERNION_LIMIT <= w <= QUATERNION_LIMIT && -QUATERNION_LIMIT <= x <= QUATERNION_LIMIT
                && -QUATERNION_LIMIT <= y <= QUATERNION_LIMIT && -QUATERNION_LIMIT <= z <= QUATERNION_LIMIT && !(w
                == 0 && x == 0 && y == 0 && z == 0) ==> pose is Some,
    {
        let ww = square(w, w);
        let xx = square(x, x);
        let yy = square(y, y);
        let zz = square(z, z);
        let xy = square(x, y);
        let xz = square(x, z);
        let yz = square(y, z);
        let wx = square(w, x);
        let wy = square(w, y);
        let wz = square(w, z);
        proof {
            lemma_quaternion_axes(w as int, x as int, y as int, z as int);
            lemma_small_quaternion(w as int, x as int, y as int, z as int);
        }
        if ww + xx + yy + zz == 0 {
            return None;
        }
        let right = narrow(ww + xx - yy - zz, 2 * (xy + wz), 2 * (xz - wy));
        let up = narrow(2 * (xy - wz), ww - xx + yy - zz, 2 * (yz + wx));
        let back = narrow(2 * (xz + wy), 2 * (yz - wx), ww - xx - yy + zz);
        match (right, up, back) {
            (Some(right), Some(up), Some(back)) => {
                let pose = Pose { translation, right, up, back };
                proof {
                    let n = quaternion_norm(w as int, x as int, y as int, z as int);
                    assert(is_integer_sqrt(n * n, n)) by (nonlinear_arith)
                        requires
                            n > 0,
                    ;
                    lemma_root_is_unique(n * n, n, length(pose.right));
                }
                Some(pose)
            },
            _ => None,
        }
    }

    /// The length of the axes of this pose, by its first axis, rounded
    /// down.
    pub fn unit(&self) -> (unit: u64)
        ensures
            unit == self.spec_unit(),
            is_integer_sqrt(self.right@.dot(self.right@), unit as int),
            unit <= 0x1_0000_0000_0000,
    {
        length_of(self.right)
    }

    /// The direction that is `direction` in the frame of this pose, in the
    /// frame the pose is given in; `None` where the axes have no length or
    /// a coordinate is out of range.
    pub fn direction_to_world(&self, direction: Vec3) -> (turned: Option<Vec3>)
        ensures
            turned is Some <==> self.spec_unit() > 0 && self.spec_direction_to_world(direction).in_world(),
            turned matches Some(v) ==> v@ == self.spec_direction_to_world(direction),
    {
        let unit = self.unit() as i128;
        if unit == 0 {
            return None;
        }
        let x = weighted_sum(
            self.right.x,
            self.up.x,
            self.back.x,
            direction.x as i128,
            direction.y as i128,
            direction.z as i128,
        );
        let y = weighted_sum(
            self.right.y,
            self.up.y,
            self.back.y,
            direction.x as i128,
            direction.y as i128,
            direction.z as i128,
        );
        let z = weighted_sum(
            self.right.z,
            self.up.z,
            self.back.z,
            direction.x as i128,
            direction.y as i128,
            direction.z as i128,
        );
        narrow(
            div_toward_zero(x, unit),
            div_toward_zero(y, unit),
            div_toward_zero(z, unit),
        )
    }

    /// The direction `direction` as the frame of this pose has it; `None`
    /// where the axes have no length or a coordinate is out of range.
    pub fn direction_to_local(&self, direction: Vec3) -> (turned: Option<Vec3>)
        ensures
            turned is Some <==> self.spec_unit() > 0 && self.spec_direction_to_local(direction).in_world(),
            turned matches Some(v) ==> v@ == self.spec_direction_to_local(direction),
    {
        let unit = self.unit() as i128;
        if unit == 0 {
            return None;
        }
        let x = direction.dot(self.right);
        let y = direction.dot(self.up);
        let z = direction.dot(self.back);
        narrow(
            div_toward_zero(x, unit),
            div_toward_zero(y, unit),
            div_toward_zero(z, unit),
        )
    }

    /// The point that is `point` in the frame of this pose, in the frame
    /// the pose is given in; `None` where the axes have no length or a
    /// coordinate is out of range.
    pub fn point_to_world(&self, point: Vec3) -> (moved: Option<Vec3>)
        ensures
            moved is Some <==> self.spec_unit() > 0 && self.spec_point_to_world(point).in_world(),
            moved matches Some(v) ==> v@ == self.spec_point_to_world(point),
    {
        let unit = self.unit() as i128;
        if unit == 0 {
            return None;
        }
        let x = weighted_sum(self.right.x, self.up.x, self.back.x, point.x as i128, point.y as i128, point.z as i128);
        let y = weighted_sum(self.right.y, self.up.y, self.back.y, point.x as i128, point.y as i128, point.z as i128);
        let z = weighted_sum(self.right.z, self.up.z, self.back.z, point.x as i128, point.y as i128, point.z as i128);
        narrow(
            self.translation.x as i128 + div_toward_zero(x, unit),
            self.translation.y as i128 + div_toward_zero(y, unit),
            self.translation.z as i128 + div_toward_zero(z, unit),
        )
    }

    /// The point `point` as the frame of this pose has it; `None` where
    /// the axes have no length or a coordinate is out of range.
    pub fn point_to_local(&self, point: Vec3) -> (moved: Option<Vec3>)
        ensures
            moved is Some <==> self.spec_unit() > 0 && self.spec_point_to_local(point).in_world(),
            moved matches Some(v) ==> v@ == self.spec_point_to_local(point),
    {
        let unit = self.unit() as i128;
        if unit == 0 {
            return None;
        }
        let x = point.dot_offset(self.translation, self.right);
        let y = point.dot_offset(self.translation, self.up);
        let z = point.dot_offset(self.translation, self.back);
        narrow(
            div_toward_zero(x, unit),
            div_toward_zero(y, unit),
            div_toward_zero(z, unit),
        )
    }

    /// The pose `inner`, given in the frame of this pose, in the frame
    /// this pose is given in: see [`Pose::spec_compose`].
    pub fn compose(&self, inner: &Pose) -> (composed: Option<Pose>)
        ensures
            composed == self.spec_compose(*inner),
    {
        let translation = self.point_to_world(inner.translation);
        let right = self.direction_to_world(inner.right);
        let up = self.direction_to_world(inner.up);
        let back = self.direction_to_world(inner.back);
        match (translation, right, up, back) {
            (Some(translation), Some(right), Some(up), Some(back)) => Some(Pose { translation, right, up, back }),
            _ => None,
        }
    }

    /// The pose `other` as the frame of this pose has it: see
    /// [`Pose::spec_relative`].
    pub fn relative(&self, other: &Pose) -> (seen: Option<Pose>)
        ensures
            seen == self.spec_relative(*other),
    {
        let translation = self.point_to_local(other.translation);
        let right = self.direction_to_local(other.right);
        let up = self.direction_to_local(other.up);
        let back = self.direction_to_local(other.back);
        match (translation, right, up, back) {
            (Some(translation), Some(right), Some(up), Some(back)) => Some(Pose { translation, right, up, back }),
            _ => None,
        }
    }

    /// The reverse of this pose: see [`Pose::spec_inverse`].
    pub fn inverse(&self) -> (reverse: Option<Pose>)
        ensures
            reverse == self.spec_inverse(),
    {
        let unit = self.unit() as i128;
        if unit == 0 {
            return None;
        }
        let x = div_toward_zero(self.translation.dot(self.right), unit);
        let y = div_toward_zero(self.translation.dot(self.up), unit);
        let z = div_toward_zero(self.translation.dot(self.back), unit);
        match narrow(-x, -y, -z) {
            Some(translation) => Some(
                Pose {
                    translation,
                    right: Vec3 { x: self.right.x, y: self.up.x, z: self.back.x },
                    up: Vec3 { x: self.right.y, y: self.up.y, z: self.back.y },
                    back: Vec3 { x: self.right.z, y: self.up.z, z: self.back.z },
                },
            ),
            None => None,
        }
    }

    /// This pose turned by half a turn about the vertical axis of the
    /// frame it is given in: the first and third coordinate of its
    /// position and of each axis change sign. `None` where a coordinate of
    /// the result is out of range.
    pub fn half_turn(&self) -> (turned: Option<Pose>)
        ensures
            turned == self.spec_half_turn(),
    {
        let translation = half_turn_vector(self.translation);
        let right = half_turn_vector(self.right);
        let up = half_turn_vector(self.up);
        let back = half_turn_vector(self.back);
        match (translation, right, up, back) {
            (Some(translation), Some(right), Some(up), Some(back)) => Some(Pose { translation, right, up, back }),
            _ => None,
        }
    }

    /// The volume that the three axes span, with a minus sign where they
    /// are a mirror image of the world's axes.
    pub fn determinant(&self) -> (volume: i128)
        ensures
            volume == self.spec_determinant(),
    {
        let a = minor(self.up.y, self.back.z, self.up.z, self.back.y);
        let b = minor(self.up.x, self.back.z, self.up.z, self.back.x);
        let c = minor(self.up.x, self.back.y, self.up.y, self.back.x);
        proof {
            lemma_product_bound(self.right.x as int, a as int, 0x8000_0000, 0x8000_0000_0000_0000);
            lemma_product_bound(self.right.y as int, b as int, 0x8000_0000, 0x8000_0000_0000_0000);
            lemma_product_bound(self.right.z as int, c as int, 0x8000_0000, 0x8000_0000_0000_0000);
        }
        (self.right.x as i128) * a - (self.right.y as i128) * b + (self.right.z as i128) * c
    }

    /// This pose taken apart into the lengths of its axes and the pose
    /// with axes of length [`UNIT`]: see [`Pose::spec_decompose`].
    pub fn decompose(&self) -> (parts: Option<Decomposition>)
        ensures
            parts == self.spec_decompose(),
    {
        let width = length_of(self.right) as i64;
        let x: i64 = if self.determinant() < 0 { -width } else { width };
        let y: i64 = length_of(self.up) as i64;
        let z: i64 = length_of(self.back) as i64;
        if x == 0 || y == 0 || z == 0 {
            return None;
        }
        let scale = narrow(x as i128, y as i128, z as i128);
        let right = rescale(self.right, x);
        let up = rescale(self.up, y);
        let back = rescale(self.back, z);
        match (scale, right, up, back) {
            (Some(scale), Some(right), Some(up), Some(back)) => Some(
                Decomposition { scale, rotation: Pose { translation: self.translation, right, up, back } },
            ),
            _ => None,
        }
    }

    /// Whether the pose is rigid: see [`Pose::spec_is_rigid`].
    pub fn is_rigid(&self) -> (rigid: bool)
        ensures
            rigid == self.spec_is_rigid(),
    {
        let n = self.unit() as i128;
        proof {
            lemma_product_bound(n as int, n as int, 0x1_0000_0000_0000, 0x1_0000_0000_0000);
        }
        let unit: i128 = n * n;
        let x = Vec3 { x: self.right.x, y: self.up.x, z: self.back.x };
        let y = Vec3 { x: self.right.y, y: self.up.y, z: self.back.y };
        let z = Vec3 { x: self.right.z, y: self.up.z, z: self.back.z };
        n > 0 && self.right.dot(self.right) == unit && self.up.dot(self.up) == unit && self.back.dot(self.back)
            == unit && self.right.dot(self.up) == 0 && self.right.dot(self.back) == 0 && self.up.dot(self.back)
            == 0 && x.dot(x) == unit && y.dot(y) == unit && z.dot(z) == unit && x.dot(y) == 0 && x.dot(z) == 0
            && y.dot(z) == 0
    }
}


/// Whether each coordinate of `a` is at most `steps` away from that of
/// `b`.
pub open spec fn within(a: Int3, b: Int3, steps: int) -> bool {
    &&& -steps <= a.x - b.x <= steps
    &&& -steps <= a.y - b.y <= steps
    &&& -steps <= a.z - b.z <= steps
}

proof fn lemma_commutes(a: int, b: int)
    ensures
        a * b == b * a,
{
    assert(a * b == b * a) by (nonlinear_arith);
}

pub proof fn lemma_dot_commutes(a: Int3, b: Int3)
    ensures
        a.dot(b) == b.dot(a),
{
    lemma_commutes(a.x, b.x);
    lemma_commutes(a.y, b.y);
    lemma_commutes(a.z, b.z);
}

proof fn lemma_distribute(k: int, a: int, b: int, c: int)
    ensures
        k * (a + b + c) == k * a + k * b + k * c,
{
    assert(k * (a + b + c) == k * a + k * b + k * c) by (nonlinear_arith);
}

proof fn lemma_swap(a: int, b: int, c: int)
    ensures
        a * (b * c) == b * (a * c),
{
    assert(a * (b * c) == b * (a * c)) by (nonlinear_arith);
}

/// A sum over the rows of a matrix and a sum over its columns, in either
/// order: `p` against what the vectors `x`, `y`, `z` weighted by `t` add
/// up to is `t` against the products of `p` with `x`, `y` and `z`.
proof fn lemma_sum_either_way(p: Int3, x: Int3, y: Int3, z: Int3, t: Int3)
    ensures
        p.x * (t.x * x.x + t.y * y.x + t.z * z.x) + p.y * (t.x * x.y + t.y * y.y + t.z * z.y) + p.z * (t.x * x.z
            + t.y * y.z + t.z * z.z) == t.x * p.dot(x) + t.y * p.dot(y) + t.z * p.dot(z),
{
    lemma_distribute(p.x, t.x * x.x, t.y * y.x, t.z * z.x);
    lemma_distribute(p.y, t.x * x.y, t.y * y.y, t.z * z.y);
    lemma_distribute(p.z, t.x * x.z, t.y * y.z, t.z * z.z);
    lemma_swap(p.x, t.x, x.x);
    lemma_swap(p.x, t.y, y.x);
    lemma_swap(p.x, t.z, z.x);
    lemma_swap(p.y, t.x, x.y);
    lemma_swap(p.y, t.y, y.y);
    lemma_swap(p.y, t.z, z.y);
    lemma_swap(p.z, t.x, x.z);
    lemma_swap(p.z, t.y, y.z);
    lemma_swap(p.z, t.z, z.z);
    lemma_distribute(t.x, p.x * x.x, p.y * x.y, p.z * x.z);
    lemma_distribute(t.y, p.x * y.x, p.y * y.y, p.z * y.z);
    lemma_distribute(t.z, p.x * z.x, p.y * z.y, p.z * z.z);
}

/// A component of a vector of length `n` is at most `n`.
proof fn lemma_within_unit(v: Int3, n: int)
    requires
        n > 0,
        v.dot(v) == n * n,
    ensures
        -n <= v.x <= n,
        -n <= v.y <= n,
        -n <= v.z <= n,
{
    assert(v.x * v.x >= 0 && v.y * v.y >= 0 && v.z * v.z >= 0) by (nonlinear_arith);
    assert(-n <= v.x <= n) by (nonlinear_arith)
        requires
            v.x * v.x <= n * n,
            n > 0,
    ;
    assert(-n <= v.y <= n) by (nonlinear_arith)
        requires
            v.y * v.y <= n * n,
            n > 0,
    ;
    assert(-n <= v.z <= n) by (nonlinear_arith)
        requires
            v.z * v.z <= n * n,
            n > 0,
    ;
}

/// A factor of at most `n` times a number that is less than `n` off is
/// less than `n` squared off.
proof fn lemma_close_product(factor: int, exact: int, rounded: int, n: int)
    requires
        n > 0,
        -n <= factor <= n,
        exact - n < n * rounded < exact + n,
    ensures
        factor * exact - n * n < factor * (n * rounded) < factor * exact + n * n,
{
    let off = n * rounded - exact;
    assert(factor * (n * rounded) == factor * exact + factor * off) by (nonlinear_arith)
        requires
            off == n * rounded - exact,
    ;
    lemma_product_bound(factor, off, n, n - 1);
    assert(n * (n - 1) < n * n) by (nonlinear_arith)
        requires
            n > 0,
    ;
}

/// A vector that was divided by `n` and rounded, taken along a row of
/// length at most `n`, and multiplied by `n` again, is less than three
/// times `n` squared off what the row makes of the vector as it was.
pub proof fn lemma_rounded_product(row: Int3, exact: Int3, n: int)
    requires
        n > 0,
        -n <= row.x <= n,
        -n <= row.y <= n,
        -n <= row.z <= n,
    ensures
        -3 * (n * n) < n * row.dot(exact.over(n)) - row.dot(exact) < 3 * (n * n),
{
    let rounded = exact.over(n);
    lemma_toward_zero(exact.x, n);
    lemma_toward_zero(exact.y, n);
    lemma_toward_zero(exact.z, n);
    let m = row.dot(rounded);
    lemma_close_product(row.x, exact.x, rounded.x, n);
    lemma_close_product(row.y, exact.y, rounded.y, n);
    lemma_close_product(row.z, exact.z, rounded.z, n);
    lemma_distribute(n, row.x * rounded.x, row.y * rounded.y, row.z * rounded.z);
    lemma_swap(n, row.x, rounded.x);
    lemma_swap(n, row.y, rounded.y);
    lemma_swap(n, row.z, rounded.z);
    let nn = n * n;
    let a = row.x * (n * rounded.x);
    let b = row.y * (n * rounded.y);
    let c = row.z * (n * rounded.z);
    let ea = row.x * exact.x;
    let eb = row.y * exact.y;
    let ec = row.z * exact.z;
    assert(n * m == a + b + c);
    assert(ea - nn < a < ea + nn);
    assert(eb - nn < b < eb + nn);
    assert(ec - nn < c < ec + nn);
    let off = n * m - row.dot(exact);
    assert(-3 * nn < off < 3 * nn) by (nonlinear_arith)
        requires
            off == n * m - (ea + eb + ec),
            n * m == a + b + c,
            ea - nn < a < ea + nn,
            eb - nn < b < eb + nn,
            ec - nn < c < ec + nn,
    ;
}

/// One coordinate of a vector that was divided by `n`, rounded, and taken
/// along a row of length `n`: `exact` is the vector before the division,
/// `rounded` after it, and the row takes `exact` to `n * n * target`.
proof fn lemma_rounded_coordinate(row: Int3, exact: Int3, rounded: Int3, target: int, n: int)
    requires
        n > 0,
        -n <= row.x <= n,
        -n <= row.y <= n,
        -n <= row.z <= n,
        row.dot(exact) == n * n * target,
        rounded == exact.over(n),
    ensures
        -3 <= toward_zero(row.dot(rounded), n) - target <= 3,
{
    lemma_rounded_product(row, exact, n);
    let m = row.dot(rounded);
    let nn = n * n;
    let off = n * m - nn * target;
    assert(-3 * n < m - n * target < 3 * n) by (nonlinear_arith)
        requires
            -3 * nn < off < 3 * nn,
            off == n * m - nn * target,
            nn == n * n,
            n > 0,
    ;
    lemma_toward_zero(m, n);
    let q = toward_zero(m, n);
    assert(-4 < q - target < 4) by (nonlinear_arith)
        requires
            m - n < n * q < m + n,
            -3 * n < m - n * target < 3 * n,
            n > 0,
    ;
}

/// What a rigid pose takes to its own frame and back comes out within
/// three steps of where it was: for every vector `x`, the coordinates of
/// `x` along the axes, divided by the unit, and these taken along the
/// axes again and divided by the unit, give `x` up to rounding.
pub proof fn lemma_there_and_back(frame: Pose, x: Int3)
    requires
        frame.spec_is_rigid(),
    ensures
        within(frame.spec_turn(frame.spec_turn_back(x).over(frame.spec_unit())).over(frame.spec_unit()), x, 3),
{
    let n = frame.spec_unit();
    let rows = frame.spec_rows();
    let exact = frame.spec_turn_back(x);
    let rounded = exact.over(n);
    lemma_rows_undo_columns(frame, x);
    lemma_rounded_coordinate(rows.0@, exact, rounded, x.x, n);
    lemma_rounded_coordinate(rows.1@, exact, rounded, x.y, n);
    lemma_rounded_coordinate(rows.2@, exact, rounded, x.z, n);
    lemma_turn_by_rows(frame, rounded);
}

/// `n * n * a` in the orders it comes up in.
proof fn lemma_scaled(a: int, n: int)
    ensures
        a * (n * n) == n * n * a,
        a * (n * n) + 0 == n * n * a,
        a * 0 == 0,
{
    assert(a * (n * n) == n * n * a) by (nonlinear_arith);
}

/// What a pose makes of a vector, coordinate by coordinate: each is the
/// vector along a row of the axes.
pub proof fn lemma_turn_by_rows(frame: Pose, v: Int3)
    ensures
        frame.spec_turn(v) == (Int3 {
            x: frame.spec_rows().0@.dot(v),
            y: frame.spec_rows().1@.dot(v),
            z: frame.spec_rows().2@.dot(v),
        }),
{
}

/// The square of one coordinate that was divided by `n` and rounded
/// toward zero, times `n` again: no more than the square it had, and no
/// less than that square less twice `n` times the coordinate's size.
proof fn lemma_rounded_square(a: int, n: int, size: int)
    requires
        n > 0,
        size >= 0,
        size == a || size == -a,
    ensures
        (n * toward_zero(a, n)) * (n * toward_zero(a, n)) <= a * a,
        (n * toward_zero(a, n)) * (n * toward_zero(a, n)) >= a * a - 2 * (n * size),
{
    lemma_toward_zero_product(a, n);
    let y = n * toward_zero(a, n);
    assert(y * y <= a * a && y * y >= a * a - 2 * (n * size)) by (nonlinear_arith)
        requires
            n > 0,
            size >= 0,
            size == a || size == -a,
            a >= 0 ==> a - n < y <= a && 0 <= y,
            a <= 0 ==> a <= y < a + n && y <= 0,
    ;
}

/// The length of a vector that was divided by `n` and rounded: where the
/// vector before the division is `n` times as long as a vector of squared
/// length `square`, the rounded vector is no longer than that vector and
/// at most four steps shorter.
pub proof fn lemma_rounded_length(exact: Int3, n: int, square: int, root: int, rounded_root: int)
    requires
        n > 0,
        exact.dot(exact) == n * n * square,
        is_integer_sqrt(square, root),
        is_integer_sqrt(exact.over(n).dot(exact.over(n)), rounded_root),
    ensures
        root - 4 <= rounded_root <= root,
{
    let y = exact.over(n);
    let nn = n * n;
    let sx = if exact.x >= 0 { exact.x } else { -exact.x };
    let sy = if exact.y >= 0 { exact.y } else { -exact.y };
    let sz = if exact.z >= 0 { exact.z } else { -exact.z };
    lemma_rounded_square(exact.x, n, sx);
    lemma_rounded_square(exact.y, n, sy);
    lemma_rounded_square(exact.z, n, sz);
    let size = sx + sy + sz;
    let yy = y.dot(y);
    lemma_square_scaled(y.x, n);
    lemma_square_scaled(y.y, n);
    lemma_square_scaled(y.z, n);
    lemma_distribute(nn, y.x * y.x, y.y * y.y, y.z * y.z);
    let ee = exact.dot(exact);
    assert(nn * yy <= ee && nn * yy >= ee - 2 * (n * size)) by (nonlinear_arith)
        requires
            nn * yy == (n * y.x) * (n * y.x) + (n * y.y) * (n * y.y) + (n * y.z) * (n * y.z),
            (n * y.x) * (n * y.x) <= exact.x * exact.x,
            (n * y.y) * (n * y.y) <= exact.y * exact.y,
            (n * y.z) * (n * y.z) <= exact.z * exact.z,
            (n * y.x) * (n * y.x) >= exact.x * exact.x - 2 * (n * sx),
            (n * y.y) * (n * y.y) >= exact.y * exact.y - 2 * (n * sy),
            (n * y.z) * (n * y.z) >= exact.z * exact.z - 2 * (n * sz),
            ee == exact.x * exact.x + exact.y * exact.y + exact.z * exact.z,
            size == sx + sy + sz,
    ;
    assert(sx * sx == exact.x * exact.x) by (nonlinear_arith)
        requires
            sx == exact.x || sx == -exact.x,
    ;
    assert(sy * sy == exact.y * exact.y) by (nonlinear_arith)
        requires
            sy == exact.y || sy == -exact.y,
    ;
    assert(sz * sz == exact.z * exact.z) by (nonlinear_arith)
        requires
            sz == exact.z || sz == -exact.z,
    ;
    assert(size * size <= 3 * ee) by (nonlinear_arith)
        requires
            size == sx + sy + sz,
            ee == exact.x * exact.x + exact.y * exact.y + exact.z * exact.z,
            sx * sx == exact.x * exact.x,
            sy * sy == exact.y * exact.y,
            sz * sz == exact.z * exact.z,
    ;
    let reach = root + 1;
    assert(size < 2 * (n * reach)) by (nonlinear_arith)
        requires
            size >= 0,
            n > 0,
            reach >= 1,
            size * size <= 3 * ee,
            ee == nn * square,
            nn == n * n,
            square < reach * reach,
    ;
    assert(yy <= square && yy > square - 4 * reach) by (nonlinear_arith)
        requires
            n > 0,
            nn == n * n,
            nn * yy <= ee,
            nn * yy >= ee - 2 * (n * size),
            ee == nn * square,
            size < 2 * (n * reach),
            size >= 0,
    ;
    assert(root - 4 <= rounded_root <= root) by (nonlinear_arith)
        requires
            yy <= square,
            yy > square - 4 * reach,
            reach == root + 1,
            0 <= root,
            root * root <= square < (root + 1) * (root + 1),
            0 <= rounded_root,
            rounded_root * rounded_root <= yy < (rounded_root + 1) * (rounded_root + 1),
    ;
}

proof fn lemma_square_scaled(a: int, n: int)
    ensures
        (n * n) * (a * a) == (n * a) * (n * a),
{
    assert((n * n) * (a * a) == (n * a) * (n * a)) by (nonlinear_arith);
}

/// What the rows of a rigid pose make of what its columns made of a
/// vector: the vector, `n` squared times as long.
pub proof fn lemma_rows_undo_columns(frame: Pose, x: Int3)
    requires
        frame.spec_is_rigid(),
    ensures
        ({
            let n = frame.spec_unit();
            let rows = frame.spec_rows();
            let along = frame.spec_turn_back(x);
            &&& rows.0@.dot(along) == n * n * x.x
            &&& rows.1@.dot(along) == n * n * x.y
            &&& rows.2@.dot(along) == n * n * x.z
            &&& -n <= rows.0.x <= n && -n <= rows.0.y <= n && -n <= rows.0.z <= n
            &&& -n <= rows.1.x <= n && -n <= rows.1.y <= n && -n <= rows.1.z <= n
            &&& -n <= rows.2.x <= n && -n <= rows.2.y <= n && -n <= rows.2.z <= n
        }),
{
    let n = frame.spec_unit();
    let rows = frame.spec_rows();
    lemma_within_unit(rows.0@, n);
    lemma_within_unit(rows.1@, n);
    lemma_within_unit(rows.2@, n);
    lemma_sum_either_way(rows.0@, rows.0@, rows.1@, rows.2@, x);
    lemma_sum_either_way(rows.1@, rows.0@, rows.1@, rows.2@, x);
    lemma_sum_either_way(rows.2@, rows.0@, rows.1@, rows.2@, x);
    lemma_dot_commutes(rows.1@, rows.0@);
    lemma_dot_commutes(rows.2@, rows.0@);
    lemma_dot_commutes(rows.2@, rows.1@);
    lemma_scaled(x.x, n);
    lemma_scaled(x.y, n);
    lemma_scaled(x.z, n);
}

/// A rigid pose changes no length on the way to its frame: the
/// coordinates of a vector along its axes are `n` times as long as the
/// vector.
pub proof fn lemma_turn_back_keeps_length(frame: Pose, x: Int3)
    requires
        frame.spec_is_rigid(),
    ensures
        frame.spec_turn_back(x).dot(frame.spec_turn_back(x)) == frame.spec_unit() * frame.spec_unit() * x.dot(x),
{
    let n = frame.spec_unit();
    let nn = n * n;
    let rows = frame.spec_rows();
    let along = frame.spec_turn_back(x);
    lemma_rows_undo_columns(frame, x);
    lemma_sum_either_way(along, rows.0@, rows.1@, rows.2@, x);
    lemma_dot_commutes(along, rows.0@);
    lemma_dot_commutes(along, rows.1@);
    lemma_dot_commutes(along, rows.2@);
    assert(along.dot(along) == x.x * (nn * x.x) + x.y * (nn * x.y) + x.z * (nn * x.z));
    lemma_swap(x.x, nn, x.x);
    lemma_swap(x.y, nn, x.y);
    lemma_swap(x.z, nn, x.z);
    lemma_distribute(nn, x.x * x.x, x.y * x.y, x.z * x.z);
}

/// The pose whose axes are the rows of the axes of `frame`.
pub open spec fn transposed(frame: Pose) -> Pose {
    Pose {
        translation: frame.translation,
        right: frame.spec_rows().0,
        up: frame.spec_rows().1,
        back: frame.spec_rows().2,
    }
}

/// With a rigid pose the pose of its rows is rigid too, with the same
/// unit, and what one makes of a vector the other takes along its axes.
pub proof fn lemma_transposed(frame: Pose, v: Int3)
    requires
        frame.spec_is_rigid(),
    ensures
        transposed(frame).spec_is_rigid(),
        transposed(frame).spec_unit() == frame.spec_unit(),
        transposed(frame).spec_turn_back(v) == frame.spec_turn(v),
        transposed(frame).spec_turn(v) == frame.spec_turn_back(v),
{
    let n = frame.spec_unit();
    let other = transposed(frame);
    assert(is_integer_sqrt(n * n, n)) by (nonlinear_arith)
        requires
            n > 0,
    ;
    lemma_root_is_unique(n * n, n, length(other.right));
    assert(other.spec_rows().0 == frame.right);
    assert(other.spec_rows().1 == frame.up);
    assert(other.spec_rows().2 == frame.back);
    lemma_turn_by_rows(frame, v);
    lemma_turn_by_rows(other, v);
    lemma_dot_commutes(v, other.right@);
    lemma_dot_commutes(v, other.up@);
    lemma_dot_commutes(v, other.back@);
    lemma_dot_commutes(v, frame.right@);
    lemma_dot_commutes(v, frame.up@);
    lemma_dot_commutes(v, frame.back@);
}

/// A rigid pose changes no length on the way out of its frame: what it
/// makes of a vector is `n` times as long as the vector.
pub proof fn lemma_turn_keeps_length(frame: Pose, v: Int3)
    requires
        frame.spec_is_rigid(),
    ensures
        frame.spec_turn(v).dot(frame.spec_turn(v)) == frame.spec_unit() * frame.spec_unit() * v.dot(v),
{
    lemma_transposed(frame, v);
    lemma_turn_back_keeps_length(transposed(frame), v);
}

/// What a rigid pose takes out of its frame and back in comes out within
/// three steps of where it was.
pub proof fn lemma_back_and_there(frame: Pose, v: Int3)
    requires
        frame.spec_is_rigid(),
    ensures
        within(frame.spec_turn_back(frame.spec_turn(v).over(frame.spec_unit())).over(frame.spec_unit()), v, 3),
{
    lemma_transposed(frame, v);
    lemma_there_and_back(transposed(frame), v);
    lemma_transposed(frame, frame.spec_turn(v).over(frame.spec_unit()));
}

/// The identity is rigid, with [`UNIT`] for its unit, is its own reverse,
/// and changes nothing: a pose seen from it, or taken out of its frame, is
/// the pose itself.
pub proof fn lemma_identity(pose: Pose)
    ensures
        Pose::spec_identity().spec_is_rigid(),
        Pose::spec_identity().spec_unit() == UNIT,
        Pose::spec_identity().spec_compose(pose) == Some(pose),
        Pose::spec_identity().spec_relative(pose) == Some(pose),
        Pose::spec_identity().spec_inverse() == Some(Pose::spec_identity()),
{
    let identity = Pose::spec_identity();
    let unit = UNIT as int;
    assert(unit * unit == 1_000_000_000_000) by (nonlinear_arith)
        requires
            unit == 1_000_000,
    ;
    assert(is_integer_sqrt(unit * unit, unit)) by (nonlinear_arith)
        requires
            unit == 1_000_000,
    ;
    assert(identity.right@.dot(identity.right@) == unit * unit);
    lemma_root_is_unique(unit * unit, unit, length(identity.right));
    lemma_identity_keeps(pose.translation);
    lemma_identity_keeps(pose.right);
    lemma_identity_keeps(pose.up);
    lemma_identity_keeps(pose.back);
    lemma_identity_keeps(identity.translation);
    lemma_toward_zero(0, unit);
}

/// The identity takes every point and every direction to itself, either
/// way.
proof fn lemma_identity_keeps(v: Vec3)
    requires
        Pose::spec_identity().spec_unit() == UNIT,
    ensures
        Pose::spec_identity().spec_point_to_world(v) == v@,
        Pose::spec_identity().spec_direction_to_world(v) == v@,
        Pose::spec_identity().spec_point_to_local(v) == v@,
        Pose::spec_identity().spec_direction_to_local(v) == v@,
{
    let identity = Pose::spec_identity();
    let unit = UNIT as int;
    lemma_toward_zero(v.x as int, unit);
    lemma_toward_zero(v.y as int, unit);
    lemma_toward_zero(v.z as int, unit);
    lemma_known_products(identity.right@, v@, unit, 0, 0);
    lemma_known_products(identity.up@, v@, 0, unit, 0);
    lemma_known_products(identity.back@, v@, 0, 0, unit);
    assert(identity.spec_turn(v@) == (Int3 { x: unit * v.x, y: unit * v.y, z: unit * v.z }));
    assert(v@.minus(identity.translation@) == v@);
    assert(identity.spec_turn_back(v@) == (Int3 { x: v.x * unit, y: v.y * unit, z: v.z * unit }));
}

/// The products of a vector with an axis of known coordinates, two of
/// which are zero.
proof fn lemma_known_products(axis: Int3, v: Int3, x: int, y: int, z: int)
    requires
        axis.x == x,
        axis.y == y,
        axis.z == z,
        x == 0 || y == 0,
        x == 0 || z == 0,
        y == 0 || z == 0,
    ensures
        axis.times(v.x) == (Int3 { x: x * v.x, y: y * v.x, z: z * v.x }),
        axis.times(v.y) == (Int3 { x: x * v.y, y: y * v.y, z: z * v.y }),
        axis.times(v.z) == (Int3 { x: x * v.z, y: y * v.z, z: z * v.z }),
        v.dot(axis) == v.x * x + v.y * y + v.z * z,
        x == 0 ==> x * v.x == 0 && x * v.y == 0 && x * v.z == 0 && v.x * x == 0,
        y == 0 ==> y * v.x == 0 && y * v.y == 0 && y * v.z == 0 && v.y * y == 0,
        z == 0 ==> z * v.x == 0 && z * v.y == 0 && z * v.z == 0 && v.z * z == 0,
{
    assert(x == 0 ==> x * v.x == 0 && x * v.y == 0 && x * v.z == 0 && v.x * x == 0) by (nonlinear_arith);
    assert(y == 0 ==> y * v.x == 0 && y * v.y == 0 && y * v.z == 0 && v.y * y == 0) by (nonlinear_arith);
    assert(z == 0 ==> z * v.x == 0 && z * v.y == 0 && z * v.z == 0 && v.z * z == 0) by (nonlinear_arith);
}

/// Half a turn twice is no turn.
pub proof fn lemma_half_turn_twice(pose: Pose)
    requires
        pose.spec_half_turn() is Some,
    ensures
        pose.spec_half_turn().unwrap().spec_half_turn() == Some(pose),
{
}

/// What a pose makes of a vector with the opposite sign has the opposite
/// sign, before and after the division.
proof fn lemma_turn_negated(frame: Pose, v: Int3, n: int)
    requires
        n > 0,
    ensures
        ({
            let negated = Int3 { x: -v.x, y: -v.y, z: -v.z };
            let there = frame.spec_turn(v).over(n);
            frame.spec_turn(negated).over(n) == (Int3 { x: -there.x, y: -there.y, z: -there.z })
        }),
{
    let negated = Int3 { x: -v.x, y: -v.y, z: -v.z };
    let rows = frame.spec_rows();
    lemma_turn_by_rows(frame, v);
    lemma_turn_by_rows(frame, negated);
    lemma_dot_of_negated(rows.0@, v, negated);
    lemma_dot_of_negated(rows.1@, v, negated);
    lemma_dot_of_negated(rows.2@, v, negated);
    lemma_toward_zero(frame.spec_turn(v).x, n);
    lemma_toward_zero(frame.spec_turn(v).y, n);
    lemma_toward_zero(frame.spec_turn(v).z, n);
}

proof fn lemma_dot_of_negated(row: Int3, v: Int3, negated: Int3)
    requires
        negated.x == -v.x,
        negated.y == -v.y,
        negated.z == -v.z,
    ensures
        row.dot(negated) == -row.dot(v),
{
    assert(row.x * negated.x == -(row.x * v.x)) by (nonlinear_arith)
        requires
            negated.x == -v.x,
    ;
    assert(row.y * negated.y == -(row.y * v.y)) by (nonlinear_arith)
        requires
            negated.y == -v.y,
    ;
    assert(row.z * negated.z == -(row.z * v.z)) by (nonlinear_arith)
        requires
            negated.z == -v.z,
    ;
}

/// The reverse of a rigid pose is rigid, and the pose followed by its
/// reverse is the identity of its unit, up to rounding: the axes come out
/// along the axes of the world, as long as the unit, and the position
/// within three steps of the origin.
pub proof fn lemma_pose_then_inverse(pose: Pose)
    requires
        pose.spec_is_rigid(),
        pose.spec_inverse() is Some,
    ensures
        ({
            let n = pose.spec_unit();
            let reverse = pose.spec_inverse().unwrap();
            &&& reverse.spec_is_rigid()
            &&& reverse.spec_unit() == n
            &&& pose.spec_direction_to_world(reverse.right) == (Int3 { x: n, y: 0, z: 0 })
            &&& pose.spec_direction_to_world(reverse.up) == (Int3 { x: 0, y: n, z: 0 })
            &&& pose.spec_direction_to_world(reverse.back) == (Int3 { x: 0, y: 0, z: n })
            &&& within(pose.spec_point_to_world(reverse.translation), Int3 { x: 0, y: 0, z: 0 }, 3)
        }),
{
    let n = pose.spec_unit();
    let reverse = pose.spec_inverse().unwrap();
    let rows = pose.spec_rows();
    lemma_transposed(pose, pose.translation@);
    assert(reverse.right == transposed(pose).right);
    assert(reverse.spec_is_rigid());
    lemma_turn_by_rows(pose, rows.0@);
    lemma_turn_by_rows(pose, rows.1@);
    lemma_turn_by_rows(pose, rows.2@);
    lemma_dot_commutes(rows.1@, rows.0@);
    lemma_dot_commutes(rows.2@, rows.0@);
    lemma_dot_commutes(rows.2@, rows.1@);
    lemma_toward_zero(n, n);
    lemma_toward_zero(0, n);
    let along = pose.spec_turn_back(pose.translation@).over(n);
    lemma_to_vec3(Int3 { x: -along.x, y: -along.y, z: -along.z });
    lemma_there_and_back(pose, pose.translation@);
    lemma_turn_negated(pose, along, n);
}

/// The axes that a quaternion gives are rigid: each as long as the
/// quaternion's squared length, and at right angles to each other, read as
/// columns and read as rows.
pub proof fn lemma_quaternion_axes(w: int, x: int, y: int, z: int)
    ensures
        ({
            let n = quaternion_norm(w, x, y, z);
            let axes = quaternion_axes(w, x, y, z);
            let r = axes.0;
            let u = axes.1;
            let b = axes.2;
            let rx = Int3 { x: r.x, y: u.x, z: b.x };
            let ry = Int3 { x: r.y, y: u.y, z: b.y };
            let rz = Int3 { x: r.z, y: u.z, z: b.z };
            &&& n >= 0
            &&& r.dot(r) == n * n && u.dot(u) == n * n && b.dot(b) == n * n
            &&& r.dot(u) == 0 && r.dot(b) == 0 && u.dot(b) == 0
            &&& rx.dot(rx) == n * n && ry.dot(ry) == n * n && rz.dot(rz) == n * n
            &&& rx.dot(ry) == 0 && rx.dot(rz) == 0 && ry.dot(rz) == 0
        }),
{
    let a = w * w;
    let b = x * x;
    let c = y * y;
    let d = z * z;
    let p = x * y;
    let q = w * z;
    let r = x * z;
    let s = w * y;
    let t = y * z;
    let v = w * x;
    assert(a >= 0 && b >= 0 && c >= 0 && d >= 0) by (nonlinear_arith)
        requires
            a == w * w,
            b == x * x,
            c == y * y,
            d == z * z,
    ;
    assert(p * p == b * c) by (nonlinear_arith)
        requires
            b == x * x,
            c == y * y,
            p == x * y,
    ;
    assert(q * q == a * d) by (nonlinear_arith)
        requires
            a == w * w,
            d == z * z,
            q == w * z,
    ;
    assert(r * r == b * d) by (nonlinear_arith)
        requires
            b == x * x,
            d == z * z,
            r == x * z,
    ;
    assert(s * s == a * c) by (nonlinear_arith)
        requires
            a == w * w,
            c == y * y,
            s == w * y,
    ;
    assert(t * t == c * d) by (nonlinear_arith)
        requires
            c == y * y,
            d == z * z,
            t == y * z,
    ;
    assert(v * v == a * b) by (nonlinear_arith)
        requires
            a == w * w,
            b == x * x,
            v == w * x,
    ;
    assert(p * q == r * s) by (nonlinear_arith)
        requires
            p == x * y,
            q == w * z,
            r == x * z,
            s == w * y,
    ;
    assert(p * q == t * v) by (nonlinear_arith)
        requires
            p == x * y,
            q == w * z,
            t == y * z,
            v == w * x,
    ;
    assert(r * t == d * p) by (nonlinear_arith)
        requires
            d == z * z,
            p == x * y,
            r == x * z,
            t == y * z,
    ;
    assert(r * v == b * q) by (nonlinear_arith)
        requires
            b == x * x,
            q == w * z,
            r == x * z,
            v == w * x,
    ;
    assert(s * t == c * q) by (nonlinear_arith)
        requires
            c == y * y,
            q == w * z,
            s == w * y,
            t == y * z,
    ;
    assert(s * v == a * p) by (nonlinear_arith)
        requires
            a == w * w,
            p == x * y,
            s == w * y,
            v == w * x,
    ;
    assert(p * t == c * r) by (nonlinear_arith)
        requires
            c == y * y,
            p == x * y,
            r == x * z,
            t == y * z,
    ;
    assert(p * v == b * s) by (nonlinear_arith)
        requires
            b == x * x,
            p == x * y,
            s == w * y,
            v == w * x,
    ;
    assert(q * t == d * s) by (nonlinear_arith)
        requires
            d == z * z,
            q == w * z,
            s == w * y,
            t == y * z,
    ;
    assert(q * v == a * r) by (nonlinear_arith)
        requires
            a == w * w,
            q == w * z,
            r == x * z,
            v == w * x,
    ;
    assert(p * r == b * t) by (nonlinear_arith)
        requires
            b == x * x,
            p == x * y,
            r == x * z,
            t == y * z,
    ;
    assert(p * s == c * v) by (nonlinear_arith)
        requires
            c == y * y,
            p == x * y,
            s == w * y,
            v == w * x,
    ;
    assert(q * r == d * v) by (nonlinear_arith)
        requires
            d == z * z,
            q == w * z,
            r == x * z,
            v == w * x,
    ;
    assert(q * s == a * t) by (nonlinear_arith)
        requires
            a == w * w,
            q == w * z,
            s == w * y,
            t == y * z,
    ;
    lemma_axes_of_products(a, b, c, d, p, q, r, s, t, v);
    let nq = -q;
    let ns = -s;
    let nv = -v;
    assert(nq * nq == a * d) by (nonlinear_arith)
        requires
            q * q == a * d,
            nq == -q,
            ns == -s,
            nv == -v,
    ;
    assert(ns * ns == a * c) by (nonlinear_arith)
        requires
            s * s == a * c,
            nq == -q,
            ns == -s,
            nv == -v,
    ;
    assert(nv * nv == a * b) by (nonlinear_arith)
        requires
            v * v == a * b,
            nq == -q,
            ns == -s,
            nv == -v,
    ;
    assert(p * nq == r * ns) by (nonlinear_arith)
        requires
            p * q == r * s,
            nq == -q,
            ns == -s,
            nv == -v,
    ;
    assert(p * nq == t * nv) by (nonlinear_arith)
        requires
            p * q == t * v,
            nq == -q,
            ns == -s,
            nv == -v,
    ;
    assert(r * nv == b * nq) by (nonlinear_arith)
        requires
            r * v == b * q,
            nq == -q,
            ns == -s,
            nv == -v,
    ;
    assert(ns * t == c * nq) by (nonlinear_arith)
        requires
            s * t == c * q,
            nq == -q,
            ns == -s,
            nv == -v,
    ;
    assert(ns * nv == a * p) by (nonlinear_arith)
        requires
            s * v == a * p,
            nq == -q,
            ns == -s,
            nv == -v,
    ;
    assert(p * nv == b * ns) by (nonlinear_arith)
        requires
            p * v == b * s,
            nq == -q,
            ns == -s,
            nv == -v,
    ;
    assert(nq * t == d * ns) by (nonlinear_arith)
        requires
            q * t == d * s,
            nq == -q,
            ns == -s,
            nv == -v,
    ;
    assert(nq * nv == a * r) by (nonlinear_arith)
        requires
            q * v == a * r,
            nq == -q,
            ns == -s,
            nv == -v,
    ;
    assert(p * ns == c * nv) by (nonlinear_arith)
        requires
            p * s == c * v,
            nq == -q,
            ns == -s,
            nv == -v,
    ;
    assert(nq * r == d * nv) by (nonlinear_arith)
        requires
            q * r == d * v,
            nq == -q,
            ns == -s,
            nv == -v,
    ;
    assert(nq * ns == a * t) by (nonlinear_arith)
        requires
            q * s == a * t,
            nq == -q,
            ns == -s,
            nv == -v,
    ;
    lemma_axes_of_products(a, b, c, d, p, nq, r, ns, t, nv);
}

/// The three axes that products of the coordinates of a quaternion give
/// are as long as the sum of its squares and at right angles to each
/// other: `a`, `b`, `c`, `d` stand for the squares of the four
/// coordinates, the other letters for the products of two of them.
proof fn lemma_axes_of_products(a: int, b: int, c: int, d: int, p: int, q: int, r: int, s: int, t: int, v: int)
    requires
        p * p == b * c,
        q * q == a * d,
        r * r == b * d,
        s * s == a * c,
        t * t == c * d,
        v * v == a * b,
        p * q == r * s,
        p * q == t * v,
        r * t == d * p,
        r * v == b * q,
        s * t == c * q,
        s * v == a * p,
        p * t == c * r,
        p * v == b * s,
        q * t == d * s,
        q * v == a * r,
        p * r == b * t,
        p * s == c * v,
        q * r == d * v,
        q * s == a * t,
    ensures
        (a + b - c - d) * (a + b - c - d) + (2 * p + 2 * q) * (2 * p + 2 * q) + (2 * r - 2 * s) * (2 * r - 2 * s) == (a + b + c + d) * (a + b + c + d),
        (2 * p - 2 * q) * (2 * p - 2 * q) + (a - b + c - d) * (a - b + c - d) + (2 * t + 2 * v) * (2 * t + 2 * v) == (a + b + c + d) * (a + b + c + d),
        (2 * r + 2 * s) * (2 * r + 2 * s) + (2 * t - 2 * v) * (2 * t - 2 * v) + (a - b - c + d) * (a - b - c + d) == (a + b + c + d) * (a + b + c + d),
        (a + b - c - d) * (2 * p - 2 * q) + (2 * p + 2 * q) * (a - b + c - d) + (2 * r - 2 * s) * (2 * t + 2 * v) == 0,
        (a + b - c - d) * (2 * r + 2 * s) + (2 * p + 2 * q) * (2 * t - 2 * v) + (2 * r - 2 * s) * (a - b - c + d) == 0,
        (2 * p - 2 * q) * (2 * r + 2 * s) + (a - b + c - d) * (2 * t - 2 * v) + (2 * t + 2 * v) * (a - b - c + d) == 0,
{
    assert((a + b - c - d) * (a + b - c - d) == 1 * (a * a) + 2 * (a * b) - 2 * (a * c) - 2 * (a * d) + 1 * (b * b) - 2 * (b * c) - 2 * (b * d) + 1 * (c * c) + 2 * (c * d) + 1 * (d * d)) by (nonlinear_arith);
    assert((2 * p + 2 * q) * (2 * p + 2 * q) == 4 * (p * p) + 8 * (p * q) + 4 * (q * q)) by (nonlinear_arith);
    assert((2 * r - 2 * s) * (2 * r - 2 * s) == 4 * (r * r) - 8 * (r * s) + 4 * (s * s)) by (nonlinear_arith);
    assert((2 * p - 2 * q) * (2 * p - 2 * q) == 4 * (p * p) - 8 * (p * q) + 4 * (q * q)) by (nonlinear_arith);
    assert((a - b + c - d) * (a - b + c - d) == 1 * (a * a) - 2 * (a * b) + 2 * (a * c) - 2 * (a * d) + 1 * (b * b) - 2 * (b * c) + 2 * (b * d) + 1 * (c * c) - 2 * (c * d) + 1 * (d * d)) by (nonlinear_arith);
    assert((2 * t + 2 * v) * (2 * t + 2 * v) == 4 * (t * t) + 8 * (t * v) + 4 * (v * v)) by (nonlinear_arith);
    assert((2 * r + 2 * s) * (2 * r + 2 * s) == 4 * (r * r) + 8 * (r * s) + 4 * (s * s)) by (nonlinear_arith);
    assert((2 * t - 2 * v) * (2 * t - 2 * v) == 4 * (t * t) - 8 * (t * v) + 4 * (v * v)) by (nonlinear_arith);
    assert((a - b - c + d) * (a - b - c + d) == 1 * (a * a) - 2 * (a * b) - 2 * (a * c) + 2 * (a * d) + 1 * (b * b) + 2 * (b * c) - 2 * (b * d) + 1 * (c * c) - 2 * (c * d) + 1 * (d * d)) by (nonlinear_arith);
    assert((a + b + c + d) * (a + b + c + d) == 1 * (a * a) + 2 * (a * b) + 2 * (a * c) + 2 * (a * d) + 1 * (b * b) + 2 * (b * c) + 2 * (b * d) + 1 * (c * c) + 2 * (c * d) + 1 * (d * d)) by (nonlinear_arith);
    let z1 = a + b - c - d;
    assert((a + b - c - d) * (2 * p - 2 * q) == 2 * (p * z1) - 2 * (q * z1)) by (nonlinear_arith)
        requires
            z1 == a + b - c - d,
    ;
    assert(p * z1 == 1 * (a * p) + 1 * (b * p) - 1 * (c * p) - 1 * (d * p)) by (nonlinear_arith)
        requires
            z1 == a + b - c - d,
    ;
    assert(q * z1 == 1 * (a * q) + 1 * (b * q) - 1 * (c * q) - 1 * (d * q)) by (nonlinear_arith)
        requires
            z1 == a + b - c - d,
    ;
    let z2 = a - b + c - d;
    assert((2 * p + 2 * q) * (a - b + c - d) == 2 * (p * z2) + 2 * (q * z2)) by (nonlinear_arith)
        requires
            z2 == a - b + c - d,
    ;
    assert(p * z2 == 1 * (a * p) - 1 * (b * p) + 1 * (c * p) - 1 * (d * p)) by (nonlinear_arith)
        requires
            z2 == a - b + c - d,
    ;
    assert(q * z2 == 1 * (a * q) - 1 * (b * q) + 1 * (c * q) - 1 * (d * q)) by (nonlinear_arith)
        requires
            z2 == a - b + c - d,
    ;
    assert((2 * r - 2 * s) * (2 * t + 2 * v) == 4 * (r * t) + 4 * (r * v) - 4 * (s * t) - 4 * (s * v)) by (nonlinear_arith);
    let z3 = a + b - c - d;
    assert((a + b - c - d) * (2 * r + 2 * s) == 2 * (r * z3) + 2 * (s * z3)) by (nonlinear_arith)
        requires
            z3 == a + b - c - d,
    ;
    assert(r * z3 == 1 * (a * r) + 1 * (b * r) - 1 * (c * r) - 1 * (d * r)) by (nonlinear_arith)
        requires
            z3 == a + b - c - d,
    ;
    assert(s * z3 == 1 * (a * s) + 1 * (b * s) - 1 * (c * s) - 1 * (d * s)) by (nonlinear_arith)
        requires
            z3 == a + b - c - d,
    ;
    assert((2 * p + 2 * q) * (2 * t - 2 * v) == 4 * (p * t) - 4 * (p * v) + 4 * (q * t) - 4 * (q * v)) by (nonlinear_arith);
    let z4 = a - b - c + d;
    assert((2 * r - 2 * s) * (a - b - c + d) == 2 * (r * z4) - 2 * (s * z4)) by (nonlinear_arith)
        requires
            z4 == a - b - c + d,
    ;
    assert(r * z4 == 1 * (a * r) - 1 * (b * r) - 1 * (c * r) + 1 * (d * r)) by (nonlinear_arith)
        requires
            z4 == a - b - c + d,
    ;
    assert(s * z4 == 1 * (a * s) - 1 * (b * s) - 1 * (c * s) + 1 * (d * s)) by (nonlinear_arith)
        requires
            z4 == a - b - c + d,
    ;
    assert((2 * p - 2 * q) * (2 * r + 2 * s) == 4 * (p * r) + 4 * (p * s) - 4 * (q * r) - 4 * (q * s)) by (nonlinear_arith);
    let z5 = a - b + c - d;
    assert((a - b + c - d) * (2 * t - 2 * v) == 2 * (t * z5) - 2 * (v * z5)) by (nonlinear_arith)
        requires
            z5 == a - b + c - d,
    ;
    assert(t * z5 == 1 * (a * t) - 1 * (b * t) + 1 * (c * t) - 1 * (d * t)) by (nonlinear_arith)
        requires
            z5 == a - b + c - d,
    ;
    assert(v * z5 == 1 * (a * v) - 1 * (b * v) + 1 * (c * v) - 1 * (d * v)) by (nonlinear_arith)
        requires
            z5 == a - b + c - d,
    ;
    let z6 = a - b - c + d;
    assert((2 * t + 2 * v) * (a - b - c + d) == 2 * (t * z6) + 2 * (v * z6)) by (nonlinear_arith)
        requires
            z6 == a - b - c + d,
    ;
    assert(t * z6 == 1 * (a * t) - 1 * (b * t) - 1 * (c * t) + 1 * (d * t)) by (nonlinear_arith)
        requires
            z6 == a - b - c + d,
    ;
    assert(v * z6 == 1 * (a * v) - 1 * (b * v) - 1 * (c * v) + 1 * (d * v)) by (nonlinear_arith)
        requires
            z6 == a - b - c + d,
    ;
}

/// A quaternion that is not zero has a length, and one with coordinates of
/// at most 23 170 either way gives axes that are in range.
proof fn lemma_small_quaternion(w: int, x: int, y: int, z: int)
    ensures
        quaternion_norm(w, x, y, z) == 0 <==> w == 0 && x == 0 && y == 0 && z == 0,
        -23_170 <= w <= 23_170 && -23_170 <= x <= 23_170 && -23_170 <= y <= 23_170 && -23_170 <= z <= 23_170 ==> {
            &&& quaternion_axes(w, x, y, z).0.in_world()
            &&& quaternion_axes(w, x, y, z).1.in_world()
            &&& quaternion_axes(w, x, y, z).2.in_world()
        },
{
    assert(w * w >= 0 && (w * w == 0 ==> w == 0)) by (nonlinear_arith);
    assert(x * x >= 0 && (x * x == 0 ==> x == 0)) by (nonlinear_arith);
    assert(y * y >= 0 && (y * y == 0 ==> y == 0)) by (nonlinear_arith);
    assert(z * z >= 0 && (z * z == 0 ==> z == 0)) by (nonlinear_arith);
    if -23_170 <= w <= 23_170 && -23_170 <= x <= 23_170 && -23_170 <= y <= 23_170 && -23_170 <= z <= 23_170 {
        lemma_product_bound(w, w, 23_170, 23_170);
        lemma_product_bound(x, x, 23_170, 23_170);
        lemma_product_bound(y, y, 23_170, 23_170);
        lemma_product_bound(z, z, 23_170, 23_170);
        lemma_product_bound(x, y, 23_170, 23_170);
        lemma_product_bound(x, z, 23_170, 23_170);
        lemma_product_bound(y, z, 23_170, 23_170);
        lemma_product_bound(w, x, 23_170, 23_170);
        lemma_product_bound(w, y, 23_170, 23_170);
        lemma_product_bound(w, z, 23_170, 23_170);
        assert(23_170 * 23_170 == 536_848_900) by (nonlinear_arith);
    }
}

} // verus!
