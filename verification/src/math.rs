//! Fixed-point vectors and the integer arithmetic the geometry is built on.

use vstd::prelude::*;
use vstd::arithmetic::div_mod::{
    lemma_div_multiples_vanish, lemma_div_plus_one, lemma_div_pos_is_pos, lemma_fundamental_div_mod, lemma_mod_bound,
};

verus! {

/// How many coordinate steps make one world unit. A direction of length one
/// is a vector of length `UNIT`.
pub const UNIT: i32 = 1_000_000;

/// A point or a direction in the plane of a surface.
#[derive(Clone, Copy, Debug, PartialEq, Eq, Structural)]
pub struct Vec2 {
    pub x: i32,
    pub y: i32,
}

/// A point or a direction in the world.
#[derive(Clone, Copy, Debug, PartialEq, Eq, Structural)]
pub struct Vec3 {
    pub x: i32,
    pub y: i32,
    pub z: i32,
}

/// The width and height of a rectangle, in coordinate steps.
#[derive(Clone, Copy, Debug, PartialEq, Eq, Structural)]
pub struct Size2 {
    pub width: u32,
    pub height: u32,
}

/// `a / b` rounded toward zero, for a positive divisor.
pub open spec fn toward_zero(a: int, b: int) -> int {
    if a >= 0 {
        a / b
    } else {
        -((-a) / b)
    }
}

/// A vector of unbounded integers: what a [`Vec3`] stands for, and what the
/// intermediate results of the geometry are stated in.
pub struct Int3 {
    pub x: int,
    pub y: int,
    pub z: int,
}

impl Int3 {
    pub open spec fn minus(self, other: Int3) -> Int3 {
        Int3 { x: self.x - other.x, y: self.y - other.y, z: self.z - other.z }
    }

    pub open spec fn plus(self, other: Int3) -> Int3 {
        Int3 { x: self.x + other.x, y: self.y + other.y, z: self.z + other.z }
    }

    pub open spec fn dot(self, other: Int3) -> int {
        self.x * other.x + self.y * other.y + self.z * other.z
    }

    /// Every component multiplied by `factor`.
    pub open spec fn times(self, factor: int) -> Int3 {
        Int3 { x: self.x * factor, y: self.y * factor, z: self.z * factor }
    }

    /// Every component divided by `divisor`, rounded toward zero.
    pub open spec fn over(self, divisor: int) -> Int3 {
        Int3 {
            x: toward_zero(self.x, divisor),
            y: toward_zero(self.y, divisor),
            z: toward_zero(self.z, divisor),
        }
    }

    /// Whether every component is a coordinate a [`Vec3`] can hold.
    pub open spec fn in_world(self) -> bool {
        &&& i32::MIN <= self.x <= i32::MAX
        &&& i32::MIN <= self.y <= i32::MAX
        &&& i32::MIN <= self.z <= i32::MAX
    }
}

impl View for Vec3 {
    type V = Int3;

    open spec fn view(&self) -> Int3 {
        Int3 { x: self.x as int, y: self.y as int, z: self.z as int }
    }
}

/// Where something stands in the world and how it is turned: a position and
/// the three axes of its own frame. The length of the axes is the unit of
/// the pose: what one step along an axis of the frame is stored as. A
/// surface or a portal faces along the opposite of `back`.
#[derive(Clone, Copy, Debug, PartialEq, Eq, Structural)]
pub struct Pose {
    pub translation: Vec3,
    pub right: Vec3,
    pub up: Vec3,
    pub back: Vec3,
}

impl Pose {
    /// The pose at the origin whose axes are the world's.
    pub open spec fn spec_identity() -> Pose {
        Pose {
            translation: Vec3 { x: 0, y: 0, z: 0 },
            right: Vec3 { x: UNIT, y: 0, z: 0 },
            up: Vec3 { x: 0, y: UNIT, z: 0 },
            back: Vec3 { x: 0, y: 0, z: UNIT },
        }
    }

    /// The pose at the origin whose axes are the world's.
    #[verifier::when_used_as_spec(spec_identity)]
    pub fn identity() -> (pose: Pose)
        ensures
            pose == Pose::spec_identity(),
    {
        Pose {
            translation: Vec3 { x: 0, y: 0, z: 0 },
            right: Vec3 { x: UNIT, y: 0, z: 0 },
            up: Vec3 { x: 0, y: UNIT, z: 0 },
            back: Vec3 { x: 0, y: 0, z: UNIT },
        }
    }
}

impl Size2 {
    /// Half the width, rounded down.
    pub open spec fn spec_half_width(self) -> int {
        self.width as int / 2
    }

    /// Half the height, rounded down.
    pub open spec fn spec_half_height(self) -> int {
        self.height as int / 2
    }

    /// Half the width, rounded down.
    pub fn half_width(self) -> (half: i32)
        ensures
            half == self.spec_half_width(),
            0 <= half,
    {
        (self.width / 2) as i32
    }

    /// Half the height, rounded down.
    pub fn half_height(self) -> (half: i32)
        ensures
            half == self.spec_half_height(),
            0 <= half,
    {
        (self.height / 2) as i32
    }
}

impl Int3 {
    /// The vector of the same components as machine integers, where each is
    /// a coordinate a [`Vec3`] can hold.
    pub open spec fn to_vec3(self) -> Vec3
        recommends
            self.in_world(),
    {
        Vec3 { x: self.x as i32, y: self.y as i32, z: self.z as i32 }
    }
}

impl Vec3 {
    /// The dot product with `other`.
    pub fn dot(self, other: Vec3) -> (product: i128)
        ensures
            product == self@.dot(other@),
            -0x1_8000_0000_0000_0000 <= product <= 0x1_8000_0000_0000_0000,
    {
        self.dot_offset(Vec3 { x: 0, y: 0, z: 0 }, other)
    }

    /// The dot product of `self - from` with `axis`.
    pub fn dot_offset(self, from: Vec3, axis: Vec3) -> (product: i128)
        ensures
            product == self@.minus(from@).dot(axis@),
            -0x1_8000_0000_0000_0000 <= product <= 0x1_8000_0000_0000_0000,
    {
        let dx: i128 = self.x as i128 - from.x as i128;
        let dy: i128 = self.y as i128 - from.y as i128;
        let dz: i128 = self.z as i128 - from.z as i128;
        proof {
            lemma_product_bound(dx as int, axis.x as int, 0x1_0000_0000, 0x8000_0000);
            lemma_product_bound(dy as int, axis.y as int, 0x1_0000_0000, 0x8000_0000);
            lemma_product_bound(dz as int, axis.z as int, 0x1_0000_0000, 0x8000_0000);
        }
        dx * (axis.x as i128) + dy * (axis.y as i128) + dz * (axis.z as i128)
    }
}

/// A vector of coordinates is the vector it is stored as.
pub proof fn lemma_to_vec3(v: Int3)
    requires
        v.in_world(),
    ensures
        v.to_vec3()@ == v,
{
}

/// The product of two bounded integers is bounded by the product of the
/// bounds.
pub proof fn lemma_product_bound(a: int, b: int, bound_a: int, bound_b: int)
    requires
        -bound_a <= a <= bound_a,
        -bound_b <= b <= bound_b,
    ensures
        -(bound_a * bound_b) <= a * b <= bound_a * bound_b,
{
    assert(-(bound_a * bound_b) <= a * b <= bound_a * bound_b) by (nonlinear_arith)
        requires
            -bound_a <= a <= bound_a,
            -bound_b <= b <= bound_b,
    ;
}

/// `a / b` rounded toward zero, for a positive divisor.
pub fn div_toward_zero(a: i128, b: i128) -> (q: i128)
    requires
        b > 0,
    ensures
        q == toward_zero(a as int, b as int),
{
    if a >= 0 {
        a / b
    } else if a == i128::MIN {
        let q: i128 = (a + b) / b;
        proof {
            let n = -(a as int);
            lemma_div_plus_one(n - b, b as int);
        }
        q - 1
    } else {
        -((-a) / b)
    }
}

/// Rounding toward zero commutes with negation, and a multiple of the
/// divisor is divided without rounding.
pub proof fn lemma_toward_zero(a: int, b: int)
    requires
        b > 0,
    ensures
        toward_zero(-a, b) == -toward_zero(a, b),
        toward_zero(a * b, b) == a,
        toward_zero(b * a, b) == a,
        toward_zero(0, b) == 0,
        a >= 0 ==> 0 <= toward_zero(a, b) <= a,
        a <= 0 ==> a <= toward_zero(a, b) <= 0,
        a - b < b * toward_zero(a, b) < a + b,
{
    lemma_div_multiples_vanish(a, b);
    lemma_div_multiples_vanish(-a, b);
    assert(a * b == b * a) by (nonlinear_arith);
    assert((-a) * b == b * (-a)) by (nonlinear_arith);
    assert(-(a * b) == (-a) * b) by (nonlinear_arith);
    lemma_fundamental_div_mod(a, b);
    lemma_fundamental_div_mod(-a, b);
    lemma_mod_bound(a, b);
    lemma_mod_bound(-a, b);
    if a >= 0 {
        lemma_div_pos_is_pos(a, b);
        assert(b * (a / b) >= a / b) by (nonlinear_arith)
            requires
                b >= 1,
                a / b >= 0,
        ;
    } else {
        lemma_div_pos_is_pos(-a, b);
        assert(b * ((-a) / b) >= (-a) / b) by (nonlinear_arith)
            requires
                b >= 1,
                (-a) / b >= 0,
        ;
        assert(b * (-((-a) / b)) == -(b * ((-a) / b))) by (nonlinear_arith);
    }
}

/// A quotient rounded toward zero, times the divisor, lies between zero
/// and the dividend, less than a divisor short of it.
pub proof fn lemma_toward_zero_product(a: int, b: int)
    requires
        b > 0,
    ensures
        a >= 0 ==> a - b < b * toward_zero(a, b) <= a && 0 <= b * toward_zero(a, b),
        a <= 0 ==> a <= b * toward_zero(a, b) < a + b && b * toward_zero(a, b) <= 0,
{
    lemma_toward_zero(a, b);
    lemma_fundamental_div_mod(a, b);
    lemma_fundamental_div_mod(-a, b);
    lemma_mod_bound(a, b);
    lemma_mod_bound(-a, b);
    if a >= 0 {
        lemma_div_pos_is_pos(a, b);
        assert(b * (a / b) >= 0) by (nonlinear_arith)
            requires
                b > 0,
                a / b >= 0,
        ;
    } else {
        lemma_div_pos_is_pos(-a, b);
        assert(b * ((-a) / b) >= 0) by (nonlinear_arith)
            requires
                b > 0,
                (-a) / b >= 0,
        ;
        assert(b * (-((-a) / b)) == -(b * ((-a) / b))) by (nonlinear_arith);
    }
}

/// The largest `root` whose square is at most `value`.
pub fn integer_sqrt(value: u128) -> (root: u64)
    ensures
        is_integer_sqrt(value as int, root as int),
{
    let mut low: u128 = 0;
    let mut high: u128 = 0x1_0000_0000_0000_0000;
    assert(0x1_0000_0000_0000_0000int * 0x1_0000_0000_0000_0000int > u128::MAX) by (nonlinear_arith);
    while high - low > 1
        invariant
            low < high <= 0x1_0000_0000_0000_0000,
            low * low <= value < high * high,
        decreases high - low,
    {
        let middle: u128 = low + (high - low) / 2;
        assert(middle * middle <= 0xffff_ffff_ffff_ffffint * 0xffff_ffff_ffff_ffffint) by (nonlinear_arith)
            requires
                0 <= middle <= 0xffff_ffff_ffff_ffff,
        ;
        assert(0xffff_ffff_ffff_ffffint * 0xffff_ffff_ffff_ffffint <= u128::MAX) by (nonlinear_arith);
        if middle * middle <= value {
            low = middle;
        } else {
            high = middle;
        }
    }
    low as u64
}

/// Whether `root` is the integer square root of `value`: the largest
/// number whose square is at most `value`.
pub open spec fn is_integer_sqrt(value: int, root: int) -> bool {
    0 <= root && root * root <= value < (root + 1) * (root + 1)
}

/// A number has at most one integer square root.
pub proof fn lemma_root_is_unique(value: int, a: int, b: int)
    requires
        is_integer_sqrt(value, a),
        is_integer_sqrt(value, b),
    ensures
        a == b,
{
    if a < b {
        assert((a + 1) * (a + 1) <= b * b) by (nonlinear_arith)
            requires
                0 <= a + 1 <= b,
        ;
    } else if b < a {
        assert((b + 1) * (b + 1) <= a * a) by (nonlinear_arith)
            requires
                0 <= b + 1 <= a,
        ;
    }
}

impl Vec3 {
    /// The square of the distance to `other`.
    pub open spec fn spec_distance_squared(self, other: Vec3) -> int {
        self@.minus(other@).dot(self@.minus(other@))
    }

    /// The distance to `other`, rounded down: the integer square root of
    /// the sum of the squares of the differences of the coordinates.
    pub open spec fn spec_distance(self, other: Vec3) -> int {
        choose|root: int| is_integer_sqrt(self.spec_distance_squared(other), root)
    }

    /// The distance to `other`, rounded down: the integer square root of
    /// the sum of the squares of the differences of the coordinates.
    pub fn distance(self, other: Vec3) -> (distance: u64)
        ensures
            distance == self.spec_distance(other),
            is_integer_sqrt(self.spec_distance_squared(other), distance as int),
    {
        let dx: i128 = self.x as i128 - other.x as i128;
        let dy: i128 = self.y as i128 - other.y as i128;
        let dz: i128 = self.z as i128 - other.z as i128;
        proof {
            lemma_product_bound(dx as int, dx as int, 0x1_0000_0000, 0x1_0000_0000);
            lemma_product_bound(dy as int, dy as int, 0x1_0000_0000, 0x1_0000_0000);
            lemma_product_bound(dz as int, dz as int, 0x1_0000_0000, 0x1_0000_0000);
            assert(dx * dx >= 0 && dy * dy >= 0 && dz * dz >= 0) by (nonlinear_arith);
        }
        let squared: i128 = dx * dx + dy * dy + dz * dz;
        let root = integer_sqrt(squared as u128);
        proof {
            assert(is_integer_sqrt(self.spec_distance_squared(other), root as int));
            lemma_root_is_unique(self.spec_distance_squared(other), root as int, self.spec_distance(other));
        }
        root
    }
}

/// The distance between two points is the integer square root of the sum
/// of the squares of the differences of their coordinates, the same in
/// both directions, and zero from a point to itself.
pub proof fn lemma_distance(a: Vec3, b: Vec3)
    ensures
        is_integer_sqrt(a.spec_distance_squared(b), a.spec_distance(b)),
        a.spec_distance(b) == b.spec_distance(a),
        a.spec_distance(a) == 0,
{
    let squared = a.spec_distance_squared(b);
    let d = a@.minus(b@);
    assert(squared >= 0) by (nonlinear_arith)
        requires
            squared == d.x * d.x + d.y * d.y + d.z * d.z,
    ;
    lemma_root_exists(squared);
    let e = b@.minus(a@);
    assert(b.spec_distance_squared(a) == squared) by (nonlinear_arith)
        requires
            squared == d.x * d.x + d.y * d.y + d.z * d.z,
            b.spec_distance_squared(a) == e.x * e.x + e.y * e.y + e.z * e.z,
            e.x == -d.x,
            e.y == -d.y,
            e.z == -d.z,
    ;
    assert(a.spec_distance_squared(a) == 0);
    assert(is_integer_sqrt(0, 0));
    lemma_root_is_unique(0, 0, a.spec_distance(a));
}

/// Every number that is not negative has an integer square root.
pub proof fn lemma_root_exists(value: int)
    requires
        0 <= value,
    ensures
        exists|root: int| is_integer_sqrt(value, root),
    decreases value,
{
    if value == 0 {
        assert(is_integer_sqrt(0, 0));
    } else {
        let previous = value - 1;
        lemma_root_exists(previous);
        let below = choose|root: int| is_integer_sqrt(previous, root);
        if (below + 1) * (below + 1) <= value {
            assert((below + 2) * (below + 2) > value) by (nonlinear_arith)
                requires
                    0 <= below,
                    value - 1 < (below + 1) * (below + 1),
            ;
            assert(is_integer_sqrt(value, below + 1));
        } else {
            assert(is_integer_sqrt(value, below));
        }
    }
}

} // verus!
