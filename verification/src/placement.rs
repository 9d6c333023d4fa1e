//! Where a portal lands: the ray from the camera against the portal
//! surfaces of the scene.

use vstd::prelude::*;
use crate::controls::Controls;
use crate::math::{
    div_toward_zero, lemma_product_bound, toward_zero, Int3, Pose, Size2, Vec2, Vec3, UNIT,
};
use crate::registry::SpawnPortal;

verus! {

/// How far in front of its surface a portal is placed, so that the two do
/// not share a plane: 0.01 world units.
pub const PLACEMENT_BIAS: i32 = 10_000;

/// The width of the opening of a portal: one world unit.
pub const DEFAULT_PORTAL_WIDTH: u32 = 1_000_000;

/// The height of the opening of a portal: two world units.
pub const DEFAULT_PORTAL_HEIGHT: u32 = 2_000_000;

/// The size of the opening of a portal.
pub open spec fn spec_default_portal_size() -> Size2 {
    Size2 { width: DEFAULT_PORTAL_WIDTH, height: DEFAULT_PORTAL_HEIGHT }
}

/// The size of the opening of a portal.
#[verifier::when_used_as_spec(spec_default_portal_size)]
pub fn default_portal_size() -> (size: Size2)
    ensures
        size == spec_default_portal_size(),
{
    Size2 { width: DEFAULT_PORTAL_WIDTH, height: DEFAULT_PORTAL_HEIGHT }
}

/// A half-line: where it starts and the direction it runs in, of length
/// [`UNIT`].
#[derive(Clone, Copy, Debug, PartialEq, Eq, Structural)]
pub struct Ray {
    pub origin: Vec3,
    pub direction: Vec3,
}

/// A flat rectangle that can carry a portal. It is centred on the origin
/// of its frame and lies in the plane of the frame's `right` and `up`
/// axes.
#[derive(Clone, Copy, Debug, PartialEq, Eq, Structural)]
pub struct PortalSurface {
    pub transform: Pose,
    pub size: Size2,
}

/// A portal's place on a surface.
#[derive(Clone, Copy, Debug, PartialEq, Eq, Structural)]
pub struct Placement {
    /// The position of the surface among those that were offered.
    pub surface: usize,
    /// How far along the ray the surface was hit.
    pub distance: u32,
    /// The centre of the portal in the plane of the surface.
    pub center: Vec2,
    /// The pose of the portal: the axes of the surface, at the centre,
    /// moved off the surface by [`PLACEMENT_BIAS`].
    pub transform: Pose,
}

/// The point at `center` in the plane of a surface, moved off the surface
/// by [`PLACEMENT_BIAS`], as the frame of the surface has it.
pub open spec fn biased(center: Vec2) -> Vec3 {
    Vec3 { x: center.x, y: center.y, z: PLACEMENT_BIAS }
}

/// `value` raised to `footprint_half - half` and then lowered to
/// `half - footprint_half`: the nearest centre at which an interval of
/// half-length `footprint_half` lies within `[-half, half]`, where it fits.
pub open spec fn clamp_center(value: int, half: int, footprint_half: int) -> int {
    let low = footprint_half - half;
    let high = half - footprint_half;
    let raised = if value < low { low } else { value };
    if raised > high { high } else { raised }
}

/// `base + numerator / UNIT`, the quotient rounded toward zero, where that
/// is a coordinate.
fn offset_coordinate(base: i32, numerator: i128) -> (coordinate: Option<i32>)
    requires
        -0x1_0000_0000_0000_0000_0000 <= numerator <= 0x1_0000_0000_0000_0000_0000,
    ensures
        coordinate is Some <==> i32::MIN <= base + toward_zero(numerator as int, UNIT as int) <= i32::MAX,
        coordinate matches Some(c) ==> c == base + toward_zero(numerator as int, UNIT as int),
{
    let moved: i128 = base as i128 + div_toward_zero(numerator, UNIT as i128);
    if -0x8000_0000 <= moved && moved <= 0x7fff_ffff {
        Some(moved as i32)
    } else {
        None
    }
}

impl Ray {
    /// How far along the ray it meets the plane through `point` with normal
    /// `normal`, rounded toward zero: negative where the plane lies behind
    /// the origin, `None` where the ray runs parallel to the plane.
    pub open spec fn spec_intersect_plane(self, point: Vec3, normal: Vec3) -> Option<int> {
        let slope = self.direction@.dot(normal@);
        let height = point@.minus(self.origin@).dot(normal@);
        if slope == 0 {
            None
        } else if slope > 0 {
            Some(toward_zero(UNIT * height, slope))
        } else {
            Some(toward_zero(UNIT * (-height), -slope))
        }
    }

    /// The point of the ray at `distance` from its origin, each coordinate
    /// of the way there rounded toward zero.
    pub open spec fn spec_point_at(self, distance: int) -> Int3 {
        self.origin@.plus(self.direction@.times(distance).over(UNIT as int))
    }

    /// How far along the ray it meets the plane through `point` with normal
    /// `normal`, rounded toward zero: negative where the plane lies behind
    /// the origin, `None` where the ray runs parallel to the plane.
    pub fn intersect_plane(&self, point: Vec3, normal: Vec3) -> (distance: Option<i128>)
        ensures
            distance is None <==> self.spec_intersect_plane(point, normal) is None,
            distance matches Some(d) ==> self.spec_intersect_plane(point, normal) == Some(d as int),
    {
        let slope: i128 = self.direction.dot(normal);
        let height: i128 = point.dot_offset(self.origin, normal);
        proof {
            lemma_product_bound(UNIT as int, height as int, 1_000_000, 0x1_8000_0000_0000_0000);
            lemma_product_bound(UNIT as int, -(height as int), 1_000_000, 0x1_8000_0000_0000_0000);
        }
        if slope == 0 {
            None
        } else if slope > 0 {
            Some(div_toward_zero((UNIT as i128) * height, slope))
        } else {
            Some(div_toward_zero((UNIT as i128) * (-height), -slope))
        }
    }

    /// The point of the ray at `distance` from its origin, each coordinate
    /// of the way there rounded toward zero; `None` where a coordinate is
    /// out of range.
    pub fn point_at(&self, distance: u32) -> (point: Option<Vec3>)
        ensures
            point is Some <==> self.spec_point_at(distance as int).in_world(),
            point matches Some(p) ==> p@ == self.spec_point_at(distance as int),
    {
        proof {
            lemma_product_bound(self.direction.x as int, distance as int, 0x8000_0000, 0x1_0000_0000);
            lemma_product_bound(self.direction.y as int, distance as int, 0x8000_0000, 0x1_0000_0000);
            lemma_product_bound(self.direction.z as int, distance as int, 0x8000_0000, 0x1_0000_0000);
        }
        let x = offset_coordinate(self.origin.x, (self.direction.x as i128) * (distance as i128));
        let y = offset_coordinate(self.origin.y, (self.direction.y as i128) * (distance as i128));
        let z = offset_coordinate(self.origin.z, (self.direction.z as i128) * (distance as i128));
        match (x, y, z) {
            (Some(x), Some(y), Some(z)) => Some(Vec3 { x, y, z }),
            _ => None,
        }
    }
}

impl Pose {
    /// The coordinates of `point` along the `right` and `up` axes of this
    /// pose, measured from its position, each rounded toward zero.
    pub open spec fn spec_local_point(self, point: Vec3) -> (int, int) {
        (self.spec_point_to_local(point).x, self.spec_point_to_local(point).y)
    }

    /// The coordinates of `point` along the `right` and `up` axes of this
    /// pose, measured from its position, each rounded toward zero; `None`
    /// where the axes have no length or a coordinate is out of range.
    pub fn local_point(&self, point: Vec3) -> (local: Option<(i64, i64)>)
        ensures
            local is Some <==> self.spec_unit() > 0 && i64::MIN <= self.spec_local_point(point).0 <= i64::MAX
                && i64::MIN <= self.spec_local_point(point).1 <= i64::MAX,
            local matches Some(l) ==> l.0 == self.spec_local_point(point).0 && l.1 == self.spec_local_point(
                point,
            ).1,
    {
        let unit = self.unit() as i128;
        if unit == 0 {
            return None;
        }
        let x: i128 = div_toward_zero(point.dot_offset(self.translation, self.right), unit);
        let y: i128 = div_toward_zero(point.dot_offset(self.translation, self.up), unit);
        if -0x8000_0000_0000_0000 <= x && x <= 0x7fff_ffff_ffff_ffff && -0x8000_0000_0000_0000 <= y && y
            <= 0x7fff_ffff_ffff_ffff {
            Some((x as i64, y as i64))
        } else {
            None
        }
    }

    /// The pose with the same axes whose position is the point at `center`
    /// in the plane of this pose, moved by [`PLACEMENT_BIAS`] along
    /// `back`; `None` where a coordinate of that position is out of range.
    pub fn placed_at(&self, center: Vec2) -> (placed: Option<Pose>)
        ensures
            placed is Some <==> self.spec_unit() > 0 && self.spec_point_to_world(biased(center)).in_world(),
            placed matches Some(p) ==> p == (Pose {
                translation: self.spec_point_to_world(biased(center)).to_vec3(),
                ..*self
            }),
    {
        match self.point_to_world(Vec3 { x: center.x, y: center.y, z: PLACEMENT_BIAS }) {
            Some(translation) => Some(Pose { translation, right: self.right, up: self.up, back: self.back }),
            None => None,
        }
    }
}

impl PortalSurface {
    /// Whether the point at `(x, y)` in the plane of the surface lies on
    /// the surface, the border included.
    pub open spec fn spec_contains(self, x: int, y: int) -> bool {
        &&& -self.size.spec_half_width() <= x <= self.size.spec_half_width()
        &&& -self.size.spec_half_height() <= y <= self.size.spec_half_height()
    }

    /// The centre nearest to `point` at which a portal of size `footprint`
    /// lies on the surface. Where the portal is larger than the surface
    /// along an axis, the centre on that axis is half the surface less
    /// half the portal.
    pub open spec fn spec_clamp_footprint(self, point: Vec2, footprint: Size2) -> Vec2 {
        Vec2 {
            x: clamp_center(point.x as int, self.size.spec_half_width(), footprint.spec_half_width()) as i32,
            y: clamp_center(point.y as int, self.size.spec_half_height(), footprint.spec_half_height()) as i32,
        }
    }

    /// Where a portal of size `footprint` lands on this surface, the
    /// surface at position `index`, for the given ray: the surface must be
    /// rigid, the ray must meet its plane at a distance from zero to
    /// `max_distance`, at a point that lies on the surface, and the hit
    /// point and the portal's position must be in range. The portal is
    /// centred on the hit point, moved inward where it would reach over
    /// the border.
    pub open spec fn spec_place(self, index: usize, ray: Ray, max_distance: u32, footprint: Size2) -> Option<
        Placement,
    > {
        match ray.spec_intersect_plane(self.transform.translation, self.transform.back) {
            None => None,
            Some(distance) => {
                let hit = ray.spec_point_at(distance);
                let local = self.transform.spec_local_point(hit.to_vec3());
                let center = self.spec_clamp_footprint(Vec2 { x: local.0 as i32, y: local.1 as i32 }, footprint);
                let translation = self.transform.spec_point_to_world(biased(center));
                if self.transform.spec_is_rigid() && 0 <= distance <= max_distance && hit.in_world()
                    && self.spec_contains(local.0, local.1) && translation.in_world() {
                    Some(
                        Placement {
                            surface: index,
                            distance: distance as u32,
                            center,
                            transform: Pose { translation: translation.to_vec3(), ..self.transform },
                        },
                    )
                } else {
                    None
                }
            },
        }
    }

    /// Whether the point at `(x, y)` in the plane of the surface lies on
    /// the surface, the border included.
    pub fn contains(&self, x: i64, y: i64) -> (inside: bool)
        ensures
            inside == self.spec_contains(x as int, y as int),
    {
        let half_width: i64 = self.size.half_width() as i64;
        let half_height: i64 = self.size.half_height() as i64;
        -half_width <= x && x <= half_width && -half_height <= y && y <= half_height
    }

    /// The centre nearest to `point` at which a portal of size `footprint`
    /// lies on the surface. Where the portal is larger than the surface
    /// along an axis, the centre on that axis is half the surface less
    /// half the portal.
    pub fn clamp_footprint(&self, point: Vec2, footprint: Size2) -> (center: Vec2)
        ensures
            center == self.spec_clamp_footprint(point, footprint),
            center.x == clamp_center(point.x as int, self.size.spec_half_width(), footprint.spec_half_width()),
            center.y == clamp_center(point.y as int, self.size.spec_half_height(), footprint.spec_half_height()),
            footprint.spec_half_width() <= self.size.spec_half_width() ==> {
                &&& -self.size.spec_half_width() <= center.x - footprint.spec_half_width()
                &&& center.x + footprint.spec_half_width() <= self.size.spec_half_width()
            },
            footprint.spec_half_height() <= self.size.spec_half_height() ==> {
                &&& -self.size.spec_half_height() <= center.y - footprint.spec_half_height()
                &&& center.y + footprint.spec_half_height() <= self.size.spec_half_height()
            },
    {
        Vec2 {
            x: clamp_axis(point.x, self.size.half_width(), footprint.half_width()),
            y: clamp_axis(point.y, self.size.half_height(), footprint.half_height()),
        }
    }

    /// Where a portal of size `footprint` lands on this surface for the
    /// given ray, if it lands on it: see [`PortalSurface::spec_place`].
    pub fn place(&self, index: usize, ray: &Ray, max_distance: u32, footprint: Size2) -> (placement: Option<
        Placement,
    >)
        ensures
            placement == self.spec_place(index, *ray, max_distance, footprint),
    {
        let distance: i128 = match ray.intersect_plane(self.transform.translation, self.transform.back) {
            Some(distance) => distance,
            None => {
                return None;
            },
        };
        if distance < 0 || distance > max_distance as i128 {
            return None;
        }
        let hit = match ray.point_at(distance as u32) {
            Some(hit) => hit,
            None => {
                return None;
            },
        };
        if !self.transform.is_rigid() {
            return None;
        }
        let (x, y) = match self.transform.local_point(hit) {
            Some(local) => local,
            None => {
                return None;
            },
        };
        if !self.contains(x, y) {
            return None;
        }
        let center = self.clamp_footprint(Vec2 { x: x as i32, y: y as i32 }, footprint);
        match self.transform.placed_at(center) {
            Some(transform) => Some(Placement { surface: index, distance: distance as u32, center, transform }),
            None => None,
        }
    }
}

/// For each surface, in the order given, where a portal would land on it.
pub open spec fn candidates(ray: Ray, max_distance: u32, surfaces: Seq<PortalSurface>, footprint: Size2) -> Seq<
    Option<Placement>,
> {
    Seq::new(surfaces.len(), |i: int| surfaces[i].spec_place(i as usize, ray, max_distance, footprint))
}

/// Whether `placement` is the one among `candidates` that wins: none is
/// hit nearer along the ray, and of those hit at the same distance it is
/// the first.
pub open spec fn is_nearest(candidates: Seq<Option<Placement>>, placement: Placement) -> bool {
    &&& placement.surface < candidates.len()
    &&& candidates[placement.surface as int] == Some(placement)
    &&& forall|j: int|
        0 <= j < candidates.len() ==> (#[trigger] candidates[j] matches Some(other) ==> placement.distance
            < other.distance || (placement.distance == other.distance && placement.surface <= j))
}

/// Where a portal of size `footprint` lands for the given ray: on the
/// surface that the ray hits first, of those on which it can land at all;
/// of two surfaces hit at the same distance, on the one given first.
pub open spec fn spec_resolve_placement(
    ray: Ray,
    max_distance: u32,
    surfaces: Seq<PortalSurface>,
    footprint: Size2,
) -> Option<Placement> {
    let candidates = candidates(ray, max_distance, surfaces, footprint);
    if exists|p: Placement| is_nearest(candidates, p) {
        Some(choose|p: Placement| is_nearest(candidates, p))
    } else {
        None
    }
}

/// The request that a shot makes: none unless a portal is shot and lands
/// somewhere; the first portal if it is shot, else the second.
pub open spec fn spec_shoot_portal(controls: Controls, ray: Ray, max_distance: u32, surfaces: Seq<PortalSurface>)
    -> Option<SpawnPortal> {
    match (controls.spec_shot(), spec_resolve_placement(ray, max_distance, surfaces, spec_default_portal_size())) {
        (Some(portal_kind), Some(placement)) => Some(SpawnPortal { portal_kind, transform: placement.transform }),
        _ => None,
    }
}

/// At most one placement wins among given candidates.
pub proof fn lemma_nearest_is_unique(candidates: Seq<Option<Placement>>, p: Placement, q: Placement)
    requires
        is_nearest(candidates, p),
        is_nearest(candidates, q),
    ensures
        p == q,
{
    assert(candidates[p.surface as int] == Some(p));
    assert(candidates[q.surface as int] == Some(q));
}

/// A portal that is no larger than its surface lies on the surface once
/// its centre is clamped, wherever the centre was before: the four corners
/// of the portal are within the half-extents of the surface.
pub proof fn lemma_clamped_footprint_is_contained(surface: PortalSurface, point: Vec2, footprint: Size2)
    requires
        footprint.spec_half_width() <= surface.size.spec_half_width(),
        footprint.spec_half_height() <= surface.size.spec_half_height(),
    ensures
        ({
            let center = surface.spec_clamp_footprint(point, footprint);
            &&& surface.spec_contains(center.x - footprint.spec_half_width(), center.y - footprint.spec_half_height())
            &&& surface.spec_contains(center.x - footprint.spec_half_width(), center.y + footprint.spec_half_height())
            &&& surface.spec_contains(center.x + footprint.spec_half_width(), center.y - footprint.spec_half_height())
            &&& surface.spec_contains(center.x + footprint.spec_half_width(), center.y + footprint.spec_half_height())
        }),
{
}

/// Where a portal lands on a surface, it lands within reach of the ray,
/// with the axes of the surface, rigid as the surface is, and, if it is no
/// larger than the surface,
/// wholly on it: its four corners are within the half-extents of the
/// surface.
pub proof fn lemma_placed_portal_is_on_surface(
    surface: PortalSurface,
    index: usize,
    ray: Ray,
    max_distance: u32,
    footprint: Size2,
)
    requires
        surface.spec_place(index, ray, max_distance, footprint) is Some,
    ensures
        ({
            let placement = surface.spec_place(index, ray, max_distance, footprint).unwrap();
            let half_width = footprint.spec_half_width();
            let half_height = footprint.spec_half_height();
            &&& surface.transform.spec_is_rigid()
            &&& placement.transform.spec_is_rigid()
            &&& placement.transform.spec_unit() == surface.transform.spec_unit()
            &&& placement.surface == index
            &&& placement.distance <= max_distance
            &&& ray.spec_intersect_plane(surface.transform.translation, surface.transform.back) == Some(
                placement.distance as int,
            )
            &&& placement.center == surface.spec_clamp_footprint(placement.center, footprint)
            &&& placement.transform.right == surface.transform.right
            &&& placement.transform.up == surface.transform.up
            &&& placement.transform.back == surface.transform.back
            &&& half_width <= surface.size.spec_half_width() && half_height <= surface.size.spec_half_height() ==> {
                &&& surface.spec_contains(placement.center.x - half_width, placement.center.y - half_height)
                &&& surface.spec_contains(placement.center.x - half_width, placement.center.y + half_height)
                &&& surface.spec_contains(placement.center.x + half_width, placement.center.y - half_height)
                &&& surface.spec_contains(placement.center.x + half_width, placement.center.y + half_height)
            }
        }),
{
}

/// A centre that already leaves the portal on the surface is not moved by
/// clamping.
pub proof fn lemma_clamp_keeps_contained_center(surface: PortalSurface, point: Vec2, footprint: Size2)
    requires
        surface.spec_contains(point.x - footprint.spec_half_width(), point.y - footprint.spec_half_height()),
        surface.spec_contains(point.x + footprint.spec_half_width(), point.y + footprint.spec_half_height()),
    ensures
        surface.spec_clamp_footprint(point, footprint) == point,
{
}

/// Where a portal of size `footprint` lands for the given ray: on the
/// surface that the ray hits first, of those on which it can land at all;
/// of two surfaces hit at the same distance, on the one given first.
/// `None` when it can land on none.
pub fn resolve_placement(ray: &Ray, max_distance: u32, surfaces: &Vec<PortalSurface>, footprint: Size2) -> (placement:
    Option<Placement>)
    ensures
        placement == spec_resolve_placement(*ray, max_distance, surfaces@, footprint),
        placement is None <==> forall|j: int|
            0 <= j < surfaces.len() ==> #[trigger] candidates(*ray, max_distance, surfaces@, footprint)[j] is None,
        placement matches Some(p) ==> is_nearest(candidates(*ray, max_distance, surfaces@, footprint), p),
{
    let ghost all = candidates(*ray, max_distance, surfaces@, footprint);
    let mut best: Option<Placement> = None;
    let mut i: usize = 0;
    while i < surfaces.len()
        invariant
            i <= surfaces.len(),
            all == candidates(*ray, max_distance, surfaces@, footprint),
            best is None <==> forall|j: int| 0 <= j < i ==> #[trigger] all[j] is None,
            best matches Some(p) ==> {
                &&& p.surface < i
                &&& all[p.surface as int] == Some(p)
                &&& forall|j: int|
                    0 <= j < i ==> (#[trigger] all[j] matches Some(other) ==> p.distance < other.distance || (
                    p.distance == other.distance && p.surface <= j))
            },
        decreases surfaces.len() - i,
    {
        let candidate = surfaces[i].place(i, ray, max_distance, footprint);
        assert(candidate == all[i as int]);
        if let Some(found) = candidate {
            let nearer = match best {
                Some(held) => found.distance < held.distance,
                None => true,
            };
            if nearer {
                best = Some(found);
            }
        }
        i = i + 1;
    }
    proof {
        match best {
            Some(p) => {
                assert(is_nearest(all, p));
                let chosen = choose|q: Placement| is_nearest(all, q);
                lemma_nearest_is_unique(all, p, chosen);
            },
            None => {
                assert forall|q: Placement| !is_nearest(all, q) by {
                    if is_nearest(all, q) {
                        assert(all[q.surface as int] is None);
                    }
                }
            },
        }
    }
    best
}

/// The request that a shot makes. Without a shot there is none. With one,
/// the portal lands as [`resolve_placement`] says, with the size
/// [`default_portal_size`], and the request is for the first portal if the
/// first is shot, else for the second. A shot that lands nowhere makes no
/// request.
pub fn shoot_portal(controls: &Controls, ray: &Ray, max_distance: u32, surfaces: &Vec<PortalSurface>) -> (event:
    Option<SpawnPortal>)
    ensures
        event == spec_shoot_portal(*controls, *ray, max_distance, surfaces@),
{
    let portal_kind = match controls.shot() {
        Some(portal_kind) => portal_kind,
        None => {
            return None;
        },
    };
    match resolve_placement(ray, max_distance, surfaces, default_portal_size()) {
        Some(placement) => Some(SpawnPortal { portal_kind, transform: placement.transform }),
        None => None,
    }
}

fn clamp_axis(value: i32, half: i32, footprint_half: i32) -> (center: i32)
    requires
        0 <= half,
        0 <= footprint_half,
    ensures
        center == clamp_center(value as int, half as int, footprint_half as int),
{
    let low: i32 = footprint_half - half;
    let high: i32 = half - footprint_half;
    let raised: i32 = if value < low { low } else { value };
    if raised > high { high } else { raised }
}

} // verus!
