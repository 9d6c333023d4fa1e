//! The camera that renders the view through a portal: its clip distances,
//! its off-screen target and whether it renders at all.

use vstd::prelude::*;
use crate::math::Pose;

verus! {

/// The nearest a portal camera's near plane may come to the camera: 0.05
/// world units.
pub const NEAR_CLIP_MIN: u32 = 50_000;

/// The near distance of a portal camera that has not been moved yet: 0.1
/// world units.
pub const DEFAULT_NEAR: u32 = 100_000;

/// The far distance of a portal camera: 1000 world units.
pub const DEFAULT_FAR: u32 = 1_000_000_000;

/// A size in physical pixels.
#[derive(Clone, Copy, Debug, PartialEq, Eq, Structural)]
pub struct Extent2d {
    pub width: u32,
    pub height: u32,
}

/// The clip distances of a portal camera's perspective projection. The far
/// distance is fixed when the projection is made; the near distance follows
/// the exit portal and always lies between [`NEAR_CLIP_MIN`] and the far
/// distance.
#[derive(Clone, Copy, Debug, PartialEq, Eq)]
pub struct PortalPerspectiveProjection {
    near: u32,
    far: u32,
}

/// `distance` held to `[NEAR_CLIP_MIN, far]`.
pub open spec fn clamp_near(distance: int, far: int) -> int {
    if distance < NEAR_CLIP_MIN {
        NEAR_CLIP_MIN as int
    } else if distance > far {
        far
    } else {
        distance
    }
}

impl PortalPerspectiveProjection {
    /// What holds of every projection: the near plane is no nearer than
    /// [`NEAR_CLIP_MIN`] and no farther than the far plane.
    #[verifier::type_invariant]
    pub closed spec fn wf(&self) -> bool {
        NEAR_CLIP_MIN <= self.near <= self.far
    }

    pub closed spec fn spec_near(&self) -> u32 {
        self.near
    }

    pub closed spec fn spec_far(&self) -> u32 {
        self.far
    }

    /// This projection with its near plane moved to `distance`, as far as
    /// the clip range allows.
    pub closed spec fn with_near(&self, distance: int) -> PortalPerspectiveProjection {
        PortalPerspectiveProjection {
            near: clamp_near(distance, self.far as int) as u32,
            far: self.far,
        }
    }

    /// The projection a new portal camera starts with.
    pub closed spec fn spec_default() -> PortalPerspectiveProjection {
        PortalPerspectiveProjection { near: DEFAULT_NEAR, far: DEFAULT_FAR }
    }

    /// A projection with the given clip distances, if they are in order:
    /// `NEAR_CLIP_MIN <= near <= far`.
    pub fn new(near: u32, far: u32) -> (projection: Option<PortalPerspectiveProjection>)
        ensures
            projection is Some <==> NEAR_CLIP_MIN <= near <= far,
            projection matches Some(p) ==> p.wf() && p.spec_near() == near && p.spec_far() == far,
    {
        if NEAR_CLIP_MIN <= near && near <= far {
            Some(PortalPerspectiveProjection { near, far })
        } else {
            None
        }
    }

    /// The distance of the near plane.
    #[verifier::when_used_as_spec(spec_near)]
    pub fn near(&self) -> (near: u32)
        ensures
            near == self.spec_near(),
            NEAR_CLIP_MIN <= near <= self.spec_far(),
    {
        proof {
            use_type_invariant(self);
        }
        self.near
    }

    /// The distance of the far plane.
    #[verifier::when_used_as_spec(spec_far)]
    pub fn far(&self) -> (far: u32)
        ensures
            far == self.spec_far(),
    {
        self.far
    }

    /// Moves the near plane to `distance`, held to the clip range: a
    /// distance under [`NEAR_CLIP_MIN`] gives `NEAR_CLIP_MIN`, one beyond
    /// the far plane gives the far distance. The far plane stays.
    pub fn set_near(&mut self, distance: u64)
        ensures
            *final(self) == old(self).with_near(distance as int),
            final(self).wf(),
            final(self).spec_far() == old(self).spec_far(),
            final(self).spec_near() == clamp_near(distance as int, old(self).spec_far() as int),
            NEAR_CLIP_MIN <= final(self).spec_near() <= final(self).spec_far(),
    {
        proof {
            use_type_invariant(&*self);
        }
        let far = self.far;
        let near: u32 = if distance < NEAR_CLIP_MIN as u64 {
            NEAR_CLIP_MIN
        } else if distance > far as u64 {
            far
        } else {
            distance as u32
        };
        *self = PortalPerspectiveProjection { near, far };
    }
}

impl Default for PortalPerspectiveProjection {
    /// Near plane at [`DEFAULT_NEAR`], far plane at [`DEFAULT_FAR`].
    fn default() -> (projection: PortalPerspectiveProjection)
        ensures
            projection == PortalPerspectiveProjection::spec_default(),
            projection.wf(),
            projection.spec_near() == DEFAULT_NEAR,
            projection.spec_far() == DEFAULT_FAR,
    {
        PortalPerspectiveProjection { near: DEFAULT_NEAR, far: DEFAULT_FAR }
    }
}

/// The secondary camera of a portal.
#[derive(Clone, Copy, Debug, PartialEq, Eq)]
pub struct PortalCamera {
    /// Whether the camera renders. True exactly while its portal is linked.
    pub is_active: bool,
    /// The pixel size of the off-screen colour target the camera renders
    /// into.
    pub target: Extent2d,
    /// Where the camera stands, in the frame of its portal.
    pub transform: Pose,
    /// The clip distances.
    pub projection: PortalPerspectiveProjection,
}

/// A projection is its two clip distances: projections with the same near
/// and far distance are the same projection. So moving the near plane to
/// a distance it is already held to changes nothing, and of two moves in a
/// row only the second counts.
pub proof fn lemma_projection_is_its_clip_distances(
    a: PortalPerspectiveProjection,
    b: PortalPerspectiveProjection,
    distance: int,
    other: int,
)
    ensures
        a.spec_near() == b.spec_near() && a.spec_far() == b.spec_far() ==> a == b,
        a.with_near(other).with_near(distance) == a.with_near(distance),
        a.wf() && clamp_near(distance, a.spec_far() as int) == a.spec_near() ==> a.with_near(distance) == a,
{
}

/// In every projection the near plane is no nearer than [`NEAR_CLIP_MIN`]
/// and no farther than the far plane.
pub proof fn lemma_clip_range(projection: PortalPerspectiveProjection)
    requires
        projection.wf(),
    ensures
        NEAR_CLIP_MIN <= projection.spec_near() <= projection.spec_far(),
{
}

/// The projection a new portal camera starts with has its near plane at
/// [`DEFAULT_NEAR`] and its far plane at [`DEFAULT_FAR`].
pub proof fn lemma_default_projection()
    ensures
        PortalPerspectiveProjection::spec_default().wf(),
        PortalPerspectiveProjection::spec_default().spec_near() == DEFAULT_NEAR,
        PortalPerspectiveProjection::spec_default().spec_far() == DEFAULT_FAR,
{
}

/// In a projection the near plane is never closer than [`NEAR_CLIP_MIN`] nor
/// beyond the far plane, whatever distance it was last moved to.
pub proof fn lemma_near_plane_in_range(projection: PortalPerspectiveProjection, distance: int)
    requires
        projection.wf(),
    ensures
        projection.with_near(distance).wf(),
        NEAR_CLIP_MIN <= projection.with_near(distance).spec_near() <= projection.spec_far(),
        projection.with_near(distance).spec_far() == projection.spec_far(),
        projection.with_near(distance).spec_near() == clamp_near(distance, projection.spec_far() as int),
{
}

} // verus!
