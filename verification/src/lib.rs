//! A pair of linked portals: where a portal lands on a surface, which
//! portals exist and how they are linked, and where the camera stands that
//! renders the view through each of them.
//!
//! Everything is decided over whole numbers. A length is a whole number of
//! steps, a million to the world unit (see [`math::UNIT`]). A pose is a
//! position and three axes; a portal or a surface must be rigid, its axes
//! of one whole length and at right angles exactly, and
//! [`math::Pose::from_quaternion`] makes such a pose for every turn. Then
//! the pose turns and moves what it maps without changing a length, and
//! the only error is the rounding of a step. Whatever is divided is
//! rounded toward zero, so that results are the same on every machine and
//! a result and its mirror image round alike. Turning the decisions into
//! pixels is left to the embedding program.
//!
//! - [`math`]: vectors, poses and the integer arithmetic under them.
//! - [`transform`]: poses as maps between frames.
//! - [`placement`]: the ray of a shot against the portal surfaces.
//! - [`registry`]: the portals that exist, and what a shot, a resize and
//!   a frame do to them.
//! - [`solver`]: the pose of a portal's camera.
//! - [`camera`]: the clip distances, target and state of such a camera.
//! - [`kind`], [`controls`]: the two identities, and what the player asks
//!   for.

pub mod camera;
pub mod controls;
pub mod kind;
pub mod math;
pub mod placement;
pub mod registry;
mod seal;
pub mod solver;
pub mod transform;
