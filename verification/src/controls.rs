//! What the player asks for in one frame.

use vstd::prelude::*;
use crate::kind::PortalId;
use crate::math::{Vec2, UNIT};

verus! {

/// The length of each component of a diagonal direction of length
/// [`UNIT`]: `UNIT` divided by the square root of two, to the nearest step.
pub const DIAGONAL: i32 = 707_107;

/// The signals of one frame, each already reduced to yes or no.
#[derive(Clone, Copy, Debug, Default, PartialEq, Eq)]
pub struct Controls {
    pub up: bool,
    pub down: bool,
    pub left: bool,
    pub right: bool,
    pub run: bool,
    pub jump: bool,
    pub shoot1: bool,
    pub shoot2: bool,
    pub remove_portals: bool,
}

/// One if `positive` alone is held, minus one if `negative` alone is, zero
/// otherwise.
pub open spec fn axis(positive: bool, negative: bool) -> int {
    (if positive { 1int } else { 0int }) - (if negative { 1int } else { 0int })
}

impl Controls {
    /// The portal that is shot in this frame: the first if it is asked for,
    /// else the second if that is asked for, else none.
    pub open spec fn spec_shot(self) -> Option<PortalId> {
        if self.shoot1 {
            Some(PortalId::A)
        } else if self.shoot2 {
            Some(PortalId::B)
        } else {
            None
        }
    }

    /// The portal that is shot in this frame: the first if it is asked for,
    /// else the second if that is asked for, else none.
    #[verifier::when_used_as_spec(spec_shot)]
    pub fn shot(self) -> (portal: Option<PortalId>)
        ensures
            portal == self.spec_shot(),
    {
        if self.shoot1 {
            Some(PortalId::A)
        } else if self.shoot2 {
            Some(PortalId::B)
        } else {
            None
        }
    }

    /// The direction the movement keys ask for, in the ground plane: `x`
    /// to the right, `y` downward on the keyboard. It is zero, or has
    /// length [`UNIT`]: along one axis `UNIT` itself, along a diagonal
    /// [`DIAGONAL`] on both axes.
    pub open spec fn spec_to_direction(self) -> Vec2 {
        let x = axis(self.right, self.left);
        let y = axis(self.down, self.up);
        let length = if x != 0 && y != 0 { DIAGONAL } else { UNIT };
        Vec2 { x: (x * length) as i32, y: (y * length) as i32 }
    }

    /// The direction the movement keys ask for, in the ground plane: `x`
    /// to the right, `y` downward on the keyboard. It is zero, or has
    /// length [`UNIT`]: along one axis `UNIT` itself, along a diagonal
    /// [`DIAGONAL`] on both axes.
    #[verifier::when_used_as_spec(spec_to_direction)]
    pub fn to_direction(self) -> (direction: Vec2)
        ensures
            direction == self.spec_to_direction(),
    {
        let x: i32 = (if self.right { 1i32 } else { 0i32 }) - (if self.left { 1i32 } else { 0i32 });
        let y: i32 = (if self.down { 1i32 } else { 0i32 }) - (if self.up { 1i32 } else { 0i32 });
        let length: i32 = if x != 0 && y != 0 { DIAGONAL } else { UNIT };
        Vec2 { x: x * length, y: y * length }
    }
}

/// A direction from the movement keys is zero or as long as [`UNIT`], up to
/// the rounding of [`DIAGONAL`]: its squared length differs from `UNIT`
/// squared by less than `UNIT`.
pub proof fn lemma_direction_is_zero_or_unit(controls: Controls)
    ensures
        ({
            let d = controls.spec_to_direction();
            let squared = d.x * d.x + d.y * d.y;
            squared == 0 || -UNIT < squared - UNIT * UNIT < UNIT
        }),
        controls.spec_to_direction() == (Vec2 { x: 0, y: 0 }) <==> axis(controls.right, controls.left) == 0
            && axis(controls.down, controls.up) == 0,
{
    let x = axis(controls.right, controls.left);
    let y = axis(controls.down, controls.up);
    let length: int = if x != 0 && y != 0 { DIAGONAL as int } else { UNIT as int };
    assert(x * length == (if x == 0 { 0 } else if x == 1 { length } else { -length })) by (nonlinear_arith)
        requires
            -1 <= x <= 1,
    ;
    assert(y * length == (if y == 0 { 0 } else if y == 1 { length } else { -length })) by (nonlinear_arith)
        requires
            -1 <= y <= 1,
    ;
    let d = controls.spec_to_direction();
    assert(d.x * d.x == (if x == 0 { 0 } else { length * length })) by (nonlinear_arith)
        requires
            d.x == (if x == 0 { 0 } else if x == 1 { length } else { -length }),
    ;
    assert(d.y * d.y == (if y == 0 { 0 } else { length * length })) by (nonlinear_arith)
        requires
            d.y == (if y == 0 { 0 } else if y == 1 { length } else { -length }),
    ;
    assert(DIAGONAL * DIAGONAL == 500_000_309_449) by (nonlinear_arith);
    assert(UNIT * UNIT == 1_000_000_000_000) by (nonlinear_arith);
}

} // verus!
