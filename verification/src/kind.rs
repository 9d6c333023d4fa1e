//! The two portal identities and their per-identity constants.

use vstd::prelude::*;
use crate::seal::Seal;

verus! {

/// An sRGB colour, each channel in thousandths of full intensity.
#[derive(Clone, Copy, Debug, PartialEq, Eq, Structural)]
pub struct Color {
    pub red: u16,
    pub green: u16,
    pub blue: u16,
}

/// One of the two identities a portal can have.
#[derive(Clone, Copy, Debug, PartialEq, Eq, Hash, Structural)]
pub enum PortalId {
    /// The first portal of the pair.
    A,
    /// The second portal of the pair.
    B,
}

impl PortalId {
    /// The identity that a portal of this identity links with.
    pub open spec fn spec_pair(self) -> PortalId {
        match self {
            PortalId::A => PortalId::B,
            PortalId::B => PortalId::A,
        }
    }

    /// The colour an unlinked portal of this identity is drawn with.
    pub open spec fn spec_color(self) -> Color {
        match self {
            PortalId::A => Color { red: 600, green: 700, blue: 800 },
            PortalId::B => Color { red: 800, green: 700, blue: 600 },
        }
    }

    /// The identity that a portal of this identity links with: always the
    /// other one, and the other one's pair is this one again.
    #[verifier::when_used_as_spec(spec_pair)]
    pub fn pair(self) -> (other: PortalId)
        ensures
            other == self.spec_pair(),
            other != self,
            other.spec_pair() == self,
    {
        match self {
            PortalId::A => PortalId::B,
            PortalId::B => PortalId::A,
        }
    }

    /// The colour an unlinked portal of this identity is drawn with.
    #[verifier::when_used_as_spec(spec_color)]
    pub fn color(self) -> (color: Color)
        ensures
            color == self.spec_color(),
    {
        match self {
            PortalId::A => Color { red: 600, green: 700, blue: 800 },
            PortalId::B => Color { red: 800, green: 700, blue: 600 },
        }
    }
}

/// A portal identity known at compile time. Implemented by [`Portal1`] and
/// [`Portal2`] and by nothing else.
pub trait PortalKind: Copy {
    /// The identity this type stands for.
    spec fn spec_id() -> PortalId;

    fn new() -> Self;

    /// The identity this type stands for.
    fn id() -> (id: PortalId)
        ensures
            id == Self::spec_id(),
    ;

    /// The colour an unlinked portal of this identity is drawn with.
    fn color() -> (color: Color)
        ensures
            color == Self::spec_id().spec_color(),
    ;

    /// Closes the trait: only this crate can name the argument's type.
    fn _seal(seal: Seal);
}

/// The first portal identity, as a type.
#[derive(Clone, Copy, Debug, Default)]
pub struct Portal1;

/// The second portal identity, as a type.
#[derive(Clone, Copy, Debug, Default)]
pub struct Portal2;

impl PortalKind for Portal1 {
    open spec fn spec_id() -> PortalId {
        PortalId::A
    }

    fn new() -> Self {
        Portal1
    }

    fn id() -> (id: PortalId) {
        PortalId::A
    }

    fn color() -> (color: Color) {
        PortalId::A.color()
    }

    fn _seal(_seal: Seal) {
    }
}

impl PortalKind for Portal2 {
    open spec fn spec_id() -> PortalId {
        PortalId::B
    }

    fn new() -> Self {
        Portal2
    }

    fn id() -> (id: PortalId) {
        PortalId::B
    }

    fn color() -> (color: Color) {
        PortalId::B.color()
    }

    fn _seal(_seal: Seal) {
    }
}

} // verus!
