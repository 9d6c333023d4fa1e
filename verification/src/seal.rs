//! The token that keeps [`crate::kind::PortalKind`] closed.

use vstd::prelude::*;

verus! {

/// A value only this crate can name, taken by
/// [`crate::kind::PortalKind::_seal`] so that no other crate can implement
/// the trait.
pub struct Seal;

} // verus!
