//! Events a front end exchanges with the core, carrying plain values.

use vstd::prelude::*;
use crate::value::Value;

verus! {

/// A request to highlight every cell holding the given value.
pub struct FocusModeEvent(pub Value);

/// A request to toggle a corner mark — a value at a 1-indexed linear
/// position.
pub struct CornerMarkEvent(pub u8, pub Value);

} // verus!
