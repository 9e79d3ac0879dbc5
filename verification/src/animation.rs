use vstd::prelude::*;

verus! {

/// Easing functions for animation interpolation.
#[derive(Debug, Clone, Copy, PartialEq, Eq, Structural)]
pub enum Easing {
    Linear,
    EaseIn,
    EaseOut,
    EaseInOut,
}

} // verus!
