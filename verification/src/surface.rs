use vstd::prelude::*;

verus! {

/// Controls how a surface is rendered: wireframe edges only, solid shaded faces,
/// or shaded faces with a wireframe overlay. The default is `Shaded`.
#[derive(Debug, Clone, Copy, PartialEq, Eq, Structural)]
pub enum RenderMode {
    /// Flat-shaded faces colored by z-height using the viridis colormap.
    Shaded,
    /// Wireframe edges only; charcoal colored, front-facing edges only.
    Wireframe,
    /// Shaded faces with thin wireframe overlay on top.
    ShadedWireframe,
}

impl Default for RenderMode {
    fn default() -> (m: Self)
        ensures
            m == RenderMode::Shaded,
    {
        RenderMode::Shaded
    }
}

/// An azimuth in whole degrees brought into `0..360`.
pub open spec fn azimuth_in_turn(azimuth_deg: int) -> int {
    azimuth_deg % 360
}

/// The floor corner (x, y signs in world space, floor at z = -1) of the bounding box
/// farthest from a camera at the given azimuth: one corner per quarter turn.
pub open spec fn far_corner_of(azimuth_deg: int) -> (i8, i8) {
    let az = azimuth_in_turn(azimuth_deg);
    if az < 90 {
        (-1i8, -1i8)
    } else if az < 180 {
        (1i8, -1i8)
    } else if az < 270 {
        (1i8, 1i8)
    } else {
        (-1i8, 1i8)
    }
}

/// Select the bounding-box floor corner farthest from the camera from the azimuth
/// quadrant, for an azimuth given in whole degrees (0 = camera on +Y, increasing
/// clockwise). The corner is returned as the signs of its x and y coordinates.
pub fn far_floor_corner(azimuth_deg: i64) -> (corner: (i8, i8))
    ensures
        corner == far_corner_of(azimuth_deg as int),
{
    let az: i64 = if azimuth_deg >= 0 {
        azimuth_deg % 360
    } else {
        let m: i64 = (-(azimuth_deg + 1)) % 360;
        359 - m
    };
    assert(az == azimuth_in_turn(azimuth_deg as int));
    if az < 90 {
        (-1, -1)
    } else if az < 180 {
        (1, -1)
    } else if az < 270 {
        (1, 1)
    } else {
        (-1, 1)
    }
}

/// The corner depends only on the azimuth modulo a full turn.
pub proof fn lemma_far_corner_full_turn(azimuth_deg: int, turns: int)
    ensures
        far_corner_of(azimuth_deg + 360 * turns) == far_corner_of(azimuth_deg),
{
    assert((azimuth_deg + 360 * turns) % 360 == azimuth_deg % 360) by (nonlinear_arith);
}

/// The far corner is fixed by the quarter turn the camera stands in, with boundaries at
/// 0, 90, 180 and 270 degrees (azimuths taken modulo a full turn, negative ones too).
pub proof fn lemma_far_corner_quarters(azimuth_deg: int)
    ensures
        0 <= azimuth_deg % 360 < 90 ==> far_corner_of(azimuth_deg) == (-1i8, -1i8),
        90 <= azimuth_deg % 360 < 180 ==> far_corner_of(azimuth_deg) == (1i8, -1i8),
        180 <= azimuth_deg % 360 < 270 ==> far_corner_of(azimuth_deg) == (1i8, 1i8),
        270 <= azimuth_deg % 360 < 360 ==> far_corner_of(azimuth_deg) == (-1i8, 1i8),
{
}

/// Turning the camera a quarter turn further turns the far corner a quarter turn with it:
/// the corner (x, y) becomes (-y, x).
pub proof fn lemma_far_corner_quarter_turn(azimuth_deg: int)
    ensures
        far_corner_of(azimuth_deg + 90).0 == -far_corner_of(azimuth_deg).1,
        far_corner_of(azimuth_deg + 90).1 == far_corner_of(azimuth_deg).0,
{
    let q = azimuth_deg % 360;
    if q < 270 {
        assert((azimuth_deg + 90) % 360 == q + 90) by (nonlinear_arith)
            requires
                q == azimuth_deg % 360,
                0 <= q < 270,
        ;
    } else {
        assert((azimuth_deg + 90) % 360 == q - 270) by (nonlinear_arith)
            requires
                q == azimuth_deg % 360,
                270 <= q < 360,
        ;
    }
}

} // verus!
