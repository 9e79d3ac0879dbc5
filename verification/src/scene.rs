use vstd::prelude::*;

use crate::error::EidosError;

verus! {

/// Why a video configuration is rejected, if it is: H.264 needs even frame
/// dimensions (width is checked first, then height), and the frame rate must be positive.
pub open spec fn scene_config_error(width: u32, height: u32, fps: u32) -> Option<Seq<char>> {
    if width % 2 != 0 {
        Some("width must be an even number"@)
    } else if height % 2 != 0 {
        Some("height must be an even number"@)
    } else if fps == 0 {
        Some("fps must be greater than zero"@)
    } else {
        None
    }
}

/// A validated video configuration: frame width and height in pixels and frames per second.
pub struct Scene {
    width: u32,
    height: u32,
    fps: u32,
}

impl View for Scene {
    type V = (u32, u32, u32);

    closed spec fn view(&self) -> (u32, u32, u32) {
        (self.width, self.height, self.fps)
    }
}

impl Scene {
    /// Create a scene configuration, rejecting odd dimensions and a zero frame rate
    /// with `EidosError::InvalidConfig`.
    pub fn new(width: u32, height: u32, fps: u32) -> (r: Result<Scene, EidosError>)
        ensures
            r is Ok <==> scene_config_error(width, height, fps) is None,
            r matches Ok(s) ==> s@ == (width, height, fps),
            r matches Err(e) ==> e matches EidosError::InvalidConfig(msg) && Some(msg@)
                == scene_config_error(width, height, fps),
    {
        if width % 2 != 0 {
            return Err(EidosError::InvalidConfig(String::from_str("width must be an even number")));
        }
        if height % 2 != 0 {
            return Err(
                EidosError::InvalidConfig(String::from_str("height must be an even number")),
            );
        }
        if fps == 0 {
            return Err(
                EidosError::InvalidConfig(String::from_str("fps must be greater than zero")),
            );
        }
        Ok(Scene { width, height, fps })
    }

    /// Frame width in pixels.
    pub fn width(&self) -> (w: u32)
        ensures
            w == self@.0,
    {
        self.width
    }

    /// Frame height in pixels.
    pub fn height(&self) -> (h: u32)
        ensures
            h == self@.1,
    {
        self.height
    }

    /// Frames per second.
    pub fn fps(&self) -> (f: u32)
        ensures
            f == self@.2,
    {
        self.fps
    }
}

/// A configuration is accepted exactly when both frame dimensions are even and the frame
/// rate is positive; the width error is given exactly when the width is odd, so an even
/// width is never the reason for a rejection.
pub proof fn lemma_scene_config_rules(width: u32, height: u32, fps: u32)
    ensures
        scene_config_error(width, height, fps) is None <==> (width % 2 == 0 && height % 2 == 0
            && fps > 0),
        scene_config_error(width, height, fps) == Some("width must be an even number"@) <==> width
            % 2 == 1,
        scene_config_error(width, height, fps) == Some("height must be an even number"@) <==> (
        width % 2 == 0 && height % 2 == 1),
        scene_config_error(width, height, fps) == Some("fps must be greater than zero"@) <==> (
        width % 2 == 0 && height % 2 == 0 && fps == 0),
{
    reveal_strlit("width must be an even number");
    reveal_strlit("height must be an even number");
    reveal_strlit("fps must be greater than zero");
    assert("width must be an even number"@[0] != "height must be an even number"@[0]);
    assert("width must be an even number"@[0] != "fps must be greater than zero"@[0]);
    assert("height must be an even number"@[0] != "fps must be greater than zero"@[0]);
}

} // verus!
