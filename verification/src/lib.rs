//! Verified core of the `eidos` animation and data-visualization library:
//! colors, configuration validation, depth ordering for the painter's
//! algorithm, and the small integer decisions that the renderer relies on.

pub mod animation;
pub mod arrow;
pub mod color;
pub mod dataviz;
pub mod depth;
pub mod document;
pub mod encode;
pub mod error;
pub mod grid;
pub mod scene;
pub mod spline;
pub mod surface;
pub mod text;
pub mod timeline;

pub use animation::Easing;
pub use color::Color;
pub use error::EidosError;
pub use scene::Scene;
pub use surface::RenderMode;
pub use text::Alignment;
