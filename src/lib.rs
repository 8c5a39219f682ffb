//! Recursive splitting of a rectangular screen area into labelled regions,
//! with a memoised vertical colour gradient for drawing each region's border.

pub mod geometry;
pub mod overlay;
pub mod regions;
pub mod shader;

pub use geometry::{calculate_absolute_rect, PixelRect, Point, UnitRect, UNIT};
pub use overlay::{palette, DrawBox, FrameInput, Overlay, GRADIENT_STEPS, MARGIN};
pub use regions::{make_box_label, BoxRegion, RegionTree};
pub use shader::{ConfigError, GradientCache, Rgba};
