//! A layered image editor's core: square framing of loaded rasters, per-layer
//! brightness / contrast / opacity adjustment with dirty-state recompute, and
//! visibility-aware "over" compositing for export.

mod raster;
mod adjust;
mod layer;
mod compositor;
mod session;

pub use raster::{Raster, pad_to_square};
pub use adjust::{OPAQUE, apply_brightness, apply_contrast, apply_opacity, adjust_pixels};
pub use layer::{ImageLayer, recompute};
pub use compositor::composite;
pub use session::ImageApp;
