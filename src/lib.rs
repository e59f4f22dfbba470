//! Previews a rasterised icon against several background colours.
//!
//! The library fits vector artwork into a square (`scale`), blends
//! premultiplied pixels against backgrounds (`color`), reads background
//! colours written `R,G,B` (`background`), reads a rasterised source
//! (`source`) and lays the blended tiles side by side on one wide canvas
//! (`canvas`), an RGB image held in `raster`.
use vstd::prelude::*;

pub mod background;
pub mod canvas;
pub mod color;
pub mod error;
pub mod raster;
pub mod scale;
pub mod source;

verus! {

} // verus!
