use vstd::prelude::*;

pub mod raster;
pub mod resizefit;
pub mod rgb565;
pub mod glyphs;
pub mod textimage;
pub mod gradient;
pub mod compose;
pub mod animate;
pub mod protocol;
pub mod timing;

verus! {

/// Horizontal placement of content that is narrower than its target box.
#[allow(non_camel_case_types)]
pub enum TextAlign {
    CENTER,
    LEFT,
    RIGHT,
}

} // verus!
