//! Converters that turn a raster into a two-valued raster in place.

pub mod threshold_binary_image_converter;

use vstd::prelude::*;

use crate::raster::RgbRaster;

verus! {

/// A rule that rewrites every pixel of a raster to one of two values.
pub trait BinaryImageConverter {
    /// What the converter guarantees about the rewritten raster.
    spec fn converted(&self, before: RgbRaster, after: RgbRaster) -> bool;

    fn convert_to_binary(&self, image: &mut RgbRaster)
        requires
            old(image).wf(),
        ensures
            final(image).wf(),
            final(image).spec_width() == old(image).spec_width(),
            final(image).spec_height() == old(image).spec_height(),
            self.converted(*old(image), *final(image)),
    ;
}

} // verus!
