//! Skeletonization of two-color raster images.
//!
//! The crate reduces foreground shapes of a binary pixel grid to thin
//! skeletons while preserving their local connectivity. Three thinning
//! strategies are provided (Zhang-Suen, Rosenfeld and Eberly), built on a
//! shared local-topology test that decides whether removing one pixel would
//! change the number of connected foreground components in its neighborhood.

pub mod grid;

pub mod raster;

pub mod binary_image;

pub mod binary_image_converters;

pub mod bool_matrix;

pub mod codec;

pub mod skeletonizers;

pub use binary_image::BinaryImage;
pub use binary_image::PixelColor;
pub use binary_image::PixelIterator;
pub use binary_image_converters::BinaryImageConverter;
pub use binary_image_converters::threshold_binary_image_converter::ThresholdBinaryImageConverter;
pub use bool_matrix::BoolMatrix;
pub use codec::SkeletonizeError;
pub use codec::skeletonize;
pub use codec::skeletonize_raster;
pub use raster::RgbRaster;
pub use skeletonizers::AdjacencyMode;
pub use skeletonizers::Skeletonizer;
pub use skeletonizers::eberly_skeletonizer::EberlySkeletonizer;
pub use skeletonizers::rosenfeld_skeletonizer::RosenfeldSkeletonizer;
pub use skeletonizers::zhangsuen_skeletonizer::ZhangSuenSkeletonizer;
