//! Sample-side logic for EdgeFirst sensor topics: a schema-driven decoder for
//! binary point clouds, image-format arithmetic, segmentation-mask helpers and
//! a JPEG marker search.
pub mod clusters;
pub mod decoder;
pub mod field;
pub mod fourcc;
pub mod jpeg;
pub mod mask;
pub mod point;
pub mod rounding;
