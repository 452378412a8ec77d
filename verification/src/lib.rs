//! Verified core of an image processor with mirror and box-blur plugins.
pub mod args;
pub mod blur;
pub mod error;
pub mod image_loader;
pub mod mirror;
pub mod paths;
pub mod plugin_loader;
pub mod raster;
pub mod text;
