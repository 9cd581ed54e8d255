//! Crop metadata for a wallpaper library: crop rectangles, the crop-candidate
//! algorithm, the per-image metadata store, the ingest pipeline's decisions and
//! the retrofit of a new aspect ratio onto known images.

pub mod app_state;
pub mod cropper;
pub mod geometry;
pub mod pipeline;
pub mod retrofit;
pub mod text;
pub mod wallpapers;
