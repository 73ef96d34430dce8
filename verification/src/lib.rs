//! Region detection for binary (alpha-thresholded) raster images.
//!
//! A [`mask::ImageMask`] is a dense boolean grid derived from an image's
//! alpha channel. [`scan::find_non_transparent_regions`] raster-scans the
//! mask and, for every unvisited opaque pixel, walks the boundary of the
//! enclosing region with a marching-squares tracer ([`trace::marching_squares`]),
//! collecting one axis-aligned bounding [`rect::Rect`] per region.

pub mod laws;
pub mod mask;
pub mod overlay;
pub mod rect;
pub mod scan;
pub mod trace;
