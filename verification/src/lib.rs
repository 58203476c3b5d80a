//! Decomposition of closed, axis-aligned (rectilinear) polygons into
//! non-overlapping rectangles, tagged with a drawing layer.
//!
//! The pipeline runs in one direction: a canonical polygon is turned into a
//! sequence of classified corners, the corners are grouped into walls
//! (maximal runs of same-attitude vertical edges), and the finished wall
//! model emits the rectangle list.

pub mod decompose;
pub mod errors;
pub mod extrema;
pub mod liquid;
pub mod path;
pub mod point;
pub mod polygon;
pub mod rect;
pub mod rect_corner;
pub mod samples;
pub mod sanitization;
pub mod wall;
pub mod wall_model;
