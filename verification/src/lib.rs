//! Flattens a tree of map documents, folders and placemarks into a list of
//! planar polygons.
//!
//! Coordinates are carried as the 64-bit patterns of IEEE 754 double precision
//! numbers, so that every rule of the library is a statement about integers.

pub mod coordinate;
pub mod document;
pub mod geometry;

pub use coordinate::Coordinate;
pub use document::{
    extract_data_from_kml, polygonize_kml, polygonize_kml_within, DocumentNode, PolygonizeOutput,
};
pub use geometry::{extract_data_from_geometry, ExtractError, Geometry, Polygon};
