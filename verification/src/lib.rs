//! An address-geocoding index.
//!
//! The library ingests a stream of address-cluster records (one GeoJSON
//! feature per line, handed in as an already-parsed value model), builds an
//! immutable spatial index over the clusters' bounding boxes, and answers
//! axis-aligned window queries and proximity rankings over the indexed
//! address points, as well as rendering the points of a web-mercator tile.
//!
//! Geographic coordinates are held as fixed-point integers: a degree is
//! split into `COORD_SCALE` units, so a coordinate is `round(degrees *
//! COORD_SCALE)`. All geometric reasoning happens on these integers.

pub mod bush;
pub mod cache;
pub mod decode;
pub mod geom;
pub mod index;
pub mod model;
pub mod rank;
pub mod text;
pub mod tile;
pub mod util;

pub use decode::Cluster;
pub use decode::DecodeError;
pub use geom::Bounds;
pub use geom::Point;
pub use index::AddressPoint;
pub use index::Index;
pub use index::IndexBuilder;
