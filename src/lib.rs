//! Verified core of a recursive ray tracer: the integer and structural logic
//! behind mesh ingestion, the recursion-depth policy of shading, texture
//! wrapping and the gather step of column-parallel rendering.

pub mod error;
pub mod geo;
pub mod mesh;
pub mod scene;
pub mod texture;

pub use error::RTError;
pub use geo::Geo;
pub use mesh::{MeshTopology, ShadingMode, TriangleIndex};
pub use scene::{ShadePlan, SurfaceKind, Viewport};
