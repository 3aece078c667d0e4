//! # Extended Isolation Forest
//!
//! An anomaly detector: an ensemble of randomized binary partition trees that
//! scores how easily a point is isolated from a reference dataset by recursive
//! splits along random hyperplanes. Anomalies are isolated in few splits;
//! typical points need many.
//!
//! The forest is generic over the scalar type of its points, which brings
//! its own arithmetic and names the wide scalar in which path lengths and
//! scores are computed (see [`ForestFloat`]). Everything built on that
//! arithmetic -- split geometry, tree construction, path lengths, scores --
//! is verified.
pub mod error;
pub mod forest;
pub mod geometry;
pub mod options;
pub mod random;
pub mod scalar;
pub mod tree;

pub use crate::error::Error;
pub use crate::forest::Forest;
pub use crate::geometry::Direction;
pub use crate::options::ForestOptions;
pub use crate::scalar::ForestFloat;
pub use crate::tree::{ExNode, InNode, Node, Tree};
