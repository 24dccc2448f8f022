//! The graph of symbols across the modules of a workspace.
pub mod construct;
pub mod edge_laws;
pub mod explain;
pub mod explain_laws;
pub mod exports;
pub mod fact_laws;
pub mod facts;
pub mod finding_laws;
pub mod findings;
pub mod imports;
pub mod laws;
pub mod links;
pub mod model;
pub mod moving;
pub mod node;
pub mod paths;
pub mod questions;
pub mod reach;
pub mod rebuilding;
pub mod remap;
pub mod resolve;
pub mod resolve_laws;
pub mod routes;
pub mod targets;

pub use construct::{FreshModule, SourceFile};
pub use model::{CacheStats, DependencyGraph};
pub use node::Node;
pub use resolve::{DiskFacts, WorkspacePackage};
