//! Production planning for a game economy: which buildings to construct, and
//! how many batches of each, to cover a deficit of a resource.

pub mod laws;
pub mod model;
pub mod plan;
pub mod repo;
pub mod resolver;
pub mod vic;

pub use model::{ResolveError, Suggestion};
pub use plan::Plan;
pub use repo::Repo;
pub use resolver::{get_suggestions, BuildingRepo, ResourceRepo};
pub use vic::{Building, Input, Output, Resource};
