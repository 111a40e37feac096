//! Push-based traversals: a sequence drives a visitor over its items, and the
//! visitor says when to stop.

pub mod prim;
pub mod visit;
pub mod traversal;
pub mod bridge;
pub mod ext;
pub mod utils;
pub mod impls;
pub mod laws;

pub use bridge::Internal;
pub use ext::TraversalExt;
pub use traversal::{
    Chain, Cloned, Enumerate, Filter, FilterMap, FlatMap, FromTraversal, Inspect, IntoTraversal,
    Mapped, Skip, SkipWhile, Take, TakeWhile, Traversal,
};
pub use visit::{Callback, Visitor};
