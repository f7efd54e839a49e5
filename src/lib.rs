//! Reconciliation core of a retained-mode UI tree: a stack-machine edit
//! encoding, an identity arena, a keyed tree differ and a wake-driven
//! scheduler for background tasks and suspended subtrees.

pub mod diff;
pub mod ids;
pub mod mutations;
pub mod nodes;
pub mod scheduler;
pub mod slab;

pub use ids::{ElementId, ScopeId, SuspenseId, TaskId};
pub use mutations::{Mutation, Mutations, Renderer};
pub use nodes::{Attribute, AttributeValue, VComponent, VElement, VNode, VPlaceholder, VText};
pub use scheduler::{LeafPoll, RenderError, ScopeState, SuspenseBoundary, SuspenseError, SuspenseLeaf, TaskState, VirtualDom};
pub use slab::Slab;
