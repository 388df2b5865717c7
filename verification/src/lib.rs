//! A small scene-graph runtime for resource-constrained targets: a
//! generational object pool, a node hierarchy with deferred script
//! scheduling, a closed set of script behaviours dispatched by type id,
//! and the prefab data model whose templates instantiate subtrees at
//! runtime.

pub mod node;
pub mod hierarchy;
pub mod pool;
pub mod prefab;
pub mod script;
