//! Storage-and-traversal kernel of an embedded graph database: index-addressed
//! adjacency graphs, a lazily populated proxy over a repository, and the
//! traversal state machine that turns steps into match/create patterns.

pub mod adjacency;
pub mod traits;
pub mod kernel;
pub mod graph;
pub mod model;
pub mod gremlin;
pub mod traversal;
pub mod match_vertex_state;
pub mod set_property_state;
pub mod proxy;
