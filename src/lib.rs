//! The core of an abstract interpreter for a typed intermediate language:
//! symbolic paths and values, an environment of path bindings, the types of
//! paths, heap-block bookkeeping, byte-exact transmutation, taint tags, the
//! order in which blocks are visited and the loop fixed point.

pub mod annotations;
pub mod block_order;
pub mod body_visitor;
pub mod canonicalize;
pub mod condition;
pub mod environment;
pub mod expression;
pub mod fixed_point;
pub mod join;
pub mod layout;
pub mod path;
pub mod tag_layer;
pub mod tags;
pub mod transfer;
pub mod transmute;
pub mod types;
pub mod persistent_map;
pub mod symbolic_bits;
