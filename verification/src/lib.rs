//! Graph intermediate representation of a neural-network inference runtime:
//! shapes, tensors, values, operator nodes, models and their scheduling.

pub mod arena;
pub mod dim;
pub mod error;
pub mod model;
pub mod node;
pub mod op;
pub mod plan;
pub mod session;
pub mod shape;
pub mod tensor;
pub mod value;
