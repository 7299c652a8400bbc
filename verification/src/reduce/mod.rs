//! Reductions over several dims, fused with the operations around them.

pub mod args;
pub mod laws;
pub mod requests;
pub mod results;
pub mod view;
