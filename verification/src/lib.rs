//! Host-side logic of fused reductions and depthwise convolutions on tensors
//! that a fusion engine and a compute runtime execute.

pub mod conv;
pub mod depthwise;
pub mod element;
pub mod engine;
pub mod layout;
pub mod reduce;
pub mod tensor;
