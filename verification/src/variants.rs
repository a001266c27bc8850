//! The two optimization strategies driving the assignment kernel.

pub mod lloyd;
pub mod minibatch;
