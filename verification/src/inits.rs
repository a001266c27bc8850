//! Centroid initialization strategies.

pub mod kmeanplusplus;
pub mod randomsample;
