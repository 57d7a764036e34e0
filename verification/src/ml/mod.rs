//! Request features, and the samples of them that models are trained on.

pub mod features;
pub mod recorder;
pub mod train;
