pub mod errors;
pub mod matrix;
pub mod metrics;
pub mod vector;
