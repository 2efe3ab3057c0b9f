pub mod analyze;
pub mod compile;
pub mod ir;
pub mod names;
pub mod synthesize;
pub mod text;
