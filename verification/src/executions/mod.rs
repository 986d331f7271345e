pub mod reward;
pub mod stacking;
