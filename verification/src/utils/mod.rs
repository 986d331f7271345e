pub mod decimal;
pub mod denom;
pub mod text;
