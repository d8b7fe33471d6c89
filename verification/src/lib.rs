pub mod error;
pub mod linear;
pub mod matrix;
pub mod vertex;
