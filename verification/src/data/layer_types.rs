pub mod fill;
pub mod filter;
pub mod group;
pub mod pixel;
pub mod refs;
