pub mod canvas;
pub mod utils;
