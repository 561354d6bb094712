pub mod color;
pub mod renderer;
pub mod tools;
