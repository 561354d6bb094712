pub mod components;
pub mod config;
pub mod data;
