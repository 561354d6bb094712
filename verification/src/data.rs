pub mod blend_modes;
pub mod brush_dab;
pub mod file;
pub mod ids;
pub mod layer;
pub mod layer_tree;
pub mod layer_types;
pub mod project;
