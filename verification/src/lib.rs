pub mod geometry;
pub mod software_buffer;
pub mod obj_loader;
