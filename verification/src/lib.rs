pub mod file_ops;
pub mod image_processing;
pub mod paths;
