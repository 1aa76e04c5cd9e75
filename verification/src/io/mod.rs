pub mod exr_metadata;
pub mod file_operations;
pub mod folder_tree;
pub mod full_exr_cache;
pub mod image_cache;
pub mod lazy_exr_loader;
pub mod metadata_traits;
pub mod selective_layer_reader;
pub mod thumbnails;
