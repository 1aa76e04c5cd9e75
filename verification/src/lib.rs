//! Verified core of an EXR viewer: channel classification, metadata
//! presentation, layer selection, GPU bookkeeping and the small text
//! utilities they rest on.

pub mod cuda_context;
pub mod exr_layers;
pub mod gpu_metrics;
pub mod gpu_mip;
pub mod gpu_scheduler;
pub mod io;
pub mod processing;
pub mod psd_writer;
pub mod sorting;
pub mod text;
pub mod tone_mapping;
pub mod utils;
