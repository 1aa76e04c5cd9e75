pub mod channel_classification;
pub mod layer_export;
pub mod pipeline;
pub mod tone_mapping;
