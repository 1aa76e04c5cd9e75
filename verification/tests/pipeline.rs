use exruster::processing::pipeline::{ProcessingPipeline, ProcessingTarget};

#[test]
fn test_processing_target_enum() {
    assert_eq!(ProcessingTarget::FullImage, ProcessingTarget::FullImage);
    assert_ne!(ProcessingTarget::FullImage, ProcessingTarget::Thumbnail);
}

#[test]
fn mip_source_is_first_level_large_enough() {
    let levels = [(1024u32, 512u32), (512, 256), (256, 128), (128, 64)];
    assert_eq!(ProcessingPipeline::select_mip_source(&levels, 300), Some(0));
    assert_eq!(ProcessingPipeline::select_mip_source(&levels[1..], 300), Some(0));
    assert_eq!(ProcessingPipeline::select_mip_source(&levels[2..], 300), None);
    assert_eq!(ProcessingPipeline::select_mip_source(&[(100, 400), (50, 200)], 300), Some(0));
    assert_eq!(ProcessingPipeline::select_mip_source(&[], 1), None);
}
