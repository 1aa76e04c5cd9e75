use exruster::gpu_metrics::GpuMetrics;
use exruster::gpu_scheduler::{AdaptiveGpuScheduler, GpuOperation};
use std::sync::Arc;

#[test]
fn test_scheduler_creation() {
    let metrics = Arc::new(GpuMetrics::new());
    let scheduler = AdaptiveGpuScheduler::new(metrics);
    assert!(scheduler.gpu_available());
    assert_eq!(scheduler.current_load(), 0);
}

#[test]
fn test_gpu_availability_setting() {
    let metrics = Arc::new(GpuMetrics::new());
    let mut scheduler = AdaptiveGpuScheduler::new(metrics);
    scheduler.set_gpu_available(false);
    assert!(!scheduler.gpu_available());
    scheduler.set_gpu_available(true);
    assert!(scheduler.gpu_available());
}

#[test]
fn test_gpu_bias_calculation() {
    let metrics = Arc::new(GpuMetrics::new());
    let _scheduler = AdaptiveGpuScheduler::new(metrics);
    let thumbnail_bias = match GpuOperation::ThumbnailGeneration {
        GpuOperation::ThumbnailGeneration => 1.5,
        _ => 1.0,
    };
    assert_eq!(thumbnail_bias, 1.5);
    let mip_bias = match GpuOperation::MipGeneration {
        GpuOperation::MipGeneration => 2.0,
        _ => 1.0,
    };
    assert_eq!(mip_bias, 2.0);
}

#[test]
fn test_benchmark_updates() {
    let metrics = Arc::new(GpuMetrics::new());
    let mut scheduler = AdaptiveGpuScheduler::new(metrics);
    scheduler.store_cpu_benchmark(15000);
    assert_eq!(scheduler.cpu_benchmark(), 15000);
    scheduler.store_gpu_benchmark(30000);
    assert_eq!(scheduler.gpu_benchmark(), 30000);
}

#[test]
fn test_scheduler_reset() {
    let metrics = Arc::new(GpuMetrics::new());
    let mut scheduler = AdaptiveGpuScheduler::new(metrics);
    scheduler.store_gpu_load(800);
    scheduler.store_cpu_benchmark(20000);
    scheduler.reset();
    assert_eq!(scheduler.current_load(), 0);
    assert_eq!(scheduler.cpu_benchmark(), 10000);
}

#[test]
fn decision_statistics_count_gpu_uses() {
    let metrics = Arc::new(GpuMetrics::new());
    let mut scheduler = AdaptiveGpuScheduler::new(metrics);
    assert_eq!(scheduler.get_decision_stats(GpuOperation::ImageExport), None);
    scheduler.record_decision(GpuOperation::ImageExport, true);
    scheduler.record_decision(GpuOperation::ImageExport, false);
    scheduler.record_decision(GpuOperation::ImageExport, true);
    assert_eq!(scheduler.get_decision_stats(GpuOperation::ImageExport), Some((2, 3)));
    assert_eq!(scheduler.get_decision_stats(GpuOperation::MipGeneration), None);
}

#[test]
fn decision_history_keeps_newest_hundred() {
    let metrics = Arc::new(GpuMetrics::new());
    let mut scheduler = AdaptiveGpuScheduler::new(metrics);
    for _ in 0..10 {
        scheduler.record_decision(GpuOperation::ThumbnailGeneration, true);
    }
    for _ in 0..100 {
        scheduler.record_decision(GpuOperation::ThumbnailGeneration, false);
    }
    assert_eq!(scheduler.get_decision_stats(GpuOperation::ThumbnailGeneration), Some((0, 100)));
}

#[test]
fn reset_forgets_decisions() {
    let metrics = Arc::new(GpuMetrics::new());
    let mut scheduler = AdaptiveGpuScheduler::new(metrics);
    scheduler.record_decision(GpuOperation::ImageProcessing, true);
    scheduler.set_gpu_available(false);
    scheduler.reset();
    assert_eq!(scheduler.get_decision_stats(GpuOperation::ImageProcessing), None);
    assert!(!scheduler.gpu_available());
    assert_eq!(scheduler.gpu_benchmark(), 20000);
}

#[test]
fn load_admission_thresholds() {
    let metrics = Arc::new(GpuMetrics::new());
    let mut scheduler = AdaptiveGpuScheduler::new(metrics);
    scheduler.store_gpu_load(750);
    assert!(scheduler.load_admits(false));
    assert!(!scheduler.load_admits(true));
    scheduler.store_gpu_load(950);
    assert!(!scheduler.load_admits(false));
    scheduler.store_gpu_load(100);
    scheduler.set_gpu_available(false);
    assert!(!scheduler.load_admits(false));
}
