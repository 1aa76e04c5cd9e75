use exruster::gpu_metrics::{Duration, GpuMetrics};

#[test]
fn test_gpu_metrics_creation() {
    let metrics = GpuMetrics::new();
    assert_eq!(metrics.memory_usage, 0);
    assert_eq!(metrics.operations_count, 0);
}

#[test]
fn test_operation_time_recording() {
    let mut metrics = GpuMetrics::new();
    let operation_time = Duration::from_millis(50);
    metrics.record_operation_time(operation_time);
    assert_eq!(metrics.operations_count, 1);
    assert_eq!(metrics.get_average_operation_time_us(), 50000);
}

#[test]
fn test_pipeline_cache_hit_recording() {
    let mut metrics = GpuMetrics::new();
    metrics.record_pipeline_cache_hit();
    metrics.record_pipeline_cache_hit();
    assert_eq!(metrics.pipeline_cache_hits, 2);
}

#[test]
fn test_memory_usage_update() {
    let mut metrics = GpuMetrics::new();
    metrics.update_memory_usage(1024 * 1024);
    assert_eq!(metrics.memory_usage, 1024 * 1024);
}

#[test]
fn test_error_recording() {
    let mut metrics = GpuMetrics::new();
    metrics.record_error();
    metrics.record_error();
    assert_eq!(metrics.error_count, 2);
}

#[test]
fn test_metrics_reset() {
    let mut metrics = GpuMetrics::new();
    metrics.record_operation_time(Duration::from_millis(100));
    metrics.record_pipeline_cache_hit();
    metrics.update_memory_usage(1024);
    metrics.reset();
    assert_eq!(metrics.operations_count, 0);
    assert_eq!(metrics.pipeline_cache_hits, 0);
    assert_eq!(metrics.memory_usage, 0);
}

#[test]
fn running_mean_of_two_operations() {
    let mut metrics = GpuMetrics::new();
    metrics.record_operation_time(Duration::from_millis(10));
    metrics.record_operation_time(Duration::from_millis(30));
    assert_eq!(metrics.operations_count, 2);
    assert_eq!(metrics.get_average_operation_time_us(), 20000);
    assert_eq!(metrics.max_operation_time.as_micros(), 30000);
}

#[test]
fn mean_never_exceeds_maximum() {
    let mut metrics = GpuMetrics::new();
    for ms in [5u64, 50, 1, 7, 49] {
        metrics.record_operation_time(Duration::from_millis(ms));
        assert!(metrics.average_operation_time.as_nanos() <= metrics.max_operation_time.as_nanos());
    }
}

#[test]
fn frame_window_keeps_newest_hundred() {
    let mut metrics = GpuMetrics::new();
    for i in 0..105u64 {
        metrics.record_operation_time(Duration::from_micros(i));
    }
    assert_eq!(metrics.frame_times.len(), 100);
    assert_eq!(metrics.frame_times.front().unwrap().as_micros(), 5);
    assert_eq!(metrics.frame_times.back().unwrap().as_micros(), 104);
}

#[test]
fn reset_restores_initial_metrics() {
    let mut metrics = GpuMetrics::new();
    metrics.record_error();
    metrics.record_operation_time(Duration::from_secs(1));
    metrics.reset();
    let fresh = GpuMetrics::new();
    assert_eq!(metrics.error_count, fresh.error_count);
    assert_eq!(metrics.frame_times.len(), 0);
    assert_eq!(metrics.average_operation_time.as_nanos(), 0);
    assert_eq!(metrics.max_operation_time.as_nanos(), 0);
}

#[test]
fn duration_conversions() {
    assert_eq!(Duration::from_secs(2).as_micros(), 2_000_000);
    assert_eq!(Duration::from_millis(3).as_nanos(), 3_000_000);
    assert_eq!(Duration::from_nanos(1999).as_micros(), 1);
    assert_eq!(Duration::zero().as_nanos(), 0);
}

#[test]
fn recording_a_sequence_of_times() {
    let mut metrics = GpuMetrics::new();
    let times: Vec<u64> = (0..130u64).map(|i| (i * 37) % 101).collect();
    for &t in &times {
        metrics.record_operation_time(Duration::from_micros(t));
    }
    assert_eq!(metrics.operations_count, 130);
    assert_eq!(metrics.max_operation_time.as_micros(), 100);
    let window: Vec<u128> = metrics.frame_times.iter().map(|d| d.as_micros()).collect();
    let expected: Vec<u128> = times[30..].iter().map(|&t| t as u128).collect();
    assert_eq!(window, expected);
    assert_eq!((metrics.pipeline_cache_hits, metrics.memory_usage, metrics.error_count), (0, 0, 0));
}
