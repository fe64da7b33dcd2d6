use ruv_fann::{ErrorContext, ErrorLogger, WasmErrorContext};

#[test]
fn errors_test_error_context() {
    let context = ErrorContext::new("test_operation")
        .with_network_id("network_1")
        .with_layer(2)
        .with_epoch(100);

    assert_eq!(context.operation, "test_operation");
    assert_eq!(context.network_id, Some("network_1".to_string()));
    assert_eq!(context.layer_index, Some(2));
    assert_eq!(context.epoch, Some(100));
}

#[test]
fn test_wasm_error_context() {
    let mut context = WasmErrorContext::new("test_operation");
    context.memory_available = Some(1024 * 1024 * 1024); // 1GB
    context.webgl_support = Some(true);

    assert_eq!(context.operation, "test_operation");
    assert_eq!(context.memory_available, Some(1024 * 1024 * 1024));
    assert_eq!(context.webgl_support, Some(true));
}

#[test]
fn test_error_context_neuron_and_info() {
    let context = ErrorContext::new("forward_pass")
        .with_neuron(7)
        .with_info("phase", "training")
        .with_info("phase", "inference");

    assert_eq!(context.neuron_index, Some(7));
    // a repeated key overwrites the earlier value
    assert_eq!(context.additional_info.len(), 1);
    assert_eq!(context.additional_info[0].0, "phase");
    assert_eq!(context.additional_info[0].1, "inference");
}

#[test]
fn test_wasm_context_detect_is_noop_outside_browser() {
    let mut context = WasmErrorContext::new("probe");
    context.detect_wasm_environment();
    assert_eq!(context.memory_available, None);
    assert_eq!(context.webgl_support, None);
    assert_eq!(context.webgpu_support, None);
}

#[test]
fn test_error_logger_builders() {
    let logger = ErrorLogger::new();
    assert_eq!(logger.log_level, 2);
    assert!(logger.structured_logging);
    assert!(!logger.performance_tracking);

    let logger = ErrorLogger::new()
        .with_level(4)
        .with_structured_logging(false)
        .with_performance_tracking(true);
    assert_eq!(logger.log_level, 4);
    assert!(!logger.structured_logging);
    assert!(logger.performance_tracking);
}
