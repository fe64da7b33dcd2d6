use ruv_fann::{
    ActivationKind, CpuFeatures, CpuSimdOps, KernelPath, SimdConfig, SimdError, SimdLevel,
    SimdSafety,
};

fn no_features() -> CpuFeatures {
    CpuFeatures {
        has_avx2: false,
        has_avx512f: false,
        has_avx512vnni: false,
        has_fma: false,
        has_sse42: false,
        has_neon: false,
    }
}

fn avx2_features() -> CpuFeatures {
    CpuFeatures {
        has_avx2: true,
        has_avx512f: false,
        has_avx512vnni: false,
        has_fma: true,
        has_sse42: true,
        has_neon: false,
    }
}

#[test]
fn test_simd_config_creation() {
    let config = SimdConfig::default();
    assert!(config.block_size > 0);
    assert!(config.num_threads > 0);
    assert!(config.alignment > 0);
    assert!(config.alignment.is_power_of_two());
}

#[test]
fn test_cpu_simd_ops_creation() {
    let ops = CpuSimdOps::new_with_defaults();
    assert!(ops.config.block_size > 0);

    // Should not panic during validation
    let result = ops.validate_configuration();
    assert!(result.is_ok() || result.is_err()); // Either way is fine, just shouldn't panic
}

#[test]
fn test_simd_level_properties() {
    assert_eq!(SimdLevel::Scalar.vector_width(), 1);
    assert_eq!(SimdLevel::Sse42.vector_width(), 4);
    assert_eq!(SimdLevel::Avx2.vector_width(), 8);
    assert_eq!(SimdLevel::Avx512F.vector_width(), 16);

    assert_eq!(SimdLevel::Scalar.required_alignment(), 8);
    assert_eq!(SimdLevel::Sse42.required_alignment(), 16);
    assert_eq!(SimdLevel::Avx2.required_alignment(), 32);
    assert_eq!(SimdLevel::Avx512F.required_alignment(), 64);
}

#[test]
fn test_safety_checks() {
    let config = SimdConfig::default();
    let safety = SimdSafety::new(config);

    // Test bounds checking
    let data = vec![1.0f32, 2.0, 3.0];
    assert!(safety.check_bounds(data.len(), 3).is_ok());
    assert!(safety.check_bounds(data.len(), 5).is_err());

    // Test matrix dimensions
    assert!(safety.validate_matrix_dims(2, 3, 4).is_ok());
    assert!(safety.validate_matrix_dims(0, 3, 4).is_err());
    assert!(safety.validate_matrix_dims(2, 0, 4).is_err());
    assert!(safety.validate_matrix_dims(2, 3, 0).is_err());
}

#[test]
fn test_simd_configuration_validation() {
    // A scalar-tier dispatcher is always valid.
    let config = SimdConfig::with_features(no_features());
    let ops = CpuSimdOps::new(config);
    assert_eq!(ops.current_simd_level(), SimdLevel::Scalar);
    assert!(ops.validate_configuration().is_ok());

    // Forcing a 512-bit tier without the feature is rejected.
    let mut forced = SimdConfig::with_features(no_features());
    forced.simd_level = Some(SimdLevel::Avx512F);
    let ops = CpuSimdOps::new(forced);
    assert_eq!(
        ops.validate_configuration(),
        Err(SimdError::UnsupportedLevel)
    );
}

#[test]
fn test_best_simd_level_ordering() {
    assert_eq!(no_features().best_simd_level(), SimdLevel::Scalar);
    assert_eq!(avx2_features().best_simd_level(), SimdLevel::Avx2FMA);

    let mut f = avx2_features();
    f.has_fma = false;
    assert_eq!(f.best_simd_level(), SimdLevel::Avx2);

    let mut f = no_features();
    f.has_sse42 = true;
    assert_eq!(f.best_simd_level(), SimdLevel::Sse42);

    let mut f = no_features();
    f.has_avx512vnni = true;
    assert_eq!(f.best_simd_level(), SimdLevel::Avx512VNNI);

    let mut f = no_features();
    f.has_neon = true;
    assert_eq!(f.best_simd_level(), SimdLevel::Neon);
}

#[test]
fn test_default_config_has_threads() {
    // the thread count comes from the host and is never zero
    let config = SimdConfig::default();
    assert!(config.num_threads >= 1);
}

#[test]
fn test_safety_check_alignment() {
    let safety = SimdSafety::new(SimdConfig::default());
    assert!(safety.check_alignment(64, 32).is_ok());
    assert_eq!(safety.check_alignment(33, 32), Err(SimdError::NotAligned));

    let mut unchecked = SimdConfig::default();
    unchecked.enable_alignment_check = false;
    let relaxed = SimdSafety::new(unchecked);
    assert!(relaxed.check_alignment(33, 32).is_ok());
}

#[test]
fn test_validate_matrix_dims_overflow() {
    let safety = SimdSafety::new(SimdConfig::default());
    assert_eq!(
        safety.validate_matrix_dims(usize::MAX / 2, 2, usize::MAX / 2),
        Err(SimdError::DimensionOverflow)
    );
    assert_eq!(
        safety.validate_matrix_dims(0, 1, 1),
        Err(SimdError::ZeroDimension)
    );
}

#[test]
fn test_safe_vector_width() {
    let safety = SimdSafety::new(SimdConfig::default());
    assert_eq!(safety.safe_vector_width(8, 3), 3);
    assert_eq!(safety.safe_vector_width(8, 100), 8);

    let mut unchecked = SimdConfig::default();
    unchecked.enable_bounds_check = false;
    let relaxed = SimdSafety::new(unchecked);
    assert_eq!(relaxed.safe_vector_width(8, 3), 8);
}

#[test]
fn test_matmul_dispatch_degrades_to_scalar() {
    // scalar tier: always the scalar kernel
    let ops = CpuSimdOps::new(SimdConfig::with_features(no_features()));
    let path = ops.select_matmul_kernel(2, 2, 2, 4, 4, 4, 0, 0, 0);
    assert_eq!(path, KernelPath::Scalar);

    // vector-capable tier with aligned buffers: the vector kernel
    let ops = CpuSimdOps::new(SimdConfig::with_features(avx2_features()));
    let path = ops.select_matmul_kernel(2, 2, 2, 4, 4, 4, 64, 128, 192);
    assert_eq!(path, KernelPath::Vector);

    // a misaligned buffer silently degrades to scalar
    let path = ops.select_matmul_kernel(2, 2, 2, 4, 4, 4, 64, 129, 192);
    assert_eq!(path, KernelPath::Scalar);

    // a short buffer degrades to scalar
    let path = ops.select_matmul_kernel(2, 2, 2, 3, 4, 4, 64, 128, 192);
    assert_eq!(path, KernelPath::Scalar);

    // a zero dimension is manifestly invalid: the call is a no-op
    let path = ops.select_matmul_kernel(0, 2, 2, 4, 4, 4, 64, 128, 192);
    assert_eq!(path, KernelPath::NoOp);

    // dimensions that overflow index arithmetic degrade to scalar
    let path = ops.select_matmul_kernel(
        usize::MAX / 2, 1, usize::MAX / 2, 4, 4, 4, 64, 128, 192,
    );
    assert_eq!(path, KernelPath::Scalar);
}

#[test]
fn test_matvec_dispatch_noop_on_zero_dims() {
    let ops = CpuSimdOps::new(SimdConfig::with_features(avx2_features()));
    assert_eq!(
        ops.select_matvec_kernel(0, 3, 6, 3, 2, 0, 0, 0),
        KernelPath::NoOp
    );
    assert_eq!(
        ops.select_matvec_kernel(2, 3, 6, 3, 2, 0, 0, 0),
        KernelPath::Vector
    );
    assert_eq!(
        ops.select_matvec_kernel(2, 3, 5, 3, 2, 0, 0, 0),
        KernelPath::Scalar
    );
}

#[test]
fn test_add_bias_dispatch() {
    let ops = CpuSimdOps::new(SimdConfig::with_features(avx2_features()));
    assert_eq!(
        ops.select_add_bias_kernel(0, 3, 6, 3, 0, 0),
        KernelPath::NoOp
    );
    assert_eq!(
        ops.select_add_bias_kernel(2, 3, 6, 3, 0, 64),
        KernelPath::Vector
    );
    assert_eq!(
        ops.select_add_bias_kernel(2, 3, 6, 2, 0, 64),
        KernelPath::Scalar
    );
}

#[test]
fn test_activation_dispatch_only_relu_vectorized() {
    let ops = CpuSimdOps::new(SimdConfig::with_features(avx2_features()));
    assert_eq!(
        ops.select_activation_kernel(0, ActivationKind::Relu, 0),
        KernelPath::NoOp
    );
    assert_eq!(
        ops.select_activation_kernel(8, ActivationKind::Relu, 0),
        KernelPath::Vector
    );
    // every non-rectifier kind takes the scalar formula on every tier
    assert_eq!(
        ops.select_activation_kernel(8, ActivationKind::Sigmoid, 0),
        KernelPath::Scalar
    );
    assert_eq!(
        ops.select_activation_kernel(8, ActivationKind::Gelu, 0),
        KernelPath::Scalar
    );
    assert_eq!(
        ops.select_activation_kernel(8, ActivationKind::Swish, 0),
        KernelPath::Scalar
    );
}

#[test]
fn test_derivative_dispatch_checks_both_buffers() {
    let ops = CpuSimdOps::new(SimdConfig::with_features(avx2_features()));
    // mismatched or empty buffers make the pass a no-op
    assert_eq!(
        ops.select_derivative_kernel(4, 5, ActivationKind::Relu, 0, 0),
        KernelPath::NoOp
    );
    assert_eq!(
        ops.select_derivative_kernel(0, 0, ActivationKind::Relu, 0, 0),
        KernelPath::NoOp
    );
    // both buffers aligned: the vector step kernel
    assert_eq!(
        ops.select_derivative_kernel(8, 8, ActivationKind::Relu, 64, 128),
        KernelPath::Vector
    );
    // a misaligned output buffer degrades to scalar
    assert_eq!(
        ops.select_derivative_kernel(8, 8, ActivationKind::Relu, 64, 129),
        KernelPath::Scalar
    );
    // non-rectifier derivatives always use the scalar formulas
    assert_eq!(
        ops.select_derivative_kernel(8, 8, ActivationKind::Tanh, 64, 128),
        KernelPath::Scalar
    );
}
