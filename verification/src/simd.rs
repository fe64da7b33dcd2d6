//! Capability tiers and kernel dispatch: hardware feature flags are mapped
//! to an ordered instruction-set tier, each tier has a required alignment
//! and vector width, and every numeric operation validates its shapes,
//! bounds and alignment before the vector path is chosen. Manifestly
//! invalid input (zero dimensions, empty buffers) makes an operation a
//! no-op; every other failed check degrades the dispatch to the scalar
//! path instead of erroring.

use vstd::prelude::*;

verus! {

/// Failure conditions raised by dispatch-safety validation.
#[derive(Clone, Copy, Debug, PartialEq, Eq, Structural)]
pub enum SimdError {
    /// A buffer's address does not meet the tier's required alignment.
    NotAligned,
    /// A buffer is shorter than the operation requires.
    InsufficientLength,
    /// A matrix dimension is zero.
    ZeroDimension,
    /// The dimensions would overflow index arithmetic.
    DimensionOverflow,
    /// The configured tier is not supported by the detected features.
    UnsupportedLevel,
}

/// Hardware feature flags, detected once at startup and treated as
/// immutable evidence. Detection itself probes the processor and lives
/// outside the verified core; the flags arrive here as plain booleans.
#[derive(Clone, Copy, Debug)]
pub struct CpuFeatures {
    /// 256-bit integer/float vector unit.
    pub has_avx2: bool,
    /// 512-bit vector unit (foundation subset).
    pub has_avx512f: bool,
    /// 512-bit vector neural-network instructions.
    pub has_avx512vnni: bool,
    /// Fused multiply-add unit.
    pub has_fma: bool,
    /// 128-bit baseline vector unit on x86.
    pub has_sse42: bool,
    /// 128-bit vector unit on ARM.
    pub has_neon: bool,
}

/// Instruction-set tiers, worst to best.
#[derive(Debug, Clone, Copy, PartialEq, Eq, PartialOrd, Ord, Structural)]
pub enum SimdLevel {
    Scalar,
    Neon,
    Sse42,
    Avx2,
    Avx2FMA,
    Avx512F,
    Avx512VNNI,
}

/// The best tier whose required flags are all present; at least the scalar
/// tier is always available.
pub open spec fn spec_best_level(f: CpuFeatures) -> SimdLevel {
    if f.has_avx512vnni {
        SimdLevel::Avx512VNNI
    } else if f.has_avx512f {
        SimdLevel::Avx512F
    } else if f.has_avx2 && f.has_fma {
        SimdLevel::Avx2FMA
    } else if f.has_avx2 {
        SimdLevel::Avx2
    } else if f.has_sse42 {
        SimdLevel::Sse42
    } else if f.has_neon {
        SimdLevel::Neon
    } else {
        SimdLevel::Scalar
    }
}

impl CpuFeatures {
    /// A feature set with every flag clear: the portable baseline.
    pub fn baseline() -> (r: Self)
        ensures
            !r.has_avx2 && !r.has_avx512f && !r.has_avx512vnni,
            !r.has_fma && !r.has_sse42 && !r.has_neon,
    {
        CpuFeatures {
            has_avx2: false,
            has_avx512f: false,
            has_avx512vnni: false,
            has_fma: false,
            has_sse42: false,
            has_neon: false,
        }
    }

    /// Pick, in descending preference order, the first tier whose required
    /// flags are all set.
    pub fn best_simd_level(&self) -> (r: SimdLevel)
        ensures
            r == spec_best_level(*self),
    {
        if self.has_avx512vnni {
            SimdLevel::Avx512VNNI
        } else if self.has_avx512f {
            SimdLevel::Avx512F
        } else if self.has_avx2 && self.has_fma {
            SimdLevel::Avx2FMA
        } else if self.has_avx2 {
            SimdLevel::Avx2
        } else if self.has_sse42 {
            SimdLevel::Sse42
        } else if self.has_neon {
            SimdLevel::Neon
        } else {
            SimdLevel::Scalar
        }
    }
}

/// The byte alignment a tier's loads and stores require.
pub open spec fn spec_required_alignment(level: SimdLevel) -> usize {
    match level {
        SimdLevel::Avx512F | SimdLevel::Avx512VNNI => 64,
        SimdLevel::Avx2 | SimdLevel::Avx2FMA => 32,
        SimdLevel::Sse42 => 16,
        SimdLevel::Neon => 16,
        SimdLevel::Scalar => 8,
    }
}

/// The number of elements a tier processes per instruction.
pub open spec fn spec_vector_width(level: SimdLevel) -> usize {
    match level {
        SimdLevel::Avx512F | SimdLevel::Avx512VNNI => 16,
        SimdLevel::Avx2 | SimdLevel::Avx2FMA => 8,
        SimdLevel::Sse42 => 4,
        SimdLevel::Neon => 4,
        SimdLevel::Scalar => 1,
    }
}

/// Whether a tier has vectorized kernels (the scalar and 128-bit x86 tiers
/// always take the scalar path).
pub open spec fn spec_has_vector_kernel(level: SimdLevel) -> bool {
    match level {
        SimdLevel::Avx2 | SimdLevel::Avx2FMA | SimdLevel::Avx512F | SimdLevel::Avx512VNNI
            | SimdLevel::Neon => true,
        SimdLevel::Scalar | SimdLevel::Sse42 => false,
    }
}

impl SimdLevel {
    /// The byte alignment this tier's loads and stores require.
    pub fn required_alignment(self) -> (r: usize)
        ensures
            r == spec_required_alignment(self),
            r >= 1,
    {
        match self {
            SimdLevel::Avx512F | SimdLevel::Avx512VNNI => 64,
            SimdLevel::Avx2 | SimdLevel::Avx2FMA => 32,
            SimdLevel::Sse42 => 16,
            SimdLevel::Neon => 16,
            SimdLevel::Scalar => 8,
        }
    }

    /// The number of elements this tier processes per instruction.
    pub fn vector_width(self) -> (r: usize)
        ensures
            r == spec_vector_width(self),
            r >= 1,
    {
        match self {
            SimdLevel::Avx512F | SimdLevel::Avx512VNNI => 16,
            SimdLevel::Avx2 | SimdLevel::Avx2FMA => 8,
            SimdLevel::Sse42 => 4,
            SimdLevel::Neon => 4,
            SimdLevel::Scalar => 1,
        }
    }
}

/// Relies on num_cpus::get: the number of available logical processors,
/// which its documentation promises is always at least one.
#[verifier::external_body]
fn thread_count() -> (r: usize)
    ensures
        r >= 1,
{
    num_cpus::get()
}

/// Configuration of the kernel dispatcher: the detected features, the tier
/// to use, cache-blocking size, thread count, required alignment and the
/// safety-check toggles.
#[derive(Clone, Copy, Debug)]
pub struct SimdConfig {
    pub cpu_features: CpuFeatures,
    pub simd_level: Option<SimdLevel>,
    pub block_size: usize,
    pub num_threads: usize,
    pub enable_profiling: bool,
    pub alignment: usize,
    pub enable_bounds_check: bool,
    pub enable_alignment_check: bool,
}

impl SimdConfig {
    /// Configuration for a detected feature set: the best available tier,
    /// its required alignment, and both safety checks enabled.
    pub fn with_features(cpu_features: CpuFeatures) -> (r: Self)
        ensures
            r.cpu_features == cpu_features,
            r.simd_level == Some(spec_best_level(cpu_features)),
            r.block_size == 64,
            r.num_threads >= 1,
            r.alignment == spec_required_alignment(spec_best_level(cpu_features)),
            !r.enable_profiling,
            r.enable_bounds_check,
            r.enable_alignment_check,
    {
        let best = cpu_features.best_simd_level();
        SimdConfig {
            cpu_features,
            simd_level: Some(best),
            block_size: 64,
            num_threads: thread_count(),
            enable_profiling: false,
            alignment: best.required_alignment(),
            enable_bounds_check: true,
            enable_alignment_check: true,
        }
    }
}

impl Default for SimdConfig {
    /// The portable baseline configuration: no vector features assumed, the
    /// scalar tier, and both safety checks enabled. Feature probing is not
    /// part of the verified core; a caller with a detected feature set uses
    /// `with_features` instead.
    fn default() -> (r: Self)
        ensures
            r.cpu_features == (CpuFeatures {
                has_avx2: false,
                has_avx512f: false,
                has_avx512vnni: false,
                has_fma: false,
                has_sse42: false,
                has_neon: false,
            }),
            r.simd_level == Some(SimdLevel::Scalar),
            r.block_size == 64,
            r.num_threads >= 1,
            r.alignment == spec_required_alignment(SimdLevel::Scalar),
            !r.enable_profiling,
            r.enable_bounds_check,
            r.enable_alignment_check,
    {
        SimdConfig::with_features(CpuFeatures::baseline())
    }
}

/// Safety checks for kernel dispatch: bounds, alignment and dimension
/// validation, each toggleable through the configuration.
pub struct SimdSafety {
    pub config: SimdConfig,
}

impl SimdSafety {
    pub fn new(config: SimdConfig) -> (r: Self)
        ensures
            r.config == config,
    {
        SimdSafety { config }
    }

    /// Whether a buffer starting at the numeric address meets the required
    /// alignment; trivially satisfied when alignment checking is disabled.
    pub fn check_alignment(&self, address: usize, required_alignment: usize) -> (r: Result<
        (),
        SimdError,
    >)
        requires
            required_alignment >= 1,
        ensures
            r is Ok <==> (!self.config.enable_alignment_check
                || address % required_alignment == 0),
            r is Err ==> r->Err_0 == SimdError::NotAligned,
    {
        if self.config.enable_alignment_check {
            if address % required_alignment != 0 {
                return Err(SimdError::NotAligned);
            }
        }
        Ok(())
    }

    /// Whether a buffer of `len` elements is long enough; trivially
    /// satisfied when bounds checking is disabled.
    pub fn check_bounds(&self, len: usize, required_len: usize) -> (r: Result<(), SimdError>)
        ensures
            r is Ok <==> (!self.config.enable_bounds_check || len >= required_len),
            r is Err ==> r->Err_0 == SimdError::InsufficientLength,
    {
        if self.config.enable_bounds_check && len < required_len {
            return Err(SimdError::InsufficientLength);
        }
        Ok(())
    }

    /// Whether matrix dimensions are non-zero and small enough that index
    /// arithmetic over four-byte elements cannot overflow.
    pub fn validate_matrix_dims(&self, m: usize, n: usize, k: usize) -> (r: Result<(), SimdError>)
        ensures
            r is Ok <==> spec_dims_valid(m as int, n as int, k as int),
            r is Err && (m == 0 || n == 0 || k == 0) ==> r->Err_0 == SimdError::ZeroDimension,
            r is Err && !(m == 0 || n == 0 || k == 0)
                ==> r->Err_0 == SimdError::DimensionOverflow,
    {
        if m == 0 || n == 0 || k == 0 {
            return Err(SimdError::ZeroDimension);
        }
        let a = match m.checked_mul(k) {
            Some(v) => v,
            None => {
                return Err(SimdError::DimensionOverflow);
            },
        };
        let b = match k.checked_mul(n) {
            Some(v) => v,
            None => {
                return Err(SimdError::DimensionOverflow);
            },
        };
        let max_index = match a.checked_add(b) {
            Some(v) => v,
            None => {
                return Err(SimdError::DimensionOverflow);
            },
        };
        if max_index > usize::MAX / 4 {
            return Err(SimdError::DimensionOverflow);
        }
        Ok(())
    }

    /// The widest vector step that stays inside the data when bounds
    /// checking is on; the requested width otherwise.
    pub fn safe_vector_width(&self, requested_width: usize, data_len: usize) -> (r: usize)
        ensures
            r == if self.config.enable_bounds_check && data_len < requested_width {
                data_len
            } else {
                requested_width
            },
    {
        if self.config.enable_bounds_check {
            if data_len < requested_width {
                data_len
            } else {
                requested_width
            }
        } else {
            requested_width
        }
    }
}

/// Whether matrix dimensions are non-zero and small enough that index
/// arithmetic over four-byte elements cannot overflow.
pub open spec fn spec_dims_valid(m: int, n: int, k: int) -> bool {
    m > 0 && n > 0 && k > 0 && m * k + k * n <= (usize::MAX as int) / 4
}

/// Element-wise transforms the kernels support. The leaky variant's slope
/// and the analytic formulas are the kernels' concern; dispatch only needs
/// the kind.
#[derive(Clone, Copy, Debug, PartialEq, Eq, Structural)]
pub enum ActivationKind {
    Sigmoid,
    Tanh,
    Relu,
    LeakyRelu,
    Gelu,
    Swish,
}

/// The implementation a dispatch decision routes an operation to.
#[derive(Clone, Copy, Debug, PartialEq, Eq, Structural)]
pub enum KernelPath {
    /// The input is manifestly invalid; the operation does nothing.
    NoOp,
    /// All checks passed on a vector-capable tier.
    Vector,
    /// Degrade to the scalar kernel, which is always correct.
    Scalar,
}

/// The dispatcher: configured once with a tier and safety toggles, it
/// routes every operation either to the tier's vector kernel or to the
/// scalar fallback, never to an error.
pub struct CpuSimdOps {
    pub config: SimdConfig,
    pub safety: SimdSafety,
    pub current_level: SimdLevel,
}

/// The dispatch decision for a matrix multiply `C = A·B` with row-major
/// A(m×k), B(k×n), C(m×n): a zero dimension is manifestly invalid and makes
/// the call a no-op; the vector kernel runs only when the dimensions cannot
/// overflow index arithmetic, every buffer is long enough, the tier has a
/// vector kernel and every buffer meets the tier's alignment; any of those
/// failures degrades to the scalar kernel.
pub open spec fn spec_matmul_path(
    ops: CpuSimdOps,
    m: int,
    n: int,
    k: int,
    a_len: int,
    b_len: int,
    c_len: int,
    a_addr: int,
    b_addr: int,
    c_addr: int,
) -> KernelPath {
    let bc = ops.safety.config.enable_bounds_check;
    let ac = ops.safety.config.enable_alignment_check;
    let al = spec_required_alignment(ops.current_level) as int;
    if m == 0 || n == 0 || k == 0 {
        KernelPath::NoOp
    } else if !spec_dims_valid(m, n, k) {
        KernelPath::Scalar
    } else if bc && (a_len < m * k || b_len < k * n || c_len < m * n) {
        KernelPath::Scalar
    } else if spec_has_vector_kernel(ops.current_level)
        && (!ac || (a_addr % al == 0 && b_addr % al == 0 && c_addr % al == 0)) {
        KernelPath::Vector
    } else {
        KernelPath::Scalar
    }
}

/// The dispatch decision for a matrix-vector multiply `y = A·x` with
/// row-major A(m×n): zero dimensions make it a no-op; short buffers degrade
/// to scalar; the vector kernel needs a vector-capable tier and aligned
/// buffers.
pub open spec fn spec_matvec_path(
    ops: CpuSimdOps,
    m: int,
    n: int,
    a_len: int,
    x_len: int,
    y_len: int,
    a_addr: int,
    x_addr: int,
    y_addr: int,
) -> KernelPath {
    let bc = ops.safety.config.enable_bounds_check;
    let ac = ops.safety.config.enable_alignment_check;
    let al = spec_required_alignment(ops.current_level) as int;
    if m == 0 || n == 0 {
        KernelPath::NoOp
    } else if bc && (a_len < m * n || x_len < n || y_len < m) {
        KernelPath::Scalar
    } else if spec_has_vector_kernel(ops.current_level)
        && (!ac || (a_addr % al == 0 && x_addr % al == 0 && y_addr % al == 0)) {
        KernelPath::Vector
    } else {
        KernelPath::Scalar
    }
}

/// The dispatch decision for adding a bias row to every matrix row.
pub open spec fn spec_add_bias_path(
    ops: CpuSimdOps,
    rows: int,
    cols: int,
    matrix_len: int,
    bias_len: int,
    matrix_addr: int,
    bias_addr: int,
) -> KernelPath {
    let bc = ops.safety.config.enable_bounds_check;
    let ac = ops.safety.config.enable_alignment_check;
    let al = spec_required_alignment(ops.current_level) as int;
    if rows == 0 || cols == 0 {
        KernelPath::NoOp
    } else if bc && (matrix_len < rows * cols || bias_len < cols) {
        KernelPath::Scalar
    } else if spec_has_vector_kernel(ops.current_level)
        && (!ac || (matrix_addr % al == 0 && bias_addr % al == 0)) {
        KernelPath::Vector
    } else {
        KernelPath::Scalar
    }
}

/// The dispatch decision for a derivative pass: empty or unequal-length
/// buffers make it a no-op; only the rectifier's step derivative is
/// vectorized, and the vector path needs both buffers aligned.
pub open spec fn spec_derivative_path(
    ops: CpuSimdOps,
    data_len: int,
    derivatives_len: int,
    kind: ActivationKind,
    data_addr: int,
    derivatives_addr: int,
) -> KernelPath {
    let ac = ops.safety.config.enable_alignment_check;
    let al = spec_required_alignment(ops.current_level) as int;
    if data_len == 0 || derivatives_len == 0 || data_len != derivatives_len {
        KernelPath::NoOp
    } else if kind != ActivationKind::Relu {
        KernelPath::Scalar
    } else if spec_has_vector_kernel(ops.current_level)
        && (!ac || (data_addr % al == 0 && derivatives_addr % al == 0)) {
        KernelPath::Vector
    } else {
        KernelPath::Scalar
    }
}

/// The dispatch decision for an element-wise activation pass: empty data is
/// a no-op, and only the rectifier kind is vectorized — every other kind
/// always takes the scalar formula, on every tier.
pub open spec fn spec_activation_path(
    ops: CpuSimdOps,
    len: int,
    kind: ActivationKind,
    data_addr: int,
) -> KernelPath {
    let ac = ops.safety.config.enable_alignment_check;
    let al = spec_required_alignment(ops.current_level) as int;
    if len == 0 {
        KernelPath::NoOp
    } else if kind != ActivationKind::Relu {
        KernelPath::Scalar
    } else if spec_has_vector_kernel(ops.current_level) && (!ac || data_addr % al == 0) {
        KernelPath::Vector
    } else {
        KernelPath::Scalar
    }
}

impl CpuSimdOps {
    /// A dispatcher for the configured tier (the explicit override when one
    /// is set, the best detected tier otherwise).
    pub fn new(config: SimdConfig) -> (r: Self)
        ensures
            r.config == config,
            r.safety.config == config,
            r.current_level == match config.simd_level {
                Some(level) => level,
                None => spec_best_level(config.cpu_features),
            },
    {
        let safety = SimdSafety::new(config);
        let current_level = match config.simd_level {
            Some(level) => level,
            None => config.cpu_features.best_simd_level(),
        };
        CpuSimdOps { config, safety, current_level }
    }

    /// A dispatcher for the portable baseline configuration.
    pub fn new_with_defaults() -> (r: Self)
        ensures
            r.current_level == SimdLevel::Scalar,
            r.safety.config == r.config,
            r.config.block_size == 64,
            r.config.num_threads >= 1,
            r.config.enable_bounds_check,
            r.config.enable_alignment_check,
    {
        let config = SimdConfig::default();
        CpuSimdOps::new(config)
    }

    /// The tier this dispatcher routes to.
    pub fn current_simd_level(&self) -> (r: SimdLevel)
        ensures
            r == self.current_level,
    {
        self.current_level
    }

    /// Whether the configured tier is actually supported by the detected
    /// features; the scalar and ARM tiers are always available.
    pub fn validate_configuration(&self) -> (r: Result<(), SimdError>)
        ensures
            r is Ok <==> match self.current_level {
                SimdLevel::Avx512F | SimdLevel::Avx512VNNI => self.config.cpu_features.has_avx512f,
                SimdLevel::Avx2 | SimdLevel::Avx2FMA => self.config.cpu_features.has_avx2,
                SimdLevel::Sse42 => self.config.cpu_features.has_sse42,
                SimdLevel::Scalar | SimdLevel::Neon => true,
            },
            r is Err ==> r->Err_0 == SimdError::UnsupportedLevel,
    {
        match self.current_level {
            SimdLevel::Avx512F | SimdLevel::Avx512VNNI => {
                if !self.config.cpu_features.has_avx512f {
                    return Err(SimdError::UnsupportedLevel);
                }
            },
            SimdLevel::Avx2 | SimdLevel::Avx2FMA => {
                if !self.config.cpu_features.has_avx2 {
                    return Err(SimdError::UnsupportedLevel);
                }
            },
            SimdLevel::Sse42 => {
                if !self.config.cpu_features.has_sse42 {
                    return Err(SimdError::UnsupportedLevel);
                }
            },
            SimdLevel::Scalar | SimdLevel::Neon => {},
        }
        Ok(())
    }

    /// Whether the tier has vectorized kernels.
    pub fn has_vector_kernel(&self) -> (r: bool)
        ensures
            r == spec_has_vector_kernel(self.current_level),
    {
        match self.current_level {
            SimdLevel::Avx2 | SimdLevel::Avx2FMA | SimdLevel::Avx512F | SimdLevel::Avx512VNNI
                | SimdLevel::Neon => true,
            SimdLevel::Scalar | SimdLevel::Sse42 => false,
        }
    }

    /// Decide the kernel for a matrix multiply. Buffer lengths are element
    /// counts; addresses are the buffers' numeric start addresses.
    pub fn select_matmul_kernel(
        &self,
        m: usize,
        n: usize,
        k: usize,
        a_len: usize,
        b_len: usize,
        c_len: usize,
        a_addr: usize,
        b_addr: usize,
        c_addr: usize,
    ) -> (r: KernelPath)
        requires
            m * n <= usize::MAX,
        ensures
            r == spec_matmul_path(
                *self, m as int, n as int, k as int,
                a_len as int, b_len as int, c_len as int,
                a_addr as int, b_addr as int, c_addr as int,
            ),
    {
        if m == 0 || n == 0 || k == 0 {
            return KernelPath::NoOp;
        }
        if self.safety.validate_matrix_dims(m, n, k).is_err() {
            return KernelPath::Scalar;
        }
        let a_required = m * k;
        let b_required = k * n;
        let c_required = m * n;
        if self.safety.check_bounds(a_len, a_required).is_err()
            || self.safety.check_bounds(b_len, b_required).is_err()
            || self.safety.check_bounds(c_len, c_required).is_err() {
            return KernelPath::Scalar;
        }
        if !self.has_vector_kernel() {
            return KernelPath::Scalar;
        }
        let alignment = self.current_level.required_alignment();
        if self.safety.check_alignment(a_addr, alignment).is_err()
            || self.safety.check_alignment(b_addr, alignment).is_err()
            || self.safety.check_alignment(c_addr, alignment).is_err() {
            return KernelPath::Scalar;
        }
        KernelPath::Vector
    }

    /// Decide the kernel for a matrix-vector multiply.
    pub fn select_matvec_kernel(
        &self,
        m: usize,
        n: usize,
        a_len: usize,
        x_len: usize,
        y_len: usize,
        a_addr: usize,
        x_addr: usize,
        y_addr: usize,
    ) -> (r: KernelPath)
        requires
            m * n <= usize::MAX,
        ensures
            r == spec_matvec_path(
                *self, m as int, n as int,
                a_len as int, x_len as int, y_len as int,
                a_addr as int, x_addr as int, y_addr as int,
            ),
    {
        if m == 0 || n == 0 {
            return KernelPath::NoOp;
        }
        let a_required = m * n;
        if self.safety.check_bounds(a_len, a_required).is_err()
            || self.safety.check_bounds(x_len, n).is_err()
            || self.safety.check_bounds(y_len, m).is_err() {
            return KernelPath::Scalar;
        }
        if !self.has_vector_kernel() {
            return KernelPath::Scalar;
        }
        let alignment = self.current_level.required_alignment();
        if self.safety.check_alignment(a_addr, alignment).is_err()
            || self.safety.check_alignment(x_addr, alignment).is_err()
            || self.safety.check_alignment(y_addr, alignment).is_err() {
            return KernelPath::Scalar;
        }
        KernelPath::Vector
    }

    /// Decide the kernel for a bias addition.
    pub fn select_add_bias_kernel(
        &self,
        rows: usize,
        cols: usize,
        matrix_len: usize,
        bias_len: usize,
        matrix_addr: usize,
        bias_addr: usize,
    ) -> (r: KernelPath)
        requires
            rows * cols <= usize::MAX,
        ensures
            r == spec_add_bias_path(
                *self, rows as int, cols as int,
                matrix_len as int, bias_len as int,
                matrix_addr as int, bias_addr as int,
            ),
    {
        if rows == 0 || cols == 0 {
            return KernelPath::NoOp;
        }
        let matrix_required = rows * cols;
        if self.safety.check_bounds(matrix_len, matrix_required).is_err()
            || self.safety.check_bounds(bias_len, cols).is_err() {
            return KernelPath::Scalar;
        }
        if !self.has_vector_kernel() {
            return KernelPath::Scalar;
        }
        let alignment = self.current_level.required_alignment();
        if self.safety.check_alignment(matrix_addr, alignment).is_err()
            || self.safety.check_alignment(bias_addr, alignment).is_err() {
            return KernelPath::Scalar;
        }
        KernelPath::Vector
    }

    /// Decide the kernel for an element-wise activation pass. Only the
    /// rectifier is vectorized; every other kind uses the scalar formula on
    /// every tier.
    pub fn select_activation_kernel(
        &self,
        len: usize,
        kind: ActivationKind,
        data_addr: usize,
    ) -> (r: KernelPath)
        ensures
            r == spec_activation_path(*self, len as int, kind, data_addr as int),
    {
        if len == 0 {
            return KernelPath::NoOp;
        }
        if !matches!(kind, ActivationKind::Relu) {
            return KernelPath::Scalar;
        }
        if !self.has_vector_kernel() {
            return KernelPath::Scalar;
        }
        let alignment = self.current_level.required_alignment();
        if self.safety.check_alignment(data_addr, alignment).is_err() {
            return KernelPath::Scalar;
        }
        KernelPath::Vector
    }

    /// Decide the kernel for a derivative pass: the input and output buffers
    /// must be non-empty and of equal length, and the vector path asks for
    /// both to be aligned.
    pub fn select_derivative_kernel(
        &self,
        data_len: usize,
        derivatives_len: usize,
        kind: ActivationKind,
        data_addr: usize,
        derivatives_addr: usize,
    ) -> (r: KernelPath)
        ensures
            r == spec_derivative_path(
                *self, data_len as int, derivatives_len as int, kind,
                data_addr as int, derivatives_addr as int,
            ),
    {
        if data_len == 0 || derivatives_len == 0 || data_len != derivatives_len {
            return KernelPath::NoOp;
        }
        if !matches!(kind, ActivationKind::Relu) {
            return KernelPath::Scalar;
        }
        if !self.has_vector_kernel() {
            return KernelPath::Scalar;
        }
        let alignment = self.current_level.required_alignment();
        if self.safety.check_alignment(data_addr, alignment).is_err()
            || self.safety.check_alignment(derivatives_addr, alignment).is_err() {
            return KernelPath::Scalar;
        }
        KernelPath::Vector
    }
}

/// Data-parallel training support: the kernels are pure over their buffers,
/// so independent jobs fan out across threads, each worker owning private
/// buffers. The fan-out itself is plumbing around this dispatcher.
pub struct ParallelTraining {
    pub simd_ops: CpuSimdOps,
}

impl ParallelTraining {
    /// A parallel-training context over the portable baseline dispatcher.
    pub fn new() -> (r: Self)
        ensures
            r.simd_ops.current_level == SimdLevel::Scalar,
            r.simd_ops.safety.config == r.simd_ops.config,
    {
        ParallelTraining { simd_ops: CpuSimdOps::new_with_defaults() }
    }

    /// A parallel-training context over a dispatcher for the configuration.
    pub fn new_with_config(config: SimdConfig) -> (r: Self)
        ensures
            r.simd_ops.config == config,
            r.simd_ops.safety.config == config,
            r.simd_ops.current_level == match config.simd_level {
                Some(level) => level,
                None => spec_best_level(config.cpu_features),
            },
    {
        ParallelTraining { simd_ops: CpuSimdOps::new(config) }
    }
}

} // verus!
