//! Numeric compute substrate for neural-network workloads: runtime capability
//! tiers for vectorized kernels, dispatch-safety validation, and a tiered
//! memory subsystem (arena, pools, tensor cache, reference-counted collection
//! and leak tracking).

mod arena;
mod cache;
mod errors;
mod gc;
mod leak;
mod manager;
mod pool;
mod prefetch;
mod simd;
mod tensor;

pub use arena::{align_offset, layout_valid, lemma_align_up_properties, spec_align_up, spec_is_power_of_two, ArenaAllocator, ArenaPtr, ArenaView, ChunkView, MemoryChunk};
pub use cache::{lemma_cache_budget, lemma_cache_evicts_lru, CachePriority, CacheView, CachedTensor, SmartCache, TensorModel};
pub use errors::{CascadeErrorCategory, ErrorCategory, ErrorContext, ErrorLogger, IoErrorCategory, MemoryError, NetworkErrorCategory, TrainingErrorCategory, ValidationErrorCategory, WasmErrorContext};
pub use gc::{lemma_gc_collects_zero_refs, GarbageCollector, GcView};
pub use leak::{lemma_leak_accounting, AllocationInfo, LeakView, MemoryLeakDetector};
pub use manager::{decimal_string, pool_has_key, pool_key_index, pool_with, pools_of, spec_decimal, spec_layer_name, MemoryManager, MemoryStats};
pub use pool::{lemma_pool_reuse, MemoryPool, PoolView};
pub use prefetch::{MemoryPrefetcher, PrefetchView};
pub use simd::{ActivationKind, CpuFeatures, CpuSimdOps, KernelPath, ParallelTraining, SimdConfig, SimdError, SimdLevel, SimdSafety};
pub use tensor::TensorView;
