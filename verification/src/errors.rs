//! Error conditions and debugging context for the compute core.

use vstd::prelude::*;

verus! {

/// Failure conditions raised by the memory subsystem and by zero-copy views.
///
/// These are configuration or precondition failures: they are reported to the
/// caller and never panic.
#[derive(Clone, Copy, Debug, PartialEq, Eq, Structural)]
pub enum MemoryError {
    /// The requested size/alignment pair does not describe a valid layout
    /// (the alignment is not a power of two, or the rounded size is too big).
    InvalidLayout,
    /// No pool with the requested name exists.
    PoolNotFound,
    /// Arena allocation was requested while the arena feature is disabled.
    ArenaDisabled,
    /// The arena feature is enabled but no arena was constructed.
    ArenaNotInitialized,
    /// The arena could not satisfy the request even after growing.
    ArenaExhausted,
    /// A zero-copy operation was requested while zero-copy is disabled.
    ZeroCopyDisabled,
    /// The product of the tensor shape does not match the data length.
    ShapeMismatch,
    /// An index has a different number of dimensions than the tensor.
    DimensionMismatch,
    /// An index coordinate lies outside its dimension.
    IndexOutOfBounds,
    /// Two buffers that must have equal lengths do not.
    LengthMismatch,
}


/// Whether some info entry carries the given key.
pub open spec fn info_has_key(s: Seq<(Seq<char>, Seq<char>)>, k: Seq<char>) -> bool {
    exists|i: int| 0 <= i < s.len() && (#[trigger] s[i]).0 == k
}

/// The index of the info entry carrying the key (unique when distinct).
pub open spec fn info_key_index(s: Seq<(Seq<char>, Seq<char>)>, k: Seq<char>) -> int {
    choose|i: int| 0 <= i < s.len() && (#[trigger] s[i]).0 == k
}

/// An info list after inserting a key/value pair: an existing key is
/// overwritten, a new one appended.
pub open spec fn info_insert(
    s: Seq<(Seq<char>, Seq<char>)>,
    k: Seq<char>,
    v: Seq<char>,
) -> Seq<(Seq<char>, Seq<char>)> {
    if info_has_key(s, k) {
        s.update(info_key_index(s, k), (k, v))
    } else {
        s.push((k, v))
    }
}

/// The models of a key/value list.
pub open spec fn infos_of(s: Seq<(String, String)>) -> Seq<(Seq<char>, Seq<char>)> {
    Seq::new(s.len(), |i: int| (s[i].0@, s[i].1@))
}

/// Debugging context attached to reported failures: the operation under
/// way and where in the network and the training run it happened.
#[derive(Debug, Clone)]
pub struct ErrorContext {
    pub operation: String,
    pub network_id: Option<String>,
    pub layer_index: Option<usize>,
    pub neuron_index: Option<usize>,
    pub epoch: Option<usize>,
    pub additional_info: Vec<(String, String)>,
}

impl ErrorContext {
    /// A context naming only the operation.
    pub fn new(operation: &str) -> (r: Self)
        ensures
            r.operation@ == operation@,
            r.network_id is None,
            r.layer_index is None,
            r.neuron_index is None,
            r.epoch is None,
            r.additional_info@.len() == 0,
    {
        ErrorContext {
            operation: operation.to_owned(),
            network_id: None,
            layer_index: None,
            neuron_index: None,
            epoch: None,
            additional_info: Vec::new(),
        }
    }

    /// The same context, with the network named.
    pub fn with_network_id(self, id: &str) -> (r: Self)
        ensures
            r.network_id matches Some(s) && s@ == id@,
            r.operation == self.operation,
            r.layer_index == self.layer_index,
            r.neuron_index == self.neuron_index,
            r.epoch == self.epoch,
            r.additional_info == self.additional_info,
    {
        ErrorContext { network_id: Some(id.to_owned()), ..self }
    }

    /// The same context, with the layer named.
    pub fn with_layer(self, index: usize) -> (r: Self)
        ensures
            r.layer_index == Some(index),
            r.operation == self.operation,
            r.network_id == self.network_id,
            r.neuron_index == self.neuron_index,
            r.epoch == self.epoch,
            r.additional_info == self.additional_info,
    {
        ErrorContext { layer_index: Some(index), ..self }
    }

    /// The same context, with the neuron named.
    pub fn with_neuron(self, index: usize) -> (r: Self)
        ensures
            r.neuron_index == Some(index),
            r.operation == self.operation,
            r.network_id == self.network_id,
            r.layer_index == self.layer_index,
            r.epoch == self.epoch,
            r.additional_info == self.additional_info,
    {
        ErrorContext { neuron_index: Some(index), ..self }
    }

    /// The same context, with the epoch named.
    pub fn with_epoch(self, epoch: usize) -> (r: Self)
        ensures
            r.epoch == Some(epoch),
            r.operation == self.operation,
            r.network_id == self.network_id,
            r.layer_index == self.layer_index,
            r.neuron_index == self.neuron_index,
            r.additional_info == self.additional_info,
    {
        ErrorContext { epoch: Some(epoch), ..self }
    }

    /// The same context, with one more key/value pair of free-form detail;
    /// a repeated key overwrites the earlier value.
    pub fn with_info(self, key: &str, value: &str) -> (r: Self)
        requires
            forall|i: int, j: int| 0 <= i < j < self.additional_info@.len()
                ==> (#[trigger] self.additional_info@[i]).0@
                    != (#[trigger] self.additional_info@[j]).0@,
        ensures
            infos_of(r.additional_info@) == info_insert(infos_of(self.additional_info@), key@, value@),
            r.operation == self.operation,
            r.network_id == self.network_id,
            r.layer_index == self.layer_index,
            r.neuron_index == self.neuron_index,
            r.epoch == self.epoch,
            forall|i: int, j: int| 0 <= i < j < r.additional_info@.len()
                ==> (#[trigger] r.additional_info@[i]).0@
                    != (#[trigger] r.additional_info@[j]).0@,
    {
        let mut me = self;
        let k: String = key.to_owned();
        let ghost pre = infos_of(me.additional_info@);
        let n = me.additional_info.len();
        let mut i: usize = 0;
        while i < n
            invariant
                i <= n,
                n == me.additional_info@.len(),
                k@ == key@,
                pre == infos_of(me.additional_info@),
                pre == infos_of(self.additional_info@),
                me.operation == self.operation,
                me.network_id == self.network_id,
                me.layer_index == self.layer_index,
                me.neuron_index == self.neuron_index,
                me.epoch == self.epoch,
                forall|a: int, b: int| 0 <= a < b < me.additional_info@.len()
                    ==> (#[trigger] me.additional_info@[a]).0@
                        != (#[trigger] me.additional_info@[b]).0@,
                forall|j: int| 0 <= j < i ==> (#[trigger] pre[j]).0 != key@,
            decreases n - i,
        {
            if me.additional_info[i].0 == k {
                proof {
                    assert(pre[i as int].0 == key@);
                    assert(info_has_key(pre, key@));
                    assert(info_key_index(pre, key@) == i as int) by {
                        let j = info_key_index(pre, key@);
                        assert(0 <= j < pre.len() && pre[j].0 == key@);
                    }
                }
                me.additional_info[i].1 = value.to_owned();
                proof {
                    assert(infos_of(me.additional_info@) =~= info_insert(pre, key@, value@));
                }
                return me;
            }
            proof {
                assert(pre[i as int].0 == me.additional_info@[i as int].0@);
            }
            i = i + 1;
        }
        proof {
            assert(!info_has_key(pre, key@));
        }
        me.additional_info.push((k, value.to_owned()));
        proof {
            assert(infos_of(me.additional_info@) =~= info_insert(pre, key@, value@));
            assert forall|a: int, b: int| 0 <= a < b < me.additional_info@.len() implies
                (#[trigger] me.additional_info@[a]).0@
                    != (#[trigger] me.additional_info@[b]).0@ by {
                if b == me.additional_info@.len() - 1 {
                    assert(me.additional_info@[b].0@ == key@);
                    assert(pre[a].0 == me.additional_info@[a].0@);
                    assert(pre[a].0 != key@);
                }
            }
        }
        me
    }
}

/// Context attached to failures that cross the browser boundary: the
/// operation and what the environment offered when it failed.
#[derive(Debug)]
pub struct WasmErrorContext {
    pub operation: String,
    pub memory_available: Option<usize>,
    pub memory_used: Option<usize>,
    pub wasm_memory_pages: Option<u32>,
    pub browser_info: Option<String>,
    pub webgl_support: Option<bool>,
    pub webgpu_support: Option<bool>,
    pub fallback_implementation: Option<String>,
}

impl WasmErrorContext {
    /// A context naming only the operation.
    pub fn new(operation: &str) -> (r: Self)
        ensures
            r.operation@ == operation@,
            r.memory_available is None,
            r.memory_used is None,
            r.wasm_memory_pages is None,
            r.browser_info is None,
            r.webgl_support is None,
            r.webgpu_support is None,
            r.fallback_implementation is None,
    {
        WasmErrorContext {
            operation: operation.to_owned(),
            memory_available: None,
            memory_used: None,
            wasm_memory_pages: None,
            browser_info: None,
            webgl_support: None,
            webgpu_support: None,
            fallback_implementation: None,
        }
    }

    /// Probe the browser environment. Outside a browser there is nothing to
    /// probe, so the context is left as it is.
    pub fn detect_wasm_environment(&mut self)
        ensures
            *final(self) == *old(self),
    {
    }
}

/// Severity threshold and toggles for error reporting. The level mirrors
/// the conventional ordering where higher values mean more verbose.
pub struct ErrorLogger {
    pub log_level: u8,
    pub structured_logging: bool,
    pub performance_tracking: bool,
}

impl ErrorLogger {
    /// A logger at the warning level with structured output.
    pub fn new() -> (r: Self)
        ensures
            r.log_level == 2,
            r.structured_logging,
            !r.performance_tracking,
    {
        ErrorLogger { log_level: 2, structured_logging: true, performance_tracking: false }
    }

    /// The same logger at the given level.
    pub fn with_level(self, level: u8) -> (r: Self)
        ensures
            r.log_level == level,
            r.structured_logging == self.structured_logging,
            r.performance_tracking == self.performance_tracking,
    {
        ErrorLogger { log_level: level, ..self }
    }

    /// The same logger with structured output switched on or off.
    pub fn with_structured_logging(self, enabled: bool) -> (r: Self)
        ensures
            r.structured_logging == enabled,
            r.log_level == self.log_level,
            r.performance_tracking == self.performance_tracking,
    {
        ErrorLogger { structured_logging: enabled, ..self }
    }

    /// The same logger with performance tracking switched on or off.
    pub fn with_performance_tracking(self, enabled: bool) -> (r: Self)
        ensures
            r.performance_tracking == enabled,
            r.log_level == self.log_level,
            r.structured_logging == self.structured_logging,
    {
        ErrorLogger { performance_tracking: enabled, ..self }
    }
}

/// Coarse classification of network-structure failures.
#[derive(Debug, Clone, PartialEq)]
pub enum NetworkErrorCategory {
    Topology,
    Weights,
    Layers,
    Connections,
    Activation,
    Propagation,
}

/// Coarse classification of training failures.
#[derive(Debug, Clone, PartialEq)]
pub enum TrainingErrorCategory {
    Algorithm,
    Convergence,
    Gradients,
    LearningRate,
    Iteration,
    StopCriteria,
}

/// Coarse classification of cascade-correlation failures.
#[derive(Debug, Clone, PartialEq)]
pub enum CascadeErrorCategory {
    CandidateGeneration,
    CandidateTraining,
    CandidateSelection,
    TopologyModification,
    CorrelationCalculation,
    OutputTraining,
}

/// Coarse classification of validation failures.
#[derive(Debug, Clone, PartialEq)]
pub enum ValidationErrorCategory {
    InputData,
    OutputData,
    NetworkConfig,
    TrainingParams,
    CascadeParams,
}

/// Coarse classification of input/output failures.
#[derive(Debug, Clone, PartialEq)]
pub enum IoErrorCategory {
    FileAccess,
    Serialization,
    Format,
    NetworkIo,
    DataIo,
}

/// One classification across every failure domain.
#[derive(Debug, Clone, PartialEq)]
pub enum ErrorCategory {
    Network(NetworkErrorCategory),
    Training(TrainingErrorCategory),
    Cascade(CascadeErrorCategory),
    Validation(ValidationErrorCategory),
    Io(IoErrorCategory),
    Parallel,
    Memory,
    Performance,
    Compatibility,
}

} // verus!
