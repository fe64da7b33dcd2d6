//! The memory-manager façade: named pools, an optional arena, and optional
//! leak tracking, caching, prefetching and reference-counted collection,
//! unified behind one configurable interface with aggregate statistics.
//!
//! A single manager instance assumes single-writer access; sharing one
//! across threads requires one external lock held for each whole call.

use vstd::prelude::*;
use vstd::arithmetic::div_mod::lemma_fundamental_div_mod;
use vstd::string::StringExecFns;

use crate::arena::{chunk_in_use, layout_valid, spec_align_up, ArenaAllocator, ArenaPtr};
use crate::cache::{cache_has_key, cache_key_index, CachePriority, SmartCache};
use crate::errors::MemoryError;
use crate::gc::{strs_of, GarbageCollector};
use crate::leak::{leak_sum, AllocationInfo, MemoryLeakDetector};
use crate::pool::{zero_buffer, MemoryPool, PoolView};
use crate::prefetch::{spec_bucket_of, MemoryPrefetcher};
use crate::tensor::{suffix_product, TensorView};

verus! {

/// Bytes per buffer element.
pub const ELEMENT_BYTES: usize = 4;

/// Point-in-time snapshot of the manager's accounting. The fragmentation
/// ratio is `free_buffers` over all buffers (`free_buffers` plus the
/// outstanding `buffer_count`), and the average allocation size is
/// `total_allocated` over `allocation_count`; both quotients are left to
/// the consumer to divide.
#[derive(Clone, Copy, Debug, PartialEq, Eq, Structural)]
pub struct MemoryStats {
    pub total_allocated: usize,
    pub available: usize,
    pub buffer_count: usize,
    pub free_buffers: usize,
    pub peak_memory: usize,
    pub current_memory: usize,
    pub allocation_count: u64,
    pub deallocation_count: u64,
}

/// The models of a sequence of named pools.
pub open spec fn pools_of(s: Seq<(String, MemoryPool)>) -> Seq<(Seq<char>, PoolView)> {
    Seq::new(s.len(), |i: int| (s[i].0@, s[i].1@))
}

/// Whether some pool carries the given name.
pub open spec fn pool_has_key(s: Seq<(Seq<char>, PoolView)>, k: Seq<char>) -> bool {
    exists|i: int| 0 <= i < s.len() && (#[trigger] s[i]).0 == k
}

/// The index of the pool with the name (unique when names are distinct).
pub open spec fn pool_key_index(s: Seq<(Seq<char>, PoolView)>, k: Seq<char>) -> int {
    choose|i: int| 0 <= i < s.len() && (#[trigger] s[i]).0 == k
}

/// The number of outstanding buffers over all pools.
pub open spec fn sum_allocated(s: Seq<(Seq<char>, PoolView)>) -> int
    decreases s.len(),
{
    if s.len() == 0 {
        0
    } else {
        sum_allocated(s.drop_last()) + s.last().1.allocated
    }
}

/// The number of free buffers over all pools.
pub open spec fn sum_available(s: Seq<(Seq<char>, PoolView)>) -> int
    decreases s.len(),
{
    if s.len() == 0 {
        0
    } else {
        sum_available(s.drop_last()) + s.last().1.available.len()
    }
}

/// Pool-count sums are never negative.
pub proof fn lemma_pool_sums_nonneg(s: Seq<(Seq<char>, PoolView)>)
    ensures
        sum_allocated(s) >= 0,
        sum_available(s) >= 0,
    decreases s.len(),
{
    if s.len() > 0 {
        lemma_pool_sums_nonneg(s.drop_last());
    }
}

/// An integer clamped into the range of `usize`.
pub open spec fn sat_usize(x: int) -> nat {
    if x > usize::MAX {
        usize::MAX as nat
    } else if x < 0 {
        0
    } else {
        x as nat
    }
}

/// The decimal digit character for a value below ten.
pub open spec fn spec_digit(d: nat) -> char {
    if d == 0 { '0' }
    else if d == 1 { '1' }
    else if d == 2 { '2' }
    else if d == 3 { '3' }
    else if d == 4 { '4' }
    else if d == 5 { '5' }
    else if d == 6 { '6' }
    else if d == 7 { '7' }
    else if d == 8 { '8' }
    else { '9' }
}

/// The decimal representation of a number, most significant digit first.
pub open spec fn spec_decimal(n: nat) -> Seq<char>
    decreases n,
{
    if n < 10 {
        seq![spec_digit(n)]
    } else {
        spec_decimal(n / 10) + seq![spec_digit(n % 10)]
    }
}

/// The name of a per-layer pool: a fixed prefix, the layer number in
/// decimal, and a suffix naming what the pool holds.
pub open spec fn spec_layer_name(i: nat, suffix: Seq<char>) -> Seq<char> {
    "layer_"@ + spec_decimal(i) + suffix
}

/// Whether a character is a decimal digit.
pub open spec fn is_digit_char(c: char) -> bool {
    c == '0' || c == '1' || c == '2' || c == '3' || c == '4'
        || c == '5' || c == '6' || c == '7' || c == '8' || c == '9'
}

/// The value of a decimal digit character.
pub open spec fn spec_digit_val(c: char) -> nat {
    if c == '0' { 0 }
    else if c == '1' { 1 }
    else if c == '2' { 2 }
    else if c == '3' { 3 }
    else if c == '4' { 4 }
    else if c == '5' { 5 }
    else if c == '6' { 6 }
    else if c == '7' { 7 }
    else if c == '8' { 8 }
    else { 9 }
}

/// The number a digit string denotes, most significant digit first.
pub open spec fn decimal_value(s: Seq<char>) -> nat
    decreases s.len(),
{
    if s.len() == 0 {
        0
    } else {
        decimal_value(s.drop_last()) * 10 + spec_digit_val(s.last())
    }
}

/// A decimal representation is never empty.
pub proof fn lemma_decimal_len(n: nat)
    ensures
        spec_decimal(n).len() >= 1,
{
}

/// A decimal representation consists of digit characters.
pub proof fn lemma_decimal_digits(n: nat)
    ensures
        forall|i: int| 0 <= i < spec_decimal(n).len()
            ==> is_digit_char(#[trigger] spec_decimal(n)[i]),
    decreases n,
{
    if n >= 10 {
        lemma_decimal_digits(n / 10);
        let s = spec_decimal(n);
        assert forall|i: int| 0 <= i < s.len() implies is_digit_char(#[trigger] s[i]) by {
            if i < spec_decimal(n / 10).len() {
                assert(s[i] == spec_decimal(n / 10)[i]);
            } else {
                assert(s[i] == spec_digit(n % 10));
            }
        }
    }
}

/// Reading a number's decimal representation back gives the number.
pub proof fn lemma_decimal_value(n: nat)
    ensures
        decimal_value(spec_decimal(n)) == n,
    decreases n,
{
    if n < 10 {
        let s = spec_decimal(n);
        assert(s.drop_last() =~= Seq::<char>::empty());
        assert(decimal_value(Seq::<char>::empty()) == 0);
        assert(s.last() == spec_digit(n));
        assert(spec_digit_val(spec_digit(n)) == n);
    } else {
        lemma_decimal_value(n / 10);
        let s = spec_decimal(n);
        assert(s.drop_last() =~= spec_decimal(n / 10));
        assert(s.last() == spec_digit(n % 10));
        assert(spec_digit_val(spec_digit(n % 10)) == n % 10);
        lemma_fundamental_div_mod(n as int, 10);
    }
}

/// Two numbers with the same decimal representation are the same number.
pub proof fn lemma_decimal_injective(a: nat, b: nat)
    requires
        spec_decimal(a) == spec_decimal(b),
    ensures
        a == b,
{
    lemma_decimal_value(a);
    lemma_decimal_value(b);
}

/// Layer-pool names determine the layer number and the suffix, provided the
/// suffix does not start with a digit (the digit run after the prefix is
/// then exactly the layer number).
pub proof fn lemma_layer_name_injective(i: nat, j: nat, s1: Seq<char>, s2: Seq<char>)
    requires
        spec_layer_name(i, s1) == spec_layer_name(j, s2),
        s1.len() >= 1,
        s2.len() >= 1,
        !is_digit_char(s1[0]),
        !is_digit_char(s2[0]),
    ensures
        i == j,
        s1 == s2,
{
    let p = "layer_"@;
    let a = spec_decimal(i);
    let b = spec_decimal(j);
    lemma_decimal_len(i);
    lemma_decimal_len(j);
    lemma_decimal_digits(i);
    lemma_decimal_digits(j);
    assert((p + a + s1).skip(p.len() as int) =~= a + s1);
    assert((p + b + s2).skip(p.len() as int) =~= b + s2);
    assert(a + s1 == b + s2);
    if a.len() < b.len() {
        assert((a + s1)[a.len() as int] == s1[0]);
        assert((b + s2)[a.len() as int] == b[a.len() as int]);
        assert(is_digit_char(b[a.len() as int]));
        assert(false);
    }
    if b.len() < a.len() {
        assert((b + s2)[b.len() as int] == s2[0]);
        assert((a + s1)[b.len() as int] == a[b.len() as int]);
        assert(is_digit_char(a[b.len() as int]));
        assert(false);
    }
    assert(a =~= (a + s1).take(a.len() as int));
    assert(b =~= (b + s2).take(b.len() as int));
    lemma_decimal_injective(i, j);
    assert(s1 =~= (a + s1).skip(a.len() as int));
    assert(s2 =~= (b + s2).skip(b.len() as int));
}

/// Two layer-pool names with different layer numbers or different suffixes
/// are different names.
pub proof fn lemma_layer_names_distinct(i: nat, j: nat, s1: Seq<char>, s2: Seq<char>)
    requires
        i != j || s1 != s2,
        s1.len() >= 1,
        s2.len() >= 1,
        !is_digit_char(s1[0]),
        !is_digit_char(s2[0]),
    ensures
        spec_layer_name(i, s1) != spec_layer_name(j, s2),
{
    if spec_layer_name(i, s1) == spec_layer_name(j, s2) {
        lemma_layer_name_injective(i, j, s1, s2);
    }
}

/// The digit character of a value below ten, as a one-character string.
fn digit_str(d: usize) -> (r: &'static str)
    requires
        d < 10,
    ensures
        r@ == seq![spec_digit(d as nat)],
{
    proof {
        reveal_strlit("0");
        reveal_strlit("1");
        reveal_strlit("2");
        reveal_strlit("3");
        reveal_strlit("4");
        reveal_strlit("5");
        reveal_strlit("6");
        reveal_strlit("7");
        reveal_strlit("8");
        reveal_strlit("9");
    }
    if d == 0 { "0" }
    else if d == 1 { "1" }
    else if d == 2 { "2" }
    else if d == 3 { "3" }
    else if d == 4 { "4" }
    else if d == 5 { "5" }
    else if d == 6 { "6" }
    else if d == 7 { "7" }
    else if d == 8 { "8" }
    else { "9" }
}

/// The decimal representation of a number.
pub fn decimal_string(n: usize) -> (r: String)
    ensures
        r@ == spec_decimal(n as nat),
    decreases n,
{
    let d = n % 10;
    let ds = digit_str(d);
    if n < 10 {
        ds.to_owned()
    } else {
        let mut s = decimal_string(n / 10);
        s.append(ds);
        proof {
            assert(s@ =~= spec_decimal(n as nat));
        }
        s
    }
}

/// The name of a per-layer pool.
fn layer_name(i: usize, suffix: &str) -> (r: String)
    ensures
        r@ == spec_layer_name(i as nat, suffix@),
{
    let mut s: String = "layer_".to_owned();
    let d = decimal_string(i);
    s.append(d.as_str());
    s.append(suffix);
    proof {
        assert(s@ =~= spec_layer_name(i as nat, suffix@));
    }
    s
}

/// Whether a fresh, empty pool of the given buffer size stands under the
/// given name.
pub open spec fn pool_with(p: Seq<(Seq<char>, PoolView)>, k: Seq<char>, size: nat) -> bool {
    pool_has_key(p, k) && {
        let e = p[pool_key_index(p, k)];
        e.1.buffer_size == size && e.1.allocated == 0 && e.1.available.len() == 0
    }
}

/// The per-layer pool suffixes are non-empty, start with an underscore (not
/// a digit) and are pairwise different.
proof fn lemma_suffix_facts()
    ensures
        "_neurons"@.len() >= 1 && !is_digit_char("_neurons"@[0]),
        "_weights"@.len() >= 1 && !is_digit_char("_weights"@[0]),
        "_gradients"@.len() >= 1 && !is_digit_char("_gradients"@[0]),
        "_neurons"@ != "_weights"@,
        "_neurons"@ != "_gradients"@,
        "_weights"@ != "_gradients"@,
{
    reveal_strlit("_neurons");
    reveal_strlit("_weights");
    reveal_strlit("_gradients");
    assert("_neurons"@[1] == 'n' && "_weights"@[1] == 'w');
    assert("_neurons"@.len() == 8 && "_gradients"@.len() == 10);
    assert("_weights"@.len() == 8);
}

/// A per-layer pool name starts with the letter of its fixed prefix, so it
/// differs from each of the utility pool names, which are pairwise
/// different as well.
proof fn lemma_utility_names_distinct(i: nat, suffix: Seq<char>)
    ensures
        spec_layer_name(i, suffix) != "activations"@,
        spec_layer_name(i, suffix) != "errors"@,
        spec_layer_name(i, suffix) != "temp"@,
        "activations"@ != "errors"@,
        "activations"@ != "temp"@,
        "errors"@ != "temp"@,
{
    reveal_strlit("layer_");
    reveal_strlit("activations");
    reveal_strlit("errors");
    reveal_strlit("temp");
    let name = spec_layer_name(i, suffix);
    assert(name[0] == 'l');
    assert("activations"@[0] == 'a' && "errors"@[0] == 'e' && "temp"@[0] == 't');
    assert("activations"@.len() == 11 && "errors"@.len() == 6 && "temp"@.len() == 4);
}

/// Memory manager for numeric workloads: named pools plus the optional
/// arena, leak ledger, tensor cache, prefetcher and collector.
pub struct MemoryManager {
    pub pools: Vec<(String, MemoryPool)>,
    pub arena: Option<ArenaAllocator>,
    pub leak_detector: Option<MemoryLeakDetector>,
    pub smart_cache: Option<SmartCache>,
    pub prefetcher: Option<MemoryPrefetcher>,
    pub garbage_collector: Option<GarbageCollector>,
    pub total_allocated: usize,
    pub peak_memory: usize,
    pub stats: MemoryStats,
    pub enable_zero_copy: bool,
    pub enable_arena: bool,
    pub enable_leak_detection: bool,
    pub enable_smart_cache: bool,
    pub enable_prefetching: bool,
    pub enable_gc: bool,
}

impl MemoryManager {
    /// Every component the manager owns is well formed and pool names are
    /// distinct.
    pub open spec fn wf(&self) -> bool {
        &&& forall|i: int, j: int| 0 <= i < j < self.pools@.len()
                ==> (#[trigger] self.pools@[i].0@) != (#[trigger] self.pools@[j].0@)
        &&& (self.arena matches Some(a) ==> a@.wf())
        &&& (self.leak_detector matches Some(l) ==> l@.wf())
        &&& (self.smart_cache matches Some(c) ==> c@.wf())
        &&& (self.prefetcher matches Some(p) ==> p@.wf())
        &&& (self.garbage_collector matches Some(g) ==> g@.wf())
    }

    /// The six feature flags agree between two manager states.
    pub open spec fn same_flags(&self, other: &MemoryManager) -> bool {
        &&& self.enable_zero_copy == other.enable_zero_copy
        &&& self.enable_arena == other.enable_arena
        &&& self.enable_leak_detection == other.enable_leak_detection
        &&& self.enable_smart_cache == other.enable_smart_cache
        &&& self.enable_prefetching == other.enable_prefetching
        &&& self.enable_gc == other.enable_gc
    }

    /// The statistics recomputed from the current pools and totals, with
    /// counts clamped into range.
    pub open spec fn stats_in_step(&self) -> bool {
        let p = pools_of(self.pools@);
        &&& self.stats.total_allocated == self.total_allocated
        &&& self.stats.current_memory == self.total_allocated
        &&& self.stats.peak_memory == self.peak_memory
        &&& self.stats.buffer_count == sat_usize(sum_allocated(p))
        &&& self.stats.free_buffers == sat_usize(sum_available(p))
        &&& self.stats.available == sat_usize(self.stats.free_buffers * ELEMENT_BYTES)
    }

    /// A manager with no pools and no optional components: zero-copy views
    /// allowed, everything else off until asked for.
    pub fn new() -> (r: Self)
        ensures
            r.wf(),
            r.stats_in_step(),
            r.pools@.len() == 0,
            r.arena is None,
            r.leak_detector is None,
            r.smart_cache is None,
            r.prefetcher is None,
            r.garbage_collector is None,
            r.total_allocated == 0,
            r.peak_memory == 0,
            r.stats.allocation_count == 0,
            r.stats.deallocation_count == 0,
            r.enable_zero_copy,
            !r.enable_arena,
            !r.enable_leak_detection,
            !r.enable_smart_cache,
            !r.enable_prefetching,
            !r.enable_gc,
    {
        MemoryManager {
            pools: Vec::new(),
            arena: None,
            leak_detector: None,
            smart_cache: None,
            prefetcher: None,
            garbage_collector: None,
            total_allocated: 0,
            peak_memory: 0,
            stats: MemoryStats {
                total_allocated: 0,
                available: 0,
                buffer_count: 0,
                free_buffers: 0,
                peak_memory: 0,
                current_memory: 0,
                allocation_count: 0,
                deallocation_count: 0,
            },
            enable_zero_copy: true,
            enable_arena: false,
            enable_leak_detection: false,
            enable_smart_cache: false,
            enable_prefetching: false,
            enable_gc: false,
        }
    }

    /// A manager with the feature flags chosen up front: a leak ledger when
    /// leak detection is on, and an eagerly allocated arena when the arena
    /// is on — sized to the request when that is a valid layout, and to a
    /// one-mebibyte fallback otherwise.
    pub fn with_advanced_features(
        enable_zero_copy: bool,
        enable_arena: bool,
        enable_leak_detection: bool,
        arena_chunk_size: usize,
    ) -> (r: Self)
        ensures
            r.wf(),
            r.stats_in_step(),
            r.pools@.len() == 0,
            r.total_allocated == 0,
            r.peak_memory == 0,
            r.stats.allocation_count == 0,
            r.stats.deallocation_count == 0,
            r.enable_zero_copy == enable_zero_copy,
            r.enable_arena == enable_arena,
            r.enable_leak_detection == enable_leak_detection,
            !r.enable_smart_cache,
            !r.enable_prefetching,
            !r.enable_gc,
            r.smart_cache is None,
            r.prefetcher is None,
            r.garbage_collector is None,
            enable_leak_detection <==> r.leak_detector is Some,
            enable_leak_detection ==> (r.leak_detector matches Some(l)
                && l@.active.len() == 0 && l@.counter == 0),
            enable_arena <==> r.arena is Some,
            // the arena's first chunk is allocated eagerly, empty, at the
            // default 64-byte alignment
            r.arena matches Some(a) ==> a@.wf() && a@.total == 0
                && a@.alignment == 64
                && a@.current == 0
                && a@.chunks.len() == 1
                && a@.chunks[0].offset == 0
                && a@.chunks[0].data.len() == a@.chunk_size
                && a@.chunk_size == if layout_valid(arena_chunk_size as int, 64) {
                    arena_chunk_size as nat
                } else {
                    0x100000 as nat
                },
    {
        let mut manager = MemoryManager::new();
        manager.enable_zero_copy = enable_zero_copy;
        manager.enable_arena = enable_arena;
        manager.enable_leak_detection = enable_leak_detection;
        if enable_leak_detection {
            manager.leak_detector = Some(MemoryLeakDetector::new());
        }
        if enable_arena {
            proof {
                reveal_with_fuel(crate::arena::spec_is_power_of_two, 8);
                assert(layout_valid(0x100000, 64));
            }
            let arena = match ArenaAllocator::new(arena_chunk_size, 64) {
                Ok(a) => a,
                Err(_) => {
                    // a mebibyte at 64-byte alignment is always a valid layout
                    let fallback = ArenaAllocator::new(0x100000, 64);
                    fallback.unwrap()
                },
            };
            manager.arena = Some(arena);
        }
        manager
    }

    /// A manager with pools pre-created for a known network shape: three
    /// pools per layer (neurons, weights, gradients) plus shared utility
    /// pools for activations, errors and temporaries.
    pub fn with_capacity(layer_sizes: &[usize]) -> (r: Self)
        requires
            forall|i: int| 0 <= i < layer_sizes@.len()
                ==> (#[trigger] layer_sizes@[i]) * layer_sizes@[i] <= usize::MAX,
        ensures
            r.wf(),
            forall|i: int| 0 <= i < layer_sizes@.len() ==> {
                &&& pool_with(pools_of(r.pools@), #[trigger] spec_layer_name(i as nat,
                    "_neurons"@), layer_sizes@[i] as nat)
                &&& pool_with(pools_of(r.pools@), spec_layer_name(i as nat, "_weights"@),
                    (layer_sizes@[i] * layer_sizes@[i]) as nat)
                &&& pool_with(pools_of(r.pools@), spec_layer_name(i as nat, "_gradients"@),
                    layer_sizes@[i] as nat)
            },
            pool_with(pools_of(r.pools@), "activations"@, 1024),
            pool_with(pools_of(r.pools@), "errors"@, 1024),
            pool_with(pools_of(r.pools@), "temp"@, 512),
    {
        let mut manager = MemoryManager::new();
        let n = layer_sizes.len();
        let mut i: usize = 0;
        while i < n
            invariant
                i <= n,
                n == layer_sizes@.len(),
                manager.wf(),
                forall|j: int| 0 <= j < layer_sizes@.len()
                    ==> (#[trigger] layer_sizes@[j]) * layer_sizes@[j] <= usize::MAX,
                forall|j: int| 0 <= j < i ==> {
                    &&& pool_with(pools_of(manager.pools@), #[trigger] spec_layer_name(j as nat,
                        "_neurons"@), layer_sizes@[j] as nat)
                    &&& pool_with(pools_of(manager.pools@), spec_layer_name(j as nat,
                        "_weights"@), (layer_sizes@[j] * layer_sizes@[j]) as nat)
                    &&& pool_with(pools_of(manager.pools@), spec_layer_name(j as nat,
                        "_gradients"@), layer_sizes@[j] as nat)
                },
            decreases n - i,
        {
            let size = layer_sizes[i];
            let name_n = layer_name(i, "_neurons");
            let name_w = layer_name(i, "_weights");
            let name_g = layer_name(i, "_gradients");
            manager.create_pool(name_n.as_str(), size);
            let ghost m1 = pools_of(manager.pools@);
            manager.create_pool(name_w.as_str(), size * size);
            let ghost m2 = pools_of(manager.pools@);
            manager.create_pool(name_g.as_str(), size);
            let ghost m3 = pools_of(manager.pools@);
            proof {
                lemma_suffix_facts();
                // this layer's three names are pairwise different, so each
                // pool survives the later creations of the same iteration
                lemma_layer_names_distinct(i as nat, i as nat, "_neurons"@, "_weights"@);
                lemma_layer_names_distinct(i as nat, i as nat, "_neurons"@, "_gradients"@);
                lemma_layer_names_distinct(i as nat, i as nat, "_weights"@, "_gradients"@);
                assert(pool_with(m1, spec_layer_name(i as nat, "_neurons"@), size as nat));
                assert(pool_with(m2, spec_layer_name(i as nat, "_neurons"@), size as nat));
                assert(pool_with(m2, spec_layer_name(i as nat, "_weights"@), (size * size) as nat));
                assert(pool_with(m3, spec_layer_name(i as nat, "_neurons"@), size as nat));
                assert(pool_with(m3, spec_layer_name(i as nat, "_weights"@), (size * size) as nat));
                assert(pool_with(m3, spec_layer_name(i as nat, "_gradients"@), size as nat));
                // earlier layers' names differ from all three new names
                assert forall|j: int| 0 <= j < i + 1 implies ({
                    &&& pool_with(m3, spec_layer_name(j as nat, "_neurons"@),
                        layer_sizes@[j] as nat)
                    &&& pool_with(m3, spec_layer_name(j as nat, "_weights"@),
                        (layer_sizes@[j] * layer_sizes@[j]) as nat)
                    &&& pool_with(m3, spec_layer_name(j as nat, "_gradients"@),
                        layer_sizes@[j] as nat)
                }) by {
                    if j < i {
                        lemma_layer_names_distinct(j as nat, i as nat, "_neurons"@, "_neurons"@);
                        lemma_layer_names_distinct(j as nat, i as nat, "_neurons"@, "_weights"@);
                        lemma_layer_names_distinct(j as nat, i as nat, "_neurons"@, "_gradients"@);
                        lemma_layer_names_distinct(j as nat, i as nat, "_weights"@, "_neurons"@);
                        lemma_layer_names_distinct(j as nat, i as nat, "_weights"@, "_weights"@);
                        lemma_layer_names_distinct(j as nat, i as nat, "_weights"@, "_gradients"@);
                        lemma_layer_names_distinct(j as nat, i as nat, "_gradients"@, "_neurons"@);
                        lemma_layer_names_distinct(j as nat, i as nat, "_gradients"@, "_weights"@);
                        lemma_layer_names_distinct(j as nat, i as nat, "_gradients"@, "_gradients"@);
                    }
                }
            }
            i = i + 1;
        }
        manager.create_pool("activations", 1024);
        let ghost u1 = pools_of(manager.pools@);
        manager.create_pool("errors", 1024);
        let ghost u2 = pools_of(manager.pools@);
        manager.create_pool("temp", 512);
        let ghost u3 = pools_of(manager.pools@);
        proof {
            lemma_suffix_facts();
            lemma_utility_names_distinct(0, "_neurons"@);
            assert(pool_with(u1, "activations"@, 1024));
            assert(pool_with(u2, "activations"@, 1024));
            assert(pool_with(u2, "errors"@, 1024));
            assert(pool_with(u3, "activations"@, 1024));
            assert(pool_with(u3, "errors"@, 1024));
            assert(pool_with(u3, "temp"@, 512));
            // every layer pool survives the three utility creations
            assert forall|j: int| 0 <= j < n implies ({
                &&& pool_with(u3, spec_layer_name(j as nat, "_neurons"@), layer_sizes@[j] as nat)
                &&& pool_with(u3, spec_layer_name(j as nat, "_weights"@),
                    (layer_sizes@[j] * layer_sizes@[j]) as nat)
                &&& pool_with(u3, spec_layer_name(j as nat, "_gradients"@),
                    layer_sizes@[j] as nat)
            }) by {
                lemma_utility_names_distinct(j as nat, "_neurons"@);
                lemma_utility_names_distinct(j as nat, "_weights"@);
                lemma_utility_names_distinct(j as nat, "_gradients"@);
            }
        }
        manager
    }

    /// The index of the pool with the given name, when one exists.
    fn find_pool(&self, name: &str) -> (r: Option<usize>)
        ensures
            r matches Some(i) ==> i < self.pools@.len()
                && self.pools@[i as int].0@ == name@
                && (forall|j: int| 0 <= j < i ==> (#[trigger] self.pools@[j].0@) != name@),
            r is None ==> !pool_has_key(pools_of(self.pools@), name@),
    {
        let n = self.pools.len();
        let mut i: usize = 0;
        while i < n
            invariant
                i <= n,
                n == self.pools@.len(),
                forall|j: int| 0 <= j < i ==> (#[trigger] self.pools@[j].0@) != name@,
            decreases n - i,
        {
            if str_eq(self.pools[i].0.as_str(), name) {
                return Some(i);
            }
            i = i + 1;
        }
        proof {
            assert forall|j: int| 0 <= j < self.pools@.len() implies
                (#[trigger] pools_of(self.pools@)[j]).0 != name@ by {
                assert(pools_of(self.pools@)[j].0 == self.pools@[j].0@);
            }
        }
        None
    }

    /// Create (or re-create, empty) a pool under the given name.
    pub fn create_pool(&mut self, name: &str, buffer_size: usize)
        requires
            old(self).wf(),
        ensures
            final(self).wf(),
            pool_has_key(pools_of(final(self).pools@), name@),
            // every pool that existed under another name is untouched
            forall|k: Seq<char>| k != name@ && pool_has_key(pools_of(old(self).pools@), k)
                ==> pool_has_key(pools_of(final(self).pools@), k)
                    && pools_of(final(self).pools@)[pool_key_index(pools_of(final(self).pools@), k)]
                        == pools_of(old(self).pools@)[pool_key_index(pools_of(old(self).pools@), k)],
            // the named pool is fresh
            ({
                let p = pools_of(final(self).pools@);
                let e = p[pool_key_index(p, name@)];
                e.1.available.len() == 0 && e.1.allocated == 0 && e.1.buffer_size == buffer_size
            }),
            final(self).pools@.len() <= old(self).pools@.len() + 1,
            final(self).arena == old(self).arena,
            final(self).leak_detector == old(self).leak_detector,
            final(self).smart_cache == old(self).smart_cache,
            final(self).prefetcher == old(self).prefetcher,
            final(self).garbage_collector == old(self).garbage_collector,
            final(self).total_allocated == old(self).total_allocated,
            final(self).stats == old(self).stats,
    {
        let pool = MemoryPool::new(name.to_owned(), buffer_size);
        match self.find_pool(name) {
            Some(i) => {
                let ghost pre = pools_of(self.pools@);
                proof {
                    assert forall|j: int| 0 <= j < i implies
                        (#[trigger] pre[j]).0 != name@ by {
                        assert(pre[j].0 == self.pools@[j].0@);
                    }
                    assert(pre[i as int].0 == name@);
                    assert forall|a: int, b: int| 0 <= a < b < pre.len() implies
                        (#[trigger] pre[a]).0 != (#[trigger] pre[b]).0 by {
                        assert(pre[a].0 == self.pools@[a].0@);
                        assert(pre[b].0 == self.pools@[b].0@);
                    }
                }
                self.pools[i] = (name.to_owned(), pool);
                proof {
                    lemma_pool_replace(pre, pools_of(self.pools@), i as int, name@);
                    assert forall|a: int, b: int| 0 <= a < b < self.pools@.len() implies
                        (#[trigger] self.pools@[a].0@) != (#[trigger] self.pools@[b].0@) by {
                        assert(pools_of(self.pools@)[a].0 == self.pools@[a].0@);
                        assert(pools_of(self.pools@)[b].0 == self.pools@[b].0@);
                    }
                }
            },
            None => {
                let ghost pre = pools_of(self.pools@);
                proof {
                    assert forall|j: int| 0 <= j < pre.len() implies
                        (#[trigger] pre[j]).0 != name@ by {
                        assert(pre[j].0 == self.pools@[j].0@);
                    }
                    assert forall|a: int, b: int| 0 <= a < b < pre.len() implies
                        (#[trigger] pre[a]).0 != (#[trigger] pre[b]).0 by {
                        assert(pre[a].0 == self.pools@[a].0@);
                        assert(pre[b].0 == self.pools@[b].0@);
                    }
                }
                self.pools.push((name.to_owned(), pool));
                proof {
                    lemma_pool_append(pre, pools_of(self.pools@), name@);
                    assert forall|a: int, b: int| 0 <= a < b < self.pools@.len() implies
                        (#[trigger] self.pools@[a].0@) != (#[trigger] self.pools@[b].0@) by {
                        assert(pools_of(self.pools@)[a].0 == self.pools@[a].0@);
                        assert(pools_of(self.pools@)[b].0 == self.pools@[b].0@);
                    }
                }
            },
        }
    }
}


impl MemoryManager {
    /// Recompute the derived statistics from the pools and totals; the
    /// allocation and deallocation counters are left as they are.
    fn update_stats(&mut self)
        ensures
            final(self).stats_in_step(),
            final(self).stats.allocation_count == old(self).stats.allocation_count,
            final(self).stats.deallocation_count == old(self).stats.deallocation_count,
            final(self).pools == old(self).pools,
            final(self).arena == old(self).arena,
            final(self).leak_detector == old(self).leak_detector,
            final(self).smart_cache == old(self).smart_cache,
            final(self).prefetcher == old(self).prefetcher,
            final(self).garbage_collector == old(self).garbage_collector,
            final(self).total_allocated == old(self).total_allocated,
            final(self).peak_memory == old(self).peak_memory,
            final(self).enable_zero_copy == old(self).enable_zero_copy,
            final(self).enable_arena == old(self).enable_arena,
            final(self).enable_leak_detection == old(self).enable_leak_detection,
            final(self).enable_smart_cache == old(self).enable_smart_cache,
            final(self).enable_prefetching == old(self).enable_prefetching,
            final(self).enable_gc == old(self).enable_gc,
    {
        let ghost p = pools_of(self.pools@);
        let n = self.pools.len();
        let mut buffer_count: usize = 0;
        let mut free_buffers: usize = 0;
        let mut i: usize = 0;
        proof {
            assert(p.take(0) =~= Seq::<(Seq<char>, PoolView)>::empty());
        }
        while i < n
            invariant
                i <= n,
                n == self.pools@.len(),
                p == pools_of(self.pools@),
                buffer_count == sat_usize(sum_allocated(p.take(i as int))),
                free_buffers == sat_usize(sum_available(p.take(i as int))),
            decreases n - i,
        {
            proof {
                assert(p.take(i + 1).drop_last() =~= p.take(i as int));
                assert(p.take(i + 1).last() == p[i as int]);
                lemma_pool_sums_nonneg(p.take(i as int));
                assert(p[i as int].1 == self.pools@[i as int].1@);
            }
            buffer_count = buffer_count.saturating_add(self.pools[i].1.allocated_count());
            free_buffers = free_buffers.saturating_add(self.pools[i].1.available_count());
            i = i + 1;
        }
        proof {
            assert(p.take(n as int) =~= p);
        }
        let available = match free_buffers.checked_mul(ELEMENT_BYTES) {
            Some(v) => v,
            None => usize::MAX,
        };
        self.stats = MemoryStats {
            total_allocated: self.total_allocated,
            available,
            buffer_count,
            free_buffers,
            peak_memory: self.peak_memory,
            current_memory: self.total_allocated,
            allocation_count: self.stats.allocation_count,
            deallocation_count: self.stats.deallocation_count,
        };
    }

    /// Hand out a zero-filled buffer of `size` elements from the named pool,
    /// counting the bytes against the totals and tracking the allocation in
    /// the leak ledger when one is kept. Fails exactly when no pool carries
    /// the name.
    pub fn allocate(&mut self, pool_name: &str, size: usize) -> (r: Result<Vec<u32>, MemoryError>)
        requires
            old(self).wf(),
            size * ELEMENT_BYTES <= usize::MAX,
            old(self).total_allocated + size * ELEMENT_BYTES <= usize::MAX,
            old(self).stats.allocation_count < u64::MAX,
            old(self).leak_detector matches Some(l) ==> l@.counter < usize::MAX,
            ({
                let p = pools_of(old(self).pools@);
                pool_has_key(p, pool_name@) ==> p[pool_key_index(p, pool_name@)].1.allocated
                    < usize::MAX
            }),
        ensures
            final(self).wf(),
            r is Ok <==> pool_has_key(pools_of(old(self).pools@), pool_name@),
            r is Err ==> r->Err_0 == MemoryError::PoolNotFound && *final(self) == *old(self),
            r is Ok ==> {
                let p0 = pools_of(old(self).pools@);
                let i = pool_key_index(p0, pool_name@);
                let bytes = size * ELEMENT_BYTES;
                &&& r->Ok_0@ == zero_buffer(size as nat)
                &&& pools_of(final(self).pools@) == p0.update(
                    i, (pool_name@, p0[i].1.after_allocate()))
                &&& final(self).total_allocated == old(self).total_allocated + bytes
                &&& final(self).peak_memory == if old(self).peak_memory
                        >= old(self).total_allocated + bytes {
                    old(self).peak_memory as int
                } else {
                    old(self).total_allocated + bytes
                }
                &&& final(self).stats.allocation_count == old(self).stats.allocation_count + 1
                &&& final(self).stats.deallocation_count == old(self).stats.deallocation_count
                &&& final(self).stats_in_step()
                &&& (old(self).leak_detector matches Some(l)
                    ==> final(self).leak_detector matches Some(l2)
                        && l2@ == l@.after_track(bytes as nat))
                &&& (old(self).leak_detector is None ==> final(self).leak_detector is None)
                &&& final(self).smart_cache == old(self).smart_cache
                &&& final(self).prefetcher == old(self).prefetcher
                &&& final(self).garbage_collector == old(self).garbage_collector
                &&& final(self).arena == old(self).arena
            },
    {
        let found = self.find_pool(pool_name);
        let i = match found {
            Some(i) => i,
            None => {
                proof {
                    assert(!pool_has_key(pools_of(self.pools@), pool_name@));
                }
                return Err(MemoryError::PoolNotFound);
            },
        };
        let ghost p0 = pools_of(self.pools@);
        proof {
            assert(p0[i as int].0 == pool_name@);
            assert(pool_has_key(p0, pool_name@));
            assert(pool_key_index(p0, pool_name@) == i as int) by {
                let j = pool_key_index(p0, pool_name@);
                assert(0 <= j < p0.len() && p0[j].0 == pool_name@);
                if j != i {
                    assert(p0[j].0 == self.pools@[j].0@);
                    assert(p0[i as int].0 == self.pools@[i as int].0@);
                }
            }
            assert(p0[i as int].1 == self.pools@[i as int].1@);
        }
        let buffer = match self.pools[i].1.allocate(size) {
            Ok(b) => b,
            Err(e) => {
                return Err(e);
            },
        };
        let byte_size = size * ELEMENT_BYTES;
        self.total_allocated = self.total_allocated + byte_size;
        if self.peak_memory < self.total_allocated {
            self.peak_memory = self.total_allocated;
        }
        self.stats.allocation_count = self.stats.allocation_count + 1;
        match &mut self.leak_detector {
            Some(detector) => {
                let _id = detector.track_allocation(byte_size);
            },
            None => {},
        }
        proof {
            assert(pools_of(self.pools@) =~= p0.update(
                i as int, (pool_name@, p0[i as int].1.after_allocate())));
            assert forall|a: int, b: int| 0 <= a < b < self.pools@.len() implies
                (#[trigger] self.pools@[a].0@) != (#[trigger] self.pools@[b].0@) by {
                assert(self.pools@[a].0@ == p0[a].0);
                assert(self.pools@[b].0@ == p0[b].0);
                assert(p0[a].0 == old(self).pools@[a].0@);
                assert(p0[b].0 == old(self).pools@[b].0@);
            }
        }
        self.update_stats();
        Ok(buffer)
    }

    /// Return a buffer to the named pool for reuse, counting the bytes off
    /// the totals. Fails exactly when no pool carries the name.
    pub fn deallocate(&mut self, pool_name: &str, buffer: Vec<u32>) -> (r: Result<
        (),
        MemoryError,
    >)
        requires
            old(self).wf(),
            buffer@.len() * ELEMENT_BYTES <= usize::MAX,
            old(self).stats.deallocation_count < u64::MAX,
        ensures
            final(self).wf(),
            r is Ok <==> pool_has_key(pools_of(old(self).pools@), pool_name@),
            r is Err ==> r->Err_0 == MemoryError::PoolNotFound,
            r is Ok ==> {
                let p0 = pools_of(old(self).pools@);
                let i = pool_key_index(p0, pool_name@);
                let bytes = buffer@.len() * ELEMENT_BYTES;
                &&& pools_of(final(self).pools@) == p0.update(
                    i, (pool_name@, p0[i].1.after_deallocate(buffer@)))
                &&& final(self).total_allocated == if old(self).total_allocated >= bytes {
                    old(self).total_allocated - bytes
                } else {
                    0
                }
                &&& final(self).stats.deallocation_count
                    == old(self).stats.deallocation_count + 1
                &&& final(self).stats.allocation_count == old(self).stats.allocation_count
                &&& final(self).stats_in_step()
                &&& final(self).leak_detector == old(self).leak_detector
                &&& final(self).smart_cache == old(self).smart_cache
                &&& final(self).prefetcher == old(self).prefetcher
                &&& final(self).garbage_collector == old(self).garbage_collector
                &&& final(self).arena == old(self).arena
            },
    {
        let found = self.find_pool(pool_name);
        let i = match found {
            Some(i) => i,
            None => {
                proof {
                    assert(!pool_has_key(pools_of(self.pools@), pool_name@));
                }
                return Err(MemoryError::PoolNotFound);
            },
        };
        let ghost p0 = pools_of(self.pools@);
        proof {
            assert(p0[i as int].0 == pool_name@);
            assert(pool_has_key(p0, pool_name@));
            assert(pool_key_index(p0, pool_name@) == i as int) by {
                let j = pool_key_index(p0, pool_name@);
                assert(0 <= j < p0.len() && p0[j].0 == pool_name@);
                if j != i {
                    assert(p0[j].0 == self.pools@[j].0@);
                    assert(p0[i as int].0 == self.pools@[i as int].0@);
                }
            }
            assert(p0[i as int].1 == self.pools@[i as int].1@);
        }
        let byte_size = buffer.len() * ELEMENT_BYTES;
        self.pools[i].1.deallocate(buffer);
        self.total_allocated = self.total_allocated.saturating_sub(byte_size);
        self.stats.deallocation_count = self.stats.deallocation_count + 1;
        proof {
            assert(pools_of(self.pools@) =~= p0.update(
                i as int, (pool_name@, p0[i as int].1.after_deallocate(buffer@))));
            assert forall|a: int, b: int| 0 <= a < b < self.pools@.len() implies
                (#[trigger] self.pools@[a].0@) != (#[trigger] self.pools@[b].0@) by {
                assert(self.pools@[a].0@ == p0[a].0);
                assert(self.pools@[b].0@ == p0[b].0);
                assert(p0[a].0 == old(self).pools@[a].0@);
                assert(p0[b].0 == old(self).pools@[b].0@);
            }
        }
        self.update_stats();
        Ok(())
    }

    /// Allocate `size` elements from the arena, returning a sub-allocation
    /// handle. Fails when the arena feature is off, when no arena exists, or
    /// when the arena cannot satisfy the request even by growing.
    pub fn arena_allocate(&mut self, size: usize) -> (r: Result<ArenaPtr, MemoryError>)
        requires
            old(self).wf(),
            size * ELEMENT_BYTES <= usize::MAX,
            old(self).total_allocated + size * ELEMENT_BYTES <= usize::MAX,
            old(self).arena matches Some(a) ==> a@.total + size * ELEMENT_BYTES <= usize::MAX,
        ensures
            final(self).wf(),
            !old(self).enable_arena ==> r == Err::<ArenaPtr, MemoryError>(
                MemoryError::ArenaDisabled) && *final(self) == *old(self),
            old(self).enable_arena && old(self).arena is None ==> r == Err::<
                ArenaPtr, MemoryError>(MemoryError::ArenaNotInitialized)
                && *final(self) == *old(self),
            old(self).enable_arena ==> (old(self).arena matches Some(a) ==> ({
                let bytes = size * ELEMENT_BYTES;
                let can = a@.some_chunk_fits(bytes as int, ELEMENT_BYTES as int)
                    || layout_valid(a@.grown_size(bytes as int), a@.alignment as int);
                &&& (r is Ok <==> can)
                &&& (r is Err ==> r->Err_0 == MemoryError::ArenaExhausted)
                &&& (r is Ok ==> (final(self).arena matches Some(a2)
                    && a2@.wf()
                    && a2@.total == a@.total + bytes
                    && a2@.chunk_size == a@.chunk_size
                    && a2@.alignment == a@.alignment
                    // the handle denotes the bytes just placed: it lies in a
                    // chunk, aligned, directly below the advanced cursor
                    && r->Ok_0.chunk < a2@.chunks.len()
                    && a2@.current == r->Ok_0.chunk
                    && r->Ok_0.offset as int % (ELEMENT_BYTES as int) == 0
                    && r->Ok_0.offset + bytes <= a2@.chunks[r->Ok_0.chunk as int].data.len()
                    && a2@.chunks[r->Ok_0.chunk as int].offset == r->Ok_0.offset + bytes
                    && a@.chunks.len() <= a2@.chunks.len() <= a@.chunks.len() + 1
                    && (forall|j: int| 0 <= j < a@.chunks.len()
                        ==> (#[trigger] a2@.chunks[j]).data == a@.chunks[j].data)
                    && (forall|j: int| 0 <= j < a@.chunks.len()
                        ==> a@.chunks[j].offset <= (#[trigger] a2@.chunks[j]).offset)
                    && (a@.chunks[a@.current as int].fits(bytes as int, ELEMENT_BYTES as int)
                        ==> r->Ok_0.chunk == a@.current
                            && r->Ok_0.offset == spec_align_up(
                                a@.chunks[a@.current as int].offset as int, ELEMENT_BYTES as int))
                    && (!a@.some_chunk_fits(bytes as int, ELEMENT_BYTES as int)
                        ==> r->Ok_0.chunk == a@.chunks.len()
                            && r->Ok_0.offset == 0
                            && a2@.chunks[a@.chunks.len() as int].data.len()
                                == a@.grown_size(bytes as int))
                    && final(self).total_allocated == old(self).total_allocated + bytes
                    && final(self).stats_in_step()))
            })),
            final(self).pools == old(self).pools,
            final(self).leak_detector == old(self).leak_detector,
            final(self).smart_cache == old(self).smart_cache,
            final(self).prefetcher == old(self).prefetcher,
            final(self).garbage_collector == old(self).garbage_collector,
            final(self).peak_memory == old(self).peak_memory,
            final(self).same_flags(old(self)),
    {
        if !self.enable_arena {
            return Err(MemoryError::ArenaDisabled);
        }
        let byte_size = size * ELEMENT_BYTES;
        let got = match &mut self.arena {
            None => {
                return Err(MemoryError::ArenaNotInitialized);
            },
            Some(arena) => arena.allocate(byte_size, ELEMENT_BYTES),
        };
        match got {
            Some(ptr) => {
                self.total_allocated = self.total_allocated + byte_size;
                self.update_stats();
                Ok(ptr)
            },
            None => Err(MemoryError::ArenaExhausted),
        }
    }

    /// Mark every arena chunk as free and zero the byte totals. All handles
    /// obtained earlier from the arena are invalidated.
    pub fn reset_arena(&mut self)
        requires
            old(self).wf(),
        ensures
            final(self).wf(),
            old(self).arena is None ==> *final(self) == *old(self),
            old(self).arena matches Some(a) ==> final(self).arena matches Some(a2)
                && a2@.total == 0
                && a2@.current == 0
                && a2@.chunks.len() == a@.chunks.len()
                && (forall|j: int| 0 <= j < a2@.chunks.len()
                    ==> (#[trigger] a2@.chunks[j]).offset == 0
                        && a2@.chunks[j].data == a@.chunks[j].data)
                && final(self).total_allocated == 0
                && final(self).stats_in_step()
                && final(self).pools == old(self).pools,
            final(self).leak_detector == old(self).leak_detector,
            final(self).smart_cache == old(self).smart_cache,
            final(self).prefetcher == old(self).prefetcher,
            final(self).garbage_collector == old(self).garbage_collector,
            final(self).peak_memory == old(self).peak_memory,
            final(self).same_flags(old(self)),
    {
        match &mut self.arena {
            Some(arena) => {
                arena.reset();
            },
            None => {
                return;
            },
        }
        self.total_allocated = 0;
        self.update_stats();
    }

    /// The outstanding allocations of the leak ledger, when one is kept.
    pub fn get_leak_report(&self) -> (r: Option<Vec<AllocationInfo>>)
        ensures
            r is Some <==> self.leak_detector is Some,
            self.leak_detector matches Some(l) ==> r matches Some(v)
                && v@.len() == l@.active.len()
                && (forall|i: int| 0 <= i < v@.len()
                    ==> (#[trigger] v@[i]).id == l@.active[i].0
                        && v@[i].size == l@.active[i].1),
    {
        match &self.leak_detector {
            Some(detector) => Some(detector.detect_leaks()),
            None => None,
        }
    }

    /// The bytes still tracked as outstanding, zero without a ledger.
    pub fn get_leaked_memory(&self) -> (r: usize)
        requires
            self.leak_detector matches Some(l) ==> leak_sum(l@.active) <= usize::MAX,
        ensures
            r == match self.leak_detector {
                Some(l) => leak_sum(l@.active),
                None => 0,
            },
    {
        match &self.leak_detector {
            Some(detector) => detector.leaked_memory_bytes(),
            None => 0,
        }
    }

    /// View a flat buffer under a shape without copying. Fails when
    /// zero-copy operations are disabled or the shape does not match.
    pub fn create_tensor_view<'a>(&self, data: &'a [u32], shape: &[usize]) -> (r: Result<
        TensorView<'a>,
        MemoryError,
    >)
        requires
            forall|i: int| 0 <= i <= shape@.len()
                ==> #[trigger] suffix_product(shape@, i) <= usize::MAX,
        ensures
            !self.enable_zero_copy ==> r == Err::<TensorView<'a>, MemoryError>(
                MemoryError::ZeroCopyDisabled),
            self.enable_zero_copy ==> {
                &&& (r is Ok <==> suffix_product(shape@, 0) == data@.len())
                &&& (r is Err ==> r->Err_0 == MemoryError::ShapeMismatch)
                &&& (r is Ok ==> r->Ok_0.wf() && r->Ok_0.data@ == data@
                    && r->Ok_0.shape@ == shape@)
            },
    {
        if !self.enable_zero_copy {
            return Err(MemoryError::ZeroCopyDisabled);
        }
        TensorView::from_slice(data, shape)
    }

    /// The current statistics snapshot.
    pub fn get_stats(&self) -> (r: MemoryStats)
        ensures
            r == self.stats,
    {
        self.stats
    }

    /// Drop every pool's free buffers and reset all byte totals.
    pub fn clear_all(&mut self)
        requires
            old(self).wf(),
        ensures
            final(self).wf(),
            final(self).pools@.len() == old(self).pools@.len(),
            forall|i: int| 0 <= i < final(self).pools@.len()
                ==> (#[trigger] pools_of(final(self).pools@)[i])
                    == (pools_of(old(self).pools@)[i].0,
                        pools_of(old(self).pools@)[i].1.after_clear()),
            final(self).total_allocated == 0,
            final(self).stats_in_step(),
            final(self).arena == old(self).arena,
            final(self).leak_detector == old(self).leak_detector,
            final(self).smart_cache == old(self).smart_cache,
            final(self).prefetcher == old(self).prefetcher,
            final(self).garbage_collector == old(self).garbage_collector,
            final(self).peak_memory == old(self).peak_memory,
            final(self).same_flags(old(self)),
    {
        let ghost p0 = pools_of(self.pools@);
        let n = self.pools.len();
        let mut i: usize = 0;
        while i < n
            invariant
                i <= n,
                n == self.pools@.len(),
                p0 == pools_of(old(self).pools@),
                p0.len() == n,
                old(self).wf(),
                self.arena == old(self).arena,
                self.leak_detector == old(self).leak_detector,
                self.smart_cache == old(self).smart_cache,
                self.prefetcher == old(self).prefetcher,
                self.garbage_collector == old(self).garbage_collector,
                self.total_allocated == old(self).total_allocated,
                self.peak_memory == old(self).peak_memory,
                self.stats == old(self).stats,
                self.same_flags(old(self)),
                forall|j: int| 0 <= j < i ==> (#[trigger] pools_of(self.pools@)[j])
                    == (p0[j].0, p0[j].1.after_clear()),
                forall|j: int| i <= j < n ==> (#[trigger] pools_of(self.pools@)[j]) == p0[j],
            decreases n - i,
        {
            let ghost pre = pools_of(self.pools@);
            self.pools[i].1.clear();
            proof {
                assert forall|j: int| 0 <= j < n && j != i implies
                    #[trigger] pools_of(self.pools@)[j] == pre[j] by {
                    assert(pools_of(self.pools@)[j] == (self.pools@[j].0@, self.pools@[j].1@));
                }
                assert(pools_of(self.pools@)[i as int]
                    == (self.pools@[i as int].0@, self.pools@[i as int].1@));
                assert(pre[i as int] == p0[i as int]);
                assert(self.pools@[i as int].0@ == pre[i as int].0);
                assert(self.pools@[i as int].1@ == pre[i as int].1.after_clear());
                assert(pools_of(self.pools@)[i as int] == (p0[i as int].0, p0[i as int].1.after_clear()));
            }
            i = i + 1;
        }
        self.total_allocated = 0;
        proof {
            assert forall|a: int, b: int| 0 <= a < b < self.pools@.len() implies
                (#[trigger] self.pools@[a].0@) != (#[trigger] self.pools@[b].0@) by {
                assert(pools_of(self.pools@)[a].0 == self.pools@[a].0@);
                assert(pools_of(self.pools@)[b].0 == self.pools@[b].0@);
                assert(p0[a].0 == old(self).pools@[a].0@);
                assert(p0[b].0 == old(self).pools@[b].0@);
            }
        }
        self.update_stats();
    }

    /// Switch on the cache, prefetcher and collector as asked, constructing
    /// each with its configured budget, distance or threshold.
    pub fn enable_advanced_features(
        &mut self,
        enable_cache: bool,
        enable_prefetching: bool,
        enable_gc: bool,
        cache_size: usize,
        prefetch_distance: usize,
        gc_threshold: usize,
    )
        requires
            old(self).wf(),
        ensures
            final(self).wf(),
            final(self).enable_smart_cache == enable_cache,
            final(self).enable_prefetching == enable_prefetching,
            final(self).enable_gc == enable_gc,
            enable_cache ==> (final(self).smart_cache matches Some(c)
                && c@.max_size == cache_size && c@.entries.len() == 0),
            enable_prefetching ==> (final(self).prefetcher matches Some(p)
                && p@.max_queue == 100 && p@.distance == prefetch_distance
                && p@.patterns.len() == 0 && p@.queue.len() == 0),
            enable_gc ==> (final(self).garbage_collector matches Some(g)
                && g@.threshold == gc_threshold && g@.counts.len() == 0),
            !enable_cache ==> final(self).smart_cache == old(self).smart_cache,
            !enable_prefetching ==> final(self).prefetcher == old(self).prefetcher,
            !enable_gc ==> final(self).garbage_collector == old(self).garbage_collector,
            final(self).pools == old(self).pools,
            final(self).arena == old(self).arena,
            final(self).leak_detector == old(self).leak_detector,
            final(self).stats == old(self).stats,
    {
        self.enable_smart_cache = enable_cache;
        self.enable_prefetching = enable_prefetching;
        self.enable_gc = enable_gc;
        if enable_cache {
            self.smart_cache = Some(SmartCache::new(cache_size));
        }
        if enable_prefetching {
            self.prefetcher = Some(MemoryPrefetcher::new(100, prefetch_distance));
        }
        if enable_gc {
            self.garbage_collector = Some(GarbageCollector::new(gc_threshold));
        }
    }

    /// Cache tensor data under a key at normal priority, when a cache is
    /// kept.
    pub fn cache_tensor(&mut self, key: String, data: Vec<u32>, shape: Vec<usize>)
        requires
            old(self).wf(),
            data@.len() * 4 <= usize::MAX,
        ensures
            final(self).wf(),
            old(self).smart_cache is None ==> *final(self) == *old(self),
            old(self).smart_cache matches Some(c) ==> final(self).smart_cache matches Some(c2)
                && c2@ == c@.after_put(key@, data@, shape@, CachePriority::Normal),
            final(self).pools == old(self).pools,
            final(self).stats == old(self).stats,
            final(self).arena == old(self).arena,
            final(self).leak_detector == old(self).leak_detector,
            final(self).total_allocated == old(self).total_allocated,
            final(self).peak_memory == old(self).peak_memory,
            final(self).same_flags(old(self)),
            final(self).prefetcher == old(self).prefetcher,
            final(self).garbage_collector == old(self).garbage_collector,
    {
        match &mut self.smart_cache {
            Some(cache) => {
                cache.put(key, data, shape, CachePriority::Normal);
            },
            None => {},
        }
    }

    /// Look a cached tensor up, counting the hit or miss, when a cache is
    /// kept.
    pub fn get_cached_tensor(&mut self, key: &str) -> (r: Option<Vec<u32>>)
        requires
            old(self).wf(),
            old(self).smart_cache matches Some(c) ==> c@.hits < u64::MAX && c@.misses < u64::MAX
                && (cache_has_key(c@.entries, key@)
                    ==> c@.entries[cache_key_index(c@.entries, key@)].1.access_count < u64::MAX),
        ensures
            final(self).wf(),
            old(self).smart_cache is None ==> r is None && *final(self) == *old(self),
            old(self).smart_cache matches Some(c) ==> final(self).smart_cache matches Some(c2)
                && c2@ == c@.after_get(key@)
                && (r is Some <==> cache_has_key(c@.entries, key@))
                && (r matches Some(data) ==> data@
                    == c@.entries[cache_key_index(c@.entries, key@)].1.data),
            final(self).pools == old(self).pools,
            final(self).stats == old(self).stats,
            final(self).arena == old(self).arena,
            final(self).leak_detector == old(self).leak_detector,
            final(self).total_allocated == old(self).total_allocated,
            final(self).peak_memory == old(self).peak_memory,
            final(self).same_flags(old(self)),
            final(self).prefetcher == old(self).prefetcher,
            final(self).garbage_collector == old(self).garbage_collector,
    {
        match &mut self.smart_cache {
            Some(cache) => cache.get(key),
            None => None,
        }
    }

    /// Record an access for pattern learning, when a prefetcher is kept.
    pub fn record_memory_access(&mut self, key: &str)
        requires
            old(self).wf(),
        ensures
            final(self).wf(),
            old(self).prefetcher is None ==> *final(self) == *old(self),
            old(self).prefetcher matches Some(p) ==> final(self).prefetcher matches Some(p2)
                && p2@ == p@.after_record(spec_bucket_of(key), key@),
            final(self).pools == old(self).pools,
            final(self).stats == old(self).stats,
            final(self).arena == old(self).arena,
            final(self).leak_detector == old(self).leak_detector,
            final(self).total_allocated == old(self).total_allocated,
            final(self).peak_memory == old(self).peak_memory,
            final(self).same_flags(old(self)),
            final(self).smart_cache == old(self).smart_cache,
            final(self).garbage_collector == old(self).garbage_collector,
    {
        match &mut self.prefetcher {
            Some(prefetcher) => {
                prefetcher.record_access(key);
            },
            None => {},
        }
    }

    /// The prefetch recommendations for a key; empty without a prefetcher.
    pub fn get_prefetch_recommendations(&self, current_key: &str) -> (r: Vec<String>)
        requires
            self.wf(),
        ensures
            strs_of(r@) == match self.prefetcher {
                Some(p) => p@.recommendations(spec_bucket_of(current_key), current_key@),
                None => Seq::<Seq<char>>::empty(),
            },
    {
        match &self.prefetcher {
            Some(prefetcher) => prefetcher.get_prefetch_recommendations(current_key),
            None => {
                let r: Vec<String> = Vec::new();
                proof {
                    assert(strs_of(r@) =~= Seq::<Seq<char>>::empty());
                }
                r
            },
        }
    }

    /// Raise a key's reference count, when a collector is kept.
    pub fn inc_ref(&mut self, key: &str)
        requires
            old(self).wf(),
            old(self).garbage_collector matches Some(g) ==> g@.count_of(key@) < u32::MAX,
        ensures
            final(self).wf(),
            old(self).garbage_collector is None ==> *final(self) == *old(self),
            old(self).garbage_collector matches Some(g)
                ==> final(self).garbage_collector matches Some(g2)
                    && g2@ == g@.after_inc(key@),
            final(self).pools == old(self).pools,
            final(self).stats == old(self).stats,
            final(self).arena == old(self).arena,
            final(self).leak_detector == old(self).leak_detector,
            final(self).total_allocated == old(self).total_allocated,
            final(self).peak_memory == old(self).peak_memory,
            final(self).same_flags(old(self)),
            final(self).smart_cache == old(self).smart_cache,
            final(self).prefetcher == old(self).prefetcher,
    {
        match &mut self.garbage_collector {
            Some(gc) => {
                gc.inc_ref(key);
            },
            None => {},
        }
    }

    /// Lower a key's reference count, when a collector is kept.
    pub fn dec_ref(&mut self, key: &str)
        requires
            old(self).wf(),
        ensures
            final(self).wf(),
            old(self).garbage_collector is None ==> *final(self) == *old(self),
            old(self).garbage_collector matches Some(g)
                ==> final(self).garbage_collector matches Some(g2)
                    && g2@ == g@.after_dec(key@),
            final(self).pools == old(self).pools,
            final(self).stats == old(self).stats,
            final(self).arena == old(self).arena,
            final(self).leak_detector == old(self).leak_detector,
            final(self).total_allocated == old(self).total_allocated,
            final(self).peak_memory == old(self).peak_memory,
            final(self).same_flags(old(self)),
            final(self).smart_cache == old(self).smart_cache,
            final(self).prefetcher == old(self).prefetcher,
    {
        match &mut self.garbage_collector {
            Some(gc) => {
                gc.dec_ref(key);
            },
            None => {},
        }
    }

    /// Sweep the collector's pending keys once its threshold is met; empty
    /// without a collector.
    pub fn collect_garbage(&mut self) -> (r: Vec<String>)
        requires
            old(self).wf(),
        ensures
            final(self).wf(),
            old(self).garbage_collector is None ==> r@.len() == 0 && *final(self) == *old(self),
            old(self).garbage_collector matches Some(g)
                ==> final(self).garbage_collector matches Some(g2)
                    && g2@ == g@.after_collect().0
                    && strs_of(r@) == g@.after_collect().1,
            final(self).pools == old(self).pools,
            final(self).stats == old(self).stats,
            final(self).arena == old(self).arena,
            final(self).leak_detector == old(self).leak_detector,
            final(self).total_allocated == old(self).total_allocated,
            final(self).peak_memory == old(self).peak_memory,
            final(self).same_flags(old(self)),
            final(self).smart_cache == old(self).smart_cache,
            final(self).prefetcher == old(self).prefetcher,
    {
        match &mut self.garbage_collector {
            Some(gc) => gc.collect_garbage(),
            None => Vec::new(),
        }
    }

    /// The cache counters: hits, misses, bytes held and entries held.
    pub fn get_cache_stats(&self) -> (r: Option<(u64, u64, usize, usize)>)
        ensures
            r is Some <==> self.smart_cache is Some,
            self.smart_cache matches Some(c) ==> r == Some(
                (c@.hits as u64, c@.misses as u64, c@.current as usize, c@.entries.len() as usize)),
    {
        match &self.smart_cache {
            Some(cache) => Some((cache.hits(), cache.misses(), cache.current_size(), cache.entry_count())),
            None => None,
        }
    }

    /// Drop empty free buffers from every pool and empty chunks from the
    /// arena, then refresh the statistics.
    pub fn defragment_pools(&mut self)
        requires
            old(self).wf(),
        ensures
            final(self).wf(),
            final(self).pools@.len() == old(self).pools@.len(),
            forall|i: int| 0 <= i < final(self).pools@.len()
                ==> (#[trigger] pools_of(final(self).pools@)[i])
                    == (pools_of(old(self).pools@)[i].0,
                        pools_of(old(self).pools@)[i].1.after_defrag()),
            final(self).stats_in_step(),
            old(self).arena is None ==> final(self).arena is None,
            // the arena keeps only its in-use chunks, or one fresh
            // default-size chunk when every chunk was free
            old(self).arena matches Some(a) ==> (final(self).arena matches Some(a2)
                && a2@.wf()
                && a2@.current == 0
                && a2@.total == a@.total
                && a2@.chunk_size == a@.chunk_size
                && a2@.alignment == a@.alignment
                && ({
                    let kept = a@.chunks.filter(chunk_in_use());
                    if kept.len() > 0 {
                        a2@.chunks == kept
                    } else {
                        a2@.chunks.len() == 1
                            && a2@.chunks[0].offset == 0
                            && a2@.chunks[0].data.len() == a@.chunk_size
                    }
                })),
            final(self).total_allocated == old(self).total_allocated,
            final(self).leak_detector == old(self).leak_detector,
            final(self).smart_cache == old(self).smart_cache,
            final(self).prefetcher == old(self).prefetcher,
            final(self).garbage_collector == old(self).garbage_collector,
            final(self).peak_memory == old(self).peak_memory,
            final(self).same_flags(old(self)),
    {
        let ghost p0 = pools_of(self.pools@);
        let n = self.pools.len();
        let mut i: usize = 0;
        while i < n
            invariant
                i <= n,
                n == self.pools@.len(),
                p0 == pools_of(old(self).pools@),
                p0.len() == n,
                old(self).wf(),
                self.arena == old(self).arena,
                self.leak_detector == old(self).leak_detector,
                self.smart_cache == old(self).smart_cache,
                self.prefetcher == old(self).prefetcher,
                self.garbage_collector == old(self).garbage_collector,
                self.total_allocated == old(self).total_allocated,
                self.peak_memory == old(self).peak_memory,
                self.stats == old(self).stats,
                self.same_flags(old(self)),
                forall|j: int| 0 <= j < i ==> (#[trigger] pools_of(self.pools@)[j])
                    == (p0[j].0, p0[j].1.after_defrag()),
                forall|j: int| i <= j < n ==> (#[trigger] pools_of(self.pools@)[j]) == p0[j],
            decreases n - i,
        {
            let ghost pre = pools_of(self.pools@);
            self.pools[i].1.drop_empty_buffers();
            proof {
                assert forall|j: int| 0 <= j < n && j != i implies
                    #[trigger] pools_of(self.pools@)[j] == pre[j] by {
                    assert(pools_of(self.pools@)[j] == (self.pools@[j].0@, self.pools@[j].1@));
                }
                assert(pools_of(self.pools@)[i as int]
                    == (self.pools@[i as int].0@, self.pools@[i as int].1@));
                assert(pre[i as int] == p0[i as int]);
                assert(self.pools@[i as int].0@ == pre[i as int].0);
                assert(self.pools@[i as int].1@ == pre[i as int].1.after_defrag());
                assert(pools_of(self.pools@)[i as int]
                    == (p0[i as int].0, p0[i as int].1.after_defrag()));
            }
            i = i + 1;
        }
        match &mut self.arena {
            Some(arena) => {
                arena.defragment();
            },
            None => {},
        }
        proof {
            assert forall|a: int, b: int| 0 <= a < b < self.pools@.len() implies
                (#[trigger] self.pools@[a].0@) != (#[trigger] self.pools@[b].0@) by {
                assert(pools_of(self.pools@)[a].0 == self.pools@[a].0@);
                assert(pools_of(self.pools@)[b].0 == self.pools@[b].0@);
                assert(p0[a].0 == old(self).pools@[a].0@);
                assert(p0[b].0 == old(self).pools@[b].0@);
            }
        }
        self.update_stats();
    }

    /// Tune for an access pattern: sequential access defragments the pools;
    /// other patterns currently change nothing.
    pub fn optimize_for_access_pattern(&mut self, pattern: &str)
        requires
            old(self).wf(),
        ensures
            final(self).wf(),
            pattern@ != "sequential"@ ==> *final(self) == *old(self),
            pattern@ == "sequential"@ ==> {
                &&& final(self).pools@.len() == old(self).pools@.len()
                &&& (forall|i: int| 0 <= i < final(self).pools@.len()
                    ==> (#[trigger] pools_of(final(self).pools@)[i])
                        == (pools_of(old(self).pools@)[i].0,
                            pools_of(old(self).pools@)[i].1.after_defrag()))
                &&& final(self).stats_in_step()
            },
    {
        if str_eq(pattern, "sequential") {
            self.defragment_pools();
        }
    }

    /// Number of pools.
    pub fn pool_count(&self) -> (r: usize)
        ensures
            r == self.pools@.len(),
    {
        self.pools.len()
    }

    /// Whether a pool with the name exists.
    pub fn has_pool(&self, name: &str) -> (r: bool)
        ensures
            r == pool_has_key(pools_of(self.pools@), name@),
    {
        let found = self.find_pool(name);
        match found {
            Some(i) => {
                proof {
                    assert(pools_of(self.pools@)[i as int].0 == name@);
                }
                true
            },
            None => false,
        }
    }

    /// Total bytes currently allocated through the pools and the arena.
    pub fn total_allocated(&self) -> (r: usize)
        ensures
            r == self.total_allocated,
    {
        self.total_allocated
    }
}

/// Whether two string slices hold the same characters.
fn str_eq(a: &str, b: &str) -> (r: bool)
    ensures
        r == (a@ == b@),
{
    let sa: String = a.to_owned();
    let sb: String = b.to_owned();
    sa == sb
}

/// After replacing the entry at a no-earlier-occurrence index with a fresh
/// pool under `name`, lookups behave as the contract of pool creation says.
proof fn lemma_pool_replace(
    pre: Seq<(Seq<char>, PoolView)>,
    post: Seq<(Seq<char>, PoolView)>,
    i: int,
    name: Seq<char>,
)
    requires
        0 <= i < pre.len(),
        post.len() == pre.len(),
        post[i].0 == name,
        forall|j: int| 0 <= j < pre.len() && j != i ==> #[trigger] post[j] == pre[j],
        forall|j: int| 0 <= j < i ==> (#[trigger] pre[j]).0 != name,
        forall|a: int, b: int| 0 <= a < b < pre.len()
            ==> (#[trigger] pre[a]).0 != (#[trigger] pre[b]).0,
        pre[i].0 == name,
    ensures
        pool_has_key(post, name),
        pool_key_index(post, name) == i,
        forall|a: int, b: int| 0 <= a < b < post.len()
            ==> (#[trigger] post[a]).0 != (#[trigger] post[b]).0,
        forall|k: Seq<char>| k != name && pool_has_key(pre, k)
            ==> pool_has_key(post, k)
                && post[pool_key_index(post, k)] == pre[pool_key_index(pre, k)],
{
    assert(post[i].0 == name);
    assert(pool_has_key(post, name));
    assert forall|a: int, b: int| 0 <= a < b < post.len() implies
        (#[trigger] post[a]).0 != (#[trigger] post[b]).0 by {
        assert(post[a] == if a == i { post[i] } else { pre[a] });
        assert(post[b] == if b == i { post[i] } else { pre[b] });
        assert(pre[a].0 != pre[b].0);
    }
    assert(pool_key_index(post, name) == i) by {
        let j = pool_key_index(post, name);
        assert(0 <= j < post.len() && post[j].0 == name);
        if j != i {
            assert(pre[j].0 == name);
            assert(pre[i].0 == name);
        }
    }
    assert forall|k: Seq<char>| k != name && pool_has_key(pre, k) implies
        pool_has_key(post, k)
            && post[pool_key_index(post, k)] == pre[pool_key_index(pre, k)] by {
        let j = pool_key_index(pre, k);
        assert(0 <= j < pre.len() && pre[j].0 == k);
        assert(j != i);
        assert(post[j] == pre[j]);
        assert(pool_has_key(post, k));
        let j2 = pool_key_index(post, k);
        assert(0 <= j2 < post.len() && post[j2].0 == k);
        if j2 != j {
            assert(post[j2] == if j2 == i { post[i] } else { pre[j2] });
            assert(j2 != i);
            assert(pre[j2].0 == k && pre[j].0 == k);
        }
    }
}

/// After appending a fresh pool under a name no existing pool carries,
/// lookups behave as the contract of pool creation says.
proof fn lemma_pool_append(
    pre: Seq<(Seq<char>, PoolView)>,
    post: Seq<(Seq<char>, PoolView)>,
    name: Seq<char>,
)
    requires
        post.len() == pre.len() + 1,
        post[pre.len() as int].0 == name,
        forall|j: int| 0 <= j < pre.len() ==> #[trigger] post[j] == pre[j],
        forall|j: int| 0 <= j < pre.len() ==> (#[trigger] pre[j]).0 != name,
        forall|a: int, b: int| 0 <= a < b < pre.len()
            ==> (#[trigger] pre[a]).0 != (#[trigger] pre[b]).0,
    ensures
        pool_has_key(post, name),
        pool_key_index(post, name) == pre.len(),
        forall|a: int, b: int| 0 <= a < b < post.len()
            ==> (#[trigger] post[a]).0 != (#[trigger] post[b]).0,
        forall|k: Seq<char>| k != name && pool_has_key(pre, k)
            ==> pool_has_key(post, k)
                && post[pool_key_index(post, k)] == pre[pool_key_index(pre, k)],
{
    let n = pre.len() as int;
    assert(pool_has_key(post, name));
    assert forall|a: int, b: int| 0 <= a < b < post.len() implies
        (#[trigger] post[a]).0 != (#[trigger] post[b]).0 by {
        if b < n {
            assert(pre[a].0 != pre[b].0);
        } else {
            assert(post[b].0 == name);
            assert(post[a] == pre[a]);
        }
    }
    assert(pool_key_index(post, name) == n) by {
        let j = pool_key_index(post, name);
        assert(0 <= j < post.len() && post[j].0 == name);
        if j < n {
            assert(pre[j].0 == name);
        }
    }
    assert forall|k: Seq<char>| k != name && pool_has_key(pre, k) implies
        pool_has_key(post, k)
            && post[pool_key_index(post, k)] == pre[pool_key_index(pre, k)] by {
        let j = pool_key_index(pre, k);
        assert(0 <= j < pre.len() && pre[j].0 == k);
        assert(post[j] == pre[j]);
        assert(pool_has_key(post, k));
        let j2 = pool_key_index(post, k);
        assert(0 <= j2 < post.len() && post[j2].0 == k);
        if j2 != j {
            if j2 < n {
                assert(pre[j2].0 == k && pre[j].0 == k);
            } else {
                assert(post[j2].0 == name);
            }
        }
    }
}

} // verus!
