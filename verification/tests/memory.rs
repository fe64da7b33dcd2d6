use ruv_fann::{
    align_offset, decimal_string, ArenaAllocator, GarbageCollector, MemoryError,
    MemoryLeakDetector, MemoryManager, MemoryPool, MemoryPrefetcher, TensorView,
};

#[test]
fn test_memory_manager_creation() {
    let manager = MemoryManager::new();
    assert_eq!(manager.total_allocated(), 0);
    assert_eq!(manager.pool_count(), 0);
}

#[test]
fn test_pool_creation() {
    let mut manager = MemoryManager::new();
    manager.create_pool("test", 100);
    assert_eq!(manager.pool_count(), 1);
    assert!(manager.has_pool("test"));
}

#[test]
fn test_allocation_deallocation() {
    let mut manager = MemoryManager::new();
    manager.create_pool("test", 100);

    // Allocate buffer
    let buffer = manager.allocate("test", 50).unwrap();
    assert_eq!(buffer.len(), 50);
    assert!(manager.total_allocated() > 0);

    // Deallocate buffer
    manager.deallocate("test", buffer).unwrap();
    // Note: total_allocated might not be 0 due to pool reuse
}

#[test]
fn test_memory_stats() {
    let mut manager = MemoryManager::new();
    manager.create_pool("test", 100);

    let stats = manager.get_stats();
    assert_eq!(stats.buffer_count, 0);
    assert_eq!(stats.total_allocated, 0);

    let _buffer = manager.allocate("test", 50).unwrap();
    let stats = manager.get_stats();
    assert_eq!(stats.buffer_count, 1);
    assert!(stats.total_allocated > 0);
}

#[test]
fn test_pool_reuse() {
    let mut pool = MemoryPool::new("test".to_string(), 100);

    // Allocate and deallocate
    let buffer1 = pool.allocate(50).unwrap();
    pool.deallocate(buffer1);

    // Allocate again - should reuse
    let buffer2 = pool.allocate(50).unwrap();
    assert_eq!(buffer2.len(), 50);
    assert_eq!(pool.available_count(), 0);
    assert_eq!(pool.allocated_count(), 1);
}

#[test]
fn test_tensor_view_creation() {
    let data: Vec<u32> = vec![1.0f32, 2.0, 3.0, 4.0, 5.0, 6.0]
        .into_iter()
        .map(f32::to_bits)
        .collect();
    let shape = vec![2, 3];

    let view = TensorView::from_slice(&data, &shape).unwrap();

    assert_eq!(view.shape().as_slice(), &[2, 3]);
    assert_eq!(view.len(), 6);
    assert!(!view.is_empty());

    // Test element access
    assert_eq!(view.get(&[0, 0]).unwrap(), 1.0f32.to_bits());
    assert_eq!(view.get(&[0, 1]).unwrap(), 2.0f32.to_bits());
    assert_eq!(view.get(&[1, 2]).unwrap(), 6.0f32.to_bits());
}

#[test]
fn test_tensor_view_bounds_checking() {
    let data: Vec<u32> = vec![1.0f32, 2.0, 3.0, 4.0]
        .into_iter()
        .map(f32::to_bits)
        .collect();
    let shape = vec![2, 2];

    let view = TensorView::from_slice(&data, &shape).unwrap();

    // Valid access
    assert_eq!(view.get(&[0, 0]).unwrap(), 1.0f32.to_bits());

    // Out of bounds
    assert!(view.get(&[2, 0]).is_err());
    assert!(view.get(&[0, 2]).is_err());
    assert!(view.get(&[0]).is_err()); // Wrong dimensions
}

#[test]
fn test_memory_leak_detector() {
    let mut detector = MemoryLeakDetector::new();

    let id1 = detector.track_allocation(100);
    let _id2 = detector.track_allocation(200);

    assert_eq!(detector.leaked_memory_bytes(), 300);

    detector.track_deallocation(id1);
    assert_eq!(detector.leaked_memory_bytes(), 200);

    let leaks = detector.detect_leaks();
    assert_eq!(leaks.len(), 1);
    assert_eq!(leaks[0].size, 200);
}

#[test]
fn test_arena_allocator() {
    let mut arena = ArenaAllocator::new(1024, 8).unwrap();

    // Allocate some memory
    let _ptr1 = arena.allocate(100, 8).unwrap();
    let _ptr2 = arena.allocate(200, 8).unwrap();

    assert_eq!(arena.total_allocated(), 300);
    assert!(arena.chunk_count() >= 1);

    // Reset arena
    arena.reset();
    assert_eq!(arena.total_allocated(), 0);
}

#[test]
fn test_advanced_memory_manager() {
    let mut manager = MemoryManager::with_advanced_features(
        true, // enable_zero_copy
        true, // enable_arena
        true, // enable_leak_detection
        4096, // arena_chunk_size
    );

    // Test arena allocation
    let _ptr = manager.arena_allocate(100).unwrap();

    // Test pool allocation
    manager.create_pool("test", 100);
    let buffer = manager.allocate("test", 50).unwrap();
    assert_eq!(buffer.len(), 50);

    // Check stats
    let stats = manager.get_stats();
    assert!(stats.total_allocated > 0);
    assert!(stats.allocation_count > 0);
}

#[test]
fn test_memory_manager_with_capacity() {
    let layer_sizes = vec![10, 20, 30];
    let manager = MemoryManager::with_capacity(&layer_sizes);

    // Should have created pools for each layer
    assert!(manager.has_pool("layer_0_neurons"));
    assert!(manager.has_pool("layer_1_weights"));
    assert!(manager.has_pool("layer_2_gradients"));

    // Should have common utility pools
    assert!(manager.has_pool("activations"));
    assert!(manager.has_pool("errors"));
    assert!(manager.has_pool("temp"));
}

#[test]
fn test_zero_copy_operations() {
    let manager = MemoryManager::new();

    let data: Vec<u32> = vec![1.0f32, 2.0, 3.0, 4.0]
        .into_iter()
        .map(f32::to_bits)
        .collect();
    let shape = vec![2, 2];

    let view = manager.create_tensor_view(&data, &shape).unwrap();
    assert_eq!(view.shape().as_slice(), &[2, 2]);
    assert_eq!(view.get(&[0, 0]).unwrap(), 1.0f32.to_bits());
}

#[test]
fn test_memory_stats_comprehensive() {
    let mut manager = MemoryManager::new();
    manager.create_pool("test", 100);

    // Perform some allocations
    let _buffer1 = manager.allocate("test", 50).unwrap();
    let _buffer2 = manager.allocate("test", 30).unwrap();

    let stats = manager.get_stats();

    assert!(stats.total_allocated > 0);
    assert!(stats.buffer_count > 0);
    assert!(stats.allocation_count >= 2);
    let average = stats.total_allocated as f64 / stats.allocation_count as f64;
    assert!(average > 0.0);
    assert!(stats.peak_memory >= stats.current_memory);
}

#[test]
fn test_arena_reuse_without_growth() {
    // allocating, resetting and allocating the same sizes again does not
    // grow the chunk count beyond what the sizes need
    let mut arena = ArenaAllocator::new(1024, 8).unwrap();
    arena.allocate(100, 8).unwrap();
    arena.allocate(200, 8).unwrap();
    assert_eq!(arena.total_allocated(), 300);
    let chunks_before = arena.chunk_count();

    arena.reset();
    assert_eq!(arena.total_allocated(), 0);

    arena.allocate(100, 8).unwrap();
    arena.allocate(200, 8).unwrap();
    assert_eq!(arena.total_allocated(), 300);
    assert_eq!(arena.chunk_count(), chunks_before);
}

#[test]
fn test_arena_grows_for_large_request() {
    let mut arena = ArenaAllocator::new(64, 8).unwrap();
    let ptr = arena.allocate(1000, 8).unwrap();
    assert_eq!(arena.chunk_count(), 2);
    assert_eq!(ptr.chunk, 1);
    assert_eq!(arena.total_allocated(), 1000);

    // defragmentation drops the untouched first chunk
    arena.defragment();
    assert_eq!(arena.chunk_count(), 1);
}

#[test]
fn test_arena_alignment_invariant() {
    // every sub-allocation offset is a multiple of the requested alignment
    for alignment in [8usize, 16, 32, 64] {
        let mut arena = ArenaAllocator::new(4096, 64).unwrap();
        arena.allocate(3, alignment).unwrap();
        let ptr = arena.allocate(5, alignment).unwrap();
        assert_eq!(ptr.offset % alignment, 0);
    }
}

#[test]
fn test_align_offset_alignments() {
    for alignment in [8usize, 16, 32, 64] {
        for offset in [0usize, 1, 7, 63, 100] {
            let aligned = align_offset(offset, alignment);
            assert_eq!(aligned % alignment, 0);
            assert!(aligned >= offset);
            assert!(aligned < offset + alignment);
        }
    }
    assert_eq!(align_offset(13, 0), 13);
}

#[test]
fn test_arena_invalid_alignment() {
    assert_eq!(
        ArenaAllocator::new(1024, 3).err().unwrap(),
        MemoryError::InvalidLayout
    );
    assert_eq!(
        ArenaAllocator::new(1024, 0).err().unwrap(),
        MemoryError::InvalidLayout
    );
}

#[test]
fn test_manager_pool_not_found() {
    let mut manager = MemoryManager::new();
    assert_eq!(
        manager.allocate("missing", 10).err().unwrap(),
        MemoryError::PoolNotFound
    );
    assert_eq!(
        manager.deallocate("missing", vec![0u32; 4]).err().unwrap(),
        MemoryError::PoolNotFound
    );
}

#[test]
fn test_manager_arena_errors() {
    let mut manager = MemoryManager::new();
    assert_eq!(
        manager.arena_allocate(10).err().unwrap(),
        MemoryError::ArenaDisabled
    );

    manager.enable_arena = true;
    assert_eq!(
        manager.arena_allocate(10).err().unwrap(),
        MemoryError::ArenaNotInitialized
    );

    let mut manager = MemoryManager::with_advanced_features(true, true, false, 64);
    // a request too large for any valid chunk layout is exhaustion
    assert_eq!(
        manager.arena_allocate(usize::MAX / 4 - 64).err().unwrap(),
        MemoryError::ArenaExhausted
    );
}

#[test]
fn test_manager_zero_copy_disabled() {
    let mut manager = MemoryManager::new();
    manager.enable_zero_copy = false;
    let data = vec![0u32; 4];
    assert_eq!(
        manager.create_tensor_view(&data, &[2, 2]).err().unwrap(),
        MemoryError::ZeroCopyDisabled
    );
}

#[test]
fn test_tensor_shape_mismatch() {
    let data = vec![0u32; 5];
    assert_eq!(
        TensorView::from_slice(&data, &[2, 3]).err().unwrap(),
        MemoryError::ShapeMismatch
    );
}

#[test]
fn test_tensor_error_variants() {
    let data = vec![0u32; 6];
    let view = TensorView::from_slice(&data, &[2, 3]).unwrap();
    assert_eq!(
        view.get(&[0]).err().unwrap(),
        MemoryError::DimensionMismatch
    );
    assert_eq!(
        view.get(&[0, 3]).err().unwrap(),
        MemoryError::IndexOutOfBounds
    );
}

#[test]
fn test_leak_detector_unknown_id_is_noop() {
    let mut detector = MemoryLeakDetector::new();
    let id = detector.track_allocation(64);
    detector.track_deallocation(id + 17);
    assert_eq!(detector.leaked_memory_bytes(), 64);
    detector.track_deallocation(id);
    detector.track_deallocation(id);
    assert_eq!(detector.leaked_memory_bytes(), 0);
    assert_eq!(detector.detect_leaks().len(), 0);
}

#[test]
fn test_gc_collects_after_threshold() {
    let mut gc = GarbageCollector::new(1);
    gc.inc_ref("k");
    gc.inc_ref("k");
    gc.dec_ref("k");
    // still referenced: nothing pending, nothing collected
    assert!(gc.collect_garbage().is_empty());
    gc.dec_ref("k");
    // the count reached zero and the threshold of one is met
    let collected = gc.collect_garbage();
    assert_eq!(collected, vec!["k".to_string()]);
}

#[test]
fn test_gc_force_collect_ignores_threshold() {
    let mut gc = GarbageCollector::new(100);
    gc.inc_ref("k");
    gc.inc_ref("k");
    gc.dec_ref("k");
    gc.dec_ref("k");
    // the batched sweep is below its threshold
    assert!(gc.collect_garbage().is_empty());
    // the forced sweep removes the zero-count key immediately
    let collected = gc.force_collect();
    assert_eq!(collected, vec!["k".to_string()]);
    assert!(gc.force_collect().is_empty());
}

#[test]
fn test_gc_dec_floors_at_zero() {
    let mut gc = GarbageCollector::new(1);
    gc.inc_ref("a");
    gc.dec_ref("a");
    gc.dec_ref("a");
    gc.dec_ref("b");
    let collected = gc.collect_garbage();
    assert_eq!(collected, vec!["a".to_string()]);
}

#[test]
fn test_prefetcher_recommendations() {
    let mut prefetcher = MemoryPrefetcher::new(10, 2);
    // all three keys share a bucket (equal lengths)
    prefetcher.record_access("aa");
    prefetcher.record_access("bb");
    prefetcher.record_access("cc");
    prefetcher.record_access("dd");

    let recs = prefetcher.get_prefetch_recommendations("aa");
    assert_eq!(recs, vec!["bb".to_string(), "cc".to_string()]);

    let recs = prefetcher.get_prefetch_recommendations("cc");
    assert_eq!(recs, vec!["dd".to_string()]);

    assert!(prefetcher.get_prefetch_recommendations("zz").is_empty());
    assert!(prefetcher.get_prefetch_recommendations("zzz").is_empty());
}

#[test]
fn test_prefetcher_queue_bound() {
    let mut prefetcher = MemoryPrefetcher::new(2, 1);
    prefetcher.add_to_queue(vec!["a".to_string(), "b".to_string(), "a".to_string()]);
    // the duplicate is dropped
    assert_eq!(
        prefetcher.get_next_prefetch(),
        vec!["a".to_string(), "b".to_string()]
    );
    // the queue was drained
    assert!(prefetcher.get_next_prefetch().is_empty());

    prefetcher.add_to_queue(vec!["a".to_string(), "b".to_string(), "c".to_string()]);
    // the oldest entry left when the bound was exceeded
    assert_eq!(
        prefetcher.get_next_prefetch(),
        vec!["b".to_string(), "c".to_string()]
    );
}

#[test]
fn test_decimal_string_formatting() {
    assert_eq!(decimal_string(0), "0");
    assert_eq!(decimal_string(7), "7");
    assert_eq!(decimal_string(10), "10");
    assert_eq!(decimal_string(90210), "90210");
}

#[test]
fn test_manager_clear_all() {
    let mut manager = MemoryManager::new();
    manager.create_pool("a", 10);
    manager.create_pool("b", 10);
    let buf = manager.allocate("a", 8).unwrap();
    manager.deallocate("a", buf).unwrap();
    manager.clear_all();
    assert_eq!(manager.total_allocated(), 0);
    let stats = manager.get_stats();
    assert_eq!(stats.buffer_count, 0);
    assert_eq!(stats.free_buffers, 0);
}

#[test]
fn test_manager_reset_arena() {
    let mut manager = MemoryManager::with_advanced_features(true, true, false, 4096);
    manager.arena_allocate(100).unwrap();
    manager.arena_allocate(200).unwrap();
    assert!(manager.total_allocated() > 0);
    manager.reset_arena();
    assert_eq!(manager.total_allocated(), 0);
    // the arena accepts the same requests again
    manager.arena_allocate(100).unwrap();
    manager.arena_allocate(200).unwrap();
}

#[test]
fn test_manager_defragment_and_patterns() {
    let mut manager = MemoryManager::new();
    manager.create_pool("test", 10);
    let empty = manager.allocate("test", 0).unwrap();
    let full = manager.allocate("test", 4).unwrap();
    manager.deallocate("test", empty).unwrap();
    manager.deallocate("test", full).unwrap();
    assert_eq!(manager.get_stats().free_buffers, 2);

    // defragmentation drops the zero-length free buffer
    manager.defragment_pools();
    assert_eq!(manager.get_stats().free_buffers, 1);

    // an unknown pattern changes nothing; the sequential one defragments
    let before = manager.get_stats();
    manager.optimize_for_access_pattern("random");
    assert_eq!(manager.get_stats(), before);
    manager.optimize_for_access_pattern("sequential");
    assert_eq!(manager.get_stats().free_buffers, 1);
}

#[test]
fn test_manager_leak_tracking_integration() {
    let mut manager = MemoryManager::with_advanced_features(true, false, true, 0);
    assert_eq!(manager.get_leaked_memory(), 0);
    manager.create_pool("test", 10);
    let buffer = manager.allocate("test", 25).unwrap();
    // twenty-five elements of four bytes each are outstanding
    assert_eq!(manager.get_leaked_memory(), 100);
    assert_eq!(manager.get_leak_report().unwrap().len(), 1);
    manager.deallocate("test", buffer).unwrap();
}

#[test]
fn test_with_capacity_pool_sizes() {
    let layer_sizes = vec![10, 20];
    let manager = MemoryManager::with_capacity(&layer_sizes);
    let sizes: Vec<(String, usize)> = manager
        .pools
        .iter()
        .map(|(name, pool)| (name.clone(), pool.buffer_size))
        .collect();
    assert!(sizes.contains(&("layer_0_neurons".to_string(), 10)));
    assert!(sizes.contains(&("layer_0_weights".to_string(), 100)));
    assert!(sizes.contains(&("layer_0_gradients".to_string(), 10)));
    assert!(sizes.contains(&("layer_1_neurons".to_string(), 20)));
    assert!(sizes.contains(&("layer_1_weights".to_string(), 400)));
    assert!(sizes.contains(&("layer_1_gradients".to_string(), 20)));
    assert!(sizes.contains(&("activations".to_string(), 1024)));
    assert!(sizes.contains(&("errors".to_string(), 1024)));
    assert!(sizes.contains(&("temp".to_string(), 512)));
}

#[test]
fn test_arena_grown_chunk_is_sized_to_fit() {
    // a request larger than the default chunk grows by exactly one chunk
    // big enough for the request
    let mut arena = ArenaAllocator::new(64, 8).unwrap();
    let ptr = arena.allocate(500, 8).unwrap();
    assert_eq!(arena.chunk_count(), 2);
    assert_eq!(ptr.chunk, 1);
    assert_eq!(ptr.offset, 0);
    assert_eq!(arena.chunks[1].data.len(), 500);

    // a small overflow request still grows by the default chunk size
    let mut arena = ArenaAllocator::new(64, 8).unwrap();
    arena.allocate(60, 8).unwrap();
    arena.allocate(20, 8).unwrap();
    assert_eq!(arena.chunk_count(), 2);
    assert_eq!(arena.chunks[1].data.len(), 64);
}
