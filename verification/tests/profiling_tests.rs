use hearth_engine::allocation_profiler::{AllocationBenchmark, AllocationProfiler, AllocationScope};
use hearth_engine::cache_profiler::{CacheProfiler, CACHE_LINE_SIZE};
use hearth_engine::memory_profiler::{AccessPattern, MemoryProfiler, ProfileScope, ScopeProfiler};
use hearth_engine::reality_check::TrackingAllocator;

#[test]
fn allocation_counters_and_peaks() {
    let mut p = AllocationProfiler::new();
    p.record_allocation(100);
    p.record_allocation(28);
    let s = p.get_stats();
    assert_eq!(s.total_allocations, 2);
    assert_eq!(s.total_bytes, 128);
    assert_eq!(s.current_frame_allocations, 2);
    p.start_frame();
    p.record_allocation(1);
    p.start_frame();
    let s = p.get_stats();
    assert_eq!(s.peak_frame_allocations, 2);
    assert_eq!(s.peak_frame_bytes, 128);
    assert_eq!(s.current_frame_allocations, 0);
    assert_eq!(s.frame_number, 2);
    assert_eq!(s.total_allocations, 3);
    p.reset();
    assert_eq!(p.get_stats().total_bytes, 0);
    assert_eq!(AllocationBenchmark::new().profiler.get_stats().frame_number, 0);
}

#[test]
fn allocation_scope_reports_growth() {
    let mut p = AllocationProfiler::new();
    p.record_allocation(10);
    let scope = AllocationScope::new(&p, "build");
    assert_eq!(scope.operation_name(), "build");
    assert_eq!(scope.allocation_delta(&p), None);
    p.record_allocation(5);
    p.record_allocation(7);
    assert_eq!(scope.allocation_delta(&p), Some((2, 12)));
}

#[test]
fn tracking_allocator_counters() {
    let mut t = TrackingAllocator::new();
    t.record_alloc(100);
    t.record_alloc(50);
    t.record_dealloc(120);
    assert_eq!(t.get_current_usage(), 30);
    assert_eq!(t.get_peak_usage(), 150);
    assert_eq!(t.get_frame_allocations(), 150);
    assert_eq!(t.get_frame_allocations(), 0);
    assert_eq!(t.get_frame_deallocations(), 120);
    assert_eq!(t.get_frame_deallocations(), 0);
}

#[test]
fn cache_profiler_classifies_accesses() {
    let mut c = CacheProfiler::new();
    c.record_access(1000, 4, None);
    c.record_access(1064, 4, Some(1000));
    c.record_access(1000, 4, Some(1065));
    let s = c.stats();
    assert_eq!(s.bytes_accessed, 12);
    assert_eq!(s.sequential_accesses, 1);
    assert_eq!(s.random_accesses, 1);
    assert_eq!(s.cache_misses, 1);
    assert_eq!(CACHE_LINE_SIZE, 64);
    let mut a = CacheProfiler::new();
    a.analyze_array_access(4096, 8, &[0, 1, 2, 100, 101]);
    let s = a.stats();
    assert_eq!(s.bytes_accessed, 40);
    assert_eq!(s.sequential_accesses, 3);
    assert_eq!(s.random_accesses, 1);
}

#[test]
fn access_patterns_from_addresses() {
    let p = MemoryProfiler::new();
    assert_eq!(p.analyze_access_pattern(&[]), AccessPattern::Sequential);
    assert_eq!(p.analyze_access_pattern(&[100, 104, 108, 112]), AccessPattern::Sequential);
    assert_eq!(p.analyze_access_pattern(&[0, 128, 256]), AccessPattern::Strided(128));
    assert_eq!(p.analyze_access_pattern(&[300, 200, 100]), AccessPattern::Strided(100));
    assert_eq!(p.analyze_access_pattern(&[0, 8, 1000]), AccessPattern::Random);
}

#[test]
fn hot_paths_sorted_by_total_time() {
    let mut p = MemoryProfiler::new();
    for _ in 0..3 {
        p.record_function_call("mesh", 2_000_000).unwrap();
    }
    p.record_function_call("light", 50_000_000).unwrap();
    p.record_function_call("idle", 10).unwrap();
    p.record_access_pattern("mesh", AccessPattern::Random).unwrap();
    p.record_access_pattern("mesh", AccessPattern::Sequential).unwrap();
    p.record_access_pattern("mesh", AccessPattern::Sequential).unwrap();
    p.identify_hot_paths(3, 10).unwrap();
    let hot = p.hot_paths().unwrap();
    assert_eq!(hot.len(), 2);
    assert_eq!(hot[0].function, "light");
    assert_eq!(hot[0].call_count, 1);
    assert_eq!(hot[0].avg_time, 50_000_000);
    assert_eq!(hot[0].access_pattern, AccessPattern::Random);
    assert_eq!(hot[1].function, "mesh");
    assert_eq!(hot[1].total_time, 6_000_000);
    assert_eq!(hot[1].avg_time, 2_000_000);
    assert_eq!(hot[1].access_pattern, AccessPattern::Sequential);
}

#[test]
fn scopes_record_calls() {
    let mut p = MemoryProfiler::new();
    let scope = ProfileScope::new("work");
    assert!(scope.finish(&mut p).is_ok());
    p.identify_hot_paths(1, 1_000_000).unwrap();
    let hot = p.hot_paths().unwrap();
    assert_eq!(hot.len(), 1);
    assert_eq!(hot[0].function, "work");
    assert_eq!(hot[0].call_count, 1);
    let (name, _nanos) = ScopeProfiler::new("frame").finish();
    assert_eq!(name, "frame");
}

#[test]
fn hot_paths_with_equal_time_keep_first_call_order() {
    let mut p = MemoryProfiler::new();
    p.record_function_call("zeta", 5_000_000).unwrap();
    p.record_function_call("alpha", 5_000_000).unwrap();
    p.record_function_call("mid", 9_000_000).unwrap();
    p.identify_hot_paths(1, 1).unwrap();
    let hot = p.hot_paths().unwrap();
    let names: Vec<&str> = hot.iter().map(|h| h.function).collect();
    assert_eq!(names, vec!["mid", "zeta", "alpha"]);
}

#[test]
fn top_functions_by_call_count() {
    let mut p = MemoryProfiler::new();
    p.record_function_call("a", 1).unwrap();
    p.record_function_call("b", 1).unwrap();
    p.record_function_call("b", 1).unwrap();
    p.record_function_call("c", 1).unwrap();
    p.record_function_call("c", 1).unwrap();
    p.record_function_call("d", 1).unwrap();
    let top = p.top_functions(3);
    let names: Vec<&str> = top.iter().map(|r| r.function).collect();
    assert_eq!(names, vec!["b", "c", "a"]);
    assert_eq!(top[0].call_count, 2);
    assert_eq!(p.top_functions(10).len(), 4);
    assert!(p.top_functions(0).is_empty());
}

#[test]
fn addresses_above_the_signed_range_wrap_like_signed_numbers() {
    let p = MemoryProfiler::new();
    let top = usize::MAX;
    assert_eq!(p.analyze_access_pattern(&[top - 256, top - 128, top]), AccessPattern::Strided(128));
    assert_eq!(p.analyze_access_pattern(&[top - 8, top]), AccessPattern::Sequential);
    let mut c = CacheProfiler::new();
    c.record_access(top, 1, Some(top - 32));
    c.record_access(0, 1, Some(top));
    let s = c.stats();
    assert_eq!(s.sequential_accesses, 2);
    assert_eq!(s.random_accesses, 0);
}

#[test]
fn frame_counters_sum_the_sizes_and_stay_below_the_totals() {
    let mut t = TrackingAllocator::new();
    for size in [10usize, 20, 30, 40] {
        t.record_alloc(size);
    }
    t.record_dealloc(5);
    t.record_dealloc(15);
    assert_eq!(t.get_frame_allocations(), 100);
    assert_eq!(t.get_frame_deallocations(), 20);
    assert!(t.get_peak_usage() >= t.get_current_usage());

    let mut p = AllocationProfiler::new();
    for _ in 0..3 {
        p.record_allocation(8);
    }
    p.start_frame();
    p.record_allocation(100);
    let s = p.get_stats();
    assert!(s.current_frame_allocations <= s.total_allocations);
    assert!(s.current_frame_bytes <= s.total_bytes);
    assert!(s.peak_frame_allocations <= s.total_allocations);
    assert!(s.peak_frame_bytes <= s.total_bytes);
    assert_eq!((s.total_allocations, s.current_frame_allocations, s.peak_frame_allocations), (4, 1, 3));
    assert_eq!(p.get_stats(), s);
}

#[test]
fn peak_is_the_largest_use_over_a_run() {
    let mut t = TrackingAllocator::new();
    t.record_alloc(100);
    t.record_dealloc(60);
    t.record_alloc(30);
    assert_eq!(t.get_current_usage(), 70);
    assert_eq!(t.get_peak_usage(), 100);
    t.record_alloc(50);
    assert_eq!(t.get_peak_usage(), 120);
    assert_eq!(t.get_frame_allocations(), 180);
    assert_eq!(t.get_frame_deallocations(), 60);
}
