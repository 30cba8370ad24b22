use protowire::pool::{class_to_size, size_class, BufferPool};

#[test]
fn test_size_class() {
    assert_eq!(size_class(0), 0);
    assert_eq!(size_class(1), 0);
    assert_eq!(size_class(64), 0);
    assert_eq!(size_class(65), 1);
    assert_eq!(size_class(128), 1);
    assert_eq!(size_class(129), 2);
    assert_eq!(size_class(256), 2);
    assert_eq!(size_class(1024), 4);
}

#[test]
fn test_class_to_size() {
    assert_eq!(class_to_size(0), 64);
    assert_eq!(class_to_size(1), 128);
    assert_eq!(class_to_size(2), 256);
    assert_eq!(class_to_size(4), 1024);
}

#[test]
fn test_pool_acquire_and_return() {
    let mut pool = BufferPool::new(10);

    let buf1 = pool.acquire(100);
    let buf2 = pool.acquire(100);
    pool.release(buf1);
    pool.release(buf2);

    // Buffers should be returned to pool
    let metrics = pool.metrics();
    assert_eq!(metrics.total_acquired, 2);
    assert_eq!(metrics.misses, 2); // First two are misses
    assert_eq!(metrics.current_pooled, 2);

    // Next acquisition should be a hit
    let _buf3 = pool.acquire(100);
    let metrics = pool.metrics();
    assert_eq!(metrics.hits, 1);
    assert_eq!(metrics.current_pooled, 1);
}

#[test]
fn test_pool_max_size() {
    let mut pool = BufferPool::new(2);

    let buf1 = pool.acquire(100);
    let buf2 = pool.acquire(100);
    let buf3 = pool.acquire(100);
    pool.release(buf1);
    pool.release(buf2);
    pool.release(buf3);

    // Only 2 buffers should be pooled
    let metrics = pool.metrics();
    assert_eq!(metrics.current_pooled, 2);
}

#[test]
fn test_pool_metrics() {
    let mut pool = BufferPool::new(10);

    let _buf1 = pool.acquire(100);
    let _buf2 = pool.acquire(200);

    let metrics = pool.metrics();
    assert_eq!(metrics.total_acquired, 2);
    assert_eq!(metrics.misses, 2);
    assert_eq!(metrics.hits, 0);
}

#[test]
fn pool_miss_allocates_zero_filled_class_size() {
    let mut pool = BufferPool::new(4);
    let buf = pool.acquire(100);
    // a request of 100 bytes maps to the 128-byte class
    assert_eq!(buf.len(), 128);
    assert!(buf.as_slice().iter().all(|&b| b == 0));
}

#[test]
fn pool_hit_returns_cleared_buffer() {
    let mut pool = BufferPool::new(4);
    let mut buf = pool.acquire(100);
    buf.data.push(42);
    pool.release(buf);

    let again = pool.acquire(100);
    assert!(again.is_empty());
    let metrics = pool.metrics();
    assert_eq!(metrics.hits, 1);
}

#[test]
fn pool_classes_are_independent() {
    let mut pool = BufferPool::new(4);
    let small = pool.acquire(10);
    pool.release(small);

    // A release into the 64-byte class is no hit for the 1024-byte class.
    let _large = pool.acquire(1000);
    let metrics = pool.metrics();
    assert_eq!(metrics.hits, 0);
    assert_eq!(metrics.misses, 2);
    assert_eq!(metrics.current_pooled, 1);
}

#[test]
fn pool_oversized_request_uses_largest_class() {
    let mut pool = BufferPool::new(4);
    let buf = pool.acquire(100_000);
    assert_eq!(buf.len(), 32768);
}
