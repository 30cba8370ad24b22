//! Size-classed pool of reusable scratch buffers.
//!
//! Buffers come in ten power-of-two size classes from 64 to 32768 bytes. A
//! request is served from the matching class's free list when possible (a
//! hit) and by a fresh zero-filled allocation otherwise (a miss). A released
//! buffer is cleared and returned to its class, unless the class already
//! holds `max_pool_size` buffers, in which case it is dropped. Each size
//! class is an independent collection, so a concurrent wrapper can lock each
//! one separately.

use vstd::prelude::*;
use vstd::std_specs::vec::vec_index_mut;

verus! {

/// The class serving a request of `size` bytes: the smallest class whose
/// capacity is at least `size`, or the largest class when no class is big
/// enough.
pub open spec fn spec_size_class(size: nat) -> nat {
    if size <= 64 {
        0
    } else if size <= 128 {
        1
    } else if size <= 256 {
        2
    } else if size <= 512 {
        3
    } else if size <= 1024 {
        4
    } else if size <= 2048 {
        5
    } else if size <= 4096 {
        6
    } else if size <= 8192 {
        7
    } else if size <= 16384 {
        8
    } else {
        9
    }
}

/// The buffer capacity of a size class: 64 bytes doubled `class` times, up
/// to 32768 for the last class.
pub open spec fn spec_class_capacity(class: nat) -> nat {
    if class == 0 {
        64
    } else if class == 1 {
        128
    } else if class == 2 {
        256
    } else if class == 3 {
        512
    } else if class == 4 {
        1024
    } else if class == 5 {
        2048
    } else if class == 6 {
        4096
    } else if class == 7 {
        8192
    } else if class == 8 {
        16384
    } else {
        32768
    }
}

/// The class serving a request of `size` bytes.
pub fn size_class(size: usize) -> (r: usize)
    ensures
        r == spec_size_class(size as nat),
{
    if size <= 64 {
        0
    } else if size <= 128 {
        1
    } else if size <= 256 {
        2
    } else if size <= 512 {
        3
    } else if size <= 1024 {
        4
    } else if size <= 2048 {
        5
    } else if size <= 4096 {
        6
    } else if size <= 8192 {
        7
    } else if size <= 16384 {
        8
    } else {
        9
    }
}

/// The buffer capacity of a size class.
pub fn class_to_size(class: usize) -> (r: usize)
    ensures
        r == spec_class_capacity(class as nat),
{
    if class == 0 {
        64
    } else if class == 1 {
        128
    } else if class == 2 {
        256
    } else if class == 3 {
        512
    } else if class == 4 {
        1024
    } else if class == 5 {
        2048
    } else if class == 6 {
        4096
    } else if class == 7 {
        8192
    } else if class == 8 {
        16384
    } else {
        32768
    }
}

/// Running counters of a pool's activity. `hits + misses` always equals
/// `total_acquired`, and `current_pooled` counts the buffers sitting in free
/// lists right now.
#[derive(Debug, Clone, Copy)]
pub struct PoolMetrics {
    /// Acquisitions served from a free list.
    pub hits: u64,
    /// Acquisitions that had to allocate a fresh buffer.
    pub misses: u64,
    /// All acquisitions.
    pub total_acquired: u64,
    /// Buffers currently held in free lists.
    pub current_pooled: usize,
}

impl Default for PoolMetrics {
    /// All counters start at zero.
    fn default() -> (r: PoolMetrics)
        ensures
            r.hits == 0 && r.misses == 0 && r.total_acquired == 0 && r.current_pooled == 0,
    {
        PoolMetrics { hits: 0, misses: 0, total_acquired: 0, current_pooled: 0 }
    }
}

impl PoolMetrics {
    /// Counts one acquisition: a hit taken from a free list, or a miss that
    /// allocated.
    pub fn record_acquire(&mut self, hit: bool)
        requires
            old(self).total_acquired < u64::MAX,
            hit ==> old(self).hits < u64::MAX && old(self).current_pooled > 0,
            !hit ==> old(self).misses < u64::MAX,
        ensures
            final(self).total_acquired == old(self).total_acquired + 1,
            final(self).hits == old(self).hits + if hit {
                1int
            } else {
                0
            },
            final(self).misses == old(self).misses + if hit {
                0int
            } else {
                1
            },
            final(self).current_pooled == old(self).current_pooled - if hit {
                1int
            } else {
                0
            },
    {
        self.total_acquired = self.total_acquired + 1;
        if hit {
            self.hits = self.hits + 1;
            self.current_pooled = self.current_pooled - 1;
        } else {
            self.misses = self.misses + 1;
        }
    }

    /// Counts one release: the buffer either joined a free list or was
    /// dropped because its class was full.
    pub fn record_release(&mut self, retained: bool)
        requires
            retained ==> old(self).current_pooled < usize::MAX,
        ensures
            final(self).total_acquired == old(self).total_acquired,
            final(self).hits == old(self).hits,
            final(self).misses == old(self).misses,
            final(self).current_pooled == old(self).current_pooled + if retained {
                1int
            } else {
                0
            },
    {
        if retained {
            self.current_pooled = self.current_pooled + 1;
        }
    }
}

/// One size class's free list: cleared buffers waiting for reuse, at most
/// `max_pool_size` of them.
pub struct ClassPool {
    free: Vec<Vec<u8>>,
    max_pool_size: usize,
}

impl ClassPool {
    /// Number of buffers waiting in this class.
    pub closed spec fn spec_count(self) -> nat {
        self.free@.len()
    }

    /// The cap on buffers this class retains.
    pub closed spec fn spec_max(self) -> nat {
        self.max_pool_size as nat
    }

    /// The class never holds more than its cap, and every held buffer is
    /// cleared.
    pub closed spec fn inv(self) -> bool {
        &&& self.free@.len() <= self.max_pool_size
        &&& forall|i: int| 0 <= i < self.free@.len() ==> (#[trigger] self.free@[i])@.len() == 0
    }

    /// An empty class with the given retention cap.
    pub fn new(max_pool_size: usize) -> (r: ClassPool)
        ensures
            r.inv(),
            r.spec_count() == 0,
            r.spec_max() == max_pool_size,
    {
        ClassPool { free: Vec::new(), max_pool_size }
    }

    /// Takes a buffer from the free list if one is waiting. A returned
    /// buffer is cleared (length zero, capacity retained).
    pub fn try_acquire(&mut self) -> (r: Option<Vec<u8>>)
        requires
            old(self).inv(),
        ensures
            final(self).inv(),
            final(self).spec_max() == old(self).spec_max(),
            old(self).spec_count() > 0 ==> r is Some && r->0@.len() == 0 && final(self).spec_count() == old(self).spec_count() - 1,
            old(self).spec_count() == 0 ==> r is None && final(self).spec_count() == 0,
    {
        self.free.pop()
    }

    /// Clears `buffer` and returns it to the free list, unless the class is
    /// already at its cap, in which case the buffer is dropped. Returns
    /// whether the buffer was retained.
    pub fn release(&mut self, buffer: Vec<u8>) -> (retained: bool)
        requires
            old(self).inv(),
        ensures
            final(self).inv(),
            final(self).spec_max() == old(self).spec_max(),
            retained <==> old(self).spec_count() < old(self).spec_max(),
            retained ==> final(self).spec_count() == old(self).spec_count() + 1,
            !retained ==> final(self).spec_count() == old(self).spec_count(),
    {
        let mut buffer = buffer;
        if self.free.len() < self.max_pool_size {
            buffer.clear();
            self.free.push(buffer);
            true
        } else {
            false
        }
    }
}

/// Sum of the buffer counts of the first `n` classes.
pub open spec fn total_pooled(classes: Seq<ClassPool>, n: int) -> nat
    decreases n,
{
    if n <= 0 {
        0
    } else {
        total_pooled(classes, n - 1) + classes[n - 1].spec_count()
    }
}

/// Sequences that agree on their first `n` classes pool the same total.
proof fn lemma_total_pooled_agree(a: Seq<ClassPool>, b: Seq<ClassPool>, n: int)
    requires
        forall|i: int| 0 <= i < n ==> a[i] == b[i],
    ensures
        total_pooled(a, n) == total_pooled(b, n),
    decreases n,
{
    if n > 0 {
        lemma_total_pooled_agree(a, b, n - 1);
    }
}

/// Changing one class changes the total by the difference in that class's
/// count.
proof fn lemma_total_pooled_update(a: Seq<ClassPool>, b: Seq<ClassPool>, c: int, n: int)
    requires
        0 <= c < n <= a.len(),
        b.len() == a.len(),
        forall|i: int| 0 <= i < n && i != c ==> a[i] == b[i],
    ensures
        total_pooled(b, n) + a[c].spec_count() == total_pooled(a, n) + b[c].spec_count(),
    decreases n,
{
    if n - 1 > c {
        lemma_total_pooled_update(a, b, c, n - 1);
    } else {
        lemma_total_pooled_agree(a, b, n - 1);
    }
}

/// A total over classes that each hold at most `m` buffers is at most
/// `n * m`.
proof fn lemma_total_pooled_bound(classes: Seq<ClassPool>, n: int, m: nat)
    requires
        n >= 0,
        forall|i: int| 0 <= i < n ==> (#[trigger] classes[i]).spec_count() <= m,
    ensures
        total_pooled(classes, n) <= n * m,
    decreases n,
{
    if n > 0 {
        lemma_total_pooled_bound(classes, n - 1, m);
        assert((n - 1) * m + m == n * m) by (nonlinear_arith);
    }
}

/// A scratch buffer checked out of a pool: the buffer itself and the size
/// class it returns to.
pub struct PooledBuffer {
    /// The checked-out bytes.
    pub data: Vec<u8>,
    class: usize,
}

impl PooledBuffer {
    /// The bytes currently in the buffer.
    pub closed spec fn spec_data(self) -> Seq<u8> {
        self.data@
    }

    /// The size class this buffer returns to on release.
    pub closed spec fn spec_class(self) -> int {
        self.class as int
    }

    /// Length of the buffer.
    pub fn len(&self) -> (r: usize)
        ensures
            r == self.spec_data().len(),
    {
        self.data.len()
    }

    /// Whether the buffer holds no bytes.
    pub fn is_empty(&self) -> (r: bool)
        ensures
            r == (self.spec_data().len() == 0),
    {
        self.data.is_empty()
    }

    /// Read access to the buffer's bytes.
    pub fn as_slice(&self) -> (r: &[u8])
        ensures
            r@ == self.spec_data(),
    {
        self.data.as_slice()
    }
}

/// A sequential buffer pool: ten size-classed free lists plus metrics. A
/// thread-safe wrapper puts each class behind its own lock and shares the
/// metrics; the pool itself is the verified sequential core.
pub struct BufferPool {
    classes: Vec<ClassPool>,
    max_pool_size: usize,
    metrics: PoolMetrics,
}

impl BufferPool {
    /// The per-class retention cap.
    pub closed spec fn spec_max(self) -> nat {
        self.max_pool_size as nat
    }

    /// Number of buffers waiting in class `c`.
    pub closed spec fn spec_class_count(self, c: int) -> nat {
        self.classes@[c].spec_count()
    }

    /// The pool's metric counters.
    pub closed spec fn spec_metrics(self) -> PoolMetrics {
        self.metrics
    }

    /// The pool's validity: ten classes, each within the shared cap and
    /// holding only cleared buffers; `current_pooled` equal to the total of
    /// the class counts; hits and misses adding up to `total_acquired`.
    pub closed spec fn inv(self) -> bool {
        &&& self.classes@.len() == 10
        &&& forall|i: int| 0 <= i < 10 ==> (#[trigger] self.classes@[i]).inv()
        &&& forall|i: int|
            0 <= i < 10 ==> (#[trigger] self.classes@[i]).spec_max() == self.max_pool_size
        &&& self.metrics.current_pooled == total_pooled(self.classes@, 10)
        &&& self.metrics.hits + self.metrics.misses == self.metrics.total_acquired
        &&& self.max_pool_size <= usize::MAX / 10
    }

    /// An empty pool retaining at most `max_pool_size` buffers per class.
    /// The cap stays small enough that the pooled-buffer counter cannot
    /// overflow.
    pub fn new(max_pool_size: usize) -> (r: BufferPool)
        requires
            max_pool_size <= usize::MAX / 10,
        ensures
            r.inv(),
            r.spec_max() == max_pool_size,
            forall|c: int| 0 <= c < 10 ==> r.spec_class_count(c) == 0,
            r.spec_metrics().hits == 0,
            r.spec_metrics().misses == 0,
            r.spec_metrics().total_acquired == 0,
            r.spec_metrics().current_pooled == 0,
    {
        let mut classes: Vec<ClassPool> = Vec::new();
        let mut k: usize = 0;
        while k < 10
            invariant
                k <= 10,
                classes@.len() == k,
                forall|i: int|
                    0 <= i < k ==> (#[trigger] classes@[i]).inv() && classes@[i].spec_count() == 0
                        && classes@[i].spec_max() == max_pool_size,
            decreases 10 - k,
        {
            classes.push(ClassPool::new(max_pool_size));
            k = k + 1;
        }
        let r = BufferPool { classes, max_pool_size, metrics: PoolMetrics::default() };
        proof {
            lemma_total_pooled_bound(r.classes@, 10, 0);
        }
        r
    }

    /// Acquires a buffer of at least `min_size` bytes, up to the largest
    /// class's capacity. A waiting buffer of the right class is a hit and is
    /// returned cleared; otherwise the miss allocates a zero-filled buffer
    /// of the class's exact capacity.
    pub fn acquire(&mut self, min_size: usize) -> (r: PooledBuffer)
        requires
            old(self).inv(),
            old(self).spec_metrics().total_acquired < u64::MAX,
        ensures
            final(self).inv(),
            final(self).spec_max() == old(self).spec_max(),
            r.spec_class() == spec_size_class(min_size as nat),
            forall|d: int|
                0 <= d < 10 && d != spec_size_class(min_size as nat) ==> final(self).spec_class_count(d) == old(self).spec_class_count(d),
            final(self).spec_metrics().total_acquired == old(self).spec_metrics().total_acquired
                + 1,
            ({
                let c = spec_size_class(min_size as nat) as int;
                if old(self).spec_class_count(c) > 0 {
                    &&& r.spec_data().len() == 0
                    &&& final(self).spec_class_count(c) == old(self).spec_class_count(c) - 1
                    &&& final(self).spec_metrics().hits == old(self).spec_metrics().hits + 1
                    &&& final(self).spec_metrics().misses == old(self).spec_metrics().misses
                    &&& final(self).spec_metrics().current_pooled == old(self).spec_metrics().current_pooled - 1
                } else {
                    &&& r.spec_data() == Seq::new(
                        spec_class_capacity(spec_size_class(min_size as nat)),
                        |i: int| 0u8,
                    )
                    &&& final(self).spec_class_count(c) == 0
                    &&& final(self).spec_metrics().misses == old(self).spec_metrics().misses + 1
                    &&& final(self).spec_metrics().hits == old(self).spec_metrics().hits
                    &&& final(self).spec_metrics().current_pooled == old(self).spec_metrics().current_pooled
                }
            }),
            final(self).spec_metrics().current_pooled <= 10 * final(self).spec_max(),
    {
        let c = size_class(min_size);
        let ghost before: Seq<ClassPool> = self.classes@;
        let slot = vec_index_mut(&mut self.classes, c);
        let taken = slot.try_acquire();
        proof {
            lemma_total_pooled_update(before, self.classes@, c as int, 10);
            assert forall|i: int| 0 <= i < 10 implies (#[trigger] self.classes@[i]).spec_count()
                <= self.max_pool_size by {
                assert(self.classes@[i].inv());
            }
            lemma_total_pooled_bound(self.classes@, 10, self.max_pool_size as nat);
        }
        match taken {
            Some(buffer) => {
                self.metrics.record_acquire(true);
                PooledBuffer { data: buffer, class: c }
            },
            None => {
                self.metrics.record_acquire(false);
                let capacity = class_to_size(c);
                let buffer: Vec<u8> = vec![0u8; capacity];
                PooledBuffer { data: buffer, class: c }
            },
        }
    }

    /// Returns a checked-out buffer to its class: the buffer is cleared and
    /// retained unless the class already holds `max_pool_size` buffers, in
    /// which case it is dropped.
    pub fn release(&mut self, buffer: PooledBuffer)
        requires
            old(self).inv(),
            0 <= buffer.spec_class() < 10,
        ensures
            final(self).inv(),
            final(self).spec_max() == old(self).spec_max(),
            final(self).spec_metrics().total_acquired == old(self).spec_metrics().total_acquired,
            final(self).spec_metrics().hits == old(self).spec_metrics().hits,
            final(self).spec_metrics().misses == old(self).spec_metrics().misses,
            forall|d: int|
                0 <= d < 10 && d != buffer.spec_class() ==> final(self).spec_class_count(d) == old(self).spec_class_count(d),
            ({
                let c = buffer.spec_class();
                if old(self).spec_class_count(c) < old(self).spec_max() {
                    &&& final(self).spec_class_count(c) == old(self).spec_class_count(c) + 1
                    &&& final(self).spec_metrics().current_pooled == old(self).spec_metrics().current_pooled + 1
                } else {
                    &&& final(self).spec_class_count(c) == old(self).spec_class_count(c)
                    &&& final(self).spec_metrics().current_pooled == old(self).spec_metrics().current_pooled
                }
            }),
            final(self).spec_class_count(buffer.spec_class()) <= final(self).spec_max(),
            final(self).spec_metrics().current_pooled <= 10 * final(self).spec_max(),
    {
        let PooledBuffer { data, class } = buffer;
        let ghost before: Seq<ClassPool> = self.classes@;
        let slot = vec_index_mut(&mut self.classes, class);
        let retained = slot.release(data);
        proof {
            lemma_total_pooled_update(before, self.classes@, class as int, 10);
            assert forall|i: int| 0 <= i < 10 implies (#[trigger] self.classes@[i]).spec_count()
                <= self.max_pool_size by {
                assert(self.classes@[i].inv());
            }
            lemma_total_pooled_bound(self.classes@, 10, self.max_pool_size as nat);
        }
        self.metrics.record_release(retained);
    }

    /// A copy of the pool's metric counters.
    pub fn metrics(&self) -> (r: PoolMetrics)
        ensures
            r == self.spec_metrics(),
    {
        self.metrics
    }
}

} // verus!
