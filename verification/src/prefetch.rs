//! Predictive prefetching: access patterns are bucketed by key length, and a
//! bounded queue holds the keys recommended for loading next.

use vstd::prelude::*;

use vstd::string::StringSliceAdditionalSpecFns;

use crate::gc::{clone_strings, contains_string, strs_of};

verus! {

/// The pattern bucket a key falls into: its byte length modulo the number
/// of buckets.
pub open spec fn spec_bucket_of(key: &str) -> nat {
    ((key.spec_bytes().len() as usize) % 10) as nat
}

/// Compute the pattern bucket of a key.
pub fn bucket_of(key: &str) -> (r: usize)
    ensures
        r == spec_bucket_of(key),
{
    key.len() % 10
}

/// Whether some pattern entry carries the given bucket.
pub open spec fn has_bucket(s: Seq<(nat, Seq<Seq<char>>)>, b: nat) -> bool {
    exists|i: int| 0 <= i < s.len() && (#[trigger] s[i]).0 == b
}

/// The index of the pattern entry with the bucket (unique when distinct).
pub open spec fn bucket_index(s: Seq<(nat, Seq<Seq<char>>)>, b: nat) -> int {
    choose|i: int| 0 <= i < s.len() && (#[trigger] s[i]).0 == b
}

/// Mathematical model of the prefetcher.
#[verifier::ext_equal]
pub ghost struct PrefetchView {
    pub patterns: Seq<(nat, Seq<Seq<char>>)>,
    pub queue: Seq<Seq<char>>,
    pub max_queue: nat,
    pub distance: nat,
}

impl PrefetchView {
    /// Pattern buckets are distinct.
    pub open spec fn wf(self) -> bool {
        forall|i: int, j: int| 0 <= i < j < self.patterns.len()
            ==> (#[trigger] self.patterns[i]).0 != (#[trigger] self.patterns[j]).0
    }

    /// Recording an access appends the key to its bucket's pattern,
    /// creating the bucket when it is new.
    pub open spec fn after_record(self, b: nat, k: Seq<char>) -> PrefetchView {
        if has_bucket(self.patterns, b) {
            let i = bucket_index(self.patterns, b);
            PrefetchView {
                patterns: self.patterns.update(i, (b, self.patterns[i].1.push(k))),
                ..self
            }
        } else {
            PrefetchView { patterns: self.patterns.push((b, seq![k])), ..self }
        }
    }

    /// The keys recommended after an access: the up-to-`distance` keys that
    /// followed the key's first occurrence in its bucket's pattern.
    pub open spec fn recommendations(self, b: nat, k: Seq<char>) -> Seq<Seq<char>> {
        if has_bucket(self.patterns, b) {
            let p = self.patterns[bucket_index(self.patterns, b)].1;
            match p.index_of_first(k) {
                Some(pos) => {
                    let start = pos + 1;
                    let end = if start + self.distance <= p.len() {
                        start + self.distance
                    } else {
                        p.len() as int
                    };
                    p.subrange(start, end)
                },
                None => Seq::empty(),
            }
        } else {
            Seq::empty()
        }
    }

    /// Enqueue one key: already-queued keys are dropped, and the oldest
    /// entry leaves when the queue would exceed its bound.
    pub open spec fn enqueue_one(q: Seq<Seq<char>>, k: Seq<char>, max: nat) -> Seq<Seq<char>> {
        if q.contains(k) {
            q
        } else {
            let q2 = q.push(k);
            if q2.len() > max {
                q2.skip(1)
            } else {
                q2
            }
        }
    }

    /// Enqueue a list of keys in order.
    pub open spec fn enqueue_all(q: Seq<Seq<char>>, keys: Seq<Seq<char>>, max: nat) -> Seq<Seq<char>>
        decreases keys.len(),
    {
        if keys.len() == 0 {
            q
        } else {
            Self::enqueue_all(Self::enqueue_one(q, keys[0], max), keys.skip(1), max)
        }
    }
}

/// Learns access patterns bucketed by key length and keeps a bounded queue
/// of keys to prefetch.
pub struct MemoryPrefetcher {
    pub patterns: Vec<(usize, Vec<String>)>,
    pub queue: Vec<String>,
    pub max_queue_size: usize,
    pub prefetch_distance: usize,
}

impl View for MemoryPrefetcher {
    type V = PrefetchView;

    open spec fn view(&self) -> PrefetchView {
        PrefetchView {
            patterns: Seq::new(
                self.patterns@.len(),
                |i: int| (self.patterns@[i].0 as nat, strs_of(self.patterns@[i].1@)),
            ),
            queue: strs_of(self.queue@),
            max_queue: self.max_queue_size as nat,
            distance: self.prefetch_distance as nat,
        }
    }
}

impl MemoryPrefetcher {
    /// A prefetcher with no learned patterns and an empty queue.
    pub fn new(max_queue_size: usize, prefetch_distance: usize) -> (r: Self)
        ensures
            r@.patterns.len() == 0,
            r@.queue.len() == 0,
            r@.max_queue == max_queue_size,
            r@.distance == prefetch_distance,
            r@.wf(),
    {
        MemoryPrefetcher {
            patterns: Vec::new(),
            queue: Vec::new(),
            max_queue_size,
            prefetch_distance,
        }
    }

    /// Record an access, appending the key to its bucket's pattern.
    pub fn record_access(&mut self, key: &str)
        requires
            old(self)@.wf(),
        ensures
            final(self)@.wf(),
            final(self)@ == old(self)@.after_record(spec_bucket_of(key), key@),
    {
        let b = bucket_of(key);
        let n = self.patterns.len();
        let mut i: usize = 0;
        while i < n
            invariant
                i <= n,
                n == self@.patterns.len(),
                self@ == old(self)@,
                old(self)@.wf(),
                b == spec_bucket_of(key),
                forall|j: int| 0 <= j < i ==> (#[trigger] self@.patterns[j]).0 != b as nat,
            decreases n - i,
        {
            if self.patterns[i].0 == b {
                let ghost pre = self@;
                proof {
                    assert(pre.patterns[i as int].0 == b as nat);
                    assert(has_bucket(pre.patterns, b as nat));
                    assert(bucket_index(pre.patterns, b as nat) == i as int) by {
                        let j = bucket_index(pre.patterns, b as nat);
                        assert(0 <= j < pre.patterns.len() && pre.patterns[j].0 == b as nat);
                    }
                }
                self.patterns[i].1.push(key.to_owned());
                proof {
                    assert(strs_of(self.patterns@[i as int].1@)
                        =~= pre.patterns[i as int].1.push(key@));
                    assert(self@ =~= pre.after_record(b as nat, key@));
                }
                return;
            }
            i = i + 1;
        }
        proof {
            assert(!has_bucket(old(self)@.patterns, b as nat));
        }
        let mut fresh: Vec<String> = Vec::new();
        fresh.push(key.to_owned());
        self.patterns.push((b, fresh));
        proof {
            assert(strs_of(self.patterns@[n as int].1@) =~= seq![key@]);
            assert(self@ =~= old(self)@.after_record(b as nat, key@));
            assert(forall|j: int| 0 <= j < old(self)@.patterns.len()
                ==> (#[trigger] self@.patterns[j]) == old(self)@.patterns[j]);
        }
    }

    /// The keys that followed the key's first occurrence in its bucket's
    /// pattern, up to the prefetch distance.
    pub fn get_prefetch_recommendations(&self, current_key: &str) -> (r: Vec<String>)
        requires
            self@.wf(),
        ensures
            strs_of(r@) == self@.recommendations(spec_bucket_of(current_key), current_key@),
    {
        let b = bucket_of(current_key);
        let n = self.patterns.len();
        let mut i: usize = 0;
        while i < n
            invariant
                i <= n,
                n == self@.patterns.len(),
                self@.wf(),
                b == spec_bucket_of(current_key),
                forall|j: int| 0 <= j < i ==> (#[trigger] self@.patterns[j]).0 != b as nat,
            decreases n - i,
        {
            if self.patterns[i].0 == b {
                proof {
                    assert(self@.patterns[i as int].0 == b as nat);
                    assert(has_bucket(self@.patterns, b as nat));
                    assert(bucket_index(self@.patterns, b as nat) == i as int) by {
                        let j = bucket_index(self@.patterns, b as nat);
                        assert(0 <= j < self@.patterns.len() && self@.patterns[j].0 == b as nat);
                    }
                }
                return self.pattern_window(i, current_key);
            }
            i = i + 1;
        }
        proof {
            assert(!has_bucket(self@.patterns, b as nat));
            assert(strs_of(Seq::<String>::empty()) =~= Seq::<Seq<char>>::empty());
        }
        Vec::new()
    }

    /// The window of up to `prefetch_distance` keys after the first
    /// occurrence of `key` in pattern `i`.
    fn pattern_window(&self, i: usize, key: &str) -> (r: Vec<String>)
        requires
            i < self@.patterns.len(),
        ensures
            ({
                let p = self@.patterns[i as int].1;
                strs_of(r@) == match p.index_of_first(key@) {
                    Some(pos) => {
                        let start = pos + 1;
                        let end = if start + self@.distance <= p.len() {
                            start + self@.distance
                        } else {
                            p.len() as int
                        };
                        p.subrange(start, end)
                    },
                    None => Seq::<Seq<char>>::empty(),
                }
            }),
    {
        let ghost p = self@.patterns[i as int].1;
        let k: String = key.to_owned();
        let m = self.patterns[i].1.len();
        let mut j: usize = 0;
        proof {
            assert(p.len() == m);
        }
        while j < m
            invariant
                j <= m,
                i < self@.patterns.len(),
                m == p.len(),
                p == self@.patterns[i as int].1,
                k@ == key@,
                forall|q: int| 0 <= q < j ==> #[trigger] p[q] != key@,
            decreases m - j,
        {
            if self.patterns[i].1[j] == k {
                proof {
                    assert(p[j as int] == key@);
                    assert(p.contains(key@));
                    p.index_of_first_ensures(key@);
                    let pos = p.index_of_first(key@)->0;
                    assert(p[pos] == key@);
                    assert(pos == j as int) by {
                        if pos < j {
                            assert(p[pos] != key@);
                        }
                        if pos > j {
                            assert(p[j as int] != key@);
                        }
                    }
                }
                // collect the following keys up to the prefetch distance
                let start = j + 1;
                let end = if self.prefetch_distance <= m - start {
                    start + self.prefetch_distance
                } else {
                    m
                };
                let mut out: Vec<String> = Vec::new();
                let mut q: usize = start;
                while q < end
                    invariant
                        start <= q <= end <= m,
                        i < self@.patterns.len(),
                        m == p.len(),
                        p == self@.patterns[i as int].1,
                        out@.len() == q - start,
                        forall|t: int| 0 <= t < out@.len()
                            ==> (#[trigger] out@[t])@ == p[start + t],
                    decreases end - q,
                {
                    let s = self.patterns[i].1[q].clone();
                    out.push(s);
                    q = q + 1;
                }
                proof {
                    assert(strs_of(out@) =~= p.subrange(start as int, end as int));
                }
                return out;
            }
            proof {
                assert(p[j as int] == self.patterns@[i as int].1@[j as int]@);
            }
            j = j + 1;
        }
        proof {
            assert(!p.contains(key@));
            p.index_of_first_ensures(key@);
            assert(strs_of(Seq::<String>::empty()) =~= Seq::<Seq<char>>::empty());
        }
        Vec::new()
    }

    /// Enqueue keys for prefetching, dropping duplicates and the oldest
    /// entries beyond the queue bound.
    pub fn add_to_queue(&mut self, keys: Vec<String>)
        ensures
            final(self)@.queue == PrefetchView::enqueue_all(
                old(self)@.queue, strs_of(keys@), old(self)@.max_queue),
            final(self)@.patterns == old(self)@.patterns,
            final(self)@.max_queue == old(self)@.max_queue,
            final(self)@.distance == old(self)@.distance,
    {
        let mut rest = keys;
        while rest.len() > 0
            invariant
                PrefetchView::enqueue_all(old(self)@.queue, strs_of(keys@), old(self)@.max_queue)
                    == PrefetchView::enqueue_all(self@.queue, strs_of(rest@), self@.max_queue),
                self@.patterns == old(self)@.patterns,
                self@.max_queue == old(self)@.max_queue,
                self@.distance == old(self)@.distance,
            decreases rest@.len(),
        {
            let ghost qpre = self@.queue;
            let ghost rpre = strs_of(rest@);
            let key = rest.remove(0);
            proof {
                assert(strs_of(rest@) =~= rpre.skip(1));
                assert(rpre[0] == key@);
            }
            let already = contains_string(&self.queue, &key);
            proof {
                assert(strs_of(self.queue@).contains(key@) == qpre.contains(key@));
            }
            if !already {
                self.queue.push(key);
                proof {
                    assert(strs_of(self.queue@) =~= qpre.push(key@));
                }
                if self.queue.len() > self.max_queue_size {
                    let ghost q2 = strs_of(self.queue@);
                    self.queue.remove(0);
                    proof {
                        assert(strs_of(self.queue@) =~= q2.skip(1));
                    }
                }
            }
            proof {
                assert(self@.queue == PrefetchView::enqueue_one(qpre, rpre[0], self@.max_queue));
            }
        }
        proof {
            assert(strs_of(rest@) =~= Seq::<Seq<char>>::empty());
        }
    }

    /// Hand back everything queued for prefetching and empty the queue.
    pub fn get_next_prefetch(&mut self) -> (r: Vec<String>)
        ensures
            strs_of(r@) == old(self)@.queue,
            final(self)@.queue.len() == 0,
            final(self)@.patterns == old(self)@.patterns,
            final(self)@.max_queue == old(self)@.max_queue,
            final(self)@.distance == old(self)@.distance,
    {
        let result = clone_strings(&self.queue);
        self.queue.clear();
        proof {
            assert(strs_of(self.queue@) =~= Seq::<Seq<char>>::empty());
        }
        result
    }
}

} // verus!
