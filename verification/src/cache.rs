//! Tensor cache with a byte budget and least-recently-used eviction: an
//! access-ordered key list decides which entry leaves when an insertion
//! would exceed the budget.

use vstd::prelude::*;

use crate::gc::strs_of;

verus! {

/// Bytes per cached element.
pub const ELEM_BYTES: usize = 4;

/// Eviction priority of a cached tensor.
#[derive(Clone, Copy, Debug, PartialEq, Eq, PartialOrd, Ord, Structural)]
pub enum CachePriority {
    Low,
    Normal,
    High,
    Critical,
}

/// A cached tensor: its data, its shape, how often it was accessed, and its
/// priority.
pub struct CachedTensor {
    pub data: Vec<u32>,
    pub shape: Vec<usize>,
    pub access_count: u64,
    pub priority: CachePriority,
}

/// Mathematical model of one cached tensor.
#[verifier::ext_equal]
pub ghost struct TensorModel {
    pub data: Seq<u32>,
    pub shape: Seq<usize>,
    pub access_count: nat,
    pub priority: CachePriority,
}

impl TensorModel {
    /// The bytes an entry occupies.
    pub open spec fn size(self) -> int {
        self.data.len() * ELEM_BYTES
    }
}

/// The models of a sequence of keyed tensors.
pub open spec fn entries_of(s: Seq<(String, CachedTensor)>) -> Seq<(Seq<char>, TensorModel)> {
    Seq::new(s.len(), |i: int| (s[i].0@, TensorModel {
        data: s[i].1.data@,
        shape: s[i].1.shape@,
        access_count: s[i].1.access_count as nat,
        priority: s[i].1.priority,
    }))
}

/// Whether some entry carries the given key.
pub open spec fn cache_has_key(s: Seq<(Seq<char>, TensorModel)>, k: Seq<char>) -> bool {
    exists|i: int| 0 <= i < s.len() && (#[trigger] s[i]).0 == k
}

/// The index of the entry carrying the key (unique when keys are distinct).
pub open spec fn cache_key_index(s: Seq<(Seq<char>, TensorModel)>, k: Seq<char>) -> int {
    choose|i: int| 0 <= i < s.len() && (#[trigger] s[i]).0 == k
}

/// The bytes of all entries: the sum of the entry sizes.
pub open spec fn cache_sum(s: Seq<(Seq<char>, TensorModel)>) -> int
    decreases s.len(),
{
    if s.len() == 0 {
        0
    } else {
        cache_sum(s.drop_last()) + s.last().1.size()
    }
}

/// Removing one entry removes exactly its size from the sum.
pub proof fn lemma_cache_sum_remove(s: Seq<(Seq<char>, TensorModel)>, j: int)
    requires
        0 <= j < s.len(),
    ensures
        cache_sum(s.remove(j)) == cache_sum(s) - s[j].1.size(),
    decreases s.len(),
{
    if j == s.len() - 1 {
        assert(s.remove(j) =~= s.drop_last());
    } else {
        assert(s.remove(j).drop_last() =~= s.drop_last().remove(j));
        assert(s.remove(j).last() == s.last());
        lemma_cache_sum_remove(s.drop_last(), j);
    }
}

/// Every entry's size is bounded by the sum, and the sum is never negative.
pub proof fn lemma_cache_sum_bounds(s: Seq<(Seq<char>, TensorModel)>)
    ensures
        cache_sum(s) >= 0,
        forall|j: int| 0 <= j < s.len() ==> (#[trigger] s[j]).1.size() <= cache_sum(s),
    decreases s.len(),
{
    if s.len() > 0 {
        lemma_cache_sum_bounds(s.drop_last());
        assert forall|j: int| 0 <= j < s.len() implies (#[trigger] s[j]).1.size() <= cache_sum(s) by {
            if j < s.len() - 1 {
                assert(s.drop_last()[j] == s[j]);
            }
        }
    }
}

/// Mathematical model of the cache.
#[verifier::ext_equal]
pub ghost struct CacheView {
    pub entries: Seq<(Seq<char>, TensorModel)>,
    pub max_size: nat,
    pub current: nat,
    pub history: Seq<Seq<char>>,
    pub hits: nat,
    pub misses: nat,
}

impl CacheView {
    /// Entry keys are distinct, the access history holds exactly the cached
    /// keys (each once, least recently used first), and the byte accounting
    /// matches the entries.
    pub open spec fn wf(self) -> bool {
        &&& forall|i: int, j: int| 0 <= i < j < self.entries.len()
                ==> (#[trigger] self.entries[i]).0 != (#[trigger] self.entries[j]).0
        &&& forall|i: int, j: int| 0 <= i < j < self.history.len()
                ==> #[trigger] self.history[i] != #[trigger] self.history[j]
        &&& forall|k: Seq<char>| #[trigger] self.history.contains(k) == cache_has_key(self.entries, k)
        &&& self.history.len() == self.entries.len()
        &&& self.current == cache_sum(self.entries)
    }

    /// A lookup of a cached key bumps its access count, moves the key to the
    /// most-recently-used end and counts a hit; a miss only counts.
    pub open spec fn after_get(self, k: Seq<char>) -> CacheView {
        if cache_has_key(self.entries, k) {
            let i = cache_key_index(self.entries, k);
            let t = self.entries[i].1;
            let t2 = TensorModel { access_count: t.access_count + 1, ..t };
            CacheView {
                entries: self.entries.update(i, (k, t2)),
                history: remove_key(self.history, k).push(k),
                hits: self.hits + 1,
                ..self
            }
        } else {
            CacheView { misses: self.misses + 1, ..self }
        }
    }

    /// Evict the least-recently-used entry: the key at the front of the
    /// access history leaves the cache.
    pub open spec fn evict_lru(self) -> CacheView {
        if self.history.len() > 0 {
            let k = self.history[0];
            if cache_has_key(self.entries, k) {
                let i = cache_key_index(self.entries, k);
                CacheView {
                    entries: self.entries.remove(i),
                    current: (self.current - self.entries[i].1.size()) as nat,
                    history: self.history.skip(1),
                    ..self
                }
            } else {
                CacheView { history: self.history.skip(1), ..self }
            }
        } else {
            self
        }
    }

    /// Evict least-recently-used entries until the insertion fits in the
    /// budget or nothing is left to evict.
    pub open spec fn evict_until(self, size: int) -> CacheView
        decreases self.history.len(),
    {
        if self.current + size > self.max_size && self.history.len() > 0 {
            self.evict_lru().evict_until(size)
        } else {
            self
        }
    }

    /// Insert or replace the entry under the key after making room: the new
    /// entry is most recently used, and replacing subtracts the replaced
    /// entry's bytes first.
    pub open spec fn after_put(
        self,
        k: Seq<char>,
        data: Seq<u32>,
        shape: Seq<usize>,
        priority: CachePriority,
    ) -> CacheView {
        let t = TensorModel { data, shape, access_count: 0, priority };
        let v = self.evict_until(data.len() * ELEM_BYTES);
        if cache_has_key(v.entries, k) {
            let i = cache_key_index(v.entries, k);
            CacheView {
                entries: v.entries.update(i, (k, t)),
                current: (v.current - v.entries[i].1.size() + t.size()) as nat,
                history: remove_key(v.history, k).push(k),
                ..v
            }
        } else {
            CacheView {
                entries: v.entries.push((k, t)),
                current: (v.current + t.size()) as nat,
                history: v.history.push(k),
                ..v
            }
        }
    }

    /// Clearing the cache drops everything and resets all counters.
    pub open spec fn after_clear(self) -> CacheView {
        CacheView {
            entries: Seq::empty(),
            current: 0,
            history: Seq::empty(),
            hits: 0,
            misses: 0,
            ..self
        }
    }
}

/// The history with the first occurrence of `k` removed (unchanged when `k`
/// does not occur).
pub open spec fn remove_key(h: Seq<Seq<char>>, k: Seq<char>) -> Seq<Seq<char>> {
    if h.contains(k) {
        h.remove(choose|i: int| 0 <= i < h.len() && h[i] == k)
    } else {
        h
    }
}

/// When an insertion does not fit the budget and entries are cached, the
/// least-recently-accessed entry is evicted first: eviction removes exactly
/// the key at the front of the access history.
pub proof fn lemma_cache_evicts_lru(v: CacheView, size: int)
    requires
        v.wf(),
        v.current + size > v.max_size,
        v.history.len() > 0,
    ensures
        v.evict_until(size) == v.evict_lru().evict_until(size),
        !cache_has_key(v.evict_lru().entries, v.history[0]),
        v.evict_lru().history == v.history.skip(1),
        v.evict_lru().wf(),
{
    lemma_evict_lru_wf(v);
    let k = v.history[0];
    assert(v.history.contains(k));
    assert(cache_has_key(v.entries, k));
    let i = cache_key_index(v.entries, k);
    let e2 = v.evict_lru().entries;
    assert(e2 == v.entries.remove(i));
    assert forall|j: int| 0 <= j < e2.len() implies (#[trigger] e2[j]).0 != k by {
        if j < i {
            assert(e2[j] == v.entries[j]);
            assert(v.entries[i].0 == k);
        } else {
            assert(e2[j] == v.entries[j + 1]);
        }
    }
}

/// Eviction stops only when the insertion fits the budget or nothing is
/// left to evict.
pub proof fn lemma_evict_until_makes_room(v: CacheView, size: int)
    requires
        v.wf(),
    ensures
        v.evict_until(size).wf(),
        v.evict_until(size).current + size <= v.evict_until(size).max_size
            || v.evict_until(size).history.len() == 0,
        v.evict_until(size).max_size == v.max_size,
    decreases v.history.len(),
{
    if v.current + size > v.max_size && v.history.len() > 0 {
        lemma_evict_lru_wf(v);
        lemma_evict_until_makes_room(v.evict_lru(), size);
    }
}

/// Inserting never leaves the cache over its byte budget, unless the
/// inserted entry alone is bigger than the budget.
pub proof fn lemma_cache_budget(
    v: CacheView,
    k: Seq<char>,
    data: Seq<u32>,
    shape: Seq<usize>,
    priority: CachePriority,
)
    requires
        v.wf(),
    ensures
        ({
            let size = data.len() * ELEM_BYTES;
            let w = v.after_put(k, data, shape, priority);
            w.current <= if size > v.max_size { size } else { v.max_size as int }
        }),
{
    let size = data.len() * ELEM_BYTES;
    let t = TensorModel { data, shape, access_count: 0, priority };
    lemma_evict_until_makes_room(v, size);
    let u = v.evict_until(size);
    lemma_cache_sum_bounds(u.entries);
    if cache_has_key(u.entries, k) {
        let i = cache_key_index(u.entries, k);
        // a cached key means the cache is not empty, so eviction stopped
        // because the insertion fits
        assert(u.history.contains(k));
        assert(u.history.len() > 0);
        assert(u.current + size <= u.max_size);
        assert(u.entries[i].1.size() >= 0) by (nonlinear_arith)
            requires u.entries[i].1.size() == u.entries[i].1.data.len() * ELEM_BYTES;
    } else {
        if u.history.len() == 0 {
            assert(u.entries.len() == 0);
            assert(u.current == cache_sum(u.entries));
            assert(u.current == 0);
        }
    }
}

/// Evicting the least-recently-used entry preserves well-formedness.
pub proof fn lemma_evict_lru_wf(v: CacheView)
    requires
        v.wf(),
    ensures
        v.evict_lru().wf(),
        v.history.len() > 0 ==> v.evict_lru().history.len() == v.history.len() - 1,
{
    if v.history.len() > 0 {
        let k = v.history[0];
        assert(v.history.contains(k));
        assert(cache_has_key(v.entries, k));
        let i = cache_key_index(v.entries, k);
        assert(0 <= i < v.entries.len() && v.entries[i].0 == k);
        let w = v.evict_lru();
        lemma_cache_sum_remove(v.entries, i);
        lemma_cache_sum_bounds(v.entries);
        assert(w.current == cache_sum(w.entries));
        // distinctness survives removal
        assert forall|a: int, b: int| 0 <= a < b < w.entries.len() implies
            (#[trigger] w.entries[a]).0 != (#[trigger] w.entries[b]).0 by {
            assert(w.entries[a] == if a < i { v.entries[a] } else { v.entries[a + 1] });
            assert(w.entries[b] == if b < i { v.entries[b] } else { v.entries[b + 1] });
        }
        assert forall|a: int, b: int| 0 <= a < b < w.history.len() implies
            #[trigger] w.history[a] != #[trigger] w.history[b] by {
            assert(w.history[a] == v.history[a + 1]);
            assert(w.history[b] == v.history[b + 1]);
        }
        // membership stays in step on both sides
        assert forall|key: Seq<char>| #[trigger] w.history.contains(key)
            == cache_has_key(w.entries, key) by {
            if w.history.contains(key) {
                let h = choose|h: int| 0 <= h < w.history.len() && w.history[h] == key;
                assert(v.history[h + 1] == key);
                assert(v.history.contains(key));
                assert(key != k);
                let j = cache_key_index(v.entries, key);
                assert(v.entries[j].0 == key);
                assert(j != i);
                if j < i {
                    assert(w.entries[j] == v.entries[j]);
                    assert(cache_has_key(w.entries, key));
                } else {
                    assert(w.entries[j - 1] == v.entries[j]);
                    assert(cache_has_key(w.entries, key));
                }
            }
            if cache_has_key(w.entries, key) {
                let j = cache_key_index(w.entries, key);
                assert(w.entries[j] == if j < i { v.entries[j] } else { v.entries[j + 1] });
                assert(cache_has_key(v.entries, key));
                assert(v.history.contains(key));
                let h = choose|h: int| 0 <= h < v.history.len() && v.history[h] == key;
                assert(key != k) by {
                    let jj = if j < i { j } else { j + 1 };
                    assert(v.entries[jj].0 == key && v.entries[jj] != v.entries[i] ==> jj != i);
                }
                assert(h != 0);
                assert(w.history[h - 1] == key);
                assert(w.history.contains(key));
            }
        }
    }
}


/// Copy a buffer of elements.
fn clone_elems(v: &Vec<u32>) -> (r: Vec<u32>)
    ensures
        r@ == v@,
{
    let n = v.len();
    let mut r: Vec<u32> = Vec::new();
    let mut i: usize = 0;
    while i < n
        invariant
            i <= n,
            n == v@.len(),
            r@ == v@.take(i as int),
        decreases n - i,
    {
        let x = v[i];
        r.push(x);
        proof {
            assert(r@ =~= v@.take(i + 1));
        }
        i = i + 1;
    }
    proof {
        assert(v@.take(n as int) =~= v@);
    }
    r
}

/// Byte-budgeted tensor cache with least-recently-used eviction.
pub struct SmartCache {
    pub entries: Vec<(String, CachedTensor)>,
    pub max_size: usize,
    pub current_size: usize,
    pub access_history: Vec<String>,
    pub hits: u64,
    pub misses: u64,
}

impl View for SmartCache {
    type V = CacheView;

    open spec fn view(&self) -> CacheView {
        CacheView {
            entries: entries_of(self.entries@),
            max_size: self.max_size as nat,
            current: self.current_size as nat,
            history: strs_of(self.access_history@),
            hits: self.hits as nat,
            misses: self.misses as nat,
        }
    }
}

impl SmartCache {
    /// An empty cache with the given byte budget.
    pub fn new(max_size: usize) -> (r: Self)
        ensures
            r@.wf(),
            r@.entries.len() == 0,
            r@.max_size == max_size,
            r@.current == 0,
            r@.hits == 0,
            r@.misses == 0,
    {
        let c = SmartCache {
            entries: Vec::new(),
            max_size,
            current_size: 0,
            access_history: Vec::new(),
            hits: 0,
            misses: 0,
        };
        proof {
            assert(c@.wf());
        }
        c
    }

    /// Look a tensor up: a hit returns its data, bumps its access count and
    /// makes it the most recently used; a miss only counts.
    pub fn get(&mut self, key: &str) -> (r: Option<Vec<u32>>)
        requires
            old(self)@.wf(),
            old(self)@.hits < u64::MAX,
            old(self)@.misses < u64::MAX,
            cache_has_key(old(self)@.entries, key@)
                ==> old(self)@.entries[cache_key_index(old(self)@.entries, key@)].1.access_count
                    < u64::MAX,
        ensures
            final(self)@.wf(),
            final(self)@ == old(self)@.after_get(key@),
            r is Some <==> cache_has_key(old(self)@.entries, key@),
            r is Some ==> r->0@
                == old(self)@.entries[cache_key_index(old(self)@.entries, key@)].1.data,
    {
        let k: String = key.to_owned();
        let n = self.entries.len();
        let mut i: usize = 0;
        while i < n
            invariant
                i <= n,
                n == self@.entries.len(),
                self@ == old(self)@,
                old(self)@.wf(),
                old(self)@.hits < u64::MAX,
                cache_has_key(old(self)@.entries, key@)
                    ==> old(self)@.entries[cache_key_index(old(self)@.entries, key@)].1.access_count
                        < u64::MAX,
                k@ == key@,
                forall|j: int| 0 <= j < i ==> (#[trigger] self@.entries[j]).0 != key@,
            decreases n - i,
        {
            if self.entries[i].0 == k {
                let ghost pre = self@;
                proof {
                    assert(pre.entries[i as int].0 == key@);
                    assert(cache_has_key(pre.entries, key@));
                    assert(cache_key_index(pre.entries, key@) == i as int) by {
                        let j = cache_key_index(pre.entries, key@);
                        assert(0 <= j < pre.entries.len() && pre.entries[j].0 == key@);
                    }
                }
                let data = clone_elems(&self.entries[i].1.data);
                let c = self.entries[i].1.access_count;
                self.entries[i].1.access_count = c + 1;
                self.hits = self.hits + 1;
                self.touch(i, &k);
                proof {
                    assert(self@.entries =~= pre.entries.update(
                        i as int,
                        (key@, TensorModel { access_count: pre.entries[i as int].1.access_count + 1, ..pre.entries[i as int].1 }),
                    ));
                    assert(self@ =~= pre.after_get(key@));
                    lemma_after_get_wf(pre, key@);
                }
                return Some(data);
            }
            i = i + 1;
        }
        proof {
            assert(!cache_has_key(old(self)@.entries, key@));
        }
        self.misses = self.misses + 1;
        proof {
            assert(self@ =~= old(self)@.after_get(key@));
        }
        None
    }

    /// Move the key at entry index `i` to the most-recently-used end of the
    /// access history.
    fn touch(&mut self, i: usize, k: &String)
        requires
            i < old(self)@.entries.len(),
            old(self)@.entries[i as int].0 == k@,
            // history holds exactly the cached keys, each once
            forall|a: int, b: int| 0 <= a < b < old(self)@.history.len()
                ==> #[trigger] old(self)@.history[a] != #[trigger] old(self)@.history[b],
            old(self)@.history.contains(k@),
        ensures
            final(self)@.history == remove_key(old(self)@.history, k@).push(k@),
            final(self)@.entries == old(self)@.entries,
            final(self)@.max_size == old(self)@.max_size,
            final(self)@.current == old(self)@.current,
            final(self)@.hits == old(self)@.hits,
            final(self)@.misses == old(self)@.misses,
    {
        let ghost h = self@.history;
        let m = self.access_history.len();
        let mut p: usize = 0;
        while p < m
            invariant
                p <= m,
                m == self@.history.len(),
                self@ == old(self)@,
                h == self@.history,
                h.contains(k@),
                forall|a: int, b: int| 0 <= a < b < h.len()
                    ==> #[trigger] h[a] != #[trigger] h[b],
                forall|q: int| 0 <= q < p ==> #[trigger] h[q] != k@,
            decreases m - p,
        {
            if self.access_history[p] == *k {
                let ghost hpre = self@.history;
                proof {
                    assert(h[p as int] == k@);
                }
                self.access_history.remove(p);
                let key_again = k.clone();
                self.access_history.push(key_again);
                proof {
                    let c = choose|c: int| 0 <= c < h.len() && h[c] == k@;
                    assert(h[c] == k@ && h[p as int] == k@);
                    assert(c == p as int);
                    assert(strs_of(self.access_history@) =~= remove_key(h, k@).push(k@));
                }
                return;
            }
            proof {
                assert(h[p as int] == self.access_history@[p as int]@);
            }
            p = p + 1;
        }
        proof {
            assert(!h.contains(k@));
        }
    }

    /// Evict the least-recently-used entry.
    fn evict_lru(&mut self)
        requires
            old(self)@.wf(),
            old(self)@.history.len() > 0,
        ensures
            final(self)@.wf(),
            final(self)@ == old(self)@.evict_lru(),
    {
        proof {
            lemma_evict_lru_wf(old(self)@);
        }
        let lru = self.access_history.remove(0);
        let ghost pre = old(self)@;
        proof {
            assert(lru@ == pre.history[0]);
            assert(strs_of(self.access_history@) =~= pre.history.skip(1));
            assert(pre.history.contains(pre.history[0]));
            assert(cache_has_key(pre.entries, lru@));
        }
        let n = self.entries.len();
        let mut i: usize = 0;
        while i < n
            invariant
                i <= n,
                n == self@.entries.len(),
                pre == old(self)@,
                pre.wf(),
                lru@ == pre.history[0],
                self@.entries == pre.entries,
                self@.max_size == pre.max_size,
                self@.current == pre.current,
                self@.hits == pre.hits,
                self@.misses == pre.misses,
                self@.history == pre.history.skip(1),
                cache_has_key(pre.entries, lru@),
                forall|j: int| 0 <= j < i ==> (#[trigger] self@.entries[j]).0 != lru@,
            decreases n - i,
        {
            if self.entries[i].0 == lru {
                proof {
                    lemma_evict_lru_wf(pre);
                    assert(pre.entries[i as int].0 == lru@);
                    assert(cache_key_index(pre.entries, lru@) == i as int) by {
                        let j = cache_key_index(pre.entries, lru@);
                        assert(0 <= j < pre.entries.len() && pre.entries[j].0 == lru@);
                    }
                    lemma_cache_sum_bounds(pre.entries);
                    lemma_cache_sum_remove(pre.entries, i as int);
                }
                let sz = self.entries[i].1.data.len() * ELEM_BYTES;
                proof {
                    assert(pre.entries[i as int].1.size() == sz);
                    assert(sz <= pre.current);
                }
                self.current_size = self.current_size - sz;
                self.entries.remove(i);
                proof {
                    assert(self@.entries =~= pre.entries.remove(i as int));
                    assert(self@ =~= pre.evict_lru());
                }
                return;
            }
            i = i + 1;
        }
        proof {
            // the history key is always cached, so the scan cannot fall through
            assert(false);
        }
    }

    /// Insert a tensor under a key, evicting least-recently-used entries
    /// while the insertion would exceed the byte budget; replacing an entry
    /// subtracts its bytes first.
    pub fn put(&mut self, key: String, data: Vec<u32>, shape: Vec<usize>, priority: CachePriority)
        requires
            old(self)@.wf(),
            data@.len() * ELEM_BYTES <= usize::MAX,
        ensures
            final(self)@.wf(),
            final(self)@ == old(self)@.after_put(key@, data@, shape@, priority),
    {
        let tensor_size = data.len() * ELEM_BYTES;
        while (tensor_size > self.max_size || self.current_size > self.max_size - tensor_size)
            && self.access_history.len() > 0
            invariant
                self@.wf(),
                tensor_size == data@.len() * ELEM_BYTES,
                old(self)@.evict_until(tensor_size as int)
                    == self@.evict_until(tensor_size as int),
            decreases self@.history.len(),
        {
            proof {
                lemma_evict_lru_wf(self@);
            }
            self.evict_lru();
        }
        let ghost v = self@;
        proof {
            assert(v.evict_until(tensor_size as int) == v);
            assert(old(self)@.evict_until(tensor_size as int) == v);
        }
        let ghost t = TensorModel {
            data: data@,
            shape: shape@,
            access_count: 0,
            priority,
        };
        let n = self.entries.len();
        let mut i: usize = 0;
        while i < n
            invariant
                i <= n,
                n == self@.entries.len(),
                self@ == v,
                v.wf(),
                tensor_size == data@.len() * ELEM_BYTES,
                tensor_size <= usize::MAX,
                t == (TensorModel { data: data@, shape: shape@, access_count: 0 as nat, priority }),
                v == old(self)@.evict_until(tensor_size as int),
                v.current + tensor_size > v.max_size ==> v.history.len() == 0,
                forall|j: int| 0 <= j < i ==> (#[trigger] self@.entries[j]).0 != key@,
            decreases n - i,
        {
            if self.entries[i].0 == key {
                proof {
                    assert(v.entries[i as int].0 == key@);
                    assert(cache_has_key(v.entries, key@));
                    assert(cache_key_index(v.entries, key@) == i as int) by {
                        let j = cache_key_index(v.entries, key@);
                        assert(0 <= j < v.entries.len() && v.entries[j].0 == key@);
                    }
                    lemma_cache_sum_bounds(v.entries);
                    lemma_cache_sum_remove(v.entries, i as int);
                    assert(v.history.len() == v.entries.len());
                    assert(v.current + tensor_size <= v.max_size);
                }
                let old_size = self.entries[i].1.data.len() * ELEM_BYTES;
                proof {
                    assert(v.entries[i as int].1.size() == old_size);
                    assert(old_size <= v.current);
                }
                self.current_size = self.current_size - old_size + tensor_size;
                self.entries[i].1 = CachedTensor { data, shape, access_count: 0, priority };
                self.touch(i, &key);
                proof {
                    assert(self@.entries =~= v.entries.update(i as int, (key@, t)));
                    assert(self@ =~= v.after_put_inserted(key@, t));
                    lemma_put_insert_wf(v, key@, t);
                    assert(self@ =~= old(self)@.after_put(key@, data@, shape@, priority));
                }
                return;
            }
            i = i + 1;
        }
        proof {
            assert(!cache_has_key(v.entries, key@));
            assert(v.history.len() == v.entries.len());
            if v.current + tensor_size > v.max_size {
                assert(v.history.len() == 0);
                assert(v.current == cache_sum(v.entries));
                assert(v.entries.len() == 0);
                assert(v.current == 0);
            }
        }
        let key_copy = key.clone();
        self.entries.push((key, CachedTensor { data, shape, access_count: 0, priority }));
        self.current_size = self.current_size + tensor_size;
        self.access_history.push(key_copy);
        proof {
            assert(self@.entries =~= v.entries.push((key@, t)));
            assert(self@.history =~= v.history.push(key@));
            assert(self@ =~= v.after_put_inserted(key@, t));
            lemma_put_insert_wf(v, key@, t);
            assert(self@ =~= old(self)@.after_put(key@, data@, shape@, priority));
        }
    }

    /// Drop every entry and reset all counters.
    pub fn clear(&mut self)
        ensures
            final(self)@.wf(),
            final(self)@ == old(self)@.after_clear(),
    {
        self.entries.clear();
        self.access_history.clear();
        self.current_size = 0;
        self.hits = 0;
        self.misses = 0;
        proof {
            assert(self@ =~= old(self)@.after_clear());
            assert(self@.wf());
        }
    }

    /// Number of lookups that found their key.
    pub fn hits(&self) -> (r: u64)
        ensures
            r == self@.hits,
    {
        self.hits
    }

    /// Number of lookups that missed.
    pub fn misses(&self) -> (r: u64)
        ensures
            r == self@.misses,
    {
        self.misses
    }

    /// Bytes currently cached.
    pub fn current_size(&self) -> (r: usize)
        ensures
            r == self@.current,
    {
        self.current_size
    }

    /// Number of cached entries.
    pub fn entry_count(&self) -> (r: usize)
        ensures
            r == self@.entries.len(),
    {
        self.entries.len()
    }
}

/// A lookup preserves well-formedness.
pub proof fn lemma_after_get_wf(v: CacheView, k: Seq<char>)
    requires
        v.wf(),
    ensures
        v.after_get(k).wf(),
{
    if cache_has_key(v.entries, k) {
        let i = cache_key_index(v.entries, k);
        let w = v.after_get(k);
        assert(v.history.contains(k));
        let c = choose|c: int| 0 <= c < v.history.len() && v.history[c] == k;
        let h2 = v.history.remove(c);
        assert(w.history == h2.push(k));
        lemma_cache_sum_update_same_size(v.entries, i);
        assert forall|a: int, b: int| 0 <= a < b < w.history.len() implies
            #[trigger] w.history[a] != #[trigger] w.history[b] by {
            if b < h2.len() {
                assert(h2[a] == if a < c { v.history[a] } else { v.history[a + 1] });
                assert(h2[b] == if b < c { v.history[b] } else { v.history[b + 1] });
            } else {
                assert(w.history[b] == k);
                assert(h2[a] == if a < c { v.history[a] } else { v.history[a + 1] });
                assert(v.history[c] == k);
            }
        }
        assert forall|key: Seq<char>| #[trigger] w.history.contains(key)
            == cache_has_key(w.entries, key) by {
            assert(w.entries.len() == v.entries.len());
            assert forall|j: int| 0 <= j < v.entries.len() implies
                (#[trigger] w.entries[j]).0 == v.entries[j].0 by {}
            if w.history.contains(key) {
                let h = choose|h: int| 0 <= h < w.history.len() && w.history[h] == key;
                if h < h2.len() {
                    let hh = if h < c { h } else { h + 1 };
                    assert(v.history[hh] == key);
                    assert(v.history.contains(key));
                } else {
                    assert(key == k);
                    assert(v.history.contains(key));
                }
                assert(cache_has_key(v.entries, key));
                let j = cache_key_index(v.entries, key);
                assert(w.entries[j].0 == key);
                assert(cache_has_key(w.entries, key));
            }
            if cache_has_key(w.entries, key) {
                let j = cache_key_index(w.entries, key);
                assert(w.entries[j].0 == v.entries[j].0);
                assert(cache_has_key(v.entries, key));
                assert(v.history.contains(key));
                let h = choose|h: int| 0 <= h < v.history.len() && v.history[h] == key;
                if key == k {
                    assert(w.history.last() == k);
                    assert(w.history.contains(key));
                } else {
                    assert(h != c);
                    if h < c {
                        assert(h2[h] == key);
                        assert(w.history[h] == key);
                    } else {
                        assert(h2[h - 1] == key);
                        assert(w.history[h - 1] == key);
                    }
                    assert(w.history.contains(key));
                }
            }
        }
    }
}

/// Replacing an entry's tensor with one of any size keeps the sum in step.
proof fn lemma_cache_sum_update_same_size(s: Seq<(Seq<char>, TensorModel)>, i: int)
    requires
        0 <= i < s.len(),
    ensures
        forall|k: Seq<char>, t: TensorModel| #![all_triggers]
            cache_sum(s.update(i, (k, t))) == cache_sum(s) - s[i].1.size() + t.size(),
    decreases s.len(),
{
    assert forall|k: Seq<char>, t: TensorModel| #![all_triggers]
        cache_sum(s.update(i, (k, t))) == cache_sum(s) - s[i].1.size() + t.size() by {
        lemma_cache_sum_update(s, i, k, t);
    }
}

/// Updating one entry shifts the sum by the size difference.
proof fn lemma_cache_sum_update(s: Seq<(Seq<char>, TensorModel)>, i: int, k: Seq<char>, t: TensorModel)
    requires
        0 <= i < s.len(),
    ensures
        cache_sum(s.update(i, (k, t))) == cache_sum(s) - s[i].1.size() + t.size(),
    decreases s.len(),
{
    let s2 = s.update(i, (k, t));
    if i == s.len() - 1 {
        assert(s2.drop_last() =~= s.drop_last());
        assert(s2.last() == (k, t));
    } else {
        assert(s2.drop_last() =~= s.drop_last().update(i, (k, t)));
        assert(s2.last() == s.last());
        lemma_cache_sum_update(s.drop_last(), i, k, t);
    }
}

impl CacheView {
    /// The insertion step of a put, after eviction has made room.
    pub open spec fn after_put_inserted(self, k: Seq<char>, t: TensorModel) -> CacheView {
        if cache_has_key(self.entries, k) {
            let i = cache_key_index(self.entries, k);
            CacheView {
                entries: self.entries.update(i, (k, t)),
                current: (self.current - self.entries[i].1.size() + t.size()) as nat,
                history: remove_key(self.history, k).push(k),
                ..self
            }
        } else {
            CacheView {
                entries: self.entries.push((k, t)),
                current: (self.current + t.size()) as nat,
                history: self.history.push(k),
                ..self
            }
        }
    }
}

/// The insertion step of a put preserves well-formedness.
proof fn lemma_put_insert_wf(v: CacheView, k: Seq<char>, t: TensorModel)
    requires
        v.wf(),
    ensures
        v.after_put_inserted(k, t).wf(),
{
    let w = v.after_put_inserted(k, t);
    lemma_cache_sum_bounds(v.entries);
    assert(t.size() >= 0) by (nonlinear_arith);
    if cache_has_key(v.entries, k) {
        let i = cache_key_index(v.entries, k);
        assert(v.history.contains(k));
        let c = choose|c: int| 0 <= c < v.history.len() && v.history[c] == k;
        let h2 = v.history.remove(c);
        lemma_cache_sum_update_same_size(v.entries, i);
        lemma_cache_sum_remove(v.entries, i);
        assert(v.entries[i].1.size() <= cache_sum(v.entries));
        assert(w.current == cache_sum(w.entries));
        assert forall|a: int, b: int| 0 <= a < b < w.history.len() implies
            #[trigger] w.history[a] != #[trigger] w.history[b] by {
            if b < h2.len() {
                assert(h2[a] == if a < c { v.history[a] } else { v.history[a + 1] });
                assert(h2[b] == if b < c { v.history[b] } else { v.history[b + 1] });
            } else {
                assert(w.history[b] == k);
                assert(h2[a] == if a < c { v.history[a] } else { v.history[a + 1] });
                assert(v.history[c] == k);
            }
        }
        assert forall|key: Seq<char>| #[trigger] w.history.contains(key)
            == cache_has_key(w.entries, key) by {
            assert forall|j: int| 0 <= j < v.entries.len() implies
                (#[trigger] w.entries[j]).0 == v.entries[j].0 by {}
            if w.history.contains(key) {
                let h = choose|h: int| 0 <= h < w.history.len() && w.history[h] == key;
                if h < h2.len() {
                    let hh = if h < c { h } else { h + 1 };
                    assert(v.history[hh] == key);
                    assert(v.history.contains(key));
                } else {
                    assert(key == k);
                    assert(v.history.contains(key));
                }
                assert(cache_has_key(v.entries, key));
                let j = cache_key_index(v.entries, key);
                assert(w.entries[j].0 == key);
                assert(cache_has_key(w.entries, key));
            }
            if cache_has_key(w.entries, key) {
                let j = cache_key_index(w.entries, key);
                assert(w.entries[j].0 == v.entries[j].0);
                assert(cache_has_key(v.entries, key));
                assert(v.history.contains(key));
                let h = choose|h: int| 0 <= h < v.history.len() && v.history[h] == key;
                if key == k {
                    assert(w.history.last() == k);
                    assert(w.history.contains(key));
                } else {
                    assert(h != c);
                    if h < c {
                        assert(h2[h] == key);
                        assert(w.history[h] == key);
                    } else {
                        assert(h2[h - 1] == key);
                        assert(w.history[h - 1] == key);
                    }
                    assert(w.history.contains(key));
                }
            }
        }
    } else {
        assert(w.entries.drop_last() =~= v.entries);
        assert(w.entries.last() == (k, t));
        assert(cache_sum(w.entries) == cache_sum(v.entries) + t.size());
        assert(!v.history.contains(k)) by {
            if v.history.contains(k) {
                assert(cache_has_key(v.entries, k));
            }
        }
        assert forall|a: int, b: int| 0 <= a < b < w.history.len() implies
            #[trigger] w.history[a] != #[trigger] w.history[b] by {
            if b == w.history.len() - 1 {
                assert(w.history[b] == k);
                assert(w.history[a] == v.history[a]);
                assert(v.history.contains(v.history[a]));
            }
        }
        assert forall|key: Seq<char>| #[trigger] w.history.contains(key)
            == cache_has_key(w.entries, key) by {
            if w.history.contains(key) {
                let h = choose|h: int| 0 <= h < w.history.len() && w.history[h] == key;
                if h < v.history.len() {
                    assert(v.history.contains(key));
                    assert(cache_has_key(v.entries, key));
                    let j = cache_key_index(v.entries, key);
                    assert(w.entries[j].0 == key);
                } else {
                    assert(key == k);
                    assert(w.entries[v.entries.len() as int].0 == k);
                }
                assert(cache_has_key(w.entries, key));
            }
            if cache_has_key(w.entries, key) {
                let j = cache_key_index(w.entries, key);
                if j < v.entries.len() {
                    assert(v.entries[j].0 == key);
                    assert(cache_has_key(v.entries, key));
                    assert(v.history.contains(key));
                    let h = choose|h: int| 0 <= h < v.history.len() && v.history[h] == key;
                    assert(w.history[h] == key);
                } else {
                    assert(key == k);
                    assert(w.history.last() == k);
                }
                assert(w.history.contains(key));
            }
        }
    }
}

} // verus!
