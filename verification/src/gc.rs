//! Reference-counted collection: per-key counts with a pending list of keys
//! whose count reached zero, swept in batches.

use vstd::prelude::*;

verus! {

/// The models of a sequence of owned strings.
pub open spec fn strs_of(s: Seq<String>) -> Seq<Seq<char>> {
    Seq::new(s.len(), |i: int| s[i]@)
}

/// Whether some entry carries the given key.
pub open spec fn has_key(s: Seq<(Seq<char>, nat)>, k: Seq<char>) -> bool {
    exists|i: int| 0 <= i < s.len() && (#[trigger] s[i]).0 == k
}

/// The index of the entry carrying the key (unique when keys are distinct).
pub open spec fn key_index(s: Seq<(Seq<char>, nat)>, k: Seq<char>) -> int {
    choose|i: int| 0 <= i < s.len() && (#[trigger] s[i]).0 == k
}

/// Holds of an entry whose key is not in the given key list.
pub open spec fn key_not_in(keys: Seq<Seq<char>>) -> spec_fn((Seq<char>, nat)) -> bool {
    |e: (Seq<char>, nat)| !keys.contains(e.0)
}

/// The key of a count entry.
pub open spec fn entry_key() -> spec_fn((Seq<char>, nat)) -> Seq<char> {
    |e: (Seq<char>, nat)| e.0
}

/// Holds of an entry whose count is zero.
pub open spec fn count_is_zero() -> spec_fn((Seq<char>, nat)) -> bool {
    |e: (Seq<char>, nat)| e.1 == 0
}

/// Holds of an entry whose count is not zero.
pub open spec fn count_not_zero() -> spec_fn((Seq<char>, nat)) -> bool {
    |e: (Seq<char>, nat)| e.1 != 0
}

/// Mathematical model of the collector: keyed counts in insertion order,
/// the pending-collection list, and the batching threshold.
#[verifier::ext_equal]
pub ghost struct GcView {
    pub counts: Seq<(Seq<char>, nat)>,
    pub marked: Seq<Seq<char>>,
    pub threshold: nat,
}

impl GcView {
    /// Keys are distinct.
    pub open spec fn wf(self) -> bool {
        forall|i: int, j: int| 0 <= i < j < self.counts.len()
            ==> (#[trigger] self.counts[i]).0 != (#[trigger] self.counts[j]).0
    }

    /// The count recorded for a key, zero when the key is unknown.
    pub open spec fn count_of(self, k: Seq<char>) -> nat {
        if has_key(self.counts, k) {
            self.counts[key_index(self.counts, k)].1
        } else {
            0
        }
    }

    /// Incrementing bumps the key's count, inserting it at one when unknown.
    pub open spec fn after_inc(self, k: Seq<char>) -> GcView {
        if has_key(self.counts, k) {
            let i = key_index(self.counts, k);
            GcView { counts: self.counts.update(i, (k, self.counts[i].1 + 1)), ..self }
        } else {
            GcView { counts: self.counts.push((k, 1)), ..self }
        }
    }

    /// Decrementing lowers a positive count; a transition to exactly zero
    /// appends the key to the pending list. Unknown keys and counts already
    /// at zero change nothing.
    pub open spec fn after_dec(self, k: Seq<char>) -> GcView {
        if has_key(self.counts, k) {
            let i = key_index(self.counts, k);
            let c = self.counts[i].1;
            if c > 0 {
                let counts2 = self.counts.update(i, (k, (c - 1) as nat));
                if c == 1 {
                    GcView { counts: counts2, marked: self.marked.push(k), ..self }
                } else {
                    GcView { counts: counts2, ..self }
                }
            } else {
                self
            }
        } else {
            self
        }
    }

    /// Batched collection: once the pending list reaches the threshold,
    /// every pending key is removed and the pending list is returned.
    pub open spec fn after_collect(self) -> (GcView, Seq<Seq<char>>) {
        if self.marked.len() >= self.threshold {
            (
                GcView {
                    counts: self.counts.filter(key_not_in(self.marked)),
                    marked: Seq::empty(),
                    ..self
                },
                self.marked,
            )
        } else {
            (self, Seq::empty())
        }
    }

    /// Forced collection: every key whose count is zero is removed and
    /// returned, regardless of the threshold.
    pub open spec fn after_force(self) -> (GcView, Seq<Seq<char>>) {
        (
            GcView { counts: self.counts.filter(count_not_zero()), marked: Seq::empty(), ..self },
            self.counts.filter(count_is_zero()).map_values(entry_key()),
        )
    }
}

/// Two increments followed by two decrements of an unknown key leave it
/// pending: it is in the next batched collection once the threshold is met,
/// and in a forced collection immediately.
pub proof fn lemma_gc_collects_zero_refs(g: GcView, k: Seq<char>)
    requires
        g.wf(),
        !has_key(g.counts, k),
    ensures
        ({
            let g4 = g.after_inc(k).after_inc(k).after_dec(k).after_dec(k);
            &&& g4.marked.contains(k)
            &&& g4.marked.len() >= g4.threshold ==> g4.after_collect().1.contains(k)
            &&& g4.after_force().1.contains(k)
        }),
{
    let n = g.counts.len() as int;
    let g1 = g.after_inc(k);
    assert(g1.counts[n] == (k, 1nat));
    assert(has_key(g1.counts, k));
    assert(key_index(g1.counts, k) == n) by {
        let i = key_index(g1.counts, k);
        assert(0 <= i < g1.counts.len() && g1.counts[i].0 == k);
        if i < n {
            assert(g.counts[i].0 == k);
            assert(has_key(g.counts, k));
        }
    }
    let g2 = g1.after_inc(k);
    assert(g2.counts[n] == (k, 2nat));
    assert(has_key(g2.counts, k));
    assert(key_index(g2.counts, k) == n) by {
        let i = key_index(g2.counts, k);
        if i != n {
            assert(g2.counts[i] == g1.counts[i]);
            assert(g.counts[i].0 == k);
        }
    }
    let g3 = g2.after_dec(k);
    assert(g3.counts[n] == (k, 1nat));
    assert(has_key(g3.counts, k));
    assert(key_index(g3.counts, k) == n) by {
        let i = key_index(g3.counts, k);
        if i != n {
            assert(g3.counts[i] == g2.counts[i]);
            assert(g.counts[i].0 == k);
        }
    }
    let g4 = g3.after_dec(k);
    assert(g4.counts[n] == (k, 0nat));
    assert(g4.marked.last() == k);
    assert(g4.marked.contains(k));
    if g4.marked.len() >= g4.threshold {
        assert(g4.after_collect().1 == g4.marked);
    }
    // the zero-count entry survives into the filtered zero list
    let zeros = g4.counts.filter(count_is_zero());
    assert(count_is_zero()(g4.counts[n]));
    assert(g4.counts.contains(g4.counts[n]));
    g4.counts.lemma_filter_contains(count_is_zero(), n);
    assert(zeros.contains(g4.counts[n]));
    let zi = choose|i: int| 0 <= i < zeros.len() && zeros[i] == g4.counts[n];
    assert(zeros.map_values(entry_key())[zi] == k);
    assert(g4.after_force().1.contains(k));
}

/// Reference-counted collector with batched sweeping.
pub struct GarbageCollector {
    pub ref_counts: Vec<(String, u32)>,
    pub marked_for_gc: Vec<String>,
    pub collection_threshold: usize,
}

impl View for GarbageCollector {
    type V = GcView;

    open spec fn view(&self) -> GcView {
        GcView {
            counts: Seq::new(
                self.ref_counts@.len(),
                |i: int| (self.ref_counts@[i].0@, self.ref_counts@[i].1 as nat),
            ),
            marked: strs_of(self.marked_for_gc@),
            threshold: self.collection_threshold as nat,
        }
    }
}

impl GarbageCollector {
    /// A collector with no tracked keys and the given batching threshold.
    pub fn new(collection_threshold: usize) -> (r: Self)
        ensures
            r@.counts.len() == 0,
            r@.marked.len() == 0,
            r@.threshold == collection_threshold,
            r@.wf(),
    {
        GarbageCollector {
            ref_counts: Vec::new(),
            marked_for_gc: Vec::new(),
            collection_threshold,
        }
    }

    /// Raise the key's reference count, starting it at one when unknown.
    pub fn inc_ref(&mut self, key: &str)
        requires
            old(self)@.wf(),
            old(self)@.count_of(key@) < u32::MAX,
        ensures
            final(self)@.wf(),
            final(self)@ == old(self)@.after_inc(key@),
    {
        let k: String = key.to_owned();
        let n = self.ref_counts.len();
        let mut i: usize = 0;
        while i < n
            invariant
                i <= n,
                n == self@.counts.len(),
                self@ == old(self)@,
                old(self)@.wf(),
                old(self)@.count_of(key@) < u32::MAX,
                k@ == key@,
                forall|j: int| 0 <= j < i ==> (#[trigger] self@.counts[j]).0 != key@,
            decreases n - i,
        {
            if self.ref_counts[i].0 == k {
                let ghost pre = self@;
                let c = self.ref_counts[i].1;
                proof {
                    assert(pre.counts[i as int].0 == key@);
                    assert(has_key(pre.counts, key@));
                    assert(key_index(pre.counts, key@) == i as int) by {
                        let j = key_index(pre.counts, key@);
                        assert(0 <= j < pre.counts.len() && pre.counts[j].0 == key@);
                    }
                    assert(pre.count_of(key@) == c as nat);
                }
                self.ref_counts[i].1 = c + 1;
                proof {
                    assert(self@ =~= pre.after_inc(key@));
                }
                return;
            }
            i = i + 1;
        }
        proof {
            assert(!has_key(old(self)@.counts, key@));
        }
        self.ref_counts.push((k, 1));
        proof {
            assert(self@ =~= old(self)@.after_inc(key@));
            assert(forall|j: int| 0 <= j < old(self)@.counts.len()
                ==> (#[trigger] self@.counts[j]) == old(self)@.counts[j]);
        }
    }

    /// Lower a positive reference count; a transition to exactly zero adds
    /// the key to the pending list.
    pub fn dec_ref(&mut self, key: &str)
        requires
            old(self)@.wf(),
        ensures
            final(self)@.wf(),
            final(self)@ == old(self)@.after_dec(key@),
    {
        let k: String = key.to_owned();
        let n = self.ref_counts.len();
        let mut i: usize = 0;
        while i < n
            invariant
                i <= n,
                n == self@.counts.len(),
                self@ == old(self)@,
                old(self)@.wf(),
                k@ == key@,
                forall|j: int| 0 <= j < i ==> (#[trigger] self@.counts[j]).0 != key@,
            decreases n - i,
        {
            if self.ref_counts[i].0 == k {
                let ghost pre = self@;
                proof {
                    assert(pre.counts[i as int].0 == key@);
                    assert(has_key(pre.counts, key@));
                    assert(key_index(pre.counts, key@) == i as int) by {
                        let j = key_index(pre.counts, key@);
                        assert(0 <= j < pre.counts.len() && pre.counts[j].0 == key@);
                    }
                }
                let c = self.ref_counts[i].1;
                if c > 0 {
                    self.ref_counts[i].1 = c - 1;
                    if c == 1 {
                        self.marked_for_gc.push(k);
                        proof {
                            assert(self@.marked =~= pre.marked.push(key@));
                            assert(self@ =~= pre.after_dec(key@));
                        }
                    } else {
                        proof {
                            assert(self@ =~= pre.after_dec(key@));
                        }
                    }
                }
                return;
            }
            i = i + 1;
        }
        proof {
            assert(!has_key(old(self)@.counts, key@));
        }
    }

    /// Sweep once the pending list has reached the threshold: every pending
    /// key is removed from the counts and the pending keys are returned;
    /// below the threshold nothing changes and nothing is returned.
    pub fn collect_garbage(&mut self) -> (r: Vec<String>)
        requires
            old(self)@.wf(),
        ensures
            final(self)@.wf(),
            final(self)@ == old(self)@.after_collect().0,
            strs_of(r@) == old(self)@.after_collect().1,
    {
        if self.marked_for_gc.len() < self.collection_threshold {
            let r: Vec<String> = Vec::new();
            proof {
                assert(strs_of(r@) =~= Seq::<Seq<char>>::empty());
            }
            return r;
        }
        let collected = clone_strings(&self.marked_for_gc);
        let ghost g: Seq<(Seq<char>, nat)> = self@.counts;
        let ghost pred = key_not_in(self@.marked);
        let mut kept: Vec<(String, u32)> = Vec::new();
        let n = self.ref_counts.len();
        let mut i: usize = 0;
        proof {
            reveal(Seq::filter);
            assert(g.take(0).filter(pred) =~= Seq::<(Seq<char>, nat)>::empty());
        }
        while i < n
            invariant
                i <= n,
                n == self@.counts.len(),
                self@ == old(self)@,
                old(self)@.wf(),
                g == self@.counts,
                pred == key_not_in(self@.marked),
                strs_of(collected@) == self@.marked,
                counts_of(kept@) =~= g.take(i as int).filter(pred),
            decreases n - i,
        {
            proof {
                reveal(Seq::filter);
                assert(g.take(i + 1).drop_last() =~= g.take(i as int));
                assert(g.take(i + 1).last() == g[i as int]);
                assert(pred(g[i as int]) == !self@.marked.contains(g[i as int].0));
            }
            let key_copy = self.ref_counts[i].0.clone();
            let count = self.ref_counts[i].1;
            proof {
                assert(g[i as int] == (key_copy@, count as nat));
            }
            if !contains_string(&collected, &key_copy) {
                let ghost kpre = kept@;
                kept.push((key_copy, count));
                proof {
                    reveal(Seq::filter);
                    assert forall|j: int| 0 <= j < kept@.len() implies
                        #[trigger] counts_of(kept@)[j] == counts_of(kpre).push(g[i as int])[j] by {
                        if j < kpre.len() {
                            assert(kept@[j] == kpre[j]);
                            assert(counts_of(kpre)[j] == (kpre[j].0@, kpre[j].1 as nat));
                        }
                    }
                    assert(counts_of(kept@) =~= g.take(i + 1).filter(pred));
                }
            } else {
                proof {
                    reveal(Seq::filter);
                    assert(counts_of(kept@) =~= g.take(i + 1).filter(pred));
                }
            }
            i = i + 1;
        }
        proof {
            assert(g.take(n as int) =~= g);
        }
        self.ref_counts = kept;
        self.marked_for_gc = Vec::new();
        proof {
            assert(self@.marked =~= Seq::<Seq<char>>::empty());
            assert(self@ =~= old(self)@.after_collect().0);
            lemma_filter_wf(old(self)@, pred);
        }
        collected
    }

    /// Sweep immediately, regardless of the threshold: every key whose count
    /// is zero is removed from the counts and returned; the pending list is
    /// cleared.
    pub fn force_collect(&mut self) -> (r: Vec<String>)
        requires
            old(self)@.wf(),
        ensures
            final(self)@.wf(),
            final(self)@ == old(self)@.after_force().0,
            strs_of(r@) == old(self)@.after_force().1,
    {
        let ghost g: Seq<(Seq<char>, nat)> = self@.counts;
        let mut kept: Vec<(String, u32)> = Vec::new();
        let mut collected: Vec<String> = Vec::new();
        let n = self.ref_counts.len();
        let mut i: usize = 0;
        proof {
            reveal(Seq::filter);
            assert(g.take(0).filter(count_not_zero()) =~= Seq::<(Seq<char>, nat)>::empty());
            assert(g.take(0).filter(count_is_zero()) =~= Seq::<(Seq<char>, nat)>::empty());
            assert(strs_of(collected@) =~= g.take(0).filter(count_is_zero()).map_values(
                entry_key()));
        }
        while i < n
            invariant
                i <= n,
                n == self@.counts.len(),
                self@ == old(self)@,
                old(self)@.wf(),
                g == self@.counts,
                counts_of(kept@) =~= g.take(i as int).filter(count_not_zero()),
                strs_of(collected@) =~= g.take(i as int).filter(count_is_zero()).map_values(
                    entry_key()),
            decreases n - i,
        {
            proof {
                reveal(Seq::filter);
                assert(g.take(i + 1).drop_last() =~= g.take(i as int));
                assert(g.take(i + 1).last() == g[i as int]);
            }
            let key_copy = self.ref_counts[i].0.clone();
            let count = self.ref_counts[i].1;
            proof {
                assert(g[i as int] == (key_copy@, count as nat));
            }
            if count == 0 {
                let ghost cpre = collected@;
                collected.push(key_copy);
                proof {
                    reveal(Seq::filter);
                    let fz = g.take(i as int).filter(count_is_zero());
                    let zeros = g.take(i + 1).filter(count_is_zero());
                    assert(zeros == fz.push(g[i as int]));
                    assert(strs_of(cpre) == fz.map_values(entry_key()));
                    assert(strs_of(cpre).len() == cpre.len());
                    assert(fz.map_values(entry_key()).len() == fz.len());
                    assert(cpre.len() == fz.len());
                    assert(zeros.len() == cpre.len() + 1);
                    assert(collected@.len() == cpre.len() + 1);
                    assert forall|j: int| 0 <= j < collected@.len() implies
                        #[trigger] strs_of(collected@)[j]
                            == zeros.map_values(entry_key())[j] by {
                        if j < cpre.len() {
                            assert(collected@[j] == cpre[j]);
                            assert(strs_of(cpre)[j] == cpre[j]@);
                            assert(strs_of(collected@)[j] == cpre[j]@);
                            assert(zeros[j] == fz[j]);
                            assert(zeros.map_values(entry_key())[j] == entry_key()(fz[j]));
                            assert(fz.map_values(entry_key())[j] == entry_key()(fz[j]));
                        } else {
                            assert(collected@[j]@ == g[i as int].0);
                            assert(zeros[j] == g[i as int]);
                            assert(zeros.map_values(entry_key())[j] == entry_key()(g[i as int]));
                            assert(entry_key()(g[i as int]) == g[i as int].0);
                        }
                    }
                    assert(strs_of(collected@) =~= zeros.map_values(entry_key()));
                    assert(counts_of(kept@) =~= g.take(i + 1).filter(count_not_zero()));
                }
            } else {
                let ghost kpre = kept@;
                kept.push((key_copy, count));
                proof {
                    reveal(Seq::filter);
                    assert forall|j: int| 0 <= j < kept@.len() implies
                        #[trigger] counts_of(kept@)[j]
                            == counts_of(kpre).push(g[i as int])[j] by {
                        if j < kpre.len() {
                            assert(kept@[j] == kpre[j]);
                            assert(counts_of(kpre)[j] == (kpre[j].0@, kpre[j].1 as nat));
                        }
                    }
                    assert(counts_of(kept@) =~= g.take(i + 1).filter(count_not_zero()));
                    assert(strs_of(collected@) =~= g.take(i + 1).filter(count_is_zero()).map_values(
                        entry_key()));
                }
            }
            i = i + 1;
        }
        proof {
            assert(g.take(n as int) =~= g);
        }
        self.ref_counts = kept;
        self.marked_for_gc = Vec::new();
        proof {
            assert(self@.marked =~= Seq::<Seq<char>>::empty());
            assert(self@ =~= old(self)@.after_force().0);
            lemma_filter_wf(old(self)@, count_not_zero());
        }
        collected
    }
}

/// Clone a vector of strings, preserving order and contents.
pub(crate) fn clone_strings(v: &Vec<String>) -> (r: Vec<String>)
    ensures
        strs_of(r@) == strs_of(v@),
{
    let n = v.len();
    let mut r: Vec<String> = Vec::new();
    let mut i: usize = 0;
    while i < n
        invariant
            i <= n,
            n == v@.len(),
            r@.len() == i,
            forall|j: int| 0 <= j < i ==> (#[trigger] r@[j])@ == v@[j]@,
        decreases n - i,
    {
        let s = v[i].clone();
        r.push(s);
        i = i + 1;
    }
    proof {
        assert(strs_of(r@) =~= strs_of(v@));
    }
    r
}

/// Whether the list holds a string with the same characters.
pub(crate) fn contains_string(v: &Vec<String>, s: &String) -> (r: bool)
    ensures
        r == strs_of(v@).contains(s@),
{
    let n = v.len();
    let mut i: usize = 0;
    while i < n
        invariant
            i <= n,
            n == v@.len(),
            forall|j: int| 0 <= j < i ==> #[trigger] strs_of(v@)[j] != s@,
        decreases n - i,
    {
        if v[i] == *s {
            proof {
                assert(strs_of(v@)[i as int] == s@);
            }
            return true;
        }
        proof {
            assert(strs_of(v@)[i as int] == v@[i as int]@);
        }
        i = i + 1;
    }
    false
}

/// The models of a sequence of keyed counts.
pub open spec fn counts_of(s: Seq<(String, u32)>) -> Seq<(Seq<char>, nat)> {
    Seq::new(s.len(), |i: int| (s[i].0@, s[i].1 as nat))
}

/// A filtered count list keeps its keys distinct.
proof fn lemma_filter_wf(g: GcView, pred: spec_fn((Seq<char>, nat)) -> bool)
    requires
        g.wf(),
    ensures
        forall|i: int, j: int| 0 <= i < j < g.counts.filter(pred).len()
            ==> (#[trigger] g.counts.filter(pred)[i]).0 != (#[trigger] g.counts.filter(pred)[j]).0,
{
    lemma_filter_distinct(g.counts, pred);
}

/// Filtering preserves pairwise distinctness of keys.
proof fn lemma_filter_distinct(s: Seq<(Seq<char>, nat)>, pred: spec_fn((Seq<char>, nat)) -> bool)
    requires
        forall|i: int, j: int| 0 <= i < j < s.len()
            ==> (#[trigger] s[i]).0 != (#[trigger] s[j]).0,
    ensures
        forall|i: int, j: int| 0 <= i < j < s.filter(pred).len()
            ==> (#[trigger] s.filter(pred)[i]).0 != (#[trigger] s.filter(pred)[j]).0,
    decreases s.len(),
{
    reveal(Seq::filter);
    if s.len() > 0 {
        let rest = s.drop_last();
        lemma_filter_distinct(rest, pred);
        let f = s.filter(pred);
        let fr = rest.filter(pred);
        assert forall|i: int, j: int| 0 <= i < j < f.len() implies
            (#[trigger] f[i]).0 != (#[trigger] f[j]).0 by {
            if j < fr.len() {
                assert(f[i] == fr[i] && f[j] == fr[j]);
            } else {
                // the last filtered entry is the last of `s`, distinct from
                // every earlier entry; earlier filtered entries come from `rest`
                assert(f[j] == s.last());
                assert(f[i] == fr[i]);
                lemma_filter_member(rest, pred, i);
            }
        }
    }
}

/// Every filtered entry occurs in the original sequence.
proof fn lemma_filter_member(s: Seq<(Seq<char>, nat)>, pred: spec_fn((Seq<char>, nat)) -> bool, i: int)
    requires
        0 <= i < s.filter(pred).len(),
    ensures
        exists|j: int| 0 <= j < s.len() && (#[trigger] s[j]) == s.filter(pred)[i],
    decreases s.len(),
{
    reveal(Seq::filter);
    if s.len() > 0 {
        let rest = s.drop_last();
        let f = s.filter(pred);
        let fr = rest.filter(pred);
        if i < fr.len() {
            lemma_filter_member(rest, pred, i);
            let j = choose|j: int| 0 <= j < rest.len() && (#[trigger] rest[j]) == fr[i];
            assert(s[j] == f[i]);
        } else {
            assert(f[i] == s.last());
            assert(s[s.len() - 1] == f[i]);
        }
    }
}

} // verus!
