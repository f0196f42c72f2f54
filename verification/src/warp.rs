use vstd::prelude::*;
use crate::measure::{
    is_max_of, is_min_of, sum_of, lemma_sum_push, lemma_sum_prefix, lemma_sum_bounds_element,
};
use crate::metadata::Metadata;

verus! {

/// A longitudinal thread in the weave structure.
///
/// The thread's tension is a floating-point quantity and is kept beside the
/// thread by its users; this type holds the thread's identity, values and
/// metadata.
#[derive(Debug, Clone)]
pub struct WarpThread<T: Clone> {
    pub id: usize,
    pub values: Vec<T>,
    pub metadata: Metadata,
}

impl<T: Clone> WarpThread<T> {
    pub fn new(id: usize, values: Vec<T>) -> (r: Self)
        ensures
            r.id == id,
            r.values@ == values@,
            r.metadata@ == Map::<Seq<char>, Seq<char>>::empty(),
    {
        WarpThread { id, values, metadata: Metadata::new() }
    }

    pub fn length(&self) -> (r: usize)
        ensures
            r == self.values@.len(),
    {
        self.values.len()
    }

    pub fn is_empty(&self) -> (r: bool)
        ensures
            r == (self.values@.len() == 0),
    {
        self.values.len() == 0
    }

    pub fn get(&self, index: usize) -> (r: Option<&T>)
        ensures
            r == (if index < self.values@.len() {
                Some(&self.values@[index as int])
            } else {
                None
            }),
    {
        if index < self.values.len() {
            Some(&self.values[index])
        } else {
            None
        }
    }

    /// Replaces the value at `index`; returns whether `index` was in range.
    pub fn set(&mut self, index: usize, value: T) -> (r: bool)
        ensures
            r == (index < old(self).values@.len()),
            final(self).values@ == (if r {
                old(self).values@.update(index as int, value)
            } else {
                old(self).values@
            }),
            final(self).id == old(self).id,
            final(self).metadata == old(self).metadata,
    {
        if index < self.values.len() {
            self.values[index] = value;
            true
        } else {
            false
        }
    }

    pub fn push(&mut self, value: T)
        ensures
            final(self).values@ == old(self).values@.push(value),
            final(self).id == old(self).id,
            final(self).metadata == old(self).metadata,
    {
        self.values.push(value);
    }

    pub fn set_metadata(&mut self, key: &str, value: &str)
        ensures
            final(self).metadata@ == old(self).metadata@.insert(key@, value@),
            final(self).id == old(self).id,
            final(self).values == old(self).values,
    {
        self.metadata.insert(key, value);
    }

    pub fn get_metadata(&self, key: &str) -> (r: Option<&str>)
        ensures
            match r {
                Some(v) => self.metadata@.contains_key(key@) && v@ == self.metadata@[key@],
                None => !self.metadata@.contains_key(key@),
            },
    {
        self.metadata.get(key)
    }

    /// Keeps the first `len` values (all of them when there are fewer).
    pub fn truncate(&mut self, len: usize)
        ensures
            final(self).values@ == (if len < old(self).values@.len() {
                old(self).values@.subrange(0, len as int)
            } else {
                old(self).values@
            }),
            final(self).id == old(self).id,
            final(self).metadata == old(self).metadata,
    {
        self.values.truncate(len);
    }

    /// A thread with the same id and metadata whose values are `f` applied to these.
    pub fn map<U: Clone, F: Fn(&T) -> U>(&self, f: F) -> (r: WarpThread<U>)
        requires
            forall|i: int| 0 <= i < self.values@.len() ==> call_requires(f, (&self.values@[i],)),
        ensures
            r.id == self.id,
            r.metadata@ == self.metadata@,
            r.values@.len() == self.values@.len(),
            forall|i: int|
                0 <= i < self.values@.len() ==> call_ensures(f, (&self.values@[i],), #[trigger] r.values@[i]),
    {
        let mut values: Vec<U> = Vec::new();
        let mut i: usize = 0;
        while i < self.values.len()
            invariant
                i <= self.values@.len(),
                values@.len() == i,
                forall|j: int| 0 <= j < self.values@.len() ==> call_requires(f, (&self.values@[j],)),
                forall|j: int| 0 <= j < i ==> call_ensures(f, (&self.values@[j],), #[trigger] values@[j]),
            decreases self.values@.len() - i,
        {
            let v = f(&self.values[i]);
            values.push(v);
            i = i + 1;
        }
        WarpThread { id: self.id, values, metadata: self.metadata.clone() }
    }
}

/// The number of values of each thread.
pub open spec fn thread_lengths<T: Clone>(threads: Seq<WarpThread<T>>) -> Seq<nat> {
    Seq::new(threads.len(), |i: int| threads[i].values@.len())
}

/// The shortest thread is no longer than the longest, and the longest is no
/// longer than all threads together.
pub proof fn lemma_length_bounds(lengths: Seq<nat>, lo: int, hi: int)
    requires
        is_min_of(lengths, lo),
        is_max_of(lengths, hi),
    ensures
        lo <= hi,
        hi <= sum_of(lengths),
{
    if lengths.len() > 0 {
        let k = choose|k: int| 0 <= k < lengths.len() && #[trigger] lengths[k] == hi;
        assert(lo <= lengths[k]);
        lemma_sum_bounds_element(lengths, k);
    }
}

/// A warp made from a grid whose rows all have one length has uniform length.
pub proof fn lemma_from_grid_uniform<T: Clone>(grid: Seq<Vec<T>>, threads: Seq<WarpThread<T>>, width: nat)
    requires
        threads.len() == grid.len(),
        forall|i: int| 0 <= i < grid.len() ==> (#[trigger] grid[i])@.len() == width,
        forall|i: int| 0 <= i < grid.len() ==> (#[trigger] threads[i]).values@.len() == grid[i]@.len(),
    ensures
        forall|i: int, j: int|
            0 <= i < threads.len() && 0 <= j < threads.len() ==> #[trigger] thread_lengths(threads)[i]
                == #[trigger] thread_lengths(threads)[j],
{
    assert forall|i: int, j: int|
        0 <= i < threads.len() && 0 <= j < threads.len() implies #[trigger] thread_lengths(threads)[i]
        == #[trigger] thread_lengths(threads)[j] by {
        assert(threads[i].values@.len() == grid[i]@.len());
        assert(threads[j].values@.len() == grid[j]@.len());
    }
}

/// A collection of warp threads forming the longitudinal structure.
#[derive(Debug, Clone)]
pub struct Warp<T: Clone> {
    pub threads: Vec<WarpThread<T>>,
}

impl<T: Clone> Warp<T> {
    pub open spec fn lengths(&self) -> Seq<nat> {
        thread_lengths(self.threads@)
    }

    pub fn new() -> (r: Self)
        ensures
            r.threads@ == Seq::<WarpThread<T>>::empty(),
    {
        Warp { threads: Vec::new() }
    }

    pub fn add_thread(&mut self, thread: WarpThread<T>)
        ensures
            final(self).threads@ == old(self).threads@.push(thread),
    {
        self.threads.push(thread);
    }

    pub fn thread(&self, index: usize) -> (r: Option<&WarpThread<T>>)
        ensures
            r == (if index < self.threads@.len() {
                Some(&self.threads@[index as int])
            } else {
                None
            }),
    {
        if index < self.threads.len() {
            Some(&self.threads[index])
        } else {
            None
        }
    }

    pub fn thread_mut(&mut self, index: usize) -> (r: Option<&mut WarpThread<T>>)
        ensures
            index < old(self).threads@.len() ==> r is Some && *r->0 == old(self).threads@[index as int]
                && final(self).threads@ == old(self).threads@.update(index as int, *final(r->0)),
            index >= old(self).threads@.len() ==> r is None && *final(self) == *old(self),
    {
        if index < self.threads.len() {
            Some(&mut self.threads[index])
        } else {
            None
        }
    }

    pub fn thread_count(&self) -> (r: usize)
        ensures
            r == self.threads@.len(),
    {
        self.threads.len()
    }

    pub fn is_empty(&self) -> (r: bool)
        ensures
            r == (self.threads@.len() == 0),
    {
        self.threads.len() == 0
    }

    /// The length of the longest thread, or 0 without threads.
    pub fn max_length(&self) -> (r: usize)
        ensures
            is_max_of(self.lengths(), r as int),
    {
        let mut m: usize = 0;
        let mut i: usize = 0;
        while i < self.threads.len()
            invariant
                i <= self.threads@.len(),
                forall|j: int| 0 <= j < i ==> #[trigger] self.lengths()[j] <= m,
                i == 0 ==> m == 0,
                i > 0 ==> exists|j: int| 0 <= j < i && #[trigger] self.lengths()[j] == m,
            decreases self.threads@.len() - i,
        {
            let l = self.threads[i].values.len();
            assert(self.lengths()[i as int] == l);
            if i == 0 || l > m {
                m = l;
            }
            i = i + 1;
        }
        m
    }

    /// The length of the shortest thread, or 0 without threads.
    pub fn min_length(&self) -> (r: usize)
        ensures
            is_min_of(self.lengths(), r as int),
    {
        let mut m: usize = 0;
        let mut i: usize = 0;
        while i < self.threads.len()
            invariant
                i <= self.threads@.len(),
                forall|j: int| 0 <= j < i ==> m <= #[trigger] self.lengths()[j],
                i == 0 ==> m == 0,
                i > 0 ==> exists|j: int| 0 <= j < i && #[trigger] self.lengths()[j] == m,
            decreases self.threads@.len() - i,
        {
            let l = self.threads[i].values.len();
            assert(self.lengths()[i as int] == l);
            if i == 0 || l < m {
                m = l;
            }
            i = i + 1;
        }
        m
    }

    /// The value at `index` of each thread, `None` for threads that are too short.
    pub fn column(&self, index: usize) -> (r: Vec<Option<&T>>)
        ensures
            r@.len() == self.threads@.len(),
            forall|i: int|
                0 <= i < self.threads@.len() ==> #[trigger] r@[i] == (if index < self.threads@[i].values@.len() {
                    Some(&self.threads@[i].values@[index as int])
                } else {
                    None
                }),
    {
        let mut r: Vec<Option<&T>> = Vec::new();
        let mut i: usize = 0;
        while i < self.threads.len()
            invariant
                i <= self.threads@.len(),
                r@.len() == i,
                forall|j: int|
                    0 <= j < i ==> #[trigger] r@[j] == (if index < self.threads@[j].values@.len() {
                        Some(&self.threads@[j].values@[index as int])
                    } else {
                        None
                    }),
            decreases self.threads@.len() - i,
        {
            r.push(self.threads[i].get(index));
            i = i + 1;
        }
        r
    }

    /// Whether all threads have the same length.
    pub fn uniform_length(&self) -> (r: bool)
        ensures
            r == (forall|i: int, j: int|
                0 <= i < self.threads@.len() && 0 <= j < self.threads@.len()
                    ==> #[trigger] self.lengths()[i] == #[trigger] self.lengths()[j]),
    {
        let lo = self.min_length();
        let hi = self.max_length();
        if lo != hi {
            let ghost a = choose|a: int| 0 <= a < self.lengths().len() && #[trigger] self.lengths()[a] == lo;
            let ghost b = choose|b: int| 0 <= b < self.lengths().len() && #[trigger] self.lengths()[b] == hi;
            assert(self.lengths()[a] != self.lengths()[b]);
        }
        lo == hi
    }

    /// The number of values over all threads.
    pub fn total_elements(&self) -> (r: usize)
        requires
            sum_of(self.lengths()) <= usize::MAX,
        ensures
            r == sum_of(self.lengths()),
    {
        let mut total: usize = 0;
        let mut i: usize = 0;
        while i < self.threads.len()
            invariant
                i <= self.threads@.len(),
                total == sum_of(self.lengths().take(i as int)),
                sum_of(self.lengths()) <= usize::MAX,
            decreases self.threads@.len() - i,
        {
            proof {
                let s = self.lengths();
                assert(s.take(i + 1) =~= s.take(i as int).push(s[i as int]));
                lemma_sum_push(s.take(i as int), s[i as int]);
                lemma_sum_prefix(s, i + 1);
            }
            total = total + self.threads[i].values.len();
            i = i + 1;
        }
        assert(self.lengths().take(i as int) =~= self.lengths());
        total
    }

    /// A warp whose thread `i` has id `i` and a copy of row `i` of `grid`.
    pub fn from_grid(grid: &[Vec<T>]) -> (r: Self)
        ensures
            r.threads@.len() == grid@.len(),
            forall|i: int|
                0 <= i < grid@.len() ==> {
                    let t = #[trigger] r.threads@[i];
                    &&& t.id == i
                    &&& t.values@.len() == grid@[i]@.len()
                    &&& forall|j: int| 0 <= j < grid@[i]@.len() ==> cloned::<T>(grid@[i]@[j], #[trigger] t.values@[j])
                    &&& t.metadata@ == Map::<Seq<char>, Seq<char>>::empty()
                },
    {
        let mut threads: Vec<WarpThread<T>> = Vec::new();
        let mut i: usize = 0;
        while i < grid.len()
            invariant
                i <= grid@.len(),
                threads@.len() == i,
                forall|k: int|
                    0 <= k < i ==> {
                        let t = #[trigger] threads@[k];
                        &&& t.id == k
                        &&& t.values@.len() == grid@[k]@.len()
                        &&& forall|j: int| 0 <= j < grid@[k]@.len() ==> cloned::<T>(grid@[k]@[j], #[trigger] t.values@[j])
                        &&& t.metadata@ == Map::<Seq<char>, Seq<char>>::empty()
                    },
            decreases grid@.len() - i,
        {
            let row = grid[i].clone();
            threads.push(WarpThread::new(i, row));
            i = i + 1;
        }
        Warp { threads }
    }
}

impl<T: Clone> Default for Warp<T> {
    fn default() -> (r: Self)
        ensures
            r.threads@ == Seq::<WarpThread<T>>::empty(),
    {
        Self::new()
    }
}

} // verus!
