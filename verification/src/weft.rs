use vstd::prelude::*;
use crate::measure::{sum_of, lemma_sum_push, lemma_sum_prefix};
use crate::metadata::Metadata;

verus! {

/// The range `[lo, hi)` of values that `splice(start, end)` keeps of a thread
/// with `len` values: the values from `start` on, at most `end - start` of them.
pub open spec fn splice_bounds(len: nat, start: nat, end: nat) -> (int, int) {
    let lo = if start < len { start } else { len };
    let top = if end > start { end } else { start };
    let hi = if top < len { top } else { len };
    (lo as int, hi as int)
}

/// Reversing a thread's values twice gives them back.
pub proof fn lemma_reverse_twice<T>(values: Seq<T>)
    ensures
        values.reverse().reverse() == values,
{
    assert(values.reverse().reverse() =~= values);
}

/// Removing the value just inserted at `index` gives the values back.
pub proof fn lemma_insert_then_remove<T>(values: Seq<T>, index: int, value: T)
    requires
        0 <= index <= values.len(),
    ensures
        values.insert(index, value)[index] == value,
        values.insert(index, value).remove(index) == values,
{
    assert(values.insert(index, value).remove(index) =~= values);
}

/// Splicing from 0 to the thread's length keeps every value.
pub proof fn lemma_splice_all(len: nat)
    ensures
        splice_bounds(len, 0, len) == (0int, len as int),
{
}

/// A cross-thread (weft) that weaves through the warp.
#[derive(Debug, Clone)]
pub struct WeftThread<T: Clone> {
    pub id: usize,
    pub values: Vec<T>,
    pub color: String,
    pub metadata: Metadata,
}

impl<T: Clone> WeftThread<T> {
    /// A thread with color `"default"` and no metadata.
    pub fn new(id: usize, values: Vec<T>) -> (r: Self)
        ensures
            r.id == id,
            r.values@ == values@,
            r.color@ == "default"@,
            r.metadata@ == Map::<Seq<char>, Seq<char>>::empty(),
    {
        WeftThread { id, values, color: "default".to_owned(), metadata: Metadata::new() }
    }

    pub fn with_color(self, color: &str) -> (r: Self)
        ensures
            r.id == self.id,
            r.values == self.values,
            r.color@ == color@,
            r.metadata == self.metadata,
    {
        let mut s = self;
        s.color = color.to_owned();
        s
    }

    pub fn length(&self) -> (r: usize)
        ensures
            r == self.values@.len(),
    {
        self.values.len()
    }

    pub fn is_empty(&self) -> (r: bool)
        ensures
            r == (self.values@.len() == 0),
    {
        self.values.len() == 0
    }

    pub fn get(&self, index: usize) -> (r: Option<&T>)
        ensures
            r == (if index < self.values@.len() {
                Some(&self.values@[index as int])
            } else {
                None
            }),
    {
        if index < self.values.len() {
            Some(&self.values[index])
        } else {
            None
        }
    }

    pub fn push(&mut self, value: T)
        ensures
            final(self).values@ == old(self).values@.push(value),
            final(self).id == old(self).id,
            final(self).color == old(self).color,
            final(self).metadata == old(self).metadata,
    {
        self.values.push(value);
    }

    /// Inserts `value` before position `index`; does nothing when `index` is past the end.
    pub fn insert(&mut self, index: usize, value: T)
        ensures
            final(self).values@ == (if index <= old(self).values@.len() {
                old(self).values@.insert(index as int, value)
            } else {
                old(self).values@
            }),
            final(self).id == old(self).id,
            final(self).color == old(self).color,
            final(self).metadata == old(self).metadata,
    {
        if index <= self.values.len() {
            self.values.insert(index, value);
        }
    }

    /// Removes and returns the value at `index`, if there is one.
    pub fn remove(&mut self, index: usize) -> (r: Option<T>)
        ensures
            index < old(self).values@.len() ==> r == Some(old(self).values@[index as int])
                && final(self).values@ == old(self).values@.remove(index as int),
            index >= old(self).values@.len() ==> r is None && final(self).values@ == old(self).values@,
            final(self).id == old(self).id,
            final(self).color == old(self).color,
            final(self).metadata == old(self).metadata,
    {
        if index < self.values.len() {
            Some(self.values.remove(index))
        } else {
            None
        }
    }

    pub fn reverse(&mut self)
        ensures
            final(self).values@ == old(self).values@.reverse(),
            final(self).id == old(self).id,
            final(self).color == old(self).color,
            final(self).metadata == old(self).metadata,
    {
        let ghost orig = self.values@;
        let n = self.values.len();
        let mut rev: Vec<T> = Vec::new();
        while rev.len() < n
            invariant
                n == orig.len(),
                rev@.len() + self.values@.len() == n,
                self.values@ == orig.subrange(0, n - rev@.len()),
                forall|j: int| 0 <= j < rev@.len() ==> #[trigger] rev@[j] == orig[n - 1 - j],
                self.id == old(self).id,
                self.color == old(self).color,
                self.metadata == old(self).metadata,
            decreases n - rev@.len(),
        {
            if let Some(v) = self.values.pop() {
                rev.push(v);
            }
        }
        assert(rev@ =~= orig.reverse());
        self.values = rev;
    }

    /// Appends copies of `other`'s values.
    pub fn append(&mut self, other: &WeftThread<T>)
        ensures
            final(self).values@.len() == old(self).values@.len() + other.values@.len(),
            final(self).values@.subrange(0, old(self).values@.len() as int) == old(self).values@,
            forall|j: int|
                0 <= j < other.values@.len() ==> cloned::<T>(
                    other.values@[j],
                    #[trigger] final(self).values@[old(self).values@.len() + j],
                ),
            final(self).id == old(self).id,
            final(self).color == old(self).color,
            final(self).metadata == old(self).metadata,
    {
        let ghost before = self.values@;
        self.values.extend_from_slice(other.values.as_slice());
        assert(self.values@.subrange(0, before.len() as int) =~= before);
        assert forall|j: int| 0 <= j < other.values@.len() implies cloned::<T>(
            other.values@[j],
            #[trigger] self.values@[before.len() + j],
        ) by {
            let k = before.len() + j;
            assert(self.values@[k] == self.values@[k]);
        }
    }

    /// A thread with the same id and color that holds copies of the values from
    /// `start` on, at most `end - start` of them, and no metadata.
    pub fn splice(&self, start: usize, end: usize) -> (r: WeftThread<T>)
        ensures
            r.id == self.id,
            r.color@ == self.color@,
            r.metadata@ == Map::<Seq<char>, Seq<char>>::empty(),
            ({
                let (lo, hi) = splice_bounds(self.values@.len(), start as nat, end as nat);
                &&& r.values@.len() == hi - lo
                &&& forall|j: int|
                    0 <= j < hi - lo ==> cloned::<T>(self.values@[lo + j], #[trigger] r.values@[j])
            }),
    {
        let len = self.values.len();
        let lo = if start < len { start } else { len };
        let top = if end > start { end } else { start };
        let hi = if top < len { top } else { len };
        let mut values: Vec<T> = Vec::new();
        let mut i = lo;
        while i < hi
            invariant
                lo <= i <= hi,
                hi <= self.values@.len(),
                values@.len() == i - lo,
                forall|j: int| 0 <= j < i - lo ==> cloned::<T>(self.values@[lo + j], #[trigger] values@[j]),
            decreases hi - i,
        {
            values.push(self.values[i].clone());
            i = i + 1;
        }
        WeftThread::new(self.id, values).with_color(self.color.as_str())
    }

    /// A thread with the same id, color and metadata whose values are `f` applied to these.
    pub fn map<U: Clone, F: Fn(&T) -> U>(&self, f: F) -> (r: WeftThread<U>)
        requires
            forall|i: int| 0 <= i < self.values@.len() ==> call_requires(f, (&self.values@[i],)),
        ensures
            r.id == self.id,
            r.color@ == self.color@,
            r.metadata@ == self.metadata@,
            r.values@.len() == self.values@.len(),
            forall|i: int|
                0 <= i < self.values@.len() ==> call_ensures(f, (&self.values@[i],), #[trigger] r.values@[i]),
    {
        let mut values: Vec<U> = Vec::new();
        let mut i: usize = 0;
        while i < self.values.len()
            invariant
                i <= self.values@.len(),
                values@.len() == i,
                forall|j: int| 0 <= j < self.values@.len() ==> call_requires(f, (&self.values@[j],)),
                forall|j: int| 0 <= j < i ==> call_ensures(f, (&self.values@[j],), #[trigger] values@[j]),
            decreases self.values@.len() - i,
        {
            let v = f(&self.values[i]);
            values.push(v);
            i = i + 1;
        }
        WeftThread { id: self.id, values, color: self.color.clone(), metadata: self.metadata.clone() }
    }

    /// A thread with this id and color whose values are `f` applied pairwise to
    /// the values of both threads, as far as the shorter one goes.
    pub fn zip_with<U: Clone, V: Clone, F: Fn(&T, &U) -> V>(&self, other: &WeftThread<U>, f: F) -> (r:
        WeftThread<V>)
        requires
            forall|i: int|
                0 <= i < self.values@.len() && 0 <= i < other.values@.len() ==> call_requires(
                    f,
                    (&self.values@[i], &other.values@[i]),
                ),
        ensures
            r.id == self.id,
            r.color@ == self.color@,
            r.metadata@ == Map::<Seq<char>, Seq<char>>::empty(),
            r.values@.len() == (if self.values@.len() < other.values@.len() {
                self.values@.len()
            } else {
                other.values@.len()
            }),
            forall|i: int|
                0 <= i < r.values@.len() ==> call_ensures(
                    f,
                    (&self.values@[i], &other.values@[i]),
                    #[trigger] r.values@[i],
                ),
    {
        let n = if self.values.len() < other.values.len() {
            self.values.len()
        } else {
            other.values.len()
        };
        let mut values: Vec<V> = Vec::new();
        let mut i: usize = 0;
        while i < n
            invariant
                i <= n,
                n <= self.values@.len(),
                n <= other.values@.len(),
                values@.len() == i,
                forall|j: int|
                    0 <= j < self.values@.len() && 0 <= j < other.values@.len() ==> call_requires(
                        f,
                        (&self.values@[j], &other.values@[j]),
                    ),
                forall|j: int|
                    0 <= j < i ==> call_ensures(
                        f,
                        (&self.values@[j], &other.values@[j]),
                        #[trigger] values@[j],
                    ),
            decreases n - i,
        {
            let v = f(&self.values[i], &other.values[i]);
            values.push(v);
            i = i + 1;
        }
        WeftThread::new(self.id, values).with_color(self.color.as_str())
    }
}

/// The number of values of each thread.
pub open spec fn weft_lengths<T: Clone>(threads: Seq<WeftThread<T>>) -> Seq<nat> {
    Seq::new(threads.len(), |i: int| threads[i].values@.len())
}

/// A collection of weft threads.
#[derive(Debug, Clone)]
pub struct Weft<T: Clone> {
    pub threads: Vec<WeftThread<T>>,
}

impl<T: Clone> Weft<T> {
    pub open spec fn lengths(&self) -> Seq<nat> {
        weft_lengths(self.threads@)
    }

    pub fn new() -> (r: Self)
        ensures
            r.threads@ == Seq::<WeftThread<T>>::empty(),
    {
        Weft { threads: Vec::new() }
    }

    pub fn add_thread(&mut self, thread: WeftThread<T>)
        ensures
            final(self).threads@ == old(self).threads@.push(thread),
    {
        self.threads.push(thread);
    }

    pub fn thread(&self, index: usize) -> (r: Option<&WeftThread<T>>)
        ensures
            r == (if index < self.threads@.len() {
                Some(&self.threads@[index as int])
            } else {
                None
            }),
    {
        if index < self.threads.len() {
            Some(&self.threads[index])
        } else {
            None
        }
    }

    pub fn thread_count(&self) -> (r: usize)
        ensures
            r == self.threads@.len(),
    {
        self.threads.len()
    }

    pub fn is_empty(&self) -> (r: bool)
        ensures
            r == (self.threads@.len() == 0),
    {
        self.threads.len() == 0
    }

    /// The number of values over all threads.
    pub fn total_length(&self) -> (r: usize)
        requires
            sum_of(self.lengths()) <= usize::MAX,
        ensures
            r == sum_of(self.lengths()),
    {
        let mut total: usize = 0;
        let mut i: usize = 0;
        while i < self.threads.len()
            invariant
                i <= self.threads@.len(),
                total == sum_of(self.lengths().take(i as int)),
                sum_of(self.lengths()) <= usize::MAX,
            decreases self.threads@.len() - i,
        {
            proof {
                let s = self.lengths();
                assert(s.take(i + 1) =~= s.take(i as int).push(s[i as int]));
                lemma_sum_push(s.take(i as int), s[i as int]);
                lemma_sum_prefix(s, i + 1);
            }
            total = total + self.threads[i].values.len();
            i = i + 1;
        }
        assert(self.lengths().take(i as int) =~= self.lengths());
        total
    }

    /// The color of each thread, in order.
    pub fn colors(&self) -> (r: Vec<&str>)
        ensures
            r@.len() == self.threads@.len(),
            forall|i: int| 0 <= i < self.threads@.len() ==> (#[trigger] r@[i])@ == self.threads@[i].color@,
    {
        let mut r: Vec<&str> = Vec::new();
        let mut i: usize = 0;
        while i < self.threads.len()
            invariant
                i <= self.threads@.len(),
                r@.len() == i,
                forall|j: int| 0 <= j < i ==> (#[trigger] r@[j])@ == self.threads@[j].color@,
            decreases self.threads@.len() - i,
        {
            r.push(self.threads[i].color.as_str());
            i = i + 1;
        }
        r
    }

    /// The threads whose color is `color`, in order.
    pub fn find_by_color(&self, color: &str) -> (r: Vec<&WeftThread<T>>)
        ensures
            r@.map_values(|t: &WeftThread<T>| *t) == self.threads@.filter(
                |t: WeftThread<T>| t.color@ == color@,
            ),
    {
        let target = color.to_owned();
        let ghost pred = |t: WeftThread<T>| t.color@ == color@;
        let mut r: Vec<&WeftThread<T>> = Vec::new();
        let mut i: usize = 0;
        while i < self.threads.len()
            invariant
                i <= self.threads@.len(),
                target@ == color@,
                pred == (|t: WeftThread<T>| t.color@ == color@),
                r@.map_values(|t: &WeftThread<T>| *t) == self.threads@.take(i as int).filter(pred),
            decreases self.threads@.len() - i,
        {
            let t = &self.threads[i];
            proof {
                let s = self.threads@.take(i + 1);
                assert(s.drop_last() =~= self.threads@.take(i as int));
                assert(s.last() == *t);
                reveal(Seq::filter);
            }
            if t.color == target {
                let ghost before = r@;
                r.push(t);
                assert(r@.map_values(|t: &WeftThread<T>| *t) =~= before.map_values(
                    |t: &WeftThread<T>| *t,
                ).push(*t));
            }
            i = i + 1;
        }
        assert(self.threads@.take(i as int) =~= self.threads@);
        r
    }

    /// Whether all threads have the length of the first one.
    pub fn uniform_length(&self) -> (r: bool)
        ensures
            r == (forall|i: int, j: int|
                0 <= i < self.threads@.len() && 0 <= j < self.threads@.len()
                    ==> #[trigger] self.lengths()[i] == #[trigger] self.lengths()[j]),
    {
        if self.threads.len() == 0 {
            return true;
        }
        let len = self.threads[0].values.len();
        let mut i: usize = 0;
        while i < self.threads.len()
            invariant
                0 < self.threads@.len(),
                len == self.lengths()[0],
                i <= self.threads@.len(),
                forall|j: int| 0 <= j < i ==> #[trigger] self.lengths()[j] == len,
            decreases self.threads@.len() - i,
        {
            if self.threads[i].values.len() != len {
                assert(self.lengths()[i as int] != self.lengths()[0]);
                return false;
            }
            i = i + 1;
        }
        true
    }
}

impl<T: Clone> Default for Weft<T> {
    fn default() -> (r: Self)
        ensures
            r.threads@ == Seq::<WeftThread<T>>::empty(),
    {
        Self::new()
    }
}

} // verus!
