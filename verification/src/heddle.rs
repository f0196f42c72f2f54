use vstd::prelude::*;
use crate::shed::{
    Shed, upper_indices, lower_indices, raises, lemma_new_is_default_pattern,
    lemma_same_raises_same_shed,
};

verus! {

/// The number of `true` entries of a sequence.
pub open spec fn count_true(s: Seq<bool>) -> nat
    decreases s.len(),
{
    if s.len() == 0 {
        0
    } else {
        count_true(s.drop_last()) + if s.last() {
            1nat
        } else {
            0nat
        }
    }
}

/// Negation of every entry.
pub open spec fn negated(s: Seq<bool>) -> Seq<bool> {
    Seq::new(s.len(), |i: int| !s[i])
}

proof fn lemma_mod_step(i: int, row: int, len: int)
    requires
        0 <= i,
        0 <= row,
        0 < len,
    ensures
        (i + 1 + row) % len == if (i + row) % len + 1 == len {
            0
        } else {
            (i + row) % len + 1
        },
{
    let x = i + row;
    let q = x / len;
    let m = x % len;
    vstd::arithmetic::div_mod::lemma_fundamental_div_mod(x, len);
    vstd::arithmetic::div_mod::lemma_mod_bound(x, len);
    if m + 1 == len {
        assert(x + 1 == (q + 1) * len + 0) by (nonlinear_arith)
            requires
                x == len * q + m,
                m + 1 == len,
        ;
        vstd::arithmetic::div_mod::lemma_fundamental_div_mod_converse(x + 1, len, q + 1, 0);
    } else {
        assert(x + 1 == q * len + (m + 1)) by (nonlinear_arith)
            requires
                x == len * q + m,
        ;
        vstd::arithmetic::div_mod::lemma_fundamental_div_mod_converse(x + 1, len, q, m + 1);
    }
}

/// A heddle controls the pattern of the weave by determining which threads are raised.
#[derive(Debug, Clone)]
pub struct Heddle {
    pub pattern: Vec<bool>,
    pub row: usize,
    pub repeat: usize,
}

impl Heddle {
    /// The number of rows after which `advance` comes back to row 0.
    pub open spec fn period(&self) -> int {
        self.pattern@.len() * self.repeat
    }

    /// What `advance` asks of a heddle: a cycle that fits in `usize`, and a row
    /// that can be incremented.
    pub open spec fn can_advance(&self) -> bool {
        &&& self.period() > 0
        &&& self.period() <= usize::MAX
        &&& self.row < usize::MAX
    }

    /// The heddle after one `advance`.
    pub open spec fn advanced(&self) -> Heddle {
        Heddle { row: ((self.row + 1) % self.period()) as usize, ..*self }
    }

    /// Which of `thread_count` threads the heddle raises at its current row.
    pub open spec fn state(&self, thread_count: nat) -> Seq<bool> {
        Seq::new(
            thread_count,
            |i: int| self.pattern@[(i + self.row) % (self.pattern@.len() as int)],
        )
    }

    pub fn new(pattern: Vec<bool>) -> (r: Self)
        ensures
            r.pattern@ == pattern@,
            r.row == 0,
            r.repeat == 1,
    {
        Heddle { pattern, row: 0, repeat: 1 }
    }

    /// Sets the number of repeats, at least 1.
    pub fn with_repeat(self, repeat: usize) -> (r: Self)
        ensures
            r.pattern == self.pattern,
            r.row == self.row,
            r.repeat == if repeat > 1 {
                repeat
            } else {
                1
            },
    {
        let mut h = self;
        h.repeat = if repeat > 1 {
            repeat
        } else {
            1
        };
        h
    }

    pub fn len(&self) -> (r: usize)
        ensures
            r == self.pattern@.len(),
    {
        self.pattern.len()
    }

    pub fn is_empty(&self) -> (r: bool)
        ensures
            r == (self.pattern@.len() == 0),
    {
        self.pattern.len() == 0
    }

    /// The pattern's entry at `index`, wrapping around its end.
    pub fn get(&self, index: usize) -> (r: bool)
        requires
            self.pattern@.len() > 0,
        ensures
            r == self.pattern@[(index as int) % (self.pattern@.len() as int)],
    {
        self.pattern[index % self.pattern.len()]
    }

    /// Sets the pattern's entry at `index`; does nothing past the end.
    pub fn set(&mut self, index: usize, value: bool)
        ensures
            final(self).pattern@ == if index < old(self).pattern@.len() {
                old(self).pattern@.update(index as int, value)
            } else {
                old(self).pattern@
            },
            final(self).row == old(self).row,
            final(self).repeat == old(self).repeat,
    {
        if index < self.pattern.len() {
            self.pattern[index] = value;
        }
    }

    /// Advances to the next row in the pattern; returns whether the cycle of
    /// `len * repeat` rows came back to row 0.
    pub fn advance(&mut self) -> (r: bool)
        requires
            old(self).can_advance(),
        ensures
            *final(self) == old(self).advanced(),
            r == (final(self).row == 0),
    {
        let period = self.pattern.len() * self.repeat;
        self.row = (self.row + 1) % period;
        self.row == 0
    }

    /// Which of `thread_count` threads the heddle raises at its current row:
    /// thread `i` gets the pattern's entry at `i + row`, wrapping around.
    pub fn current_state(&self, thread_count: usize) -> (r: Vec<bool>)
        requires
            self.pattern@.len() > 0,
        ensures
            r@ == self.state(thread_count as nat),
            r@.len() == thread_count,
            forall|i: int|
                0 <= i < thread_count ==> #[trigger] r@[i] == self.pattern@[(i + self.row) % (
                self.pattern@.len() as int)],
    {
        let len = self.pattern.len();
        let mut idx = self.row % len;
        let mut r: Vec<bool> = Vec::new();
        let mut i: usize = 0;
        while i < thread_count
            invariant
                len == self.pattern@.len(),
                len > 0,
                i <= thread_count,
                idx == (i + self.row) % (len as int),
                r@ == self.state(i as nat),
            decreases thread_count - i,
        {
            r.push(self.pattern[idx]);
            proof {
                lemma_mod_step(i as int, self.row as int, len as int);
            }
            idx = if idx + 1 == len {
                0
            } else {
                idx + 1
            };
            i = i + 1;
            assert(r@ =~= self.state(i as nat));
        }
        r
    }

    /// A shed whose upper group is the threads raised at the current row.
    pub fn create_shed(&self, thread_count: usize) -> (r: Shed)
        requires
            self.pattern@.len() > 0,
        ensures
            r.upper@ == upper_indices(thread_count as nat, self.state(thread_count as nat)),
            r.lower@ == lower_indices(thread_count as nat, self.state(thread_count as nat)),
    {
        let state = self.current_state(thread_count);
        Shed::with_pattern(thread_count, state.as_slice())
    }

    /// Plain weave pattern.
    pub fn plain() -> (r: Self)
        ensures
            r.pattern@ == seq![true, false],
            r.row == 0,
            r.repeat == 1,
    {
        Heddle::new(vec![true, false])
    }

    /// Twill pattern.
    pub fn twill() -> (r: Self)
        ensures
            r.pattern@ == seq![true, true, false, false],
            r.row == 0,
            r.repeat == 1,
    {
        Heddle::new(vec![true, true, false, false])
    }

    /// Satin pattern (5-shaft).
    pub fn satin() -> (r: Self)
        ensures
            r.pattern@ == seq![true, false, false, false, false],
            r.row == 0,
            r.repeat == 1,
    {
        Heddle::new(vec![true, false, false, false, false])
    }

    /// Inverts the pattern.
    pub fn invert(&mut self)
        ensures
            final(self).pattern@ == negated(old(self).pattern@),
            final(self).row == old(self).row,
            final(self).repeat == old(self).repeat,
    {
        let mut i: usize = 0;
        while i < self.pattern.len()
            invariant
                i <= self.pattern@.len(),
                self.pattern@.len() == old(self).pattern@.len(),
                forall|j: int| 0 <= j < i ==> self.pattern@[j] == !old(self).pattern@[j],
                forall|j: int| i <= j < self.pattern@.len() ==> self.pattern@[j] == old(self).pattern@[j],
                self.row == old(self).row,
                self.repeat == old(self).repeat,
            decreases self.pattern@.len() - i,
        {
            let v = self.pattern[i];
            self.pattern[i] = !v;
            i = i + 1;
        }
        assert(self.pattern@ =~= negated(old(self).pattern@));
    }

    /// Count of raised threads in the pattern.
    pub fn raised_count(&self) -> (r: usize)
        ensures
            r == count_true(self.pattern@),
    {
        let mut n: usize = 0;
        let mut i: usize = 0;
        while i < self.pattern.len()
            invariant
                i <= self.pattern@.len(),
                n == count_true(self.pattern@.take(i as int)),
                n <= i,
            decreases self.pattern@.len() - i,
        {
            assert(self.pattern@.take(i + 1).drop_last() =~= self.pattern@.take(i as int));
            if self.pattern[i] {
                n = n + 1;
            }
            i = i + 1;
        }
        assert(self.pattern@.take(i as int) =~= self.pattern@);
        n
    }
}

/// The heddle after `k` advances.
pub open spec fn advanced_times(h: Heddle, k: nat) -> Heddle
    decreases k,
{
    if k == 0 {
        h
    } else {
        advanced_times(h, (k - 1) as nat).advanced()
    }
}

/// The pattern wraps around: index `i` and index `i + len` read the same entry.
pub proof fn lemma_get_wraps(pattern: Seq<bool>, index: int)
    requires
        pattern.len() > 0,
        index >= 0,
    ensures
        pattern[(index + pattern.len()) % (pattern.len() as int)] == pattern[index % (
        pattern.len() as int)],
{
    vstd::arithmetic::div_mod::lemma_mod_add_multiples_vanish(index, pattern.len() as int);
}

/// A heddle whose row lies inside its cycle can keep advancing: after `k`
/// advances its row is `(row + k) % (len * repeat)`, it can still advance, and
/// only the row has changed. After a whole cycle it is back at its row.
pub proof fn lemma_advance_cycles(h: Heddle, k: nat)
    requires
        h.can_advance(),
        h.row < h.period(),
    ensures
        advanced_times(h, k).row == (h.row + k) % h.period(),
        advanced_times(h, k).pattern == h.pattern,
        advanced_times(h, k).repeat == h.repeat,
        advanced_times(h, k).can_advance(),
        advanced_times(h, h.period() as nat).row == h.row,
{
    lemma_advance_steps(h, k);
    lemma_advance_steps(h, h.period() as nat);
    vstd::arithmetic::div_mod::lemma_mod_add_multiples_vanish(h.row as int, h.period());
    vstd::arithmetic::div_mod::lemma_small_mod(h.row as nat, h.period() as nat);
}

proof fn lemma_advance_steps(h: Heddle, k: nat)
    requires
        h.can_advance(),
        h.row < h.period(),
    ensures
        advanced_times(h, k).row == (h.row + k) % h.period(),
        advanced_times(h, k).pattern == h.pattern,
        advanced_times(h, k).repeat == h.repeat,
        advanced_times(h, k).can_advance(),
    decreases k,
{
    let p = h.period();
    if k == 0 {
        vstd::arithmetic::div_mod::lemma_small_mod(h.row as nat, p as nat);
    } else {
        let k1 = (k - 1) as nat;
        lemma_advance_steps(h, k1);
        let prev = advanced_times(h, k1);
        vstd::arithmetic::div_mod::lemma_mod_bound(h.row + k1, p);
        vstd::arithmetic::div_mod::lemma_add_mod_noop(h.row + k1, 1, p);
        vstd::arithmetic::div_mod::lemma_mod_twice(h.row + k1 + 1, p);
        vstd::arithmetic::div_mod::lemma_mod_bound(h.row + k, p);
        if p == 1 {
            vstd::arithmetic::div_mod::lemma_small_mod(1, 2);
        } else {
            vstd::arithmetic::div_mod::lemma_small_mod(1, p as nat);
        }
    }
}

/// A heddle's state reads the pattern from its row on: thread `i` gets entry
/// `(i + row) % len`, whatever the repeat; so after one advance the state is
/// the state before it shifted by one thread.
pub proof fn lemma_state_after_advance(h: Heddle, thread_count: nat, i: int)
    requires
        h.can_advance(),
        0 <= i < thread_count,
    ensures
        h.state(thread_count)[i] == h.pattern@[(i + h.row) % (h.pattern@.len() as int)],
        h.advanced().state(thread_count)[i] == h.state(thread_count + 1)[i + 1],
        h.advanced().state(thread_count)[i] == h.pattern@[(i + 1 + h.row) % (h.pattern@.len() as int)],
{
    let len = h.pattern@.len() as int;
    let p = h.period();
    assert(len > 0 && h.repeat > 0) by (nonlinear_arith)
        requires
            p == len * h.repeat,
            p > 0,
            len >= 0,
    ;
    let nr = (h.row + 1) % p;
    vstd::arithmetic::div_mod::lemma_mod_mod(h.row + 1, len, h.repeat as int);
    assert(nr % len == (h.row + 1) % len);
    vstd::arithmetic::div_mod::lemma_add_mod_noop(i, nr, len);
    vstd::arithmetic::div_mod::lemma_add_mod_noop(i, h.row + 1, len);
    assert((i + nr) % len == (i + 1 + h.row) % len);
    assert(h.advanced().row == nr);
}

/// Inverting twice gives the pattern back, and the inverted pattern raises the
/// threads that the pattern lowers.
pub proof fn lemma_invert_twice(pattern: Seq<bool>)
    ensures
        negated(negated(pattern)) == pattern,
        count_true(negated(pattern)) + count_true(pattern) == pattern.len(),
    decreases pattern.len(),
{
    assert(negated(negated(pattern)) =~= pattern);
    if pattern.len() > 0 {
        lemma_invert_twice(pattern.drop_last());
        assert(negated(pattern).drop_last() =~= negated(pattern.drop_last()));
    }
}

/// The shed of a plain heddle at its first row is the plain (alternating) shed.
pub proof fn lemma_plain_heddle_shed(h: Heddle, thread_count: usize)
    requires
        h.pattern@ == seq![true, false],
        h.row == 0,
    ensures
        upper_indices(thread_count as nat, h.state(thread_count as nat)) == Seq::new(
            (thread_count as nat + 1) / 2,
            |i: int| (2 * i) as usize,
        ),
        lower_indices(thread_count as nat, h.state(thread_count as nat)) == Seq::new(
            thread_count as nat / 2,
            |i: int| (2 * i + 1) as usize,
        ),
{
    let st = h.state(thread_count as nat);
    assert forall|i: usize| i < thread_count implies raises(st, i) == raises(Seq::empty(), i) by {
        assert(st[i as int] == h.pattern@[(i as int) % 2]);
    }
    lemma_same_raises_same_shed(thread_count, st, Seq::empty());
    lemma_new_is_default_pattern(thread_count);
}

/// With a single heddle, a harness's combined pattern is that heddle's state.
pub proof fn lemma_single_heddle_combined(heddles: Seq<Heddle>, thread_count: nat, i: int)
    requires
        heddles.len() == 1,
        0 <= i < thread_count,
    ensures
        (exists|j: int| 0 <= j < heddles.len() && #[trigger] heddles[j].state(thread_count)[i])
            == heddles[0].state(thread_count)[i],
{
    if heddles[0].state(thread_count)[i] {
        assert(0 <= 0 < heddles.len() && heddles[0].state(thread_count)[i]);
    }
}

/// A harness holds multiple heddles for complex patterns.
#[derive(Debug, Clone)]
pub struct Harness {
    pub heddles: Vec<Heddle>,
    pub current_heddle: usize,
}

impl Harness {
    pub fn new() -> (r: Self)
        ensures
            r.heddles@ == Seq::<Heddle>::empty(),
            r.current_heddle == 0,
    {
        Harness { heddles: Vec::new(), current_heddle: 0 }
    }

    pub fn add_heddle(&mut self, heddle: Heddle)
        ensures
            final(self).heddles@ == old(self).heddles@.push(heddle),
            final(self).current_heddle == old(self).current_heddle,
    {
        self.heddles.push(heddle);
    }

    pub fn heddle_count(&self) -> (r: usize)
        ensures
            r == self.heddles@.len(),
    {
        self.heddles.len()
    }

    pub fn current(&self) -> (r: Option<&Heddle>)
        ensures
            r == (if self.current_heddle < self.heddles@.len() {
                Some(&self.heddles@[self.current_heddle as int])
            } else {
                None
            }),
    {
        if self.current_heddle < self.heddles.len() {
            Some(&self.heddles[self.current_heddle])
        } else {
            None
        }
    }

    pub fn current_mut(&mut self) -> (r: Option<&mut Heddle>)
        ensures
            old(self).current_heddle < old(self).heddles@.len() ==> r is Some
                && *r->0 == old(self).heddles@[old(self).current_heddle as int]
                && final(self).heddles@ == old(self).heddles@.update(
                old(self).current_heddle as int,
                *final(r->0),
            ) && final(self).current_heddle == old(self).current_heddle,
            old(self).current_heddle >= old(self).heddles@.len() ==> r is None && *final(self)
                == *old(self),
    {
        if self.current_heddle < self.heddles.len() {
            Some(&mut self.heddles[self.current_heddle])
        } else {
            None
        }
    }

    /// Advances the current heddle; when its cycle comes back to row 0, moves on
    /// to the next heddle, cycling through them. Returns whether the whole
    /// harness came back to its first heddle (and `true` when there is no
    /// current heddle).
    pub fn advance(&mut self) -> (r: bool)
        requires
            old(self).current_heddle < old(self).heddles@.len() ==> old(self).heddles@[old(
                self,
            ).current_heddle as int].can_advance(),
        ensures
            ({
                let c = old(self).current_heddle;
                let hs = old(self).heddles@;
                if c < hs.len() {
                    let h = hs[c as int].advanced();
                    &&& final(self).heddles@ == hs.update(c as int, h)
                    &&& if h.row == 0 {
                        &&& final(self).current_heddle == (c + 1) % (hs.len() as int)
                        &&& r == (final(self).current_heddle == 0)
                    } else {
                        &&& final(self).current_heddle == c
                        &&& !r
                    }
                } else {
                    &&& *final(self) == *old(self)
                    &&& r
                }
            }),
    {
        if self.heddles.len() == 0 {
            return true;
        }
        if self.current_heddle < self.heddles.len() {
            let c = self.current_heddle;
            let wrapped = self.heddles[c].advance();
            if wrapped {
                self.current_heddle = (c + 1) % self.heddles.len();
                self.current_heddle == 0
            } else {
                false
            }
        } else {
            true
        }
    }

    /// Threads raised by any heddle at its current row.
    pub fn combined_pattern(&self, thread_count: usize) -> (r: Vec<bool>)
        requires
            forall|j: int| 0 <= j < self.heddles@.len() ==> #[trigger] self.heddles@[j].pattern@.len() > 0,
        ensures
            r@.len() == thread_count,
            forall|i: int|
                0 <= i < thread_count ==> #[trigger] r@[i] == exists|j: int|
                    0 <= j < self.heddles@.len() && #[trigger] self.heddles@[j].state(thread_count as nat)[i],
    {
        let mut result: Vec<bool> = Vec::new();
        let mut i: usize = 0;
        while i < thread_count
            invariant
                i <= thread_count,
                result@.len() == i,
                forall|k: int| 0 <= k < i ==> !#[trigger] result@[k],
            decreases thread_count - i,
        {
            result.push(false);
            i = i + 1;
        }
        let mut h: usize = 0;
        while h < self.heddles.len()
            invariant
                h <= self.heddles@.len(),
                forall|j: int| 0 <= j < self.heddles@.len() ==> #[trigger] self.heddles@[j].pattern@.len() > 0,
                result@.len() == thread_count,
                forall|k: int|
                    0 <= k < thread_count ==> #[trigger] result@[k] == exists|j: int|
                        0 <= j < h && #[trigger] self.heddles@[j].state(thread_count as nat)[k],
            decreases self.heddles@.len() - h,
        {
            let state = self.heddles[h].current_state(thread_count);
            let ghost before = result@;
            let mut i: usize = 0;
            while i < thread_count
                invariant
                    i <= thread_count,
                    state@ == self.heddles@[h as int].state(thread_count as nat),
                    result@.len() == thread_count,
                    before.len() == thread_count,
                    forall|k: int| 0 <= k < i ==> #[trigger] result@[k] == (before[k] || state@[k]),
                    forall|k: int| i <= k < thread_count ==> #[trigger] result@[k] == before[k],
                decreases thread_count - i,
            {
                if state[i] {
                    result[i] = true;
                }
                i = i + 1;
            }
            assert forall|k: int| 0 <= k < thread_count implies #[trigger] result@[k] == exists|j: int|
                0 <= j < h + 1 && #[trigger] self.heddles@[j].state(thread_count as nat)[k] by {
                if result@[k] {
                    if before[k] {
                        let j = choose|j: int|
                            0 <= j < h && #[trigger] self.heddles@[j].state(thread_count as nat)[k];
                        assert(0 <= j < h + 1 && self.heddles@[j].state(thread_count as nat)[k]);
                    } else {
                        assert(self.heddles@[h as int].state(thread_count as nat)[k]);
                    }
                }
            }
            h = h + 1;
        }
        result
    }

    pub fn is_empty(&self) -> (r: bool)
        ensures
            r == (self.heddles@.len() == 0),
    {
        self.heddles.len() == 0
    }
}

impl Default for Harness {
    fn default() -> (r: Self)
        ensures
            r.heddles@ == Seq::<Heddle>::empty(),
            r.current_heddle == 0,
    {
        Self::new()
    }
}

} // verus!
