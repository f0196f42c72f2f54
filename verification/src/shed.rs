use vstd::prelude::*;

verus! {

/// The thread indices `0, 1, ..., n - 1`.
pub open spec fn indices(n: nat) -> Seq<usize> {
    Seq::new(n, |i: int| i as usize)
}

/// Whether a pattern raises thread `i`: the pattern's entry where it has one,
/// else the even threads.
pub open spec fn raises(pattern: Seq<bool>, i: usize) -> bool {
    if i < pattern.len() {
        pattern[i as int]
    } else {
        i % 2 == 0
    }
}

/// The threads below `total` that `pattern` raises, in increasing order.
pub open spec fn upper_indices(total: nat, pattern: Seq<bool>) -> Seq<usize> {
    indices(total).filter(|i: usize| raises(pattern, i))
}

/// The threads below `total` that `pattern` lowers, in increasing order.
pub open spec fn lower_indices(total: nat, pattern: Seq<bool>) -> Seq<usize> {
    indices(total).filter(|i: usize| !raises(pattern, i))
}

/// The twill pattern shifted by `shift`: two raised threads, then two lowered.
pub open spec fn twill_pattern(total: nat, shift: nat) -> Seq<bool> {
    Seq::new(total, |i: int| (i + shift) % 4 < 2)
}

/// The satin pattern: every `interval`-th thread raised.
pub open spec fn satin_pattern(total: nat, interval: nat) -> Seq<bool> {
    Seq::new(total, |i: int| i % (interval as int) == 0)
}

/// One more index extends the filtered sequences by that index on its side.
proof fn lemma_indices_step(n: nat, pattern: Seq<bool>)
    ensures
        upper_indices(n + 1, pattern) == (if raises(pattern, n as usize) {
            upper_indices(n, pattern).push(n as usize)
        } else {
            upper_indices(n, pattern)
        }),
        lower_indices(n + 1, pattern) == (if raises(pattern, n as usize) {
            lower_indices(n, pattern)
        } else {
            lower_indices(n, pattern).push(n as usize)
        }),
{
    reveal(Seq::filter);
    assert(indices(n + 1).drop_last() =~= indices(n));
    assert(indices(n + 1).last() == n as usize);
}

/// Facts about one side of a split, for all thread counts up to `n`.
spec fn side_facts(side: Seq<usize>, n: nat, up: bool, pattern: Seq<bool>) -> bool {
    &&& forall|i: usize| side.contains(i) <==> (i < n && raises(pattern, i) == up)
    &&& forall|a: int, b: int| 0 <= a < b < side.len() ==> #[trigger] side[a] < #[trigger] side[b]
    &&& forall|a: int| 0 <= a < side.len() ==> #[trigger] side[a] < n
}

proof fn lemma_side_step(side: Seq<usize>, n: nat, up: bool, pattern: Seq<bool>)
    requires
        n <= usize::MAX,
        side_facts(side, n, up, pattern),
    ensures
        side_facts(
            if raises(pattern, n as usize) == up { side.push(n as usize) } else { side },
            n + 1,
            up,
            pattern,
        ),
{
    let next = if raises(pattern, n as usize) == up { side.push(n as usize) } else { side };
    assert forall|i: usize| next.contains(i) <==> (i < n + 1 && raises(pattern, i) == up) by {
        if next.contains(i) {
            let a = choose|a: int| 0 <= a < next.len() && next[a] == i;
            if a < side.len() {
                assert(side[a] == i);
                assert(side.contains(i));
            }
        }
        if i < n + 1 && raises(pattern, i) == up {
            if i < n {
                assert(side.contains(i));
                let a = choose|a: int| 0 <= a < side.len() && side[a] == i;
                assert(next[a] == i);
            } else {
                assert(next[next.len() - 1] == i);
            }
        }
    }
}

proof fn lemma_split_facts(total: nat, pattern: Seq<bool>)
    requires
        total <= usize::MAX + 1,
    ensures
        side_facts(upper_indices(total, pattern), total, true, pattern),
        side_facts(lower_indices(total, pattern), total, false, pattern),
        upper_indices(total, pattern).len() + lower_indices(total, pattern).len() == total,
    decreases total,
{
    if total == 0 {
        reveal(Seq::filter);
        assert(indices(0) =~= Seq::<usize>::empty());
    } else {
        let n = (total - 1) as nat;
        lemma_split_facts(n, pattern);
        lemma_indices_step(n, pattern);
        lemma_side_step(upper_indices(n, pattern), n, true, pattern);
        lemma_side_step(lower_indices(n, pattern), n, false, pattern);
    }
}

/// A shed made from a pattern splits the threads below `total_threads` into two
/// groups: every thread is in exactly one of them, upper where the pattern raises
/// it, lower elsewhere; each group lists its threads in increasing order.
pub proof fn lemma_with_pattern_partitions(total_threads: usize, pattern: Seq<bool>)
    ensures
        ({
            let up = upper_indices(total_threads as nat, pattern);
            let down = lower_indices(total_threads as nat, pattern);
            &&& up.len() + down.len() == total_threads
            &&& forall|i: usize| up.contains(i) <==> (i < total_threads && raises(pattern, i))
            &&& forall|i: usize| down.contains(i) <==> (i < total_threads && !raises(pattern, i))
            &&& forall|a: int, b: int| 0 <= a < b < up.len() ==> #[trigger] up[a] < #[trigger] up[b]
            &&& forall|a: int, b: int| 0 <= a < b < down.len() ==> #[trigger] down[a] < #[trigger] down[b]
        }),
{
    lemma_split_facts(total_threads as nat, pattern);
}

/// Membership in a shed made from a pattern: a thread covered by the pattern is
/// up exactly when the pattern's entry is `true`; a thread past the pattern's
/// end is up exactly when it is even; threads from `total_threads` on are in
/// neither group.
pub proof fn lemma_with_pattern_membership(total_threads: usize, pattern: Seq<bool>)
    ensures
        forall|i: usize|
            i < total_threads && i < pattern.len() ==> (#[trigger] upper_indices(
                total_threads as nat,
                pattern,
            ).contains(i) <==> pattern[i as int]),
        forall|i: usize|
            i < total_threads && i < pattern.len() ==> (#[trigger] lower_indices(
                total_threads as nat,
                pattern,
            ).contains(i) <==> !pattern[i as int]),
        forall|i: usize|
            pattern.len() <= i < total_threads ==> (#[trigger] upper_indices(
                total_threads as nat,
                pattern,
            ).contains(i) <==> i % 2 == 0),
        forall|i: usize|
            pattern.len() <= i < total_threads ==> (#[trigger] lower_indices(
                total_threads as nat,
                pattern,
            ).contains(i) <==> i % 2 == 1),
        forall|i: usize|
            total_threads <= i ==> !(#[trigger] upper_indices(total_threads as nat, pattern).contains(i)),
        forall|i: usize|
            total_threads <= i ==> !(#[trigger] lower_indices(total_threads as nat, pattern).contains(i)),
{
    lemma_with_pattern_partitions(total_threads, pattern);
}

/// In a satin shed with a positive interval, thread `i` below `total_threads`
/// is up exactly when `interval` divides it, and down otherwise; the upper
/// group has `ceil(total_threads / interval)` threads.
pub proof fn lemma_satin_membership(total_threads: usize, interval: usize)
    requires
        interval > 0,
    ensures
        forall|i: usize|
            #[trigger] upper_indices(
                total_threads as nat,
                satin_pattern(total_threads as nat, interval as nat),
            ).contains(i) <==> (i < total_threads && i % interval == 0),
        forall|i: usize|
            #[trigger] lower_indices(
                total_threads as nat,
                satin_pattern(total_threads as nat, interval as nat),
            ).contains(i) <==> (i < total_threads && i % interval != 0),
        upper_indices(total_threads as nat, satin_pattern(total_threads as nat, interval as nat)).len()
            == (total_threads + interval - 1) / (interval as int),
{
    let p = satin_pattern(total_threads as nat, interval as nat);
    lemma_with_pattern_partitions(total_threads, p);
    lemma_satin_count(total_threads as nat, total_threads as nat, interval as nat);
}

proof fn lemma_satin_count(n: nat, total: nat, k: nat)
    requires
        k > 0,
        n <= total,
        total <= usize::MAX + 1,
    ensures
        upper_indices(n, satin_pattern(total, k)).len() == (n + k - 1) / (k as int),
    decreases n,
{
    let p = satin_pattern(total, k);
    if n == 0 {
        reveal(Seq::filter);
        assert(indices(0) =~= Seq::<usize>::empty());
        vstd::arithmetic::div_mod::lemma_fundamental_div_mod_converse(k - 1, k as int, 0, k - 1);
    } else {
        let m = (n - 1) as nat;
        lemma_satin_count(m, total, k);
        lemma_indices_step(m, p);
        assert(raises(p, m as usize) == ((m as int) % (k as int) == 0));
        let mi = m as int;
        let ni = n as int;
        let ki = k as int;
        let q = mi / ki;
        let rem = mi % ki;
        vstd::arithmetic::div_mod::lemma_fundamental_div_mod(mi, ki);
        vstd::arithmetic::div_mod::lemma_mod_bound(mi, ki);
        if rem == 0 {
            assert(mi + ki - 1 == q * ki + (ki - 1)) by (nonlinear_arith)
                requires
                    mi == ki * q + rem,
                    rem == 0,
            ;
            vstd::arithmetic::div_mod::lemma_fundamental_div_mod_converse(mi + ki - 1, ki, q, ki - 1);
            assert(ni + ki - 1 == (q + 1) * ki + 0) by (nonlinear_arith)
                requires
                    mi == ki * q + rem,
                    rem == 0,
                    ni == mi + 1,
            ;
            vstd::arithmetic::div_mod::lemma_fundamental_div_mod_converse(ni + ki - 1, ki, q + 1, 0);
        } else {
            assert(mi + ki - 1 == (q + 1) * ki + (rem - 1)) by (nonlinear_arith)
                requires
                    mi == ki * q + rem,
            ;
            vstd::arithmetic::div_mod::lemma_fundamental_div_mod_converse(mi + ki - 1, ki, q + 1, rem - 1);
            assert(ni + ki - 1 == (q + 1) * ki + rem) by (nonlinear_arith)
                requires
                    mi == ki * q + rem,
                    ni == mi + 1,
            ;
            vstd::arithmetic::div_mod::lemma_fundamental_div_mod_converse(ni + ki - 1, ki, q + 1, rem);
        }
    }
}

/// A shed depends only on which of its threads a pattern raises: two patterns
/// that raise the same threads below `total_threads` give the same shed.
pub proof fn lemma_same_raises_same_shed(total_threads: usize, p: Seq<bool>, q: Seq<bool>)
    requires
        forall|i: usize| i < total_threads ==> raises(p, i) == raises(q, i),
    ensures
        upper_indices(total_threads as nat, p) == upper_indices(total_threads as nat, q),
        lower_indices(total_threads as nat, p) == lower_indices(total_threads as nat, q),
{
    lemma_same_raises_below(total_threads as nat, p, q);
}

proof fn lemma_same_raises_below(n: nat, p: Seq<bool>, q: Seq<bool>)
    requires
        n <= usize::MAX + 1,
        forall|i: usize| i < n ==> raises(p, i) == raises(q, i),
    ensures
        upper_indices(n, p) == upper_indices(n, q),
        lower_indices(n, p) == lower_indices(n, q),
    decreases n,
{
    if n == 0 {
        reveal(Seq::filter);
        assert(indices(0) =~= Seq::<usize>::empty());
    } else {
        let m = (n - 1) as nat;
        lemma_same_raises_below(m, p, q);
        lemma_indices_step(m, p);
        lemma_indices_step(m, q);
        assert(raises(p, m as usize) == raises(q, m as usize));
    }
}

/// The alternating shed is the one an empty pattern gives: past the end of a
/// pattern even threads go up.
pub proof fn lemma_new_is_default_pattern(total_threads: usize)
    ensures
        upper_indices(total_threads as nat, Seq::empty()) == Seq::new(
            (total_threads as nat + 1) / 2,
            |i: int| (2 * i) as usize,
        ),
        lower_indices(total_threads as nat, Seq::empty()) == Seq::new(
            total_threads as nat / 2,
            |i: int| (2 * i + 1) as usize,
        ),
{
    lemma_alternating(total_threads as nat);
}

proof fn lemma_alternating(n: nat)
    requires
        n <= usize::MAX + 1,
    ensures
        upper_indices(n, Seq::empty()) == Seq::new((n + 1) / 2, |i: int| (2 * i) as usize),
        lower_indices(n, Seq::empty()) == Seq::new(n / 2, |i: int| (2 * i + 1) as usize),
    decreases n,
{
    if n == 0 {
        reveal(Seq::filter);
        assert(indices(0) =~= Seq::<usize>::empty());
        assert(upper_indices(0, Seq::empty()) =~= Seq::new(0, |i: int| (2 * i) as usize));
        assert(lower_indices(0, Seq::empty()) =~= Seq::new(0, |i: int| (2 * i + 1) as usize));
    } else {
        let m = (n - 1) as nat;
        lemma_alternating(m);
        lemma_indices_step(m, Seq::empty());
        if m % 2 == 0 {
            assert(upper_indices(n, Seq::empty()) =~= Seq::new((n + 1) / 2, |i: int| (2 * i) as usize));
            assert(lower_indices(n, Seq::empty()) =~= Seq::new(n / 2, |i: int| (2 * i + 1) as usize));
        } else {
            assert(upper_indices(n, Seq::empty()) =~= Seq::new((n + 1) / 2, |i: int| (2 * i) as usize));
            assert(lower_indices(n, Seq::empty()) =~= Seq::new(n / 2, |i: int| (2 * i + 1) as usize));
        }
    }
}

/// A shed separates warp threads into upper and lower groups for weaving.
///
/// How wide the shed is open is a floating-point quantity kept beside the shed
/// by its users; this type holds the two groups.
#[derive(Debug, Clone)]
pub struct Shed {
    /// Indices of threads in upper position.
    pub upper: Vec<usize>,
    /// Indices of threads in lower position.
    pub lower: Vec<usize>,
}

impl Shed {
    /// The even threads up, the odd threads down.
    pub fn new(total_threads: usize) -> (r: Self)
        ensures
            r.upper@ == Seq::new(
                (total_threads as nat + 1) / 2,
                |i: int| (2 * i) as usize,
            ),
            r.lower@ == Seq::new(total_threads as nat / 2, |i: int| (2 * i + 1) as usize),
    {
        let n_upper = total_threads / 2 + total_threads % 2;
        let n_lower = total_threads / 2;
        let mut upper: Vec<usize> = Vec::new();
        let mut k: usize = 0;
        while k < n_upper
            invariant
                n_upper == (total_threads as nat + 1) / 2,
                k <= n_upper,
                upper@ == Seq::new(k as nat, |i: int| (2 * i) as usize),
            decreases n_upper - k,
        {
            upper.push(2 * k);
            k = k + 1;
            assert(upper@ =~= Seq::new(k as nat, |i: int| (2 * i) as usize));
        }
        let mut lower: Vec<usize> = Vec::new();
        let mut k: usize = 0;
        while k < n_lower
            invariant
                n_lower == total_threads as nat / 2,
                k <= n_lower,
                lower@ == Seq::new(k as nat, |i: int| (2 * i + 1) as usize),
            decreases n_lower - k,
        {
            lower.push(2 * k + 1);
            k = k + 1;
            assert(lower@ =~= Seq::new(k as nat, |i: int| (2 * i + 1) as usize));
        }
        Shed { upper, lower }
    }

    /// Threads below `total_threads` go up where `pattern` raises them and down
    /// elsewhere; past the end of the pattern, even threads go up.
    pub fn with_pattern(total_threads: usize, pattern: &[bool]) -> (r: Self)
        ensures
            r.upper@ == upper_indices(total_threads as nat, pattern@),
            r.lower@ == lower_indices(total_threads as nat, pattern@),
            forall|i: usize|
                i < total_threads && i < pattern@.len() ==> (#[trigger] r.upper@.contains(i)
                    <==> pattern@[i as int]),
            forall|i: usize|
                i < total_threads && i < pattern@.len() ==> (#[trigger] r.lower@.contains(i)
                    <==> !pattern@[i as int]),
            forall|i: usize|
                pattern@.len() <= i < total_threads ==> (#[trigger] r.upper@.contains(i) <==> i % 2
                    == 0),
            forall|i: usize|
                pattern@.len() <= i < total_threads ==> (#[trigger] r.lower@.contains(i) <==> i % 2
                    == 1),
            forall|i: usize| total_threads <= i ==> !(#[trigger] r.upper@.contains(i)),
            forall|i: usize| total_threads <= i ==> !(#[trigger] r.lower@.contains(i)),
    {
        proof {
            lemma_with_pattern_membership(total_threads, pattern@);
        }
        let mut upper: Vec<usize> = Vec::new();
        let mut lower: Vec<usize> = Vec::new();
        let mut i: usize = 0;
        proof {
            reveal(Seq::filter);
            assert(indices(0) =~= Seq::<usize>::empty());
        }
        while i < total_threads
            invariant
                i <= total_threads,
                upper@ == upper_indices(i as nat, pattern@),
                lower@ == lower_indices(i as nat, pattern@),
            decreases total_threads - i,
        {
            let up = if i < pattern.len() {
                pattern[i]
            } else {
                i % 2 == 0
            };
            proof {
                lemma_indices_step(i as nat, pattern@);
            }
            if up {
                upper.push(i);
            } else {
                lower.push(i);
            }
            i = i + 1;
        }
        Shed { upper, lower }
    }

    pub fn is_thread_upper(&self, index: usize) -> (r: bool)
        ensures
            r == self.upper@.contains(index),
    {
        contains(&self.upper, index)
    }

    pub fn is_thread_lower(&self, index: usize) -> (r: bool)
        ensures
            r == self.lower@.contains(index),
    {
        contains(&self.lower, index)
    }

    /// Exchanges the upper and lower groups.
    pub fn swap(&mut self)
        ensures
            final(self).upper == old(self).lower,
            final(self).lower == old(self).upper,
    {
        std::mem::swap(&mut self.upper, &mut self.lower);
    }

    pub fn thread_count(&self) -> (r: usize)
        requires
            self.upper@.len() + self.lower@.len() <= usize::MAX,
        ensures
            r == self.upper@.len() + self.lower@.len(),
    {
        self.upper.len() + self.lower.len()
    }

    /// A plain weave shed (alternating).
    pub fn plain(total_threads: usize) -> (r: Self)
        ensures
            r.upper@ == Seq::new(
                (total_threads as nat + 1) / 2,
                |i: int| (2 * i) as usize,
            ),
            r.lower@ == Seq::new(total_threads as nat / 2, |i: int| (2 * i + 1) as usize),
    {
        Shed::new(total_threads)
    }

    /// A twill shed: the pattern raises thread `i` when `(i + shift) % 4 < 2`.
    pub fn twill(total_threads: usize, shift: usize) -> (r: Self)
        ensures
            r.upper@ == upper_indices(
                total_threads as nat,
                twill_pattern(total_threads as nat, shift as nat),
            ),
            r.lower@ == lower_indices(
                total_threads as nat,
                twill_pattern(total_threads as nat, shift as nat),
            ),
    {
        let s = shift % 4;
        let mut pattern: Vec<bool> = Vec::new();
        let mut i: usize = 0;
        while i < total_threads
            invariant
                i <= total_threads,
                s == shift % 4,
                pattern@ == twill_pattern(i as nat, shift as nat),
            decreases total_threads - i,
        {
            let phase = (i % 4 + s) % 4;
            assert(phase == (i + shift) % 4) by (nonlinear_arith)
                requires
                    phase == (i % 4 + s) % 4,
                    s == shift % 4,
            ;
            pattern.push(phase < 2);
            i = i + 1;
            assert(pattern@ =~= twill_pattern(i as nat, shift as nat));
        }
        Shed::with_pattern(total_threads, pattern.as_slice())
    }

    /// A satin shed: the pattern raises every `interval`-th thread.
    pub fn satin(total_threads: usize, interval: usize) -> (r: Self)
        requires
            total_threads > 0 ==> interval > 0,
        ensures
            r.upper@ == upper_indices(
                total_threads as nat,
                satin_pattern(total_threads as nat, interval as nat),
            ),
            r.lower@ == lower_indices(
                total_threads as nat,
                satin_pattern(total_threads as nat, interval as nat),
            ),
            interval > 0 ==> forall|i: usize|
                #[trigger] r.upper@.contains(i) <==> (i < total_threads && i % interval == 0),
            interval > 0 ==> forall|i: usize|
                #[trigger] r.lower@.contains(i) <==> (i < total_threads && i % interval != 0),
            interval > 0 ==> r.upper@.len() == (total_threads + interval - 1) / (interval as int),
    {
        if interval > 0 {
            proof {
                lemma_satin_membership(total_threads, interval);
            }
        }
        let mut pattern: Vec<bool> = Vec::new();
        let mut i: usize = 0;
        while i < total_threads
            invariant
                i <= total_threads,
                total_threads > 0 ==> interval > 0,
                pattern@ == satin_pattern(i as nat, interval as nat),
            decreases total_threads - i,
        {
            pattern.push(i % interval == 0);
            i = i + 1;
            assert(pattern@ =~= satin_pattern(i as nat, interval as nat));
        }
        Shed::with_pattern(total_threads, pattern.as_slice())
    }
}

/// Whether `v` holds `x`.
fn contains(v: &Vec<usize>, x: usize) -> (r: bool)
    ensures
        r == v@.contains(x),
{
    let mut i: usize = 0;
    while i < v.len()
        invariant
            i <= v@.len(),
            forall|j: int| 0 <= j < i ==> v@[j] != x,
        decreases v@.len() - i,
    {
        if v[i] == x {
            assert(v@[i as int] == x);
            return true;
        }
        i = i + 1;
    }
    false
}

} // verus!
