use vstd::prelude::*;

verus! {

/// Key/value annotations attached to a thread: a map from strings to strings.
///
/// The entries are kept in insertion order; no key occurs twice.
#[derive(Debug)]
pub struct Metadata {
    entries: Vec<(String, String)>,
}

/// The entries' keys are pairwise distinct.
pub open spec fn keys_distinct(entries: Seq<(String, String)>) -> bool {
    forall|i: int, j: int|
        0 <= i < j < entries.len() ==> #[trigger] entries[i].0@ != #[trigger] entries[j].0@
}

/// Some entry carries key `k`.
pub open spec fn has_key(entries: Seq<(String, String)>, k: Seq<char>) -> bool {
    exists|i: int| 0 <= i < entries.len() && #[trigger] entries[i].0@ == k
}

/// The map that a list of entries with distinct keys stands for.
pub open spec fn entries_map(entries: Seq<(String, String)>) -> Map<Seq<char>, Seq<char>> {
    Map::new(
        |k: Seq<char>| has_key(entries, k),
        |k: Seq<char>| entries[choose|i: int| 0 <= i < entries.len() && #[trigger] entries[i].0@ == k].1@,
    )
}

/// With distinct keys, the entry at `i` decides the map at its key.
proof fn lemma_entry_in_map(entries: Seq<(String, String)>, i: int)
    requires
        keys_distinct(entries),
        0 <= i < entries.len(),
    ensures
        entries_map(entries).contains_key(entries[i].0@),
        entries_map(entries)[entries[i].0@] == entries[i].1@,
{
    let k = entries[i].0@;
    assert(has_key(entries, k));
    let j = choose|j: int| 0 <= j < entries.len() && #[trigger] entries[j].0@ == k;
    assert(entries[j].0@ == k);
    if j != i {
        if j < i {
            assert(entries[j].0@ != entries[i].0@);
        } else {
            assert(entries[i].0@ != entries[j].0@);
        }
    }
}

/// Reading a key right after writing it gives the written value; every other
/// key reads as before.
pub proof fn lemma_read_after_write(
    m: Map<Seq<char>, Seq<char>>,
    key: Seq<char>,
    value: Seq<char>,
    other: Seq<char>,
)
    requires
        other != key,
    ensures
        m.insert(key, value).contains_key(key),
        m.insert(key, value)[key] == value,
        m.insert(key, value).contains_key(other) == m.contains_key(other),
        m.contains_key(other) ==> m.insert(key, value)[other] == m[other],
{
}

impl View for Metadata {
    type V = Map<Seq<char>, Seq<char>>;

    closed spec fn view(&self) -> Map<Seq<char>, Seq<char>> {
        entries_map(self.entries@)
    }
}

impl Metadata {
    #[verifier::type_invariant]
    spec fn inv(self) -> bool {
        keys_distinct(self.entries@)
    }

    /// An empty map.
    pub fn new() -> (m: Self)
        ensures
            m@ == Map::<Seq<char>, Seq<char>>::empty(),
    {
        let m = Metadata { entries: Vec::new() };
        assert(m@ =~= Map::<Seq<char>, Seq<char>>::empty());
        m
    }

    /// Binds `key` to `value`, replacing any earlier value of `key`.
    pub fn insert(&mut self, key: &str, value: &str)
        ensures
            final(self)@ == old(self)@.insert(key@, value@),
    {
        proof {
            use_type_invariant(&*self);
        }
        let mut entries: Vec<(String, String)> = Vec::new();
        std::mem::swap(&mut entries, &mut self.entries);
        let ghost old_entries = entries@;
        assert(old(self).entries@ == old_entries);
        let k = key.to_owned();
        let v = value.to_owned();
        let mut i: usize = 0;
        let mut found = false;
        while i < entries.len()
            invariant_except_break
                !found,
            invariant
                entries@ == old_entries,
                keys_distinct(old_entries),
                i <= entries.len(),
                k@ == key@,
                forall|j: int| 0 <= j < i ==> #[trigger] old_entries[j].0@ != key@,
            ensures
                entries@ == old_entries,
                found ==> i < entries.len() && old_entries[i as int].0@ == key@,
                !found ==> forall|j: int|
                    0 <= j < old_entries.len() ==> #[trigger] old_entries[j].0@ != key@,
            decreases entries.len() - i,
        {
            if entries[i].0 == k {
                found = true;
                break;
            }
            i = i + 1;
        }
        if found {
            entries.set(i, (k, v));
            proof {
                let ne = entries@;
                assert forall|a: int, b: int|
                    0 <= a < b < ne.len() implies #[trigger] ne[a].0@ != #[trigger] ne[b].0@ by {
                    assert(ne[a].0@ == old_entries[a].0@);
                    assert(ne[b].0@ == old_entries[b].0@);
                }
                assert forall|kk: Seq<char>|
                    has_key(ne, kk) <==> has_key(old_entries, kk) by {
                    if has_key(ne, kk) {
                        let a = choose|a: int| 0 <= a < ne.len() && #[trigger] ne[a].0@ == kk;
                        assert(old_entries[a].0@ == kk);
                    }
                    if has_key(old_entries, kk) {
                        let a = choose|a: int| 0 <= a < old_entries.len() && #[trigger] old_entries[a].0@ == kk;
                        assert(ne[a].0@ == kk);
                    }
                }
                assert forall|kk: Seq<char>| #[trigger] has_key(ne, kk) implies
                    entries_map(ne)[kk] == entries_map(old_entries).insert(key@, value@)[kk] by {
                    let a = choose|a: int| 0 <= a < ne.len() && #[trigger] ne[a].0@ == kk;
                    lemma_entry_in_map(ne, a);
                    lemma_entry_in_map(old_entries, a);
                }
                assert(entries_map(ne) =~= entries_map(old_entries).insert(key@, value@));
            }
        } else {
            entries.push((k, v));
            proof {
                let ne = entries@;
                let n = old_entries.len() as int;
                assert forall|a: int, b: int|
                    0 <= a < b < ne.len() implies #[trigger] ne[a].0@ != #[trigger] ne[b].0@ by {
                    if b == n {
                        assert(old_entries[a].0@ != key@);
                    } else {
                        assert(ne[a] == old_entries[a]);
                        assert(ne[b] == old_entries[b]);
                    }
                }
                assert forall|kk: Seq<char>|
                    has_key(ne, kk) <==> (has_key(old_entries, kk) || kk == key@) by {
                    if has_key(ne, kk) {
                        let a = choose|a: int| 0 <= a < ne.len() && #[trigger] ne[a].0@ == kk;
                        if a < n {
                            assert(old_entries[a].0@ == kk);
                        }
                    }
                    if has_key(old_entries, kk) {
                        let a = choose|a: int| 0 <= a < old_entries.len() && #[trigger] old_entries[a].0@ == kk;
                        assert(ne[a].0@ == kk);
                    }
                    if kk == key@ {
                        assert(ne[n].0@ == kk);
                    }
                }
                assert forall|kk: Seq<char>| #[trigger] has_key(ne, kk) implies
                    entries_map(ne)[kk] == entries_map(old_entries).insert(key@, value@)[kk] by {
                    let a = choose|a: int| 0 <= a < ne.len() && #[trigger] ne[a].0@ == kk;
                    lemma_entry_in_map(ne, a);
                    if a < n {
                        assert(ne[a] == old_entries[a]);
                        lemma_entry_in_map(old_entries, a);
                    }
                }
                assert(entries_map(ne) =~= entries_map(old_entries).insert(key@, value@));
            }
        }
        self.entries = entries;
    }

    /// The value bound to `key`, if any.
    pub fn get(&self, key: &str) -> (r: Option<&str>)
        ensures
            match r {
                Some(v) => self@.contains_key(key@) && v@ == self@[key@],
                None => !self@.contains_key(key@),
            },
    {
        proof {
            use_type_invariant(self);
        }
        let k = key.to_owned();
        let mut i: usize = 0;
        while i < self.entries.len()
            invariant
                keys_distinct(self.entries@),
                i <= self.entries.len(),
                k@ == key@,
                forall|j: int| 0 <= j < i ==> #[trigger] self.entries@[j].0@ != key@,
            decreases self.entries.len() - i,
        {
            if self.entries[i].0 == k {
                proof {
                    lemma_entry_in_map(self.entries@, i as int);
                }
                return Some(self.entries[i].1.as_str());
            }
            i = i + 1;
        }
        None
    }
}

impl Clone for Metadata {
    fn clone(&self) -> (r: Self)
        ensures
            r@ == self@,
    {
        proof {
            use_type_invariant(self);
        }
        let mut entries: Vec<(String, String)> = Vec::new();
        let mut i: usize = 0;
        while i < self.entries.len()
            invariant
                i <= self.entries.len(),
                entries@ == self.entries@.subrange(0, i as int),
            decreases self.entries.len() - i,
        {
            let e = &self.entries[i];
            entries.push((e.0.clone(), e.1.clone()));
            assert(entries@ =~= self.entries@.subrange(0, i + 1));
            i = i + 1;
        }
        assert(entries@ =~= self.entries@);
        Metadata { entries }
    }
}

} // verus!
