//! Bounded least-recently-used render cache. It memoizes the expensive
//! rendering computation under a key of identifier and extension; it is a
//! disposable projection of the store, never the system of record, and can
//! be dropped or invalidated at any time. Capacity is fixed at
//! construction; when an insertion would exceed it the least recently used
//! entry is evicted. Entries never expire by time.
use vstd::prelude::*;

verus! {

/// A rendering key: the paste identifier together with the extension
/// variant under which it was rendered (`None` is the plain-text variant).
#[derive(Debug)]
pub struct CacheKey {
    pub id: u32,
    pub extension: Option<String>,
}

/// The mathematical value of a key.
pub open spec fn kv(k: CacheKey) -> (u32, Option<Seq<char>>) {
    (
        k.id,
        match k.extension {
            None => None,
            Some(e) => Some(e@),
        },
    )
}

impl CacheKey {
    /// An owned copy, equal to `self` field for field.
    pub fn duplicate(&self) -> (r: CacheKey)
        ensures
            r == *self,
    {
        CacheKey {
            id: self.id,
            extension: match &self.extension {
                None => None,
                Some(e) => Some(e.clone()),
            },
        }
    }

    /// Whether two keys denote the same rendering.
    fn matches(&self, other: &CacheKey) -> (r: bool)
        ensures
            r == (kv(*self) == kv(*other)),
    {
        if self.id != other.id {
            return false;
        }
        match &self.extension {
            None => match &other.extension {
                None => true,
                Some(_) => false,
            },
            Some(a) => match &other.extension {
                None => false,
                Some(b) => {
                    let r = a.eq(b);
                    proof {
                        assert(kv(*self).1 == Some(a@));
                        assert(kv(*other).1 == Some(b@));
                        if r {
                            assert(kv(*self) == kv(*other));
                        } else {
                            assert(kv(*self).1 != kv(*other).1);
                        }
                    }
                    r
                },
            },
        }
    }
}

/// Whether the sequence holds an entry under the key.
pub open spec fn has_key(s: Seq<(CacheKey, String)>, key: (u32, Option<Seq<char>>)) -> bool {
    exists|i: int| 0 <= i < s.len() && kv(s[i].0) == key
}

/// The position of the entry under the key (unique in a well-formed cache).
pub open spec fn index_of(s: Seq<(CacheKey, String)>, key: (u32, Option<Seq<char>>)) -> int {
    choose|i: int| 0 <= i < s.len() && kv(s[i].0) == key
}

/// The cached value under the key.
pub open spec fn value_at(s: Seq<(CacheKey, String)>, key: (u32, Option<Seq<char>>)) -> Seq<
    char,
> {
    s[index_of(s, key)].1@
}

/// The sequence with the entry under the key moved to the most recent end.
pub open spec fn touched(s: Seq<(CacheKey, String)>, key: (u32, Option<Seq<char>>)) -> Seq<
    (CacheKey, String),
> {
    s.remove(index_of(s, key)).push(s[index_of(s, key)])
}

/// The sequence with a fresh entry appended at the most recent end, the
/// least recent entry evicted first if the cache is full.
pub open spec fn inserted(
    s: Seq<(CacheKey, String)>,
    k: CacheKey,
    v: String,
    capacity: usize,
) -> Seq<(CacheKey, String)> {
    if s.len() >= capacity {
        s.subrange(1, s.len() as int).push((k, v))
    } else {
        s.push((k, v))
    }
}

/// No two entries share a key.
pub open spec fn distinct_keys(s: Seq<(CacheKey, String)>) -> bool {
    forall|i: int, j: int| 0 <= i < j < s.len() ==> kv(s[i].0) != kv(s[j].0)
}

/// The sequence with every entry of the identifier removed, keeping the
/// recency order of the rest.
pub open spec fn without_id(s: Seq<(CacheKey, String)>, id: u32) -> Seq<(CacheKey, String)> {
    s.filter(|e: (CacheKey, String)| e.0.id != id)
}

/// Entries surviving the removal are entries of the input sequence, none of them
/// carries the identifier, and distinctness of keys is preserved.
pub proof fn lemma_without_id_keeps(s: Seq<(CacheKey, String)>, id: u32)
    ensures
        forall|i: int|
            0 <= i < without_id(s, id).len() ==> (#[trigger] without_id(s, id)[i]).0.id != id
                && exists|j: int| 0 <= j < s.len() && without_id(s, id)[i] == s[j],
        distinct_keys(s) ==> distinct_keys(without_id(s, id)),
        without_id(s, id).len() <= s.len(),
    decreases s.len(),
{
    reveal(Seq::filter);
    if s.len() == 0 {
    } else {
        let dl = s.drop_last();
        lemma_without_id_keeps(dl, id);
        let fl = without_id(s, id);
        assert(forall|j: int| 0 <= j < dl.len() ==> dl[j] == s[j]);
        if s.last().0.id != id {
            assert(fl == without_id(dl, id).push(s.last()));
            assert forall|i: int| 0 <= i < fl.len() implies (#[trigger] fl[i]).0.id != id
                && exists|j: int| 0 <= j < s.len() && fl[i] == s[j] by {
                if i < fl.len() - 1 {
                    assert(fl[i] == without_id(dl, id)[i]);
                } else {
                    assert(fl[i] == s[s.len() - 1]);
                }
            }
            if distinct_keys(s) {
                assert(distinct_keys(dl));
                assert forall|a: int, b: int| 0 <= a < b < fl.len() implies kv(fl[a].0) != kv(
                    fl[b].0,
                ) by {
                    if b < fl.len() - 1 {
                        assert(fl[a] == without_id(dl, id)[a]);
                        assert(fl[b] == without_id(dl, id)[b]);
                    } else {
                        assert(fl[a] == without_id(dl, id)[a]);
                        let j = choose|j: int| 0 <= j < dl.len() && without_id(dl, id)[a] == dl[j];
                        assert(kv(s[j].0) != kv(s[s.len() - 1].0));
                    }
                }
            }
        } else {
            assert(fl == without_id(dl, id));
        }
    }
}

/// Looking a key up twice returns identical output and recomputes nothing:
/// the value cached under a key survives the key being marked most recently
/// used, so after one get-or-compute stored its result, every further
/// lookup of that key is served the same value from the cache until an
/// invalidation or an eviction removes it.
pub proof fn lemma_cached_value_stable(s: Seq<(CacheKey, String)>, key: (u32, Option<Seq<char>>))
    requires
        distinct_keys(s),
        has_key(s, key),
    ensures
        has_key(touched(s, key), key),
        distinct_keys(touched(s, key)),
        value_at(touched(s, key), key) == value_at(s, key),
{
    let w = index_of(s, key);
    assert(0 <= w < s.len() && kv(s[w].0) == key);
    let t = touched(s, key);
    assert(s.remove(w) =~= s.subrange(0, w) + s.subrange(w + 1, s.len() as int));
    assert(t[t.len() - 1] == s[w]);
    assert forall|a: int, b: int| 0 <= a < b < t.len() implies kv(t[a].0) != kv(t[b].0) by {
        if b < t.len() - 1 {
            if a < w {
                assert(t[a] == s[a]);
            } else {
                assert(t[a] == s[a + 1]);
            }
            if b < w {
                assert(t[b] == s[b]);
            } else {
                assert(t[b] == s[b + 1]);
            }
        } else {
            assert(kv(t[b].0) == key);
            if a < w {
                assert(t[a] == s[a]);
            } else {
                assert(t[a] == s[a + 1]);
            }
        }
    }
    assert(distinct_keys(t));
    assert(kv(t[t.len() - 1].0) == key);
    assert(has_key(t, key));
    let w2 = index_of(t, key);
    assert(0 <= w2 < t.len() && kv(t[w2].0) == key);
    assert(w2 == t.len() - 1);
    assert(value_at(t, key) == s[w].1@);
}

/// Bounded least-recently-used cache of rendered markup. Its view is the
/// recency sequence: least recently used first, most recently used last.
pub struct Cache {
    entries: Vec<(CacheKey, String)>,
    capacity: usize,
}

impl View for Cache {
    type V = Seq<(CacheKey, String)>;

    closed spec fn view(&self) -> Seq<(CacheKey, String)> {
        self.entries@
    }
}

impl Cache {
    /// The entry count the cache was configured with at construction.
    pub closed spec fn spec_capacity(&self) -> usize {
        self.capacity
    }

    /// Well-formedness: the capacity is positive, the contents are within
    /// it, and no key appears twice.
    pub open spec fn wf(&self) -> bool {
        &&& self.spec_capacity() >= 1
        &&& self@.len() <= self.spec_capacity()
        &&& distinct_keys(self@)
    }

    /// An empty cache holding at most `capacity` entries.
    pub fn new(capacity: usize) -> (r: Cache)
        requires
            capacity >= 1,
        ensures
            r.wf(),
            r@ == Seq::<(CacheKey, String)>::empty(),
            r.spec_capacity() == capacity,
    {
        Cache { entries: Vec::new(), capacity }
    }

    /// Returns the value cached under `key`, marking it most recently used;
    /// on a miss, computes the value with `f`, stores it (evicting the
    /// least recently used entry if the cache is full) and returns it.
    pub fn get_or_compute<F: FnOnce() -> String>(&mut self, key: CacheKey, f: F) -> (r: String)
        requires
            old(self).wf(),
            call_requires(f, ()),
        ensures
            final(self).wf(),
            final(self).spec_capacity() == old(self).spec_capacity(),
            has_key(old(self)@, kv(key)) ==> r@ == value_at(old(self)@, kv(key)) && final(self)@
                == touched(old(self)@, kv(key)),
            !has_key(old(self)@, kv(key)) ==> call_ensures(f, (), r) && final(self)@ == inserted(
                old(self)@,
                key,
                r,
                old(self).spec_capacity(),
            ),
            has_key(final(self)@, kv(key)),
            value_at(final(self)@, kv(key)) == r@,
            forall|i: int|
                0 <= i < final(self)@.len() ==> (exists|j: int|
                    0 <= j < old(self)@.len() && #[trigger] final(self)@[i] == old(self)@[j])
                    || final(self)@[i] == ((key, r)),
    {
        let ghost s0 = old(self)@;
        let n = self.entries.len();
        let mut i: usize = 0;
        while i < n
            invariant
                old(self).wf(),
                self.entries@ == s0,
                self.spec_capacity() == old(self).spec_capacity(),
                s0 == old(self)@,
                n == s0.len(),
                0 <= i <= n,
                forall|j: int| 0 <= j < i ==> kv(s0[j].0) != kv(key),
            decreases n - i,
        {
            if self.entries[i].0.matches(&key) {
                proof {
                    assert(distinct_keys(s0));
                    assert(has_key(s0, kv(key)));
                    let w = index_of(s0, kv(key));
                    assert(0 <= w < s0.len() && kv(s0[w].0) == kv(key));
                    assert(w == i as int);
                }
                let pair = self.entries.remove(i);
                let out = pair.1.clone();
                self.entries.push(pair);
                proof {
                    assert(s0.remove(i as int) =~= s0.subrange(0, i as int) + s0.subrange(
                        i + 1,
                        s0.len() as int,
                    ));
                    let t = touched(s0, kv(key));
                    assert(self.entries@ =~= t);
                    assert forall|a: int, b: int|
                        0 <= a < b < self.entries@.len() implies kv(self.entries@[a].0) != kv(
                        self.entries@[b].0,
                    ) by {
                        if b < self.entries@.len() - 1 {
                            if a < i as int {
                                assert(self.entries@[a] == s0[a]);
                            } else {
                                assert(self.entries@[a] == s0[a + 1]);
                            }
                            if b < i as int {
                                assert(self.entries@[b] == s0[b]);
                            } else {
                                assert(self.entries@[b] == s0[b + 1]);
                            }
                        } else {
                            assert(kv(self.entries@[b].0) == kv(key));
                            if a < i as int {
                                assert(self.entries@[a] == s0[a]);
                            } else {
                                assert(self.entries@[a] == s0[a + 1]);
                            }
                        }
                    }
                    assert(distinct_keys(self.entries@));
                    assert(kv(self.entries@[self.entries@.len() - 1].0) == kv(key));
                    assert(has_key(self.entries@, kv(key)));
                    let w2 = index_of(self.entries@, kv(key));
                    assert(0 <= w2 < self.entries@.len() && kv(self.entries@[w2].0) == kv(key));
                    assert(w2 == self.entries@.len() - 1);
                    assert(value_at(self.entries@, kv(key)) == out@);
                    assert forall|idx: int| 0 <= idx < self.entries@.len() implies exists|j: int|
                        0 <= j < s0.len() && #[trigger] self.entries@[idx] == s0[j] by {
                        if idx < self.entries@.len() - 1 {
                            if idx < i as int {
                                assert(self.entries@[idx] == s0[idx]);
                            } else {
                                assert(self.entries@[idx] == s0[idx + 1]);
                            }
                        } else {
                            assert(self.entries@[idx] == s0[i as int]);
                        }
                    }
                }
                return out;
            }
            i = i + 1;
        }
        proof {
            assert(!has_key(s0, kv(key)));
        }
        let v = f();
        if self.entries.len() >= self.capacity {
            self.entries.remove(0);
            proof {
                assert(self.entries@ =~= s0.subrange(1, s0.len() as int));
            }
        }
        let out = v.clone();
        self.entries.push((key, v));
        proof {
            let fin = self.entries@;
            assert(fin =~= inserted(s0, key, v, self.capacity));
            assert forall|a: int, b: int| 0 <= a < b < fin.len() implies kv(fin[a].0) != kv(
                fin[b].0,
            ) by {
                if b == fin.len() - 1 {
                    if s0.len() >= self.capacity {
                        assert(fin[a] == s0[a + 1]);
                        assert(kv(s0[a + 1].0) != kv(key));
                    } else {
                        assert(fin[a] == s0[a]);
                        assert(kv(s0[a].0) != kv(key));
                    }
                } else {
                    if s0.len() >= self.capacity {
                        assert(fin[a] == s0[a + 1]);
                        assert(fin[b] == s0[b + 1]);
                    } else {
                        assert(fin[a] == s0[a]);
                        assert(fin[b] == s0[b]);
                    }
                }
            }
            assert(distinct_keys(fin));
            assert(kv(fin[fin.len() - 1].0) == kv(key));
            assert(has_key(fin, kv(key)));
            let w2 = index_of(fin, kv(key));
            assert(0 <= w2 < fin.len() && kv(fin[w2].0) == kv(key));
            assert(w2 == fin.len() - 1);
            assert(value_at(fin, kv(key)) == out@);
            assert forall|idx: int| 0 <= idx < fin.len() implies (exists|j: int|
                0 <= j < s0.len() && #[trigger] fin[idx] == s0[j]) || fin[idx] == ((key, v)) by {
                if idx == fin.len() - 1 {
                    assert(fin[idx] == (key, v));
                } else if s0.len() >= self.capacity {
                    assert(fin[idx] == s0[idx + 1]);
                } else {
                    assert(fin[idx] == s0[idx]);
                }
            }
            assert(out == v);
        }
        out
    }

    /// Removes the entry cached under `key`, if any.
    pub fn invalidate(&mut self, key: &CacheKey)
        requires
            old(self).wf(),
        ensures
            final(self).wf(),
            final(self).spec_capacity() == old(self).spec_capacity(),
            has_key(old(self)@, kv(*key)) ==> final(self)@ == old(self)@.remove(
                index_of(old(self)@, kv(*key)),
            ),
            !has_key(old(self)@, kv(*key)) ==> final(self)@ == old(self)@,
            !has_key(final(self)@, kv(*key)),
    {
        let ghost s0 = old(self)@;
        let n = self.entries.len();
        let mut i: usize = 0;
        while i < n
            invariant
                old(self).wf(),
                self.entries@ == s0,
                self.spec_capacity() == old(self).spec_capacity(),
                s0 == old(self)@,
                n == s0.len(),
                0 <= i <= n,
                forall|j: int| 0 <= j < i ==> kv(s0[j].0) != kv(*key),
            decreases n - i,
        {
            if self.entries[i].0.matches(key) {
                proof {
                    assert(distinct_keys(s0));
                    assert(has_key(s0, kv(*key)));
                    let w = index_of(s0, kv(*key));
                    assert(0 <= w < s0.len() && kv(s0[w].0) == kv(*key));
                    assert(w == i as int);
                }
                self.entries.remove(i);
                proof {
                    assert(s0.remove(i as int) =~= s0.subrange(0, i as int) + s0.subrange(
                        i + 1,
                        s0.len() as int,
                    ));
                    assert forall|a: int, b: int|
                        0 <= a < b < self.entries@.len() implies kv(self.entries@[a].0) != kv(
                        self.entries@[b].0,
                    ) by {
                        if a < i as int {
                            assert(self.entries@[a] == s0[a]);
                        } else {
                            assert(self.entries@[a] == s0[a + 1]);
                        }
                        if b < i as int {
                            assert(self.entries@[b] == s0[b]);
                        } else {
                            assert(self.entries@[b] == s0[b + 1]);
                        }
                    }
                    assert forall|j: int|
                        0 <= j < self.entries@.len() implies kv(self.entries@[j].0) != kv(
                        *key,
                    ) by {
                        if j < i as int {
                            assert(self.entries@[j] == s0[j]);
                        } else {
                            assert(self.entries@[j] == s0[j + 1]);
                        }
                    }
                }
                return ;
            }
            i = i + 1;
        }
    }

    /// Removes every entry cached under the identifier, whatever its
    /// extension variant; called when the store drops the entry, so that
    /// stale markup is never served and memory is reclaimed promptly.
    pub fn invalidate_id(&mut self, id: u32)
        requires
            old(self).wf(),
        ensures
            final(self).wf(),
            final(self).spec_capacity() == old(self).spec_capacity(),
            final(self)@ == without_id(old(self)@, id),
            forall|i: int|
                0 <= i < final(self)@.len() ==> (#[trigger] final(self)@[i]).0.id != id
                    && exists|j: int| 0 <= j < old(self)@.len() && final(self)@[i] == old(self)@[j],
    {
        let ghost s0 = old(self)@;
        let n = self.entries.len();
        let mut out: Vec<(CacheKey, String)> = Vec::new();
        let mut i: usize = 0;
        while i < n
            invariant
                old(self).wf(),
                self.entries@ == s0,
                s0 == old(self)@,
                self.spec_capacity() == old(self).spec_capacity(),
                n == s0.len(),
                0 <= i <= n,
                out@ == without_id(s0.subrange(0, i as int), id),
            decreases n - i,
        {
            let e = &self.entries[i];
            let keep = e.0.id != id;
            if keep {
                out.push((e.0.duplicate(), e.1.clone()));
            }
            proof {
                reveal(Seq::filter);
                let pre = s0.subrange(0, i + 1);
                assert(pre.drop_last() =~= s0.subrange(0, i as int));
                assert(pre.last() == s0[i as int]);
                if keep {
                    assert(out@ == without_id(s0.subrange(0, i as int), id).push(s0[i as int]));
                }
                assert(out@ == without_id(pre, id));
            }
            i = i + 1;
        }
        proof {
            assert(s0.subrange(0, n as int) =~= s0);
            lemma_without_id_keeps(s0, id);
        }
        self.entries = out;
    }
}

} // verus!
