use vstd::prelude::*;

use crate::path::{is_strict_ancestor, text_of, FsPath, PathView};

verus! {

/// The contents of the size cache: a byte count for each cached path.
pub type CacheView = Map<PathView, i64>;

/// The cached size of `p`, or `None` when a probe is needed.
pub open spec fn lookup(m: CacheView, p: PathView) -> Option<i64> {
    if m.contains_key(p) {
        Some(m[p])
    } else {
        None
    }
}

/// The size recorded for `p` before a change: zero where none is cached.
pub open spec fn previous(m: CacheView, p: PathView) -> i64 {
    if m.contains_key(p) {
        m[p]
    } else {
        0
    }
}

/// The cache after recording `size` for `p`: the entry of `p` becomes `size`,
/// and the difference to the previous size is added to every cached strict
/// ancestor of `p`. Ancestors that are not cached stay absent.
pub open spec fn set_spec(m: CacheView, p: PathView, size: i64) -> CacheView {
    let diff = size.wrapping_sub(previous(m, p));
    Map::new(
        |k: PathView| m.contains_key(k) || k == p,
        |k: PathView|
            if k == p {
                size
            } else if is_strict_ancestor(k, p) {
                m[k].wrapping_add(diff)
            } else {
                m[k]
            },
    )
}

/// The cache after removing `p`: its size drops to zero, which its cached
/// ancestors see, and then its own entry goes.
pub open spec fn remove_spec(m: CacheView, p: PathView) -> CacheView {
    set_spec(m, p, 0).remove(p)
}

/// `text` and `size` are the text of a cached path and its size.
pub open spec fn lists_entry_of(m: CacheView, text: Seq<char>, size: i64) -> bool {
    exists|k: PathView| m.contains_key(k) && text == text_of(k) && size == m[k]
}

/// The hierarchical size cache.
pub struct Cache {
    keys: Vec<FsPath>,
    sizes: Vec<i64>,
    model: Ghost<CacheView>,
}

impl View for Cache {
    type V = CacheView;

    closed spec fn view(&self) -> CacheView {
        self.model@
    }
}

impl Cache {
    /// The key at index `j`, as a path value.
    closed spec fn key(&self, j: int) -> PathView {
        self.keys@[j]@
    }

    /// The entries are the model: one entry per cached path.
    pub closed spec fn wf(&self) -> bool {
        &&& self.keys.len() == self.sizes.len()
        &&& forall|i: int, j: int|
            0 <= i < self.keys.len() && 0 <= j < self.keys.len() && i != j ==> self.key(i)
                != self.key(j)
        &&& forall|j: int|
            0 <= j < self.keys.len() ==> #[trigger] self.model@.contains_key(self.key(j))
                && self.model@[self.key(j)] == self.sizes@[j]
        &&& forall|k: PathView|
            #[trigger] self.model@.contains_key(k) ==> exists|j: int|
                0 <= j < self.keys.len() && self.key(j) == k
    }

    /// An empty cache.
    pub fn new() -> (r: Cache)
        ensures
            r.wf(),
            r@ == Map::<PathView, i64>::empty(),
    {
        Cache { keys: Vec::new(), sizes: Vec::new(), model: Ghost(Map::empty()) }
    }

    /// The index of the entry of `path`, if it is cached.
    fn find(&self, path: &FsPath) -> (r: Option<usize>)
        requires
            self.wf(),
        ensures
            match r {
                Some(i) => i < self.keys.len() && self.key(i as int) == path@,
                None => !self@.contains_key(path@),
            },
    {
        let n = self.keys.len();
        let mut i: usize = 0;
        while i < n
            invariant
                self.wf(),
                n == self.keys.len(),
                i <= n,
                forall|j: int| 0 <= j < i ==> self.key(j) != path@,
            decreases n - i,
        {
            if self.keys[i].same_as(path) {
                return Some(i);
            }
            i = i + 1;
        }
        None
    }

    /// The cached size of `path`; `None` means that the path has to be probed.
    pub fn get(&self, path: &FsPath) -> (r: Option<i64>)
        requires
            self.wf(),
        ensures
            r == lookup(self@, path@),
    {
        match self.find(path) {
            Some(i) => Some(self.sizes[i]),
            None => None,
        }
    }

    /// Records `size` for `path` and adds the difference to the previous size
    /// to every cached ancestor.
    pub fn set(&mut self, path: &FsPath, size: i64)
        requires
            old(self).wf(),
        ensures
            final(self).wf(),
            final(self)@ == set_spec(old(self)@, path@, size),
    {
        let ghost m = self@;
        let ghost target = set_spec(m, path@, size);
        let idx = self.find(path);
        let prev: i64 = match idx {
            Some(i) => self.sizes[i],
            None => 0,
        };
        assert(prev == previous(m, path@));
        let diff = size.wrapping_sub(prev);
        let ghost keys0 = self.keys@;
        let ghost sizes0 = self.sizes@;
        let n = self.keys.len();
        proof {
            assert forall|j: int| 0 <= j < n implies #[trigger] m.contains_key(keys0[j]@) && m[keys0[j]@]
                == sizes0[j] by {
                assert(self.model@.contains_key(self.key(j)));
            }
            assert forall|a: int, b: int|
                0 <= a < n && 0 <= b < n && a != b implies keys0[a]@ != keys0[b]@ by {
                assert(self.key(a) != self.key(b));
            }
            assert forall|k: PathView| #[trigger] m.contains_key(k) implies exists|j: int|
                0 <= j < n && keys0[j]@ == k by {
                assert(self.model@.contains_key(k));
                let j = choose|j: int| 0 <= j < self.keys.len() && self.key(j) == k;
                assert(keys0[j]@ == k);
            }
        }
        let mut i: usize = 0;
        while i < n
            invariant
                forall|j: int|
                    0 <= j < n ==> #[trigger] m.contains_key(keys0[j]@) && m[keys0[j]@] == sizes0[j],
                forall|a: int, b: int|
                    0 <= a < n && 0 <= b < n && a != b ==> keys0[a]@ != keys0[b]@,
                forall|k: PathView|
                    #[trigger] m.contains_key(k) ==> exists|j: int| 0 <= j < n && keys0[j]@ == k,
                self.keys@ == keys0,
                self.sizes.len() == n,
                n == keys0.len(),
                n == sizes0.len(),
                self.model@ == m,
                i <= n,
                forall|j: int|
                    0 <= j < i ==> self.sizes@[j] == (if is_strict_ancestor(keys0[j]@, path@) {
                        sizes0[j].wrapping_add(diff)
                    } else {
                        sizes0[j]
                    }),
                forall|j: int| i <= j < n ==> self.sizes@[j] == sizes0[j],
            decreases n - i,
        {
            if self.keys[i].is_strict_ancestor_of(path) {
                let v = self.sizes[i].wrapping_add(diff);
                self.sizes.set(i, v);
            }
            i = i + 1;
        }
        match idx {
            Some(i) => {
                self.sizes.set(i, size);
            },
            None => {
                self.keys.push(path.copy_path());
                self.sizes.push(size);
            },
        }
        self.model = Ghost(target);
        proof {
            let len = self.keys.len() as int;
            assert forall|j: int| 0 <= j < len implies #[trigger] self.model@.contains_key(
                self.key(j),
            ) && self.model@[self.key(j)] == self.sizes@[j] by {
                if j < n {
                    assert(self.key(j) == keys0[j]@);
                    assert(m.contains_key(keys0[j]@));
                    assert(m[keys0[j]@] == sizes0[j]);
                }
            }
            assert forall|k: PathView| #[trigger] self.model@.contains_key(k) implies exists|
                j: int,
            | 0 <= j < len && self.key(j) == k by {
                if k == path@ {
                    match idx {
                        Some(i) => {
                            assert(self.key(i as int) == k);
                        },
                        None => {
                            assert(self.key(n as int) == k);
                        },
                    }
                } else {
                    assert(m.contains_key(k));
                    let j = choose|j: int| 0 <= j < n && keys0[j]@ == k;
                    assert(self.key(j) == k);
                }
            }
        }
    }

    /// The cached size of `path` if there is one, else `probed`; the result is
    /// recorded as by `set` and returned.
    pub fn update(&mut self, path: &FsPath, probed: i64) -> (r: i64)
        requires
            old(self).wf(),
        ensures
            final(self).wf(),
            r == (if old(self)@.contains_key(path@) {
                old(self)@[path@]
            } else {
                probed
            }),
            final(self)@ == set_spec(old(self)@, path@, r),
    {
        let size = match self.get(path) {
            Some(s) => s,
            None => probed,
        };
        self.set(path, size);
        size
    }

    /// Sets the size of `path` to zero, as `set` does, then drops its entry.
    pub fn remove(&mut self, path: &FsPath)
        requires
            old(self).wf(),
        ensures
            final(self).wf(),
            final(self)@ == remove_spec(old(self)@, path@),
    {
        self.set(path, 0);
        let ghost m = self@;
        let ghost keys0 = self.keys@;
        let ghost sizes0 = self.sizes@;
        proof {
            assert forall|j: int| 0 <= j < keys0.len() implies #[trigger] m.contains_key(keys0[j]@)
                && m[keys0[j]@] == sizes0[j] by {
                assert(self.model@.contains_key(self.key(j)));
            }
            assert forall|a: int, b: int|
                0 <= a < keys0.len() && 0 <= b < keys0.len() && a != b implies keys0[a]@
                != keys0[b]@ by {
                assert(self.key(a) != self.key(b));
            }
            assert forall|k: PathView| #[trigger] m.contains_key(k) implies exists|j: int|
                0 <= j < keys0.len() && keys0[j]@ == k by {
                assert(self.model@.contains_key(k));
                let j = choose|j: int| 0 <= j < self.keys.len() && self.key(j) == k;
                assert(keys0[j]@ == k);
            }
        }
        match self.find(path) {
            Some(i) => {
                self.keys.remove(i);
                self.sizes.remove(i);
                self.model = Ghost(m.remove(path@));
                proof {
                    let len = self.keys.len() as int;
                    assert forall|j: int| 0 <= j < len implies #[trigger] self.model@.contains_key(
                        self.key(j),
                    ) && self.model@[self.key(j)] == self.sizes@[j] by {
                        if j < i {
                            assert(self.key(j) == keys0[j]@);
                            assert(keys0[j]@ != keys0[i as int]@);
                            assert(m.contains_key(keys0[j]@));
                            assert(self.sizes@[j] == sizes0[j]);
                        } else {
                            assert(self.key(j) == keys0[j + 1]@);
                            assert(keys0[j + 1]@ != keys0[i as int]@);
                            assert(m.contains_key(keys0[j + 1]@));
                            assert(self.sizes@[j] == sizes0[j + 1]);
                        }
                    }
                    assert forall|k: PathView| #[trigger] self.model@.contains_key(k) implies exists|
                        j: int,
                    | 0 <= j < len && self.key(j) == k by {
                        assert(m.contains_key(k));
                        let j = choose|j: int| 0 <= j < len + 1 && keys0[j]@ == k;
                        if j < i {
                            assert(self.key(j) == k);
                        } else {
                            assert(j != i);
                            assert(self.key(j - 1) == k);
                        }
                    }
                    assert forall|a: int, b: int|
                        0 <= a < len && 0 <= b < len && a != b implies self.key(a) != self.key(
                        b,
                    ) by {
                        let a0 = if a < i { a } else { a + 1 };
                        let b0 = if b < i { b } else { b + 1 };
                        assert(self.key(a) == keys0[a0]@);
                        assert(self.key(b) == keys0[b0]@);
                    }
                }
            },
            None => {
                assert(m.remove(path@) =~= m);
            },
        }
    }

    /// Drops every entry.
    pub fn invalidate(&mut self)
        requires
            old(self).wf(),
        ensures
            final(self).wf(),
            final(self)@ == Map::<PathView, i64>::empty(),
    {
        self.keys = Vec::new();
        self.sizes = Vec::new();
        self.model = Ghost(Map::empty());
    }

    /// Every entry as the path's text and its size.
    pub fn to_string_map(&self) -> (r: Vec<(String, i64)>)
        requires
            self.wf(),
        ensures
            forall|k: PathView| #[trigger]
                self@.contains_key(k) ==> exists|i: int|
                    0 <= i < r.len() && r@[i].0@ == text_of(k) && r@[i].1 == self@[k],
            forall|i: int|
                0 <= i < r.len() ==> #[trigger] lists_entry_of(self@, r@[i].0@, r@[i].1),
            r.len() == self@.dom().len(),
    {
        let mut r: Vec<(String, i64)> = Vec::new();
        let n = self.keys.len();
        let mut i: usize = 0;
        while i < n
            invariant
                self.wf(),
                n == self.keys.len(),
                i <= n,
                r.len() == i,
                forall|j: int|
                    0 <= j < i ==> (#[trigger] r@[j]).0@ == text_of(self.key(j)) && r@[j].1
                        == self.sizes@[j],
            decreases n - i,
        {
            r.push((self.keys[i].to_text(), self.sizes[i]));
            i = i + 1;
        }
        proof {
            assert forall|j: int| 0 <= j < r.len() implies #[trigger] lists_entry_of(
                self@,
                r@[j].0@,
                r@[j].1,
            ) by {
                assert(self@.contains_key(self.key(j)));
            }
            assert forall|k: PathView| #[trigger] self@.contains_key(k) implies exists|i: int|
                0 <= i < r.len() && r@[i].0@ == text_of(k) && r@[i].1 == self@[k] by {
                let j = choose|j: int| 0 <= j < n && self.key(j) == k;
                assert(r@[j].0@ == text_of(k));
            }
            let ks = self.keys@.map_values(|p: FsPath| p@);
            assert(ks.no_duplicates()) by {
                assert forall|a: int, b: int|
                    0 <= a < ks.len() && 0 <= b < ks.len() && a != b implies ks[a] != ks[b] by {
                    assert(self.key(a) != self.key(b));
                }
            }
            ks.unique_seq_to_set();
            assert(ks.to_set() =~= self@.dom()) by {
                assert forall|k: PathView| self@.dom().contains(k) implies ks.to_set().contains(k) by {
                    let j = choose|j: int| 0 <= j < n && self.key(j) == k;
                    assert(ks[j] == k);
                }
                assert forall|k: PathView| ks.to_set().contains(k) implies self@.dom().contains(k) by {
                    let j = choose|j: int| 0 <= j < ks.len() && ks[j] == k;
                    assert(self@.contains_key(self.key(j)));
                }
            }
        }
        r
    }
}

} // verus!
