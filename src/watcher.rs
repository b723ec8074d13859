use vstd::prelude::*;

use crate::cache::{remove_spec, set_spec, Cache, CacheView};
use crate::error::Error;
use crate::path::{is_ancestor_or_self, FsPath, PathView};

verus! {

/// `p` is covered by the roots: it or one of its strict ancestors is a root.
pub open spec fn covered(roots: Set<PathView>, p: PathView) -> bool {
    exists|r: PathView| #[trigger] roots.contains(r) && is_ancestor_or_self(r, p)
}

/// A change notification for a watched subtree. Where the path was probed,
/// the event carries the probed size; a failed probe carries `None`.
pub enum FsEvent {
    /// A file or directory was created at the path.
    Created(FsPath, i64),
    /// A file or directory was written at the path.
    Written(FsPath, i64),
    /// A file or directory was removed at the path.
    Removed(FsPath),
    /// The first path was renamed to the second, probed at the given size.
    Renamed(FsPath, FsPath, Option<i64>),
    /// Only the metadata of the path changed.
    MetadataChanged(FsPath),
    /// The event source lost track of changes.
    Rescan,
    /// The event source reported a delivery error.
    Failed,
}

/// What handling `e` makes of the cache `m`.
pub open spec fn event_spec(m: CacheView, e: FsEvent) -> CacheView {
    match e {
        FsEvent::Created(p, s) => set_spec(m, p@, s),
        FsEvent::Written(p, s) => set_spec(m, p@, s),
        FsEvent::Removed(p) => remove_spec(m, p@),
        FsEvent::Renamed(o, n, s) => match s {
            Some(s) => set_spec(remove_spec(m, o@), n@, s),
            None => remove_spec(m, o@),
        },
        FsEvent::MetadataChanged(_) => m,
        FsEvent::Rescan => Map::empty(),
        FsEvent::Failed => m,
    }
}

/// The watch registry: the watched roots, and the size cache that their
/// change notifications keep current.
pub struct Watcher {
    roots: Vec<FsPath>,
    cache: Cache,
}

impl Watcher {
    /// The set of watched roots.
    pub closed spec fn roots(&self) -> Set<PathView> {
        self.roots@.map_values(|p: FsPath| p@).to_set()
    }

    /// The contents of the size cache.
    pub closed spec fn cached(&self) -> CacheView {
        self.cache@
    }

    /// The size cache.
    pub fn cache(&self) -> (r: &Cache)
        requires
            self.wf(),
        ensures
            r.wf(),
            r@ == self.cached(),
    {
        &self.cache
    }

    /// No root is listed twice, and the cache is well formed.
    pub closed spec fn wf(&self) -> bool {
        &&& self.cache.wf()
        &&& forall|i: int, j: int|
            0 <= i < self.roots.len() && 0 <= j < self.roots.len() && i != j ==> self.roots@[i]@
                != self.roots@[j]@
    }

    /// A registry with no roots and an empty cache.
    pub fn new() -> (r: Watcher)
        ensures
            r.wf(),
            r.roots() == Set::<PathView>::empty(),
            r.cached() == Map::<PathView, i64>::empty(),
    {
        let r = Watcher { roots: Vec::new(), cache: Cache::new() };
        assert(r.roots() =~= Set::<PathView>::empty());
        r
    }

    /// The index of `path` among the roots, if it is one.
    fn find_root(&self, path: &FsPath) -> (r: Option<usize>)
        ensures
            match r {
                Some(i) => i < self.roots.len() && self.roots@[i as int]@ == path@,
                None => !self.roots().contains(path@),
            },
    {
        let n = self.roots.len();
        let mut i: usize = 0;
        while i < n
            invariant
                n == self.roots.len(),
                i <= n,
                forall|j: int| 0 <= j < i ==> self.roots@[j]@ != path@,
            decreases n - i,
        {
            if self.roots[i].same_as(path) {
                return Some(i);
            }
            i = i + 1;
        }
        proof {
            if self.roots().contains(path@) {
                let v = self.roots@.map_values(|p: FsPath| p@);
                let j = choose|j: int| 0 <= j < v.len() && v[j] == path@;
                assert(self.roots@[j]@ == path@);
            }
        }
        None
    }

    /// Adds `path` to the roots; fails with `AlreadyWatched` where it is one.
    pub fn watch(&mut self, path: &FsPath) -> (r: Result<(), Error>)
        requires
            old(self).wf(),
        ensures
            final(self).wf(),
            final(self).cached() == old(self).cached(),
            old(self).roots().contains(path@) ==> r == Err::<(), Error>(Error::AlreadyWatched)
                && final(self).roots() == old(self).roots(),
            !old(self).roots().contains(path@) ==> r is Ok && final(self).roots() == old(
                self,
            ).roots().insert(path@),
    {
        match self.find_root(path) {
            Some(i) => {
                proof {
                    let v = self.roots@.map_values(|p: FsPath| p@);
                    assert(v[i as int] == path@);
                }
                Err(Error::AlreadyWatched)
            },
            None => {
                let ghost v0 = self.roots@.map_values(|p: FsPath| p@);
                self.roots.push(path.copy_path());
                proof {
                    let v = self.roots@.map_values(|p: FsPath| p@);
                    assert(v =~= v0.push(path@));
                    assert(v.to_set() =~= v0.to_set().insert(path@)) by {
                        assert forall|x: PathView| v.to_set().contains(x) implies v0.to_set().insert(
                            x,
                        ).contains(x) && v0.to_set().insert(path@).contains(x) by {
                            let j = choose|j: int| 0 <= j < v.len() && v[j] == x;
                            if j < v0.len() {
                                assert(v0[j] == x);
                            }
                        }
                        assert forall|x: PathView| v0.to_set().insert(path@).contains(
                            x,
                        ) implies v.to_set().contains(x) by {
                            if x == path@ {
                                assert(v[v0.len() as int] == x);
                            } else {
                                let j = choose|j: int| 0 <= j < v0.len() && v0[j] == x;
                                assert(v[j] == x);
                            }
                        }
                    }
                    assert forall|a: int, b: int|
                        0 <= a < self.roots.len() && 0 <= b < self.roots.len() && a
                            != b implies self.roots@[a]@ != self.roots@[b]@ by {
                        if a < v0.len() && b < v0.len() {
                        } else if a < v0.len() {
                            assert(v0[a] == self.roots@[a]@);
                            assert(v0.to_set().contains(v0[a]));
                        } else if b < v0.len() {
                            assert(v0[b] == self.roots@[b]@);
                            assert(v0.to_set().contains(v0[b]));
                        }
                    }
                }
                Ok(())
            },
        }
    }

    /// Removes `path` from the roots; fails with `NotWatched` where it is none.
    pub fn unwatch(&mut self, path: &FsPath) -> (r: Result<(), Error>)
        requires
            old(self).wf(),
        ensures
            final(self).wf(),
            final(self).cached() == old(self).cached(),
            !old(self).roots().contains(path@) ==> r == Err::<(), Error>(Error::NotWatched)
                && final(self).roots() == old(self).roots(),
            old(self).roots().contains(path@) ==> r is Ok && final(self).roots() == old(
                self,
            ).roots().remove(path@),
    {
        match self.find_root(path) {
            None => Err(Error::NotWatched),
            Some(i) => {
                let ghost v0 = self.roots@.map_values(|p: FsPath| p@);
                let ghost r0 = self.roots@;
                proof {
                    assert(v0[i as int] == path@);
                }
                self.roots.remove(i);
                proof {
                    let v = self.roots@.map_values(|p: FsPath| p@);
                    assert(v =~= v0.remove(i as int));
                    assert forall|x: PathView| v.to_set().contains(x) implies v0.to_set().remove(
                        path@,
                    ).contains(x) by {
                        let j = choose|j: int| 0 <= j < v.len() && v[j] == x;
                        let j0 = if j < i { j } else { j + 1 };
                        assert(v0[j0] == x);
                        assert(r0[j0]@ != r0[i as int]@);
                    }
                    assert forall|x: PathView| v0.to_set().remove(path@).contains(
                        x,
                    ) implies v.to_set().contains(x) by {
                        let j0 = choose|j: int| 0 <= j < v0.len() && v0[j] == x;
                        assert(j0 != i);
                        if j0 < i {
                            assert(v[j0] == x);
                        } else {
                            assert(v[j0 - 1] == x);
                        }
                    }
                    assert(v.to_set() =~= v0.to_set().remove(path@));
                    assert forall|a: int, b: int|
                        0 <= a < self.roots.len() && 0 <= b < self.roots.len() && a
                            != b implies self.roots@[a]@ != self.roots@[b]@ by {
                        let a0 = if a < i { a } else { a + 1 };
                        let b0 = if b < i { b } else { b + 1 };
                        assert(self.roots@[a] == r0[a0]);
                        assert(self.roots@[b] == r0[b0]);
                    }
                }
                Ok(())
            },
        }
    }

    /// Whether `path` or one of its strict ancestors is a watched root.
    pub fn is_watched(&self, path: &FsPath) -> (r: bool)
        ensures
            r == covered(self.roots(), path@),
    {
        let n = self.roots.len();
        let mut i: usize = 0;
        while i < n
            invariant
                n == self.roots.len(),
                i <= n,
                forall|j: int| 0 <= j < i ==> !is_ancestor_or_self(self.roots@[j]@, path@),
            decreases n - i,
        {
            if self.roots[i].same_as(path) || self.roots[i].is_strict_ancestor_of(path) {
                proof {
                    let v = self.roots@.map_values(|p: FsPath| p@);
                    assert(v[i as int] == self.roots@[i as int]@);
                    assert(self.roots().contains(self.roots@[i as int]@));
                }
                return true;
            }
            i = i + 1;
        }
        proof {
            if covered(self.roots(), path@) {
                let x = choose|x: PathView| #[trigger]
                    self.roots().contains(x) && is_ancestor_or_self(x, path@);
                let v = self.roots@.map_values(|p: FsPath| p@);
                let j = choose|j: int| 0 <= j < v.len() && v[j] == x;
                assert(self.roots@[j]@ == x);
            }
        }
        false
    }

    /// Refreshes the cache entry of `path`, as `Cache::update` does.
    pub fn update_cache(&mut self, path: &FsPath, probed: i64) -> (r: i64)
        requires
            old(self).wf(),
        ensures
            final(self).wf(),
            final(self).roots() == old(self).roots(),
            r == (if old(self).cached().contains_key(path@) {
                old(self).cached()[path@]
            } else {
                probed
            }),
            final(self).cached() == set_spec(old(self).cached(), path@, r),
    {
        self.cache.update(path, probed)
    }

    /// Drops every cache entry.
    pub fn invalidate_cache(&mut self)
        requires
            old(self).wf(),
        ensures
            final(self).wf(),
            final(self).roots() == old(self).roots(),
            final(self).cached() == Map::<PathView, i64>::empty(),
    {
        self.cache.invalidate()
    }

    /// Applies one change notification to the cache: a created or written
    /// path is recorded at its probed size, a removed one is removed, a
    /// renamed one is removed under its old name and recorded under its new
    /// one where the probe succeeded, and a rescan drops the whole cache.
    pub fn handle_event(&mut self, event: FsEvent)
        requires
            old(self).wf(),
        ensures
            final(self).wf(),
            final(self).roots() == old(self).roots(),
            final(self).cached() == event_spec(old(self).cached(), event),
    {
        match event {
            FsEvent::Created(p, s) => self.cache.set(&p, s),
            FsEvent::Written(p, s) => self.cache.set(&p, s),
            FsEvent::Removed(p) => self.cache.remove(&p),
            FsEvent::Renamed(o, n, s) => {
                self.cache.remove(&o);
                match s {
                    Some(s) => self.cache.set(&n, s),
                    None => {},
                }
            },
            FsEvent::MetadataChanged(_) => {},
            FsEvent::Rescan => self.cache.invalidate(),
            FsEvent::Failed => {},
        }
    }
}

} // verus!
