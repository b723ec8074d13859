use vstd::prelude::*;

use crate::cache::{lists_entry_of, set_spec, CacheView};
use crate::error::Error;
use crate::path::{text_of, FsPath, PathView};
use crate::watcher::{covered, event_spec, FsEvent, Watcher};

verus! {

/// The operations offered over the IPC channel: usage queries that watch on demand,
/// explicit watching and unwatching, listing and clearing the cache.
pub struct VarlinkServer {
    watcher: Watcher,
}

impl VarlinkServer {
    /// The watched roots.
    pub closed spec fn roots(&self) -> Set<PathView> {
        self.watcher.roots()
    }

    /// The contents of the size cache.
    pub closed spec fn cached(&self) -> CacheView {
        self.watcher.cached()
    }

    /// The registry is well formed.
    pub closed spec fn wf(&self) -> bool {
        self.watcher.wf()
    }

    /// A server over `watcher`.
    pub fn new(watcher: Watcher) -> (r: VarlinkServer)
        requires
            watcher.wf(),
        ensures
            r.wf(),
            r.roots() == watcher.roots(),
            r.cached() == watcher.cached(),
    {
        VarlinkServer { watcher }
    }

    /// The watch registry.
    pub fn watcher(&self) -> (r: &Watcher)
        requires
            self.wf(),
        ensures
            r.wf(),
            r.roots() == self.roots(),
            r.cached() == self.cached(),
    {
        &self.watcher
    }

    /// The usage of `path`: a path that no root covers becomes a root first;
    /// then the cached size, or `probed` where none is cached, is recorded
    /// and returned.
    pub fn get_space_usage(&mut self, path: &FsPath, probed: i64) -> (r: i64)
        requires
            old(self).wf(),
        ensures
            final(self).wf(),
            final(self).roots() == (if covered(old(self).roots(), path@) {
                old(self).roots()
            } else {
                old(self).roots().insert(path@)
            }),
            r == (if old(self).cached().contains_key(path@) {
                old(self).cached()[path@]
            } else {
                probed
            }),
            final(self).cached() == set_spec(old(self).cached(), path@, r),
    {
        if !self.watcher.is_watched(path) {
            proof {
                if self.roots().contains(path@) {
                    assert(covered(self.roots(), path@));
                }
            }
            let _ = self.watcher.watch(path);
        }
        self.watcher.update_cache(path, probed)
    }

    /// Makes `path` a root; fails with `AlreadyWatched` where a root covers it.
    pub fn start_watching(&mut self, path: &FsPath) -> (r: Result<(), Error>)
        requires
            old(self).wf(),
        ensures
            final(self).wf(),
            final(self).cached() == old(self).cached(),
            covered(old(self).roots(), path@) ==> r == Err::<(), Error>(Error::AlreadyWatched)
                && final(self).roots() == old(self).roots(),
            !covered(old(self).roots(), path@) ==> r is Ok && final(self).roots() == old(
                self,
            ).roots().insert(path@),
    {
        if self.watcher.is_watched(path) {
            return Err(Error::AlreadyWatched);
        }
        proof {
            if self.roots().contains(path@) {
                assert(covered(self.roots(), path@));
            }
        }
        self.watcher.watch(path)
    }

    /// Stops watching the root `path`; fails with `NotWatched` where it is no
    /// root.
    pub fn stop_watching(&mut self, path: &FsPath) -> (r: Result<(), Error>)
        requires
            old(self).wf(),
        ensures
            final(self).wf(),
            final(self).cached() == old(self).cached(),
            !old(self).roots().contains(path@) ==> r == Err::<(), Error>(Error::NotWatched)
                && final(self).roots() == old(self).roots(),
            old(self).roots().contains(path@) ==> r is Ok && final(self).roots() == old(
                self,
            ).roots().remove(path@),
    {
        if !self.watcher.is_watched(path) {
            proof {
                if self.roots().contains(path@) {
                    assert(covered(self.roots(), path@));
                }
            }
            return Err(Error::NotWatched);
        }
        self.watcher.unwatch(path)
    }

    /// Every cache entry as the path's text and its size.
    pub fn list_cache_entries(&self) -> (r: Vec<(String, i64)>)
        requires
            self.wf(),
        ensures
            forall|k: PathView| #[trigger]
                self.cached().contains_key(k) ==> exists|i: int|
                    0 <= i < r.len() && r@[i].0@ == text_of(k) && r@[i].1 == self.cached()[k],
            forall|i: int|
                0 <= i < r.len() ==> #[trigger] lists_entry_of(self.cached(), r@[i].0@, r@[i].1),
            r.len() == self.cached().dom().len(),
    {
        self.watcher.cache().to_string_map()
    }

    /// Drops every cache entry.
    pub fn invalidate_cache(&mut self)
        requires
            old(self).wf(),
        ensures
            final(self).wf(),
            final(self).roots() == old(self).roots(),
            final(self).cached() == Map::<PathView, i64>::empty(),
    {
        self.watcher.invalidate_cache()
    }

    /// Applies one change notification, as `Watcher::handle_event` does.
    pub fn handle_event(&mut self, event: FsEvent)
        requires
            old(self).wf(),
        ensures
            final(self).wf(),
            final(self).roots() == old(self).roots(),
            final(self).cached() == event_spec(old(self).cached(), event),
    {
        self.watcher.handle_event(event)
    }
}

} // verus!
