use vstd::prelude::*;

use crate::cache::{lookup, remove_spec, set_spec, CacheView};
use crate::path::{is_ancestor_or_self, is_strict_ancestor, PathView};
use crate::watcher::covered;

verus! {

/// Recording a size for a path that had no entry makes a lookup of that path
/// return the size.
pub proof fn lemma_set_then_get(m: CacheView, p: PathView, s: i64)
    requires
        !m.contains_key(p),
    ensures
        lookup(set_spec(m, p, s), p) == Some(s),
{
}

/// Changing the size of a cached path from `s1` to `s2` adds exactly
/// `s2 - s1` to every cached strict ancestor, where the sums fit in 64 bits.
pub proof fn lemma_set_shifts_ancestors(m: CacheView, p: PathView, s1: i64, s2: i64)
    requires
        m.contains_key(p),
        m[p] == s1,
        i64::MIN <= s2 - s1 <= i64::MAX,
        forall|a: PathView|
            #[trigger] m.contains_key(a) && is_strict_ancestor(a, p) ==> i64::MIN <= m[a] + (s2
                - s1) <= i64::MAX,
    ensures
        forall|a: PathView|
            #[trigger] m.contains_key(a) && is_strict_ancestor(a, p) ==> set_spec(m, p, s2).contains_key(a)
                && set_spec(m, p, s2)[a] == m[a] + (s2 - s1),
{
}

/// After a path is removed, a lookup of it asks for a fresh probe.
pub proof fn lemma_remove_then_get(m: CacheView, p: PathView)
    ensures
        lookup(remove_spec(m, p), p) == None::<i64>,
{
}

/// After the cache is cleared, a lookup of any path asks for a fresh probe.
pub proof fn lemma_invalidate_then_get(p: PathView)
    ensures
        lookup(Map::<PathView, i64>::empty(), p) == None::<i64>,
{
}

/// A watched root covers itself and every path below it.
pub proof fn lemma_root_covers_descendants(roots: Set<PathView>, r: PathView, p: PathView)
    requires
        roots.contains(r),
        is_ancestor_or_self(r, p),
    ensures
        covered(roots, p),
{
}

/// A single watched root does not cover a path that is neither itself nor
/// below it.
pub proof fn lemma_unrelated_not_covered(r: PathView, p: PathView)
    requires
        !is_ancestor_or_self(r, p),
    ensures
        !covered(set![r], p),
{
}

} // verus!
