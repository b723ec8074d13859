use vstd::prelude::*;

verus! {

/// The mathematical value of a path: whether it is absolute, and its
/// components from the root down.
pub type PathView = (bool, Seq<Seq<char>>);

/// A filesystem path held as its components.
pub struct FsPath {
    pub absolute: bool,
    pub comps: Vec<String>,
}

impl View for FsPath {
    type V = PathView;

    open spec fn view(&self) -> PathView {
        (self.absolute, self.comps@.map_values(|c: String| c@))
    }
}

/// `a` is a strict ancestor of `p`: same anchoring, and the components of `a`
/// are a strict prefix of those of `p`.
pub open spec fn is_strict_ancestor(a: PathView, p: PathView) -> bool {
    &&& a.0 == p.0
    &&& a.1.len() < p.1.len()
    &&& a.1 == p.1.subrange(0, a.1.len() as int)
}

/// `a` is `p` itself or one of its strict ancestors.
pub open spec fn is_ancestor_or_self(a: PathView, p: PathView) -> bool {
    a == p || is_strict_ancestor(a, p)
}

/// The components joined by `/`.
pub open spec fn join(cs: Seq<Seq<char>>) -> Seq<char>
    decreases cs.len(),
{
    if cs.len() == 0 {
        Seq::empty()
    } else if cs.len() == 1 {
        cs[0]
    } else {
        join(cs.drop_last()) + seq!['/'] + cs.last()
    }
}

/// The text of a path: `/` before the joined components of an absolute one.
pub open spec fn text_of(p: PathView) -> Seq<char> {
    if p.0 {
        seq!['/'] + join(p.1)
    } else {
        join(p.1)
    }
}

impl FsPath {
    /// A path from its anchoring and its components.
    pub fn new(absolute: bool, comps: Vec<String>) -> (r: FsPath)
        ensures
            r.absolute == absolute,
            r.comps@ == comps@,
    {
        FsPath { absolute, comps }
    }

    /// A second path with the same value.
    pub fn copy_path(&self) -> (r: FsPath)
        ensures
            r@ == self@,
    {
        let comps = self.comps.clone();
        let r = FsPath { absolute: self.absolute, comps };
        assert(r@.1 =~= self@.1);
        r
    }

    /// Whether the two paths are the same.
    pub fn same_as(&self, other: &FsPath) -> (r: bool)
        ensures
            r == (self@ == other@),
    {
        if self.absolute != other.absolute {
            return false;
        }
        if self.comps.len() != other.comps.len() {
            assert(self@.1.len() != other@.1.len());
            return false;
        }
        let n = self.comps.len();
        let mut i: usize = 0;
        while i < n
            invariant
                n == self.comps.len(),
                n == other.comps.len(),
                i <= n,
                forall|j: int| 0 <= j < i ==> self.comps@[j]@ == other.comps@[j]@,
            decreases n - i,
        {
            if self.comps[i] != other.comps[i] {
                assert(self@.1[i as int] != other@.1[i as int]);
                return false;
            }
            i = i + 1;
        }
        assert(self@.1 =~= other@.1);
        true
    }

    /// Whether `self` is a strict ancestor of `p`.
    pub fn is_strict_ancestor_of(&self, p: &FsPath) -> (r: bool)
        ensures
            r == is_strict_ancestor(self@, p@),
    {
        if self.absolute != p.absolute || self.comps.len() >= p.comps.len() {
            return false;
        }
        let n = self.comps.len();
        let mut i: usize = 0;
        while i < n
            invariant
                n == self.comps.len(),
                n < p.comps.len(),
                i <= n,
                forall|j: int| 0 <= j < i ==> self.comps@[j]@ == p.comps@[j]@,
            decreases n - i,
        {
            if self.comps[i] != p.comps[i] {
                assert(self@.1[i as int] != p@.1.subrange(0, n as int)[i as int]);
                return false;
            }
            i = i + 1;
        }
        assert(self@.1 =~= p@.1.subrange(0, n as int));
        true
    }

    /// The text of the path, its components joined by `/`.
    pub fn to_text(&self) -> (r: String)
        ensures
            r@ == text_of(self@),
    {
        let mut r = String::new();
        if self.absolute {
            r.append("/");
        }
        let ghost head = r@;
        proof {
            reveal_strlit("/");
            assert(head == if self.absolute { seq!['/'] } else { Seq::<char>::empty() });
        }
        let n = self.comps.len();
        let mut i: usize = 0;
        while i < n
            invariant
                n == self.comps.len(),
                i <= n,
                head == if self.absolute { seq!['/'] } else { Seq::<char>::empty() },
                r@ == head + join(self@.1.subrange(0, i as int)),
            decreases n - i,
        {
            let ghost before = self@.1.subrange(0, i as int);
            if i > 0 {
                r.append("/");
                proof { reveal_strlit("/"); }
            }
            r.append(self.comps[i].as_str());
            proof {
                let after = self@.1.subrange(0, i + 1);
                assert(after.drop_last() =~= before);
                if i == 0 {
                    assert(before =~= Seq::<Seq<char>>::empty());
                    assert(r@ =~= head + join(after));
                } else {
                    assert(r@ =~= head + join(after));
                }
            }
            i = i + 1;
        }
        assert(self@.1.subrange(0, n as int) =~= self@.1);
        assert(r@ =~= text_of(self@));
        r
    }

    /// The root of the absolute paths, `/`.
    pub fn root() -> (r: FsPath)
        ensures
            r@ == (true, Seq::<Seq<char>>::empty()),
    {
        let r = FsPath { absolute: true, comps: Vec::new() };
        assert(r@.1 =~= Seq::<Seq<char>>::empty());
        r
    }

    /// This path with one more component, `name`, below it.
    pub fn child(&self, name: &str) -> (r: FsPath)
        ensures
            r@ == (self@.0, self@.1.push(name@)),
    {
        let mut comps = self.comps.clone();
        comps.push(name.to_owned());
        let r = FsPath { absolute: self.absolute, comps };
        assert(r@.1 =~= self@.1.push(name@));
        r
    }
}

} // verus!
