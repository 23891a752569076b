use vstd::prelude::*;

verus! {

/// The mathematical view of a directory path: whether it starts at the
/// filesystem root, and its components in order.
pub struct PathView {
    pub absolute: bool,
    pub parts: Seq<Seq<char>>,
}

/// The filesystem root, `/`.
pub open spec fn root_path() -> PathView {
    PathView { absolute: true, parts: Seq::empty() }
}

/// The system-configuration directory that stands in for the root, `/etc`.
pub open spec fn system_dir_path() -> PathView {
    PathView { absolute: true, parts: seq![seq!['e', 't', 'c']] }
}

/// Depth of a path: its number of components.
pub open spec fn depth(p: PathView) -> nat {
    p.parts.len()
}

/// The root is never emitted as itself: it is replaced by the system directory.
pub open spec fn substitute(p: PathView) -> PathView {
    if p == root_path() {
        system_dir_path()
    } else {
        p
    }
}

/// The parent of a path; a path without components is its own parent.
pub open spec fn parent(p: PathView) -> PathView {
    if p.parts.len() > 0 {
        PathView { absolute: p.absolute, parts: p.parts.drop_last() }
    } else {
        p
    }
}

/// `p` with only its first `n` components.
pub open spec fn truncate(p: PathView, n: int) -> PathView {
    PathView { absolute: p.absolute, parts: p.parts.subrange(0, n) }
}

/// The paths still to be emitted by a walk whose current candidate is `buf`,
/// which has finished when `end` holds, and whose last emitted path is `last`.
pub open spec fn walk(buf: PathView, end: bool, last: PathView) -> Seq<PathView>
    decreases (if end { 0 } else { buf.parts.len() + 1 }),
{
    if end {
        Seq::empty()
    } else {
        let ret = substitute(buf);
        let end2 = buf.parts.len() == 0;
        if ret == last {
            walk(parent(buf), end2, last)
        } else {
            seq![ret] + walk(parent(buf), end2, ret)
        }
    }
}

/// The ancestor sequence of `start`, closest first.
pub open spec fn ancestor_seq(start: PathView) -> Seq<PathView> {
    walk(start, false, root_path())
}

proof fn lemma_walk_shape(buf: PathView, end: bool, last: PathView)
    ensures
        walk(buf, end, last).len() <= (if end { 0 } else { buf.parts.len() + 1 }),
        walk(buf, end, last).len() > 0 ==> walk(buf, end, last)[0] != last,
        forall|i: int|
            0 <= i < walk(buf, end, last).len() - 1 ==> #[trigger] walk(buf, end, last)[i] != walk(
                buf,
                end,
                last,
            )[i + 1],
        forall|i: int|
            0 <= i < walk(buf, end, last).len() - 1 ==> depth(#[trigger] walk(buf, end, last)[i])
                <= buf.parts.len(),
        forall|i: int, j: int|
            0 <= i < j < walk(buf, end, last).len() - 1 ==> depth(#[trigger] walk(buf, end, last)[i])
                > depth(#[trigger] walk(buf, end, last)[j]),
        forall|i: int|
            0 <= i < walk(buf, end, last).len() ==> depth(#[trigger] walk(buf, end, last)[i])
                <= buf.parts.len() || walk(buf, end, last)[i] == system_dir_path(),
        forall|i: int, j: int|
            0 <= i < j < walk(buf, end, last).len() ==> #[trigger] walk(buf, end, last)[i]
                != #[trigger] walk(buf, end, last)[j],
    decreases (if end { 0 } else { buf.parts.len() + 1 }),
{
    if !end {
        let ret = substitute(buf);
        let end2 = buf.parts.len() == 0;
        let b2 = parent(buf);
        if ret == last {
            lemma_walk_shape(b2, end2, last);
        } else {
            lemma_walk_shape(b2, end2, ret);
            let t = walk(b2, end2, ret);
            let s = walk(buf, end, last);
            assert(s == seq![ret] + t);
            if t.len() > 0 {
                assert(buf.parts.len() > 0);
                assert(ret == buf);
            }
            assert forall|i: int| 0 <= i < s.len() - 1 implies #[trigger] s[i] != s[i + 1] by {
                if i > 0 {
                    assert(s[i] == t[i - 1] && s[i + 1] == t[i]);
                }
            }
            assert forall|i: int| 0 <= i < s.len() - 1 implies depth(#[trigger] s[i])
                <= buf.parts.len() by {
                if i > 0 {
                    assert(s[i] == t[i - 1]);
                }
            }
            assert forall|i: int, j: int| 0 <= i < j < s.len() - 1 implies depth(#[trigger] s[i])
                > depth(#[trigger] s[j]) by {
                assert(s[j] == t[j - 1]);
                if i > 0 {
                    assert(s[i] == t[i - 1]);
                }
            }
            assert forall|i: int| 0 <= i < s.len() implies depth(#[trigger] s[i])
                <= buf.parts.len() || s[i] == system_dir_path() by {
                if i > 0 {
                    assert(s[i] == t[i - 1]);
                }
            }
            if ret == system_dir_path() && buf == system_dir_path() {
                assert(b2.parts =~= Seq::<Seq<char>>::empty());
                assert(b2 == root_path());
                assert(substitute(b2) == ret);
                assert(walk(parent(b2), true, ret).len() == 0);
                assert(t.len() == 0);
            }
            assert forall|i: int, j: int| 0 <= i < j < s.len() implies #[trigger] s[i]
                != #[trigger] s[j] by {
                assert(s[j] == t[j - 1]);
                if i > 0 {
                    assert(s[i] == t[i - 1]);
                } else if j > 1 {
                    assert(t[0] != t[j - 1]);
                    if j - 1 < t.len() - 1 {
                        assert(depth(t[j - 1]) <= b2.parts.len());
                    } else {
                        assert(depth(t[j - 1]) <= b2.parts.len() || t[j - 1] == system_dir_path());
                    }
                }
            }
        }
    }
}

/// The ancestor sequence is finite: it has at most one element more than the
/// starting directory has components. No element equals the one after it (nor
/// any other), and all elements but the last (which may be the substituted
/// system directory) are strictly decreasing in depth.
pub proof fn ancestor_walk_is_finite_and_descending(start: PathView)
    ensures
        ancestor_seq(start).len() <= start.parts.len() + 1,
        forall|i: int|
            0 <= i < ancestor_seq(start).len() - 1 ==> #[trigger] ancestor_seq(start)[i]
                != ancestor_seq(start)[i + 1],
        forall|i: int, j: int|
            0 <= i < j < ancestor_seq(start).len() - 1 ==> depth(#[trigger] ancestor_seq(start)[i])
                > depth(#[trigger] ancestor_seq(start)[j]),
        forall|i: int, j: int|
            0 <= i < j < ancestor_seq(start).len() ==> #[trigger] ancestor_seq(start)[i]
                != #[trigger] ancestor_seq(start)[j],
{
    lemma_walk_shape(start, false, root_path());
}

/// Starting at the filesystem root, the walk emits the system directory alone.
pub proof fn ancestors_of_root()
    ensures
        ancestor_seq(root_path()) == seq![system_dir_path()],
{
    let s = ancestor_seq(root_path());
    assert(substitute(root_path()) == system_dir_path());
    assert(system_dir_path() != root_path()) by {
        assert(system_dir_path().parts.len() == 1);
    }
    assert(walk(parent(root_path()), true, system_dir_path()) == Seq::<PathView>::empty());
    assert(s =~= seq![system_dir_path()]);
}

/// Below the root, the walk emits each prefix of the starting directory in
/// turn: the `k`-th element is the start with its last `k` components removed.
pub proof fn ancestor_at(start: PathView, k: int)
    requires
        0 <= k < start.parts.len(),
    ensures
        ancestor_seq(start).len() > k,
        ancestor_seq(start)[k] == truncate(start, start.parts.len() - k),
{
    lemma_walk_prefix(start, root_path(), k);
}

proof fn lemma_walk_prefix(buf: PathView, last: PathView, k: int)
    requires
        0 <= k < buf.parts.len(),
        depth(last) > depth(buf) || depth(last) == 0,
    ensures
        walk(buf, false, last).len() > k,
        walk(buf, false, last)[k] == truncate(buf, buf.parts.len() - k),
    decreases k,
{
    let b2 = parent(buf);
    assert(substitute(buf) == buf);
    assert(buf != last);
    let t = walk(b2, false, buf);
    assert(walk(buf, false, last) == seq![buf] + t);
    if k == 0 {
        assert(buf.parts.subrange(0, buf.parts.len() as int) =~= buf.parts);
    } else {
        lemma_walk_prefix(b2, buf, k - 1);
        assert(b2.parts.subrange(0, b2.parts.len() - (k - 1)) =~= buf.parts.subrange(
            0,
            buf.parts.len() - k,
        ));
    }
}

/// A directory path: absolute or relative, made of components.
#[derive(Debug)]
pub struct DirPath {
    pub absolute: bool,
    pub parts: Vec<String>,
}

impl View for DirPath {
    type V = PathView;

    open spec fn view(&self) -> PathView {
        PathView { absolute: self.absolute, parts: self.parts@.map_values(|s: String| s@) }
    }
}

impl DirPath {
    pub fn new(absolute: bool, parts: Vec<String>) -> (r: DirPath)
        ensures
            r.absolute == absolute,
            r.parts == parts,
    {
        DirPath { absolute, parts }
    }

    /// The filesystem root.
    pub fn root() -> (r: DirPath)
        ensures
            r@ == root_path(),
    {
        let r = DirPath { absolute: true, parts: Vec::new() };
        assert(r@.parts =~= Seq::<Seq<char>>::empty());
        r
    }

    /// The system-configuration directory, `/etc`.
    pub fn system_dir() -> (r: DirPath)
        ensures
            r@ == system_dir_path(),
    {
        let mut parts: Vec<String> = Vec::new();
        parts.push("etc".to_owned());
        proof {
            reveal_strlit("etc");
        }
        assert(parts@[0]@ =~= seq!['e', 't', 'c']);
        let r = DirPath { absolute: true, parts };
        assert(r@.parts =~= system_dir_path().parts);
        r
    }

    pub fn is_root(&self) -> (r: bool)
        ensures
            r == (self@ == root_path()),
    {
        let r = self.absolute && self.parts.len() == 0;
        if r {
            assert(self@.parts =~= Seq::<Seq<char>>::empty());
        } else {
            assert(self@.parts.len() == self.parts@.len());
        }
        r
    }

    pub fn depth(&self) -> (r: usize)
        ensures
            r == depth(self@),
    {
        self.parts.len()
    }

    /// A copy of this path.
    pub fn duplicate(&self) -> (r: DirPath)
        ensures
            r@ == self@,
    {
        let mut parts: Vec<String> = Vec::new();
        let mut i: usize = 0;
        while i < self.parts.len()
            invariant
                i <= self.parts.len(),
                parts@.len() == i,
                forall|k: int| 0 <= k < i ==> parts@[k]@ == self.parts@[k]@,
            decreases self.parts.len() - i,
        {
            parts.push(self.parts[i].clone());
            i = i + 1;
        }
        let r = DirPath { absolute: self.absolute, parts };
        assert(r@.parts =~= self@.parts);
        r
    }

    /// Whether two paths are the same path.
    pub fn same_as(&self, other: &DirPath) -> (r: bool)
        ensures
            r == (self@ == other@),
    {
        if self.absolute != other.absolute || self.parts.len() != other.parts.len() {
            if self.parts.len() != other.parts.len() {
                assert(self@.parts.len() != other@.parts.len());
            }
            return false;
        }
        let mut i: usize = 0;
        while i < self.parts.len()
            invariant
                i <= self.parts.len(),
                self.parts.len() == other.parts.len(),
                forall|k: int| 0 <= k < i ==> self.parts@[k]@ == other.parts@[k]@,
            decreases self.parts.len() - i,
        {
            if self.parts[i] != other.parts[i] {
                assert(self@.parts[i as int] != other@.parts[i as int]);
                return false;
            }
            i = i + 1;
        }
        assert(self@.parts =~= other@.parts);
        true
    }

    /// Moves to the parent directory; false when there is none.
    pub fn pop(&mut self) -> (r: bool)
        ensures
            r == (old(self)@.parts.len() > 0),
            final(self)@ == parent(old(self)@),
    {
        if self.parts.len() == 0 {
            false
        } else {
            self.parts.pop();
            assert(self@.parts =~= old(self)@.parts.drop_last());
            true
        }
    }

    /// This path followed by the components of `rel`.
    pub fn join(&self, rel: &Vec<String>) -> (r: DirPath)
        ensures
            r@ == (PathView { absolute: self@.absolute, parts: self@.parts + rel@.map_values(|s: String| s@) }),
    {
        let mut r = self.duplicate();
        let mut i: usize = 0;
        while i < rel.len()
            invariant
                i <= rel.len(),
                r@ == (PathView { absolute: self@.absolute, parts: self@.parts + rel@.subrange(0, i as int).map_values(|s: String| s@) }),
            decreases rel.len() - i,
        {
            let ghost before = r@;
            r.parts.push(rel[i].clone());
            assert(rel@.subrange(0, i + 1 as int).map_values(|s: String| s@)
                =~= rel@.subrange(0, i as int).map_values(|s: String| s@).push(rel@[i as int]@));
            assert(r@.parts =~= before.parts.push(rel@[i as int]@));
            i = i + 1;
        }
        assert(rel@.subrange(0, rel@.len() as int) =~= rel@);
        r
    }

    /// The last component, if there is one.
    pub fn file_name(&self) -> (r: Option<String>)
        ensures
            self@.parts.len() == 0 ==> r.is_none(),
            self@.parts.len() > 0 ==> r.is_some() && r.unwrap()@ == self@.parts.last(),
    {
        if self.parts.len() == 0 {
            None
        } else {
            Some(self.parts[self.parts.len() - 1].clone())
        }
    }
}

/// Walks from a directory up to the system-configuration directory, closest
/// first, never emitting the same path twice in a row.
pub struct PathIter {
    buf: DirPath,
    end: bool,
    last: DirPath,
}

impl PathIter {
    /// The paths that this walk has still to emit.
    pub closed spec fn remaining(&self) -> Seq<PathView> {
        walk(self.buf@, self.end, self.last@)
    }

    pub fn new(path: DirPath) -> (r: PathIter)
        ensures
            r.remaining() == ancestor_seq(path@),
    {
        PathIter { buf: path, end: false, last: DirPath::root() }
    }

    /// The next ancestor, or `None` once the walk has finished.
    pub fn next(&mut self) -> (r: Option<DirPath>)
        ensures
            old(self).remaining().len() == 0 ==> r.is_none() && final(self).remaining().len() == 0,
            old(self).remaining().len() > 0 ==> r.is_some() && r.unwrap()@ == old(self).remaining()[0]
                && final(self).remaining() == old(self).remaining().drop_first(),
    {
        loop
            invariant
                self.remaining() == old(self).remaining(),
            decreases (if self.end { 0 } else { self.buf@.parts.len() + 1 }),
        {
            if self.end {
                return None;
            }
            let ghost buf0 = self.buf@;
            let mut ret = self.buf.duplicate();
            if ret.is_root() {
                ret = DirPath::system_dir();
            }
            self.end = !self.buf.pop();
            if ret.same_as(&self.last) {
                continue;
            }
            self.last = ret.duplicate();
            assert(old(self).remaining() =~= seq![ret@] + self.remaining());
            return Some(ret);
        }
    }

    /// Every remaining path, in order; the walk is then finished.
    pub fn collect_all(&mut self) -> (r: Vec<DirPath>)
        ensures
            r@.map_values(|p: DirPath| p@) == old(self).remaining(),
            final(self).remaining().len() == 0,
    {
        let mut out: Vec<DirPath> = Vec::new();
        loop
            invariant
                out@.map_values(|p: DirPath| p@) + self.remaining() == old(self).remaining(),
            decreases self.remaining().len(),
        {
            let ghost before = self.remaining();
            let ghost out_before = out@.map_values(|p: DirPath| p@);
            match self.next() {
                None => {
                    assert(before =~= Seq::<PathView>::empty());
                    assert(out_before + before =~= out_before);
                    return out;
                },
                Some(p) => {
                    out.push(p);
                    assert(out@.map_values(|p: DirPath| p@) =~= out_before.push(before[0]));
                    assert(out_before.push(before[0]) + before.drop_first() =~= out_before + before);
                },
            }
        }
    }
}

/// The ancestors of `start`, closest first, ending at the system directory.
pub fn ancestors(start: &DirPath) -> (r: Vec<DirPath>)
    ensures
        r@.map_values(|p: DirPath| p@) == ancestor_seq(start@),
{
    let mut it = PathIter::new(start.duplicate());
    it.collect_all()
}

} // verus!
