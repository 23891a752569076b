use vstd::prelude::*;

use crate::cascade::{first_true, first_true_is_least};
use crate::path::{DirPath, PathView};

verus! {

/// A named profile and where it is stored.
#[derive(Debug)]
pub struct ProfileEntry {
    pub name: String,
    pub location: DirPath,
}

/// The profiles available to the user, each name once.
#[derive(Debug)]
pub struct ProfileRegistry {
    pub entries: Vec<ProfileEntry>,
}

#[derive(Debug)]
pub enum RegistryError {
    /// No profile has the requested name.
    NotFound(String),
}

/// Whether `name` occurs in `names`.
pub open spec fn name_listed(names: Seq<String>, name: Seq<char>) -> bool {
    exists|i: int| 0 <= i < names.len() && (#[trigger] names[i])@ == name
}

impl ProfileRegistry {
    /// The names, in listing order.
    pub open spec fn name_seq(&self) -> Seq<Seq<char>> {
        self.entries@.map_values(|e: ProfileEntry| e.name@)
    }

    /// Names are unique.
    pub open spec fn wf(&self) -> bool {
        forall|i: int, j: int|
            0 <= i < j < self.entries@.len() ==> (#[trigger] self.entries@[i]).name@
                != (#[trigger] self.entries@[j]).name@
    }

    /// The position of the entry named `name`, if any.
    pub open spec fn index_of(&self, name: Seq<char>) -> Option<int> {
        first_true(self.name_seq().map_values(|n: Seq<char>| n == name))
    }

    /// The registry of the profile-storage root `root`, whose entries are
    /// named `names`: each name once, stored at `root/name`.
    pub fn from_storage(root: &DirPath, names: &Vec<String>) -> (r: ProfileRegistry)
        ensures
            r.wf(),
            forall|n: Seq<char>| name_listed(names@, n) <==> r.name_seq().contains(n),
            forall|i: int|
                0 <= i < r.entries@.len() ==> (#[trigger] r.entries@[i]).location@ == (PathView {
                    absolute: root@.absolute,
                    parts: root@.parts.push(r.entries@[i].name@),
                }),
    {
        let mut entries: Vec<ProfileEntry> = Vec::new();
        let mut i: usize = 0;
        while i < names.len()
            invariant
                i <= names.len(),
                (ProfileRegistry { entries }).wf(),
                forall|n: Seq<char>|
                    name_listed(names@.subrange(0, i as int), n) <==> (ProfileRegistry {
                        entries,
                    }).name_seq().contains(n),
                forall|k: int|
                    0 <= k < entries@.len() ==> (#[trigger] entries@[k]).location@ == (PathView {
                        absolute: root@.absolute,
                        parts: root@.parts.push(entries@[k].name@),
                    }),
            decreases names.len() - i,
        {
            let ghost old_entries = entries@;
            let ghost reg0 = ProfileRegistry { entries };
            let name = &names[i];
            let mut seen = false;
            let mut j: usize = 0;
            while j < entries.len()
                invariant
                    j <= entries.len(),
                    seen == exists|k: int| 0 <= k < j && (#[trigger] entries@[k]).name@ == name@,
                decreases entries.len() - j,
            {
                if entries[j].name == *name {
                    seen = true;
                }
                j = j + 1;
            }
            if !seen {
                let mut rel: Vec<String> = Vec::new();
                rel.push(name.clone());
                let location = root.join(&rel);
                assert(rel@.map_values(|s: String| s@) =~= seq![name@]);
                assert(root@.parts + seq![name@] =~= root@.parts.push(name@));
                entries.push(ProfileEntry { name: name.clone(), location });
            }
            proof {
                let reg = ProfileRegistry { entries };
                assert(names@.subrange(0, i + 1 as int) =~= names@.subrange(0, i as int).push(names@[i as int]));
                if !seen {
                    assert(entries@ == old_entries.push(entries@[old_entries.len() as int]));
                    assert(reg.name_seq() =~= reg0.name_seq().push(name@));
                    assert forall|a: int, b: int| 0 <= a < b < entries@.len() implies (#[trigger] entries@[a]).name@
                        != (#[trigger] entries@[b]).name@ by {
                        if b == old_entries.len() {
                            assert(entries@[a] == old_entries[a]);
                        } else {
                            assert(entries@[a] == old_entries[a] && entries@[b] == old_entries[b]);
                        }
                    }
                } else {
                    let k = choose|k: int| 0 <= k < old_entries.len() && (#[trigger] old_entries[k]).name@ == name@;
                    assert(reg0.name_seq()[k] == name@);
                }
                let pre = names@.subrange(0, i as int);
                let post = names@.subrange(0, i + 1 as int);
                assert forall|n: Seq<char>| name_listed(post, n) implies reg.name_seq().contains(n) by {
                    let a = choose|a: int| 0 <= a < post.len() && (#[trigger] post[a])@ == n;
                    if a < i {
                        assert(pre[a] == post[a]);
                        assert(name_listed(pre, n));
                        assert(reg0.name_seq().contains(n));
                        let b = choose|b: int| 0 <= b < reg0.name_seq().len() && reg0.name_seq()[b] == n;
                        assert(reg.name_seq()[b] == n);
                    } else {
                        assert(n == name@);
                        if !seen {
                            assert(reg.name_seq()[old_entries.len() as int] == n);
                        } else {
                            let k = choose|k: int| 0 <= k < old_entries.len() && (#[trigger] old_entries[k]).name@ == name@;
                            assert(reg.name_seq()[k] == n);
                        }
                    }
                }
                assert forall|n: Seq<char>| reg.name_seq().contains(n) implies name_listed(post, n) by {
                    let b = choose|b: int| 0 <= b < reg.name_seq().len() && reg.name_seq()[b] == n;
                    if b < old_entries.len() {
                        assert(reg0.name_seq()[b] == n);
                        assert(reg0.name_seq().contains(n));
                        assert(name_listed(pre, n));
                        let a = choose|a: int| 0 <= a < pre.len() && (#[trigger] pre[a])@ == n;
                        assert(post[a] == pre[a]);
                    } else {
                        assert(n == name@);
                        assert(post[i as int] == names@[i as int]);
                    }
                }
            }
            i = i + 1;
        }
        assert(names@.subrange(0, names@.len() as int) =~= names@);
        ProfileRegistry { entries }
    }

    pub fn len(&self) -> (r: usize)
        ensures
            r == self.entries@.len(),
    {
        self.entries.len()
    }

    /// The profile names, in listing order.
    pub fn names(&self) -> (r: Vec<String>)
        ensures
            r@.map_values(|s: String| s@) == self.name_seq(),
    {
        let mut r: Vec<String> = Vec::new();
        let mut i: usize = 0;
        while i < self.entries.len()
            invariant
                i <= self.entries.len(),
                r@.len() == i,
                forall|k: int| 0 <= k < i ==> (#[trigger] r@[k])@ == self.entries@[k].name@,
            decreases self.entries.len() - i,
        {
            r.push(self.entries[i].name.clone());
            i = i + 1;
        }
        assert(r@.map_values(|s: String| s@) =~= self.name_seq());
        r
    }

    /// Where the profile named `name` is stored.
    pub fn resolve(&self, name: &String) -> (r: Result<DirPath, RegistryError>)
        ensures
            self.index_of(name@) is None ==> (r matches Err(RegistryError::NotFound(n)) && n@ == name@),
            self.index_of(name@) is Some ==> r is Ok && r->Ok_0@
                == self.entries@[self.index_of(name@)->0].location@,
            r is Ok <==> self.name_seq().contains(name@),
    {
        let ghost s = self.name_seq().map_values(|n: Seq<char>| n == name@);
        let mut i: usize = 0;
        while i < self.entries.len()
            invariant
                i <= self.entries.len(),
                s == self.name_seq().map_values(|n: Seq<char>| n == name@),
                forall|k: int| 0 <= k < i ==> !#[trigger] s[k],
            decreases self.entries.len() - i,
        {
            if self.entries[i].name == *name {
                proof {
                    first_true_is_least(s);
                    assert(s[i as int]);
                    if first_true(s) is Some {
                        let f = first_true(s)->0;
                        assert(!(f < i));
                        assert(!(i < f));
                    }
                    assert(self.name_seq()[i as int] == name@);
                }
                return Ok(self.entries[i].location.duplicate());
            }
            i = i + 1;
        }
        proof {
            first_true_is_least(s);
            if self.name_seq().contains(name@) {
                let k = choose|k: int| 0 <= k < self.name_seq().len() && self.name_seq()[k] == name@;
                assert(s[k]);
            }
        }
        Err(RegistryError::NotFound(name.clone()))
    }
}

} // verus!
