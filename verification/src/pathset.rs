//! A set of file-system paths held as strings, compared by their
//! characters.  Backs the blob table of the durable index and the
//! open-handle cache of the store manager.

use vstd::prelude::*;

verus! {

/// The set of character sequences a list of strings holds.
pub open spec fn paths_set(s: Seq<String>) -> Set<Seq<char>> {
    Set::new(|p: Seq<char>| exists|i: int| 0 <= i < s.len() && s[i]@ == p)
}

/// A deduplicated set of paths.
#[derive(Debug)]
pub struct PathSet {
    items: Vec<String>,
}

impl PathSet {
    #[verifier::type_invariant]
    spec fn wf(self) -> bool {
        forall|i: int, j: int| 0 <= i < j < self.items@.len() ==> self.items@[i]@ != self.items@[j]@
    }

    /// The set of paths held.
    pub closed spec fn paths(self) -> Set<Seq<char>> {
        paths_set(self.items@)
    }

    /// Creates an empty set.
    pub fn new() -> (r: PathSet)
        ensures
            r.paths() == Set::<Seq<char>>::empty(),
    {
        let r = PathSet { items: Vec::new() };
        proof {
            assert(r.paths() =~= Set::<Seq<char>>::empty());
        }
        r
    }

    /// Reports whether `p` is in the set.
    pub fn contains(&self, p: &str) -> (r: bool)
        ensures
            r == self.paths().contains(p@),
    {
        proof {
            use_type_invariant(self);
        }
        let n = self.items.len();
        let mut i: usize = 0;
        while i < n
            invariant
                i <= n,
                n == self.items@.len(),
                forall|j: int| 0 <= j < i ==> self.items@[j]@ != p@,
            decreases n - i,
        {
            if crate::strutil::str_eq(self.items[i].as_str(), p) {
                assert(self.items@[i as int]@ == p@);
                return true;
            }
            i += 1;
        }
        assert(!self.paths().contains(p@));
        false
    }

    /// Inserts `p`; a path already present is kept once.
    pub fn insert(&mut self, p: String)
        ensures
            final(self).paths() == old(self).paths().insert(p@),
    {
        proof {
            use_type_invariant(&*self);
        }
        if self.contains(p.as_str()) {
            proof {
                assert(self.paths() =~= old(self).paths().insert(p@));
            }
            return ;
        }
        let ghost olds = self.items@;
        let ghost pv = p@;
        let mut items: Vec<String> = Vec::new();
        core::mem::swap(&mut self.items, &mut items);
        items.push(p);
        core::mem::swap(&mut self.items, &mut items);
        proof {
            assert(forall|j: int| 0 <= j < olds.len() ==> self.items@[j] == olds[j]);
            assert forall|q: Seq<char>| self.paths().contains(q) implies old(self).paths().insert(
                pv,
            ).contains(q) by {
                let i = choose|i: int| 0 <= i < self.items@.len() && self.items@[i]@ == q;
                if i < olds.len() {
                    assert(olds[i]@ == q);
                } else {
                    assert(q == pv);
                }
            }
            assert forall|q: Seq<char>| old(self).paths().insert(pv).contains(q) implies self
                .paths().contains(q) by {
                if q == pv {
                    assert(self.items@[olds.len() as int]@ == q);
                } else {
                    let i = choose|i: int| 0 <= i < olds.len() && olds[i]@ == q;
                    assert(self.items@[i]@ == q);
                }
            }
            assert(self.paths() =~= old(self).paths().insert(pv));
        }
    }

    /// Removes every path of `ps` from the set.
    pub fn remove_all(&mut self, ps: &Vec<String>)
        ensures
            final(self).paths() == old(self).paths().difference(paths_set(ps@)),
    {
        proof {
            use_type_invariant(&*self);
        }
        let n = self.items.len();
        let mut kept: Vec<String> = Vec::new();
        let mut i: usize = 0;
        while i < n
            invariant
                i <= n,
                n == self.items@.len(),
                forall|a: int, b: int|
                    0 <= a < b < self.items@.len() ==> self.items@[a]@ != self.items@[b]@,
                forall|a: int, b: int| 0 <= a < b < kept@.len() ==> kept@[a]@ != kept@[b]@,
                forall|a: int|
                    0 <= a < kept@.len() ==> !paths_set(ps@).contains(kept@[a]@) && exists|l: int|
                        0 <= l < i && self.items@[l]@ == kept@[a]@,
                forall|l: int|
                    0 <= l < i && !paths_set(ps@).contains(self.items@[l]@) ==> exists|a: int|
                        0 <= a < kept@.len() && kept@[a]@ == self.items@[l]@,
            decreases n - i,
        {
            let ghost prev = kept@;
            if !vec_contains_str(ps, self.items[i].as_str()) {
                kept.push(self.items[i].clone());
            }
            proof {
                assert forall|l: int|
                    0 <= l < i + 1 && !paths_set(ps@).contains(self.items@[l]@) implies exists|
                    a: int,
                |
                    0 <= a < kept@.len() && kept@[a]@ == self.items@[l]@ by {
                    if l == i {
                        assert(kept@[kept@.len() - 1]@ == self.items@[l]@);
                    } else {
                        let a = choose|a: int|
                            0 <= a < prev.len() && prev[a]@ == self.items@[l]@;
                        assert(kept@[a]@ == self.items@[l]@);
                    }
                }
            }
            i += 1;
        }
        let ghost olds = self.items@;
        let mut items = kept;
        core::mem::swap(&mut self.items, &mut items);
        proof {
            assert forall|q: Seq<char>| self.paths().contains(q) implies old(self).paths().contains(
                q,
            ) && !paths_set(ps@).contains(q) by {
                let a = choose|a: int| 0 <= a < self.items@.len() && self.items@[a]@ == q;
                let l = choose|l: int| 0 <= l < olds.len() && olds[l]@ == self.items@[a]@;
                assert(olds[l]@ == q);
            }
            assert forall|q: Seq<char>|
                old(self).paths().contains(q) && !paths_set(ps@).contains(q) implies self
                .paths().contains(q) by {
                let l = choose|l: int| 0 <= l < olds.len() && olds[l]@ == q;
                let a = choose|a: int| 0 <= a < self.items@.len() && self.items@[a]@ == olds[l]@;
                assert(self.items@[a]@ == q);
            }
            assert(self.paths() =~= old(self).paths().difference(paths_set(ps@)));
        }
    }

    /// Returns the paths as a list, each once.
    pub fn to_vec(&self) -> (r: Vec<String>)
        ensures
            paths_set(r@) == self.paths(),
            forall|a: int, b: int| 0 <= a < b < r@.len() ==> r@[a]@ != r@[b]@,
    {
        proof {
            use_type_invariant(self);
        }
        let n = self.items.len();
        let mut r: Vec<String> = Vec::new();
        let mut i: usize = 0;
        while i < n
            invariant
                i <= n,
                n == self.items@.len(),
                r@.len() == i,
                forall|a: int, b: int|
                    0 <= a < b < self.items@.len() ==> self.items@[a]@ != self.items@[b]@,
                forall|j: int| 0 <= j < i ==> r@[j]@ == self.items@[j]@,
            decreases n - i,
        {
            r.push(self.items[i].clone());
            i += 1;
        }
        proof {
            assert forall|q: Seq<char>| paths_set(r@).contains(q) implies self.paths().contains(
                q,
            ) by {
                let j = choose|j: int| 0 <= j < r@.len() && r@[j]@ == q;
                assert(self.items@[j]@ == q);
            }
            assert forall|q: Seq<char>| self.paths().contains(q) implies paths_set(r@).contains(
                q,
            ) by {
                let j = choose|j: int| 0 <= j < self.items@.len() && self.items@[j]@ == q;
                assert(r@[j]@ == q);
            }
            assert(paths_set(r@) =~= self.paths());
        }
        r
    }
}

/// Reports whether some string of `ps` holds the characters of `p`.
pub fn vec_contains_str(ps: &Vec<String>, p: &str) -> (r: bool)
    ensures
        r == paths_set(ps@).contains(p@),
{
    let n = ps.len();
    let mut i: usize = 0;
    while i < n
        invariant
            i <= n,
            n == ps@.len(),
            forall|j: int| 0 <= j < i ==> ps@[j]@ != p@,
        decreases n - i,
    {
        if crate::strutil::str_eq(ps[i].as_str(), p) {
            assert(ps@[i as int]@ == p@);
            return true;
        }
        i += 1;
    }
    false
}

} // verus!
