//! A registry binding human-readable string tags to handles.
//!
//! The registry is a bijection: no two bindings share a tag, and no two share
//! a handle. Inserting over an existing tag (or an existing handle) silently
//! drops the old binding, so the latest definition wins.

use vstd::prelude::*;

use crate::ids::Handle;

verus! {

pub struct Tags {
    pairs: Vec<(String, Handle)>,
}

impl Tags {
    /// The bijection invariant: tags are pairwise distinct and so are handles.
    pub closed spec fn wf(self) -> bool {
        forall|i: int, j: int|
            0 <= i < j < self.pairs@.len() ==> self.pairs@[i].0@ != self.pairs@[j].0@
                && self.pairs@[i].1 != self.pairs@[j].1
    }

    /// True when the registry binds tag `t` to handle `h`.
    pub closed spec fn binds(self, t: Seq<char>, h: Handle) -> bool {
        exists|i: int|
            0 <= i < self.pairs@.len() && self.pairs@[i].0@ == t && self.pairs@[i].1 == h
    }

    /// True when some binding uses tag `t`.
    pub closed spec fn has_tag(self, t: Seq<char>) -> bool {
        exists|i: int| 0 <= i < self.pairs@.len() && self.pairs@[i].0@ == t
    }

    /// True when some binding uses handle `h`.
    pub closed spec fn has_id(self, h: Handle) -> bool {
        exists|i: int| 0 <= i < self.pairs@.len() && self.pairs@[i].1 == h
    }

    pub fn new() -> (r: Tags)
        ensures
            r.wf(),
            forall|t: Seq<char>, h: Handle| !r.binds(t, h),
            forall|t: Seq<char>| !r.has_tag(t),
            forall|h: Handle| !r.has_id(h),
    {
        Tags { pairs: Vec::new() }
    }

    fn find_tag_idx(&self, key: &String) -> (r: Option<usize>)
        ensures
            match r {
                Some(i) => i < self.pairs@.len() && self.pairs@[i as int].0@ == key@,
                None => !self.has_tag(key@),
            },
    {
        let mut i: usize = 0;
        while i < self.pairs.len()
            invariant
                i <= self.pairs@.len(),
                forall|j: int| 0 <= j < i ==> self.pairs@[j].0@ != key@,
            decreases self.pairs@.len() - i,
        {
            if self.pairs[i].0 == *key {
                return Some(i);
            }
            i = i + 1;
        }
        None
    }

    fn find_id_idx(&self, id: Handle) -> (r: Option<usize>)
        ensures
            match r {
                Some(i) => i < self.pairs@.len() && self.pairs@[i as int].1 == id,
                None => !self.has_id(id),
            },
    {
        let mut i: usize = 0;
        while i < self.pairs.len()
            invariant
                i <= self.pairs@.len(),
                forall|j: int| 0 <= j < i ==> self.pairs@[j].1 != id,
            decreases self.pairs@.len() - i,
        {
            if self.pairs[i].1 == id {
                return Some(i);
            }
            i = i + 1;
        }
        None
    }

    /// Drop the pair at `i` and relate the bindings before and after.
    fn remove_at(&mut self, i: usize)
        requires
            old(self).wf(),
            i < old(self).pairs@.len(),
        ensures
            final(self).wf(),
            forall|t: Seq<char>, h: Handle|
                final(self).binds(t, h) <==> (old(self).binds(t, h) && (t, h) != (old(
                    self,
                ).pairs@[i as int].0@, old(self).pairs@[i as int].1)),
    {
        let ghost s0 = self.pairs@;
        self.pairs.remove(i);
        proof {
            assert forall|k: int| 0 <= k < self.pairs@.len() implies #[trigger] self.pairs@[k]
                == (if k < i {
                s0[k]
            } else {
                s0[k + 1]
            }) by {
                assert(self.pairs@ =~= s0.subrange(0, i as int) + s0.subrange(
                    i + 1,
                    s0.len() as int,
                ));
            }
            let removed = (s0[i as int].0@, s0[i as int].1);
            assert forall|t: Seq<char>, h: Handle|
                old(self).binds(t, h) && (t, h) != removed implies final(self).binds(t, h) by {
                let j = choose|j: int|
                    0 <= j < s0.len() && s0[j].0@ == t && s0[j].1 == h;
                if j < i {
                    assert(self.pairs@[j].0@ == t && self.pairs@[j].1 == h);
                } else {
                    assert(j != i);
                    assert(self.pairs@[j - 1].0@ == t && self.pairs@[j - 1].1 == h);
                }
            }
            assert forall|t: Seq<char>, h: Handle| final(self).binds(t, h) implies (old(
                self,
            ).binds(t, h) && (t, h) != removed) by {
                let k = choose|k: int|
                    0 <= k < self.pairs@.len() && self.pairs@[k].0@ == t && self.pairs@[k].1
                        == h;
                let j: int = if k < i {
                    k
                } else {
                    k + 1
                };
                assert(s0[j].0@ == t && s0[j].1 == h);
                assert(j != i);
            }
        }
    }

    /// Bind `tag` to `id`, dropping any previous binding of either.
    pub fn insert(&mut self, tag: &str, id: Handle)
        requires
            old(self).wf(),
        ensures
            final(self).wf(),
            final(self).binds(tag@, id),
            forall|t: Seq<char>, h: Handle|
                final(self).binds(t, h) <==> ((t == tag@ && h == id) || (old(self).binds(t, h)
                    && t != tag@ && h != id)),
    {
        let key: String = tag.to_owned();
        match self.find_tag_idx(&key) {
            Some(i) => {
                proof {
                    let pi = self.pairs@[i as int];
                    assert forall|t: Seq<char>, h: Handle|
                        self.binds(t, h) && t == tag@ implies (t, h) == (pi.0@, pi.1) by {
                        let j = choose|j: int|
                            0 <= j < self.pairs@.len() && self.pairs@[j].0@ == t
                                && self.pairs@[j].1 == h;
                        assert(j == i);
                    }
                }
                self.remove_at(i);
            },
            None => {},
        }
        assert(forall|t: Seq<char>, h: Handle|
            self.binds(t, h) <==> (old(self).binds(t, h) && t != tag@));
        match self.find_id_idx(id) {
            Some(i) => {
                proof {
                    let pi = self.pairs@[i as int];
                    assert forall|t: Seq<char>, h: Handle|
                        self.binds(t, h) && h == id implies (t, h) == (pi.0@, pi.1) by {
                        let j = choose|j: int|
                            0 <= j < self.pairs@.len() && self.pairs@[j].0@ == t
                                && self.pairs@[j].1 == h;
                        assert(j == i);
                    }
                }
                self.remove_at(i);
            },
            None => {},
        }
        assert(forall|t: Seq<char>, h: Handle|
            self.binds(t, h) <==> (old(self).binds(t, h) && t != tag@ && h != id));
        proof {
            assert forall|k: int| 0 <= k < self.pairs@.len() implies #[trigger] self.pairs@[k].0@
                != tag@ && self.pairs@[k].1 != id by {
                assert(self.binds(self.pairs@[k].0@, self.pairs@[k].1));
            }
        }
        let ghost mid = *self;
        let ghost s1 = self.pairs@;
        self.pairs.push((key, id));
        proof {
            assert forall|t: Seq<char>, h: Handle|
                mid.binds(t, h) implies final(self).binds(t, h) by {
                let j = choose|j: int| 0 <= j < s1.len() && s1[j].0@ == t && s1[j].1 == h;
                assert(self.pairs@[j].0@ == t && self.pairs@[j].1 == h);
            }
            assert(self.pairs@[s1.len() as int].0@ == tag@ && self.pairs@[s1.len() as int].1
                == id);
            assert forall|t: Seq<char>, h: Handle| final(self).binds(t, h) implies ((t == tag@
                && h == id) || (mid.binds(t, h))) by {
                let j = choose|j: int|
                    0 <= j < self.pairs@.len() && self.pairs@[j].0@ == t && self.pairs@[j].1
                        == h;
                if j < s1.len() {
                    assert(s1[j].0@ == t && s1[j].1 == h);
                }
            }
            assert forall|a: int, b: int|
                0 <= a < b < self.pairs@.len() implies self.pairs@[a].0@ != self.pairs@[b].0@
                    && self.pairs@[a].1 != self.pairs@[b].1 by {
                if b < s1.len() {
                    assert(mid.wf());
                } else {
                    assert(s1[a].0@ != tag@ && s1[a].1 != id);
                }
            }
        }
    }

    /// Drop the binding that uses `tag`, if any.
    pub fn unbind(&mut self, tag: &str)
        requires
            old(self).wf(),
        ensures
            final(self).wf(),
            forall|t: Seq<char>, h: Handle|
                final(self).binds(t, h) <==> (old(self).binds(t, h) && t != tag@),
    {
        let key: String = tag.to_owned();
        match self.find_tag_idx(&key) {
            Some(i) => {
                proof {
                    let pi = self.pairs@[i as int];
                    assert forall|t: Seq<char>, h: Handle|
                        self.binds(t, h) && t == tag@ implies (t, h) == (pi.0@, pi.1) by {
                        let j = choose|j: int|
                            0 <= j < self.pairs@.len() && self.pairs@[j].0@ == t
                                && self.pairs@[j].1 == h;
                        assert(j == i);
                    }
                }
                self.remove_at(i);
            },
            None => {},
        }
    }

    /// Drop the binding that uses handle `id`, if any.
    pub fn remove(&mut self, id: Handle)
        requires
            old(self).wf(),
        ensures
            final(self).wf(),
            forall|t: Seq<char>, h: Handle|
                final(self).binds(t, h) <==> (old(self).binds(t, h) && h != id),
    {
        match self.find_id_idx(id) {
            Some(i) => {
                proof {
                    let pi = self.pairs@[i as int];
                    assert forall|t: Seq<char>, h: Handle|
                        self.binds(t, h) && h == id implies (t, h) == (pi.0@, pi.1) by {
                        let j = choose|j: int|
                            0 <= j < self.pairs@.len() && self.pairs@[j].0@ == t
                                && self.pairs@[j].1 == h;
                        assert(j == i);
                    }
                }
                self.remove_at(i);
            },
            None => {},
        }
    }

    /// A tag binds at most one handle.
    pub proof fn lemma_binds_unique(self, t: Seq<char>, h1: Handle, h2: Handle)
        requires
            self.wf(),
            self.binds(t, h1),
            self.binds(t, h2),
        ensures
            h1 == h2,
    {
        let i = choose|i: int|
            0 <= i < self.pairs@.len() && self.pairs@[i].0@ == t && self.pairs@[i].1 == h1;
        let j = choose|j: int|
            0 <= j < self.pairs@.len() && self.pairs@[j].0@ == t && self.pairs@[j].1 == h2;
        if i != j {
            assert(self.pairs@[i].0@ != self.pairs@[j].0@);
        }
    }

    /// A binding witnesses its tag.
    pub proof fn lemma_binds_has_tag(self, t: Seq<char>, h: Handle)
        requires
            self.binds(t, h),
        ensures
            self.has_tag(t),
    {
        let i = choose|i: int|
            0 <= i < self.pairs@.len() && self.pairs@[i].0@ == t && self.pairs@[i].1 == h;
        assert(self.pairs@[i].0@ == t);
    }

    /// Resolve a tag to its handle.
    pub fn lookup(&self, tag: &str) -> (r: Option<Handle>)
        requires
            self.wf(),
        ensures
            match r {
                Some(h) => self.binds(tag@, h),
                None => !self.has_tag(tag@),
            },
    {
        let key: String = tag.to_owned();
        match self.find_tag_idx(&key) {
            Some(i) => Some(self.pairs[i].1),
            None => None,
        }
    }

    /// Resolve a handle back to its tag.
    pub fn reverse_lookup(&self, id: Handle) -> (r: Option<&str>)
        requires
            self.wf(),
        ensures
            match r {
                Some(s) => self.binds(s@, id),
                None => !self.has_id(id),
            },
    {
        match self.find_id_idx(id) {
            Some(i) => Some(self.pairs[i].0.as_str()),
            None => None,
        }
    }
}

} // verus!
