//! The immutable snapshot tree handed to the presentation layer.
//!
//! An `Object` is a map from string field names to tagged values: handle
//! references, flags, text, nested objects, or lists of objects. It is a
//! boundary format produced fresh at each extraction; it holds no reference
//! back to live entities. Keys are unique; a repeated `set` replaces.

use vstd::prelude::*;

use crate::ids::EntityId;
use crate::ids::SiteId;

verus! {

/// A tagged reference that tells the presentation layer which subsystem a
/// hit belongs to, without exposing internal storage.
#[derive(Clone, Copy, PartialEq, Eq, Structural, Debug)]
pub enum ObjectHandle {
    Null,
    Global,
    Site(SiteId),
    Entity(EntityId),
    AvailableAction(usize),
}

#[derive(Clone, Copy, PartialEq, Eq, Structural, Debug)]
pub struct ObjectId(pub ObjectHandle);

impl ObjectId {
    pub fn null() -> (r: ObjectId)
        ensures
            r == ObjectId(ObjectHandle::Null),
    {
        ObjectId(ObjectHandle::Null)
    }

    pub fn global() -> (r: ObjectId)
        ensures
            r == ObjectId(ObjectHandle::Global),
    {
        ObjectId(ObjectHandle::Global)
    }

    pub fn entity(id: EntityId) -> (r: ObjectId)
        ensures
            r == ObjectId(ObjectHandle::Entity(id)),
    {
        ObjectId(ObjectHandle::Entity(id))
    }

    pub fn site(id: SiteId) -> (r: ObjectId)
        ensures
            r == ObjectId(ObjectHandle::Site(id)),
    {
        ObjectId(ObjectHandle::Site(id))
    }

    /// The entity behind this reference, if it is an entity reference.
    pub fn as_entity(self) -> (r: Option<EntityId>)
        ensures
            r == (match self.0 {
                ObjectHandle::Entity(id) => Some(id),
                _ => None::<EntityId>,
            }),
    {
        match self.0 {
            ObjectHandle::Entity(id) => Some(id),
            _ => None,
        }
    }
}

/// One field value of a snapshot object.
pub enum Value {
    Id(ObjectId),
    Flag(bool),
    Text(String),
    Child(Object),
    List(Vec<Object>),
}

pub struct Object {
    entries: Vec<(String, Value)>,
}

impl Object {
    /// Field names are unique.
    pub closed spec fn wf(self) -> bool {
        forall|i: int, j: int|
            0 <= i < j < self.entries@.len() ==> self.entries@[i].0@ != self.entries@[j].0@
    }

    /// True when field `k` holds value `v`.
    pub closed spec fn maps(self, k: Seq<char>, v: Value) -> bool {
        exists|i: int|
            0 <= i < self.entries@.len() && self.entries@[i].0@ == k && self.entries@[i].1 == v
    }

    /// True when some field is named `k`.
    pub closed spec fn has_key(self, k: Seq<char>) -> bool {
        exists|i: int| 0 <= i < self.entries@.len() && self.entries@[i].0@ == k
    }

    pub fn new() -> (r: Object)
        ensures
            r.wf(),
            forall|k: Seq<char>, v: Value| !r.maps(k, v),
            forall|k: Seq<char>| !r.has_key(k),
    {
        Object { entries: Vec::new() }
    }

    fn find_key_idx(&self, key: &String) -> (r: Option<usize>)
        ensures
            match r {
                Some(i) => i < self.entries@.len() && self.entries@[i as int].0@ == key@,
                None => !self.has_key(key@),
            },
    {
        let mut i: usize = 0;
        while i < self.entries.len()
            invariant
                i <= self.entries@.len(),
                forall|j: int| 0 <= j < i ==> self.entries@[j].0@ != key@,
            decreases self.entries@.len() - i,
        {
            if self.entries[i].0 == *key {
                return Some(i);
            }
            i = i + 1;
        }
        None
    }

    /// Write field `tag`, replacing any previous value under that name.
    pub fn set(&mut self, tag: &str, value: Value)
        requires
            old(self).wf(),
        ensures
            final(self).wf(),
            final(self).maps(tag@, value),
            forall|k: Seq<char>, v: Value|
                old(self).maps(k, v) && k != tag@ ==> final(self).maps(k, v),
            forall|k: Seq<char>, v: Value|
                #[trigger] final(self).maps(k, v) ==> ((k == tag@ && v == value) || (old(
                    self,
                ).maps(k, v) && k != tag@)),
    {
        let key: String = tag.to_owned();
        match self.find_key_idx(&key) {
            Some(i) => {
                let ghost s0 = self.entries@;
                self.entries.remove(i);
                proof {
                    assert forall|k: int| 0 <= k < self.entries@.len() implies #[trigger] self
                        .entries@[k] == (if k < i {
                        s0[k]
                    } else {
                        s0[k + 1]
                    }) by {
                        assert(self.entries@ =~= s0.subrange(0, i as int) + s0.subrange(
                            i + 1,
                            s0.len() as int,
                        ));
                    }
                    assert forall|k: Seq<char>, v: Value|
                        old(self).maps(k, v) && k != tag@ implies self.maps(k, v) by {
                        let j = choose|j: int|
                            0 <= j < s0.len() && s0[j].0@ == k && s0[j].1 == v;
                        assert(j != i);
                        if j < i {
                            assert(self.entries@[j].0@ == k && self.entries@[j].1 == v);
                        } else {
                            assert(self.entries@[j - 1].0@ == k && self.entries@[j - 1].1 == v);
                        }
                    }
                    assert forall|k: Seq<char>, v: Value| self.maps(k, v) implies (old(
                        self,
                    ).maps(k, v) && k != tag@) by {
                        let m = choose|m: int|
                            0 <= m < self.entries@.len() && self.entries@[m].0@ == k
                                && self.entries@[m].1 == v;
                        let j: int = if m < i {
                            m
                        } else {
                            m + 1
                        };
                        assert(s0[j].0@ == k && s0[j].1 == v);
                        assert(j != i);
                    }
                }
            },
            None => {},
        }
        assert(forall|k: Seq<char>, v: Value|
            self.maps(k, v) <==> (old(self).maps(k, v) && k != tag@));
        proof {
            assert forall|m: int| 0 <= m < self.entries@.len() implies #[trigger] self.entries@[
                m].0@ != tag@ by {
                assert(self.maps(self.entries@[m].0@, self.entries@[m].1));
            }
        }
        let ghost mid = *self;
        let ghost s1 = self.entries@;
        self.entries.push((key, value));
        proof {
            assert forall|k: Seq<char>, v: Value| mid.maps(k, v) implies final(self).maps(
                k,
                v,
            ) by {
                let j = choose|j: int| 0 <= j < s1.len() && s1[j].0@ == k && s1[j].1 == v;
                assert(self.entries@[j].0@ == k && self.entries@[j].1 == v);
            }
            assert(self.entries@[s1.len() as int].0@ == tag@);
            assert forall|k: Seq<char>, v: Value| final(self).maps(k, v) implies ((k == tag@ && v
                == value) || mid.maps(k, v)) by {
                let j = choose|j: int|
                    0 <= j < self.entries@.len() && self.entries@[j].0@ == k && self.entries@[
                        j].1 == v;
                if j < s1.len() {
                    assert(s1[j].0@ == k && s1[j].1 == v);
                }
            }
            assert forall|a: int, b: int|
                0 <= a < b < self.entries@.len() implies self.entries@[a].0@ != self.entries@[
                b].0@ by {
                if b < s1.len() {
                    assert(mid.wf());
                } else {
                    assert(s1[a].0@ != tag@);
                }
            }
        }
    }

    /// The handle stored under `tag`, or the null reference.
    pub fn id(&self, tag: &str) -> (r: ObjectId)
        requires
            self.wf(),
        ensures
            (exists|x: ObjectId| self.maps(tag@, Value::Id(x))) ==> self.maps(
                tag@,
                Value::Id(r),
            ),
            !(exists|x: ObjectId| self.maps(tag@, Value::Id(x))) ==> r == ObjectId(
                ObjectHandle::Null,
            ),
    {
        let key: String = tag.to_owned();
        match self.find_key_idx(&key) {
            Some(i) => {
                match &self.entries[i].1 {
                    Value::Id(x) => {
                        proof {
                            self.lemma_unique_value(tag@);
                            assert(self.entries@[i as int].0@ == tag@ && self.entries@[
                            i as int].1 == Value::Id(*x));
                            assert(self.maps(tag@, Value::Id(*x)));
                        }
                        *x
                    },
                    _ => {
                        proof {
                            self.lemma_unique_value(tag@);
                        }
                        ObjectId(ObjectHandle::Null)
                    },
                }
            },
            None => ObjectId(ObjectHandle::Null),
        }
    }

    /// The text stored under `tag`, if that field holds text.
    pub fn try_text(&self, tag: &str) -> (r: Option<&str>)
        requires
            self.wf(),
        ensures
            match r {
                Some(t) => exists|s: String| self.maps(tag@, Value::Text(s)) && t@ == s@,
                None => forall|s: String| !self.maps(tag@, Value::Text(s)),
            },
    {
        let key: String = tag.to_owned();
        match self.find_key_idx(&key) {
            Some(i) => {
                proof {
                    self.lemma_unique_value(tag@);
                }
                match &self.entries[i].1 {
                    Value::Text(s) => Some(s.as_str()),
                    _ => None,
                }
            },
            None => None,
        }
    }

    /// The text stored under `tag`, or a placeholder.
    pub fn txt(&self, tag: &str) -> (r: &str)
        requires
            self.wf(),
        ensures
            (exists|s: String| self.maps(tag@, Value::Text(s))) ==> exists|s: String|
                self.maps(tag@, Value::Text(s)) && r@ == s@,
            !(exists|s: String| self.maps(tag@, Value::Text(s))) ==> r@ == "INVALID"@,
    {
        match self.try_text(tag) {
            Some(t) => t,
            None => "INVALID",
        }
    }

    /// The flag stored under `tag`, or false.
    pub fn flag(&self, tag: &str) -> (r: bool)
        requires
            self.wf(),
        ensures
            self.maps(tag@, Value::Flag(true)) ==> r,
            !self.maps(tag@, Value::Flag(true)) ==> !r,
    {
        let key: String = tag.to_owned();
        match self.find_key_idx(&key) {
            Some(i) => {
                proof {
                    self.lemma_unique_value(tag@);
                }
                match &self.entries[i].1 {
                    Value::Flag(b) => *b,
                    _ => false,
                }
            },
            None => false,
        }
    }

    /// The nested object stored under `tag`, if that field holds one.
    pub fn try_child(&self, tag: &str) -> (r: Option<&Object>)
        requires
            self.wf(),
        ensures
            match r {
                Some(o) => self.maps(tag@, Value::Child(*o)),
                None => forall|o: Object| !self.maps(tag@, Value::Child(o)),
            },
    {
        let key: String = tag.to_owned();
        match self.find_key_idx(&key) {
            Some(i) => {
                proof {
                    self.lemma_unique_value(tag@);
                }
                match &self.entries[i].1 {
                    Value::Child(o) => Some(o),
                    _ => None,
                }
            },
            None => None,
        }
    }

    /// The nested object stored under `tag`, if that field holds one.
    /// (The reference form of the original defaulting accessor: a missing
    /// field reads as an absent object rather than a shared empty one.)
    pub fn child(&self, tag: &str) -> (r: Option<&Object>)
        requires
            self.wf(),
        ensures
            match r {
                Some(o) => self.maps(tag@, Value::Child(*o)),
                None => forall|o: Object| !self.maps(tag@, Value::Child(o)),
            },
    {
        self.try_child(tag)
    }

    /// The list stored under `tag`, if that field holds one.
    pub fn try_list(&self, tag: &str) -> (r: Option<&Vec<Object>>)
        requires
            self.wf(),
        ensures
            match r {
                Some(l) => self.maps(tag@, Value::List(*l)),
                None => forall|l: Vec<Object>| !self.maps(tag@, Value::List(l)),
            },
    {
        let key: String = tag.to_owned();
        match self.find_key_idx(&key) {
            Some(i) => {
                proof {
                    self.lemma_unique_value(tag@);
                }
                match &self.entries[i].1 {
                    Value::List(l) => Some(l),
                    _ => None,
                }
            },
            None => None,
        }
    }

    /// The list stored under `tag`, if that field holds one.
    /// (The reference form of the original defaulting accessor.)
    pub fn list(&self, tag: &str) -> (r: Option<&Vec<Object>>)
        requires
            self.wf(),
        ensures
            match r {
                Some(l) => self.maps(tag@, Value::List(*l)),
                None => forall|l: Vec<Object>| !self.maps(tag@, Value::List(l)),
            },
    {
        self.try_list(tag)
    }

    /// With unique keys, the value found at the key's index is the only
    /// value the key maps to.
    proof fn lemma_unique_value(&self, k: Seq<char>)
        requires
            self.wf(),
        ensures
            forall|i: int, v: Value|
                0 <= i < self.entries@.len() && self.entries@[i].0@ == k && self.maps(k, v)
                    ==> self.entries@[i].1 == v,
    {
        assert forall|i: int, v: Value|
            0 <= i < self.entries@.len() && self.entries@[i].0@ == k && self.maps(
                k,
                v,
            ) implies self.entries@[i].1 == v by {
            let j = choose|j: int|
                0 <= j < self.entries@.len() && self.entries@[j].0@ == k && self.entries@[j].1
                    == v;
            assert(j == i);
        }
    }
}


} // verus!
