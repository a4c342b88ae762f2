//! A small registry of named aspects, with a reserved null entry that
//! failed lookups resolve to.

use vstd::prelude::*;

verus! {

#[derive(Clone, Copy, PartialEq, Eq, Structural, Debug)]
pub struct AspectId(pub usize);

pub struct AspectData {
    pub id: AspectId,
    pub tag: String,
    pub name: String,
}

pub struct Aspects {
    entries: Vec<AspectData>,
}

impl Aspects {
    pub closed spec fn spec_entries(self) -> Seq<AspectData> {
        self.entries@
    }

    /// Entries identify themselves by their position; entry zero is the
    /// reserved null aspect.
    pub closed spec fn wf(self) -> bool {
        &&& self.entries@.len() >= 1
        &&& forall|i: int|
            0 <= i < self.entries@.len() ==> (#[trigger] self.entries@[i]).id == AspectId(
                i as usize,
            )
    }

    /// A fresh registry holding only the null aspect.
    pub fn new() -> (r: Aspects)
        ensures
            r.wf(),
            r.spec_entries().len() == 1,
    {
        let mut entries: Vec<AspectData> = Vec::new();
        entries.push(
            AspectData { id: AspectId(0), tag: "null".to_owned(), name: "Null".to_owned() },
        );
        Aspects { entries }
    }

    /// Define a new aspect and hand back its id.
    pub fn define(&mut self, tag: &str, name: &str) -> (r: AspectId)
        requires
            old(self).wf(),
        ensures
            final(self).wf(),
            final(self).spec_entries().len() == old(self).spec_entries().len() + 1,
            r == AspectId(old(self).spec_entries().len() as usize),
            final(self).spec_entries().last().id == r,
            final(self).spec_entries().last().tag@ == tag@,
            final(self).spec_entries().last().name@ == name@,
            forall|i: int|
                0 <= i < old(self).spec_entries().len() ==> final(self).spec_entries()[i] == old(
                    self,
                ).spec_entries()[i],
    {
        let id = AspectId(self.entries.len());
        self.entries.push(AspectData { id, tag: tag.to_owned(), name: name.to_owned() });
        id
    }

    /// Find the aspect bound to `tag`, or the null aspect.
    pub fn lookup(&self, tag: &str) -> (r: &AspectData)
        requires
            self.wf(),
        ensures
            (exists|i: int|
                0 <= i < self.spec_entries().len() && (#[trigger] self.spec_entries()[i]).tag@
                    == tag@) ==> exists|i: int|
                {
                    &&& 0 <= i < self.spec_entries().len()
                    &&& *r == #[trigger] self.spec_entries()[i]
                    &&& self.spec_entries()[i].tag@ == tag@
                    &&& forall|j: int|
                        0 <= j < i ==> (#[trigger] self.spec_entries()[j]).tag@ != tag@
                },
            !(exists|i: int|
                0 <= i < self.spec_entries().len() && (#[trigger] self.spec_entries()[i]).tag@
                    == tag@) ==> *r == self.spec_entries()[0],
    {
        let key: String = tag.to_owned();
        let mut i: usize = 0;
        while i < self.entries.len()
            invariant
                self.wf(),
                i <= self.entries@.len(),
                key@ == tag@,
                forall|j: int| 0 <= j < i ==> (#[trigger] self.entries@[j]).tag@ != tag@,
            decreases self.entries@.len() - i,
        {
            if self.entries[i].tag == key {
                proof {
                    assert(self.spec_entries()[i as int].tag@ == tag@);
                }
                return &self.entries[i];
            }
            i = i + 1;
        }
        &self.entries[0]
    }

    /// The registry's entries in definition order.
    pub fn iter(&self) -> (r: &Vec<AspectData>)
        ensures
            r@ == self.spec_entries(),
    {
        &self.entries
    }
}

} // verus!
