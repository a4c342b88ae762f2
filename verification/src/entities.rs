//! The generational entity store and the hierarchy manager over it.
//!
//! Entities live in a growable slot table. Each slot carries a generation
//! counter, so a handle kept after a despawn is detectable in O(1). A
//! despawned slot's generation is bumped and the slot is recycled through a
//! free list; a slot whose counter is exhausted is retired.
//!
//! Each entity carries, for every named hierarchy, a parent pointer and a
//! children list sorted by slot index. The store's invariant keeps the two
//! sides consistent: A's parent is B exactly when A stands in B's children
//! list, an entity that is its own parent marks a root, and no link ever
//! points at a despawned slot.

use vstd::prelude::*;

use crate::ids::null_entity;
use crate::ids::null_site;
use crate::ids::EntityId;
use crate::ids::SiteId;
use crate::tags::Tags;

verus! {

/// The named parent/child relations, each tracked independently.
#[derive(Clone, Copy, PartialEq, Eq, Structural, Debug)]
pub enum HierarchyName {
    /// Links a faction to the location that acts as its capital.
    Capital,
    /// Links a faction to its member entities.
    Faction,
    /// Links a location to the entities located there.
    PlaceOf,
}

/// Every hierarchy name, for code that walks all relations.
pub fn all_hierarchies() -> (r: [HierarchyName; 3])
    ensures
        r@ == seq![HierarchyName::Capital, HierarchyName::Faction, HierarchyName::PlaceOf],
{
    let r = [HierarchyName::Capital, HierarchyName::Faction, HierarchyName::PlaceOf];
    proof {
        assert(r@ =~= seq![
            HierarchyName::Capital,
            HierarchyName::Faction,
            HierarchyName::PlaceOf,
        ]);
    }
    r
}

/// Boolean traits an entity can carry.
#[derive(Clone, Copy, PartialEq, Eq, Structural, Debug)]
pub enum Flag {
    IsFaction,
    IsLocation,
    IsPerson,
    IsPlace,
    IsCard,
}

/// A small fixed set of boolean traits.
#[derive(Clone, Copy, PartialEq, Eq, Structural, Debug)]
pub struct Flags {
    pub is_faction: bool,
    pub is_location: bool,
    pub is_person: bool,
    pub is_place: bool,
    pub is_card: bool,
}

impl Flags {
    pub open spec fn spec_get(self, flag: Flag) -> bool {
        match flag {
            Flag::IsFaction => self.is_faction,
            Flag::IsLocation => self.is_location,
            Flag::IsPerson => self.is_person,
            Flag::IsPlace => self.is_place,
            Flag::IsCard => self.is_card,
        }
    }

    pub open spec fn spec_set(self, flag: Flag, value: bool) -> Flags {
        match flag {
            Flag::IsFaction => Flags { is_faction: value, ..self },
            Flag::IsLocation => Flags { is_location: value, ..self },
            Flag::IsPerson => Flags { is_person: value, ..self },
            Flag::IsPlace => Flags { is_place: value, ..self },
            Flag::IsCard => Flags { is_card: value, ..self },
        }
    }

    pub open spec fn spec_none() -> Flags {
        Flags {
            is_faction: false,
            is_location: false,
            is_person: false,
            is_place: false,
            is_card: false,
        }
    }

    pub fn none() -> (r: Flags)
        ensures
            r == Flags::spec_none(),
    {
        Flags {
            is_faction: false,
            is_location: false,
            is_person: false,
            is_place: false,
            is_card: false,
        }
    }

    pub fn get(&self, flag: Flag) -> (r: bool)
        ensures
            r == self.spec_get(flag),
    {
        match flag {
            Flag::IsFaction => self.is_faction,
            Flag::IsLocation => self.is_location,
            Flag::IsPerson => self.is_person,
            Flag::IsPlace => self.is_place,
            Flag::IsCard => self.is_card,
        }
    }

    pub fn set(&mut self, flag: Flag, value: bool)
        ensures
            *final(self) == old(self).spec_set(flag, value),
    {
        match flag {
            Flag::IsFaction => self.is_faction = value,
            Flag::IsLocation => self.is_location = value,
            Flag::IsPerson => self.is_person = value,
            Flag::IsPlace => self.is_place = value,
            Flag::IsCard => self.is_card = value,
        }
    }

    /// The result of setting every flag of `flags` in order.
    pub open spec fn spec_set_all(self, flags: Seq<Flag>, value: bool) -> Flags
        decreases flags.len(),
    {
        if flags.len() == 0 {
            self
        } else {
            self.spec_set(flags[0], value).spec_set_all(flags.drop_first(), value)
        }
    }

    pub fn set_all(&mut self, flags: &[Flag], value: bool)
        ensures
            *final(self) == old(self).spec_set_all(flags@, value),
    {
        proof {
            assert(flags@.skip(0) =~= flags@);
        }
        let mut i: usize = 0;
        while i < flags.len()
            invariant
                i <= flags@.len(),
                old(self).spec_set_all(flags@, value) == self.spec_set_all(
                    flags@.skip(i as int),
                    value,
                ),
            decreases flags@.len() - i,
        {
            let ghost pre = *self;
            self.set(flags[i], value);
            proof {
                assert(flags@.skip(i as int).drop_first() =~= flags@.skip(i + 1));
                assert(flags@.skip(i as int)[0] == flags@[i as int]);
            }
            i = i + 1;
        }
        proof {
            assert(flags@.skip(i as int).len() == 0);
        }
    }

    /// True when every flag of `flags` is set.
    pub open spec fn spec_check_all(self, flags: Seq<Flag>) -> bool {
        forall|k: int| 0 <= k < flags.len() ==> self.spec_get(#[trigger] flags[k])
    }

    pub fn check_all(&self, flags: &[Flag]) -> (r: bool)
        ensures
            r == self.spec_check_all(flags@),
    {
        let mut i: usize = 0;
        while i < flags.len()
            invariant
                i <= flags@.len(),
                forall|k: int| 0 <= k < i ==> self.spec_get(#[trigger] flags@[k]),
            decreases flags@.len() - i,
        {
            if !self.get(flags[i]) {
                return false;
            }
            i = i + 1;
        }
        true
    }
}

/// Named cross-links from an entity to other entities.
#[derive(Clone, Copy, PartialEq, Eq, Structural, Debug)]
pub enum LinkName {
    Culture,
}

#[derive(Clone, Copy, PartialEq, Eq, Structural, Debug)]
pub struct Links {
    pub culture: EntityId,
}

impl Links {
    pub open spec fn spec_get(self, link: LinkName) -> EntityId {
        match link {
            LinkName::Culture => self.culture,
        }
    }

    pub fn get(&self, link: LinkName) -> (r: EntityId)
        ensures
            r == self.spec_get(link),
    {
        match link {
            LinkName::Culture => self.culture,
        }
    }

    pub fn set(&mut self, link: LinkName, entity: EntityId)
        ensures
            final(self).spec_get(link) == entity,
    {
        match link {
            LinkName::Culture => self.culture = entity,
        }
    }
}

/// Word lists an entity can carry for name generation.
#[derive(Clone, Copy, PartialEq, Eq, Structural, Debug)]
pub enum NameList {
    PersonalNames,
}

pub struct NameLists {
    pub personal_names: Vec<String>,
}

impl NameLists {
    pub fn new() -> (r: NameLists)
        ensures
            r.personal_names@.len() == 0,
    {
        NameLists { personal_names: Vec::new() }
    }

    pub open spec fn spec_get(self, list: NameList) -> Seq<String> {
        match list {
            NameList::PersonalNames => self.personal_names@,
        }
    }

    pub fn get(&self, list: NameList) -> (r: &Vec<String>)
        ensures
            r@ == self.spec_get(list),
    {
        match list {
            NameList::PersonalNames => &self.personal_names,
        }
    }

    pub fn with(self, list: NameList, value: Vec<String>) -> (r: NameLists)
        ensures
            r.spec_get(list) == value@,
    {
        match list {
            NameList::PersonalNames => NameLists { personal_names: value },
        }
    }
}

/// An entity's colour, current value plus the flag that marks it as still
/// to be inherited from its faction parent.
#[derive(Clone, Copy, PartialEq, Eq, Structural, Debug)]
pub struct RGB {
    pub r: u8,
    pub g: u8,
    pub b: u8,
}

impl RGB {
    pub fn black() -> (c: RGB)
        ensures
            c == (RGB { r: 0, g: 0, b: 0 }),
    {
        RGB { r: 0, g: 0, b: 0 }
    }
}

#[derive(Clone, Copy, PartialEq, Eq, Structural, Debug)]
pub struct EntityColor {
    pub current: RGB,
    pub dirty: bool,
}

/// One hierarchy's links as seen from one entity.
pub struct HierarchyLink {
    pub parent: EntityId,
    pub children: Vec<EntityId>,
}

/// An entity's links under every hierarchy.
pub struct HierarchyLinks {
    pub capital: HierarchyLink,
    pub faction: HierarchyLink,
    pub place_of: HierarchyLink,
}

impl HierarchyLinks {
    pub open spec fn spec_link(self, rel: HierarchyName) -> HierarchyLink {
        match rel {
            HierarchyName::Capital => self.capital,
            HierarchyName::Faction => self.faction,
            HierarchyName::PlaceOf => self.place_of,
        }
    }

    pub fn parent(&self, rel: HierarchyName) -> (r: EntityId)
        ensures
            r == self.spec_link(rel).parent,
    {
        match rel {
            HierarchyName::Capital => self.capital.parent,
            HierarchyName::Faction => self.faction.parent,
            HierarchyName::PlaceOf => self.place_of.parent,
        }
    }

    pub fn children(&self, rel: HierarchyName) -> (r: &Vec<EntityId>)
        ensures
            r@ == self.spec_link(rel).children@,
    {
        match rel {
            HierarchyName::Capital => &self.capital.children,
            HierarchyName::Faction => &self.faction.children,
            HierarchyName::PlaceOf => &self.place_of.children,
        }
    }

    /// The only child under `rel`, or null where there is none.
    pub fn singular_child(&self, rel: HierarchyName) -> (r: EntityId)
        requires
            self.spec_link(rel).children@.len() < 2,
        ensures
            r == (if self.spec_link(rel).children@.len() == 1 {
                self.spec_link(rel).children@[0]
            } else {
                null_entity()
            }),
    {
        let list = self.children(rel);
        if list.len() == 1 {
            list[0]
        } else {
            EntityId::null()
        }
    }
}

/// One live world entity: identity, naming, site binding, hierarchy links,
/// appearance, traits, cross-links, and optional word lists.
pub struct EntityData {
    pub id: EntityId,
    pub name: String,
    pub kind_name: String,
    pub bound_site: SiteId,
    pub hierarchies: HierarchyLinks,
    pub sprite: String,
    /// Display size in hundredths of a map unit.
    pub size: u32,
    pub color: EntityColor,
    pub flags: Flags,
    pub links: Links,
    pub name_lists: Option<NameLists>,
}

struct Slot {
    gen: u32,
    live: bool,
    data: EntityData,
}

/// The entity store.
pub struct Entities {
    slots: Vec<Slot>,
    tags: Tags,
    free: Vec<u32>,
    dummy: EntityId,
}

/// A children list sorted strictly by slot index.
pub open spec fn children_sorted(s: Seq<EntityId>) -> bool {
    forall|k1: int, k2: int|
        0 <= k1 < k2 < s.len() ==> (#[trigger] s[k1]).idx < (#[trigger] s[k2]).idx
}

/// Two records that agree on everything but their hierarchy links.
pub open spec fn same_non_hier(d1: EntityData, d2: EntityData) -> bool {
    d1 == (EntityData { hierarchies: d1.hierarchies, ..d2 })
}

/// Insert `c` into a sorted children list at its index position.
#[verifier::spinoff_prover]
#[verifier::rlimit(50)]
fn sorted_insert_vec(list: &mut Vec<EntityId>, c: EntityId)
    requires
        children_sorted(old(list)@),
        forall|k: int| 0 <= k < old(list)@.len() ==> (#[trigger] old(list)@[k]).idx != c.idx,
    ensures
        children_sorted(final(list)@),
        final(list)@.len() == old(list)@.len() + 1,
        forall|x: EntityId|
            final(list)@.contains(x) <==> (old(list)@.contains(x) || x == c),
{
    let mut pos: usize = 0;
    while pos < list.len() && list[pos].idx < c.idx
        invariant
            pos <= list@.len(),
            list@ == old(list)@,
            forall|k: int| 0 <= k < pos ==> (#[trigger] list@[k]).idx < c.idx,
        decreases list@.len() - pos,
    {
        pos = pos + 1;
    }
    proof {
        assert forall|k: int| pos <= k < list@.len() implies (#[trigger] list@[k]).idx
            > c.idx by {
            if k == pos {
            } else {
                assert(list@[pos as int].idx < list@[k].idx);
            }
        }
    }
    let ghost s0 = list@;
    list.insert(pos, c);
    proof {
        assert(children_sorted(list@)) by {
            assert forall|k: int| 0 <= k < list@.len() implies #[trigger] list@[k] == (if k
                < pos {
                s0[k]
            } else if k == pos {
                c
            } else {
                s0[k - 1]
            }) by {
                assert(list@ =~= s0.subrange(0, pos as int).push(c) + s0.subrange(
                    pos as int,
                    s0.len() as int,
                ));
            }
            assert forall|k1: int, k2: int|
                0 <= k1 < k2 < list@.len() implies list@[k1].idx < list@[k2].idx by {
                if k1 == pos {
                    assert(s0[k2 - 1].idx > c.idx);
                } else if k2 == pos {
                    assert(s0[k1].idx < c.idx);
                } else {
                    let j1: int = if k1 < pos {
                        k1
                    } else {
                        k1 - 1
                    };
                    let j2: int = if k2 < pos {
                        k2
                    } else {
                        k2 - 1
                    };
                    assert(s0[j1].idx < s0[j2].idx);
                }
            }
        }
        assert(forall|x: EntityId| list@.contains(x) <==> (s0.contains(x) || x == c)) by {
            assert forall|k: int| 0 <= k < list@.len() implies #[trigger] list@[k] == (if k
                < pos {
                s0[k]
            } else if k == pos {
                c
            } else {
                s0[k - 1]
            }) by {
                assert(list@ =~= s0.subrange(0, pos as int).push(c) + s0.subrange(
                    pos as int,
                    s0.len() as int,
                ));
            }
            assert forall|x: EntityId| s0.contains(x) || x == c implies list@.contains(x) by {
                if x == c {
                    assert(list@[pos as int] == c);
                } else {
                    let k = choose|k: int| 0 <= k < s0.len() && s0[k] == x;
                    if k < pos {
                        assert(list@[k] == x);
                    } else {
                        assert(list@[k + 1] == x);
                    }
                }
            }
            assert forall|x: EntityId| list@.contains(x) implies (s0.contains(x) || x == c) by {
                let k = choose|k: int| 0 <= k < list@.len() && list@[k] == x;
                if k < pos {
                    assert(s0[k] == x);
                } else if k > pos {
                    assert(s0[k - 1] == x);
                }
            }
        }
    }
}

/// Remove `c` from a sorted children list, if present.
fn remove_child_vec(list: &mut Vec<EntityId>, c: EntityId)
    requires
        children_sorted(old(list)@),
    ensures
        children_sorted(final(list)@),
        forall|x: EntityId|
            final(list)@.contains(x) <==> (old(list)@.contains(x) && x != c),
        old(list)@.contains(c) ==> final(list)@.len() < old(list)@.len(),
        !old(list)@.contains(c) ==> final(list)@ == old(list)@,
{
    let mut pos: usize = 0;
    while pos < list.len()
        invariant
            pos <= list@.len(),
            list@ == old(list)@,
            children_sorted(list@),
            forall|k: int| 0 <= k < pos ==> list@[k] != c,
        decreases list@.len() - pos,
    {
        if list[pos] == c {
            let ghost s0 = list@;
            list.remove(pos);
            proof {
                assert forall|k: int| 0 <= k < list@.len() implies #[trigger] list@[k] == (if k
                    < pos {
                    s0[k]
                } else {
                    s0[k + 1]
                }) by {
                    assert(list@ =~= s0.subrange(0, pos as int) + s0.subrange(
                        pos + 1,
                        s0.len() as int,
                    ));
                }
                assert forall|x: EntityId|
                    s0.contains(x) && x != c implies list@.contains(x) by {
                    let k = choose|k: int| 0 <= k < s0.len() && s0[k] == x;
                    assert(k != pos);
                    if k < pos {
                        assert(list@[k] == x);
                    } else {
                        assert(list@[k - 1] == x);
                    }
                }
                assert forall|x: EntityId| list@.contains(x) implies (s0.contains(x) && x
                    != c) by {
                    let k = choose|k: int| 0 <= k < list@.len() && list@[k] == x;
                    let j: int = if k < pos {
                        k
                    } else {
                        k + 1
                    };
                    assert(s0[j] == x);
                    if j != pos {
                        // A sorted list holds distinct indices, so the
                        // removed element occurs nowhere else.
                        if x == c {
                            assert(s0[pos as int] == c);
                            assert(children_sorted(s0));
                            if j < pos {
                                assert(0 <= j < pos < s0.len());
                                assert(s0[j].idx < s0[pos as int].idx);
                            } else {
                                assert(0 <= pos < j < s0.len());
                                assert(s0[pos as int].idx < s0[j].idx);
                            }
                            assert(false);
                        }
                    }
                }
                assert forall|k1: int, k2: int|
                    0 <= k1 < k2 < list@.len() implies list@[k1].idx < list@[k2].idx by {
                    let j1: int = if k1 < pos {
                        k1
                    } else {
                        k1 + 1
                    };
                    let j2: int = if k2 < pos {
                        k2
                    } else {
                        k2 + 1
                    };
                    assert(s0[j1].idx < s0[j2].idx);
                }
                assert(children_sorted(list@));
            }
            return ;
        }
        pos = pos + 1;
    }
}

fn fresh_data(id: EntityId) -> (d: EntityData)
    ensures
        d.id == id,
        d.name@ == Seq::<char>::empty(),
        d.kind_name@ == "UNKNOWN_KIND"@,
        d.bound_site == null_site(),
        forall|rel: HierarchyName|
            (#[trigger] d.hierarchies.spec_link(rel)).parent == null_entity()
                && d.hierarchies.spec_link(rel).children@.len() == 0,
        d.sprite@ == Seq::<char>::empty(),
        d.size == 0,
        d.color == (EntityColor { current: RGB { r: 0, g: 0, b: 0 }, dirty: false }),
        d.flags == Flags::spec_none(),
        d.links.culture == null_entity(),
        d.name_lists is None,
{
    EntityData {
        id,
        name: String::new(),
        kind_name: "UNKNOWN_KIND".to_owned(),
        bound_site: SiteId::null(),
        hierarchies: HierarchyLinks {
            capital: HierarchyLink { parent: EntityId::null(), children: Vec::new() },
            faction: HierarchyLink { parent: EntityId::null(), children: Vec::new() },
            place_of: HierarchyLink { parent: EntityId::null(), children: Vec::new() },
        },
        sprite: String::new(),
        size: 0,
        color: EntityColor { current: RGB { r: 0, g: 0, b: 0 }, dirty: false },
        flags: Flags::none(),
        links: Links { culture: EntityId::null() },
        name_lists: None,
    }
}

impl Entities {
    pub closed spec fn slot_count(self) -> nat {
        self.slots@.len()
    }

    /// A handle is valid when its slot is live under the same generation.
    pub closed spec fn valid(self, id: EntityId) -> bool {
        &&& (id.idx as int) < self.slots@.len()
        &&& self.slots@[id.idx as int].live
        &&& self.slots@[id.idx as int].gen == id.gen
    }

    /// The record stored for a valid handle.
    pub closed spec fn rec(self, id: EntityId) -> EntityData {
        self.slots@[id.idx as int].data
    }

    /// The reserved entity that lookups against null resolve to.
    pub closed spec fn dummy_id(self) -> EntityId {
        self.dummy
    }

    /// The record a read of `id` resolves to: a live handle reads its own
    /// record, while the null handle and any stale handle read the reserved
    /// record.
    pub open spec fn resolve(self, id: EntityId) -> EntityData {
        if self.valid(id) {
            self.rec(id)
        } else {
            self.rec(self.dummy_id())
        }
    }

    pub open spec fn parent_of(self, rel: HierarchyName, id: EntityId) -> EntityId {
        self.rec(id).hierarchies.spec_link(rel).parent
    }

    pub open spec fn children_of(self, rel: HierarchyName, id: EntityId) -> Seq<EntityId> {
        self.rec(id).hierarchies.spec_link(rel).children@
    }

    /// True when the registry binds tag `t` to entity `id`.
    pub closed spec fn tag_binds(self, t: Seq<char>, id: EntityId) -> bool {
        self.tags.binds(t, id.spec_handle())
    }

    pub closed spec fn has_tag(self, t: Seq<char>) -> bool {
        self.tags.has_tag(t)
    }

    spec fn id_at(self, i: int) -> EntityId {
        EntityId { idx: i as u32, gen: self.slots@[i].gen }
    }

    spec fn live(self, i: int) -> bool {
        0 <= i < self.slots@.len() && self.slots@[i].live
    }

    spec fn slots_ok(self) -> bool {
        &&& self.slots@.len() < 0xFFFF_FFFF
        &&& forall|i: int|
            self.live(i) ==> (#[trigger] self.slots@[i]).data.id == self.id_at(i)
        &&& forall|i: int| 0 <= i < self.slots@.len() ==> (#[trigger] self.slots@[i]).gen >= 1
    }

    spec fn parents_ok(self) -> bool {
        forall|i: int, rel: HierarchyName|
            self.live(i) ==> {
                let p = (#[trigger] self.slots@[i].data.hierarchies.spec_link(rel)).parent;
                ||| p == null_entity()
                ||| p == self.id_at(i)
                ||| (self.valid(p) && self.children_of(rel, p).contains(self.id_at(i)))
            }
    }

    spec fn children_ok(self) -> bool {
        &&& forall|i: int, rel: HierarchyName, k: int|
            self.live(i) && 0 <= k < self.slots@[i].data.hierarchies.spec_link(
                rel,
            ).children@.len() ==> {
                let c = #[trigger] self.slots@[i].data.hierarchies.spec_link(rel).children@[k];
                &&& self.valid(c)
                &&& c != self.id_at(i)
                &&& self.parent_of(rel, c) == self.id_at(i)
            }
        &&& forall|i: int, rel: HierarchyName|
            self.live(i) ==> children_sorted(
                (#[trigger] self.slots@[i].data.hierarchies.spec_link(rel)).children@,
            )
    }

    spec fn free_ok(self) -> bool {
        &&& forall|k: int|
            0 <= k < self.free@.len() ==> (#[trigger] self.free@[k]) < self.slots@.len()
                && !self.slots@[self.free@[k] as int].live
        &&& forall|k1: int, k2: int|
            0 <= k1 < k2 < self.free@.len() ==> self.free@[k1] != self.free@[k2]
    }

    spec fn tags_ok(self) -> bool {
        &&& self.tags.wf()
        &&& forall|t: Seq<char>, h: crate::ids::Handle|
            #[trigger] self.tags.binds(t, h) ==> self.valid(EntityId { idx: h.idx, gen: h.gen })
    }

    spec fn dummy_ok(self) -> bool {
        self.valid(self.dummy) && self.dummy == (EntityId { idx: 0, gen: 1 })
    }

    /// The store invariant: slots are self-identifying, parent and children
    /// pointers agree and reference live slots only, children lists are
    /// sorted and duplicate-free, the free list indexes dead slots, and
    /// every tag resolves to a live entity.
    pub closed spec fn wf(self) -> bool {
        &&& self.slots_ok()
        &&& self.parents_ok()
        &&& self.children_ok()
        &&& self.free_ok()
        &&& self.tags_ok()
        &&& self.dummy_ok()
    }

    /// A fresh store holding only the reserved record.
    pub fn new() -> (r: Entities)
        ensures
            r.wf(),
            r.valid(r.dummy_id()),
            forall|e: EntityId| r.valid(e) ==> e == r.dummy_id(),
            forall|t: Seq<char>, e: EntityId| !r.tag_binds(t, e),
            r.slot_count() == 1,
    {
        let dummy = EntityId { idx: 0, gen: 1 };
        let mut data = fresh_data(dummy);
        data.name = "NULL".to_owned();
        let mut slots: Vec<Slot> = Vec::new();
        slots.push(Slot { gen: 1, live: true, data });
        Entities { slots, tags: Tags::new(), free: Vec::new(), dummy }
    }

    /// Create a fresh entity with a default record; a non-empty tag is
    /// bound to it, replacing any earlier holder of that tag.
    pub fn spawn_with_tag(&mut self, tag: &str) -> (r: EntityId)
        requires
            old(self).wf(),
            old(self).slot_count() < 0xFFFF_FFFE,
        ensures
            final(self).wf(),
            final(self).valid(r),
            !old(self).valid(r),
            r != null_entity(),
            r != final(self).dummy_id(),
            final(self).dummy_id() == old(self).dummy_id(),
            final(self).slot_count() <= old(self).slot_count() + 1,
            final(self).rec(r).id == r,
            final(self).rec(r).name@ == Seq::<char>::empty(),
            final(self).rec(r).kind_name@ == "UNKNOWN_KIND"@,
            final(self).rec(r).bound_site == null_site(),
            forall|rel: HierarchyName|
                #![trigger final(self).rec(r).hierarchies.spec_link(rel)]
                final(self).parent_of(rel, r) == null_entity() && final(self).children_of(
                    rel,
                    r,
                ).len() == 0,
            final(self).rec(r).sprite@ == Seq::<char>::empty(),
            final(self).rec(r).size == 0,
            final(self).rec(r).color == (EntityColor {
                current: RGB { r: 0, g: 0, b: 0 },
                dirty: false,
            }),
            final(self).rec(r).flags == Flags::spec_none(),
            final(self).rec(r).links.culture == null_entity(),
            final(self).rec(r).name_lists is None,
            forall|e: EntityId| e != r ==> (final(self).valid(e) <==> old(self).valid(e)),
            forall|e: EntityId|
                old(self).valid(e) ==> final(self).rec(e) == old(self).rec(e),
            tag@.len() > 0 ==> final(self).tag_binds(tag@, r) && forall|t: Seq<char>, e: EntityId|
                final(self).tag_binds(t, e) <==> ((t == tag@ && e == r) || (old(self).tag_binds(
                    t,
                    e,
                ) && t != tag@ && e != r)),
            tag@.len() == 0 ==> forall|t: Seq<char>, e: EntityId|
                final(self).tag_binds(t, e) <==> old(self).tag_binds(t, e),
    {
        let id: EntityId;
        match self.free.pop() {
            Some(idx) => {
                let g: u32 = self.slots[idx as usize].gen;
                id = EntityId { idx, gen: g };
                let data = fresh_data(id);
                self.slots[idx as usize].live = true;
                self.slots[idx as usize].data = data;
            },
            None => {
                let idx: u32 = self.slots.len() as u32;
                id = EntityId { idx, gen: 1 };
                let data = fresh_data(id);
                self.slots.push(Slot { gen: 1, live: true, data });
            },
        }
        proof {
            assert forall|e: EntityId| e != id implies (self.valid(e) <==> old(self).valid(
                e,
            )) by {}
            assert forall|e: EntityId| old(self).valid(e) implies self.rec(e) == old(self).rec(
                e,
            ) by {}
        }
        if !tag.is_empty() {
            let ghost before = *self;
            self.tags.insert(tag, id.to_handle());
            proof {
                assert forall|t: Seq<char>, h: crate::ids::Handle|
                    #[trigger] self.tags.binds(t, h) implies self.valid(
                    EntityId { idx: h.idx, gen: h.gen },
                ) by {
                    if !(t == tag@ && h == id.spec_handle()) {
                        assert(before.tags.binds(t, h));
                        assert(old(self).tags.binds(t, h));
                    }
                }
                assert forall|t: Seq<char>, e: EntityId|
                    final(self).tag_binds(t, e) <==> ((t == tag@ && e == id) || (old(
                        self,
                    ).tag_binds(t, e) && t != tag@ && e != id)) by {
                    assert(e.spec_handle() == id.spec_handle() <==> e == id);
                }
            }
        }
        id
    }

    /// Everything but one record's non-hierarchy fields is unchanged.
    pub open spec fn same_but_record(self, other: Entities, id: EntityId) -> bool {
        &&& other.slot_count() == self.slot_count()
        &&& other.dummy_id() == self.dummy_id()
        &&& forall|e: EntityId| other.valid(e) <==> self.valid(e)
        &&& forall|e: EntityId| self.valid(e) && e != id ==> other.rec(e) == self.rec(e)
        &&& forall|t: Seq<char>, e: EntityId| other.tag_binds(t, e) <==> self.tag_binds(t, e)
    }

    /// Write a record's display name.
    pub fn set_name(&mut self, id: EntityId, name: String)
        requires
            old(self).wf(),
            old(self).valid(id),
        ensures
            final(self).wf(),
            old(self).same_but_record(*final(self), id),
            final(self).rec(id) == (EntityData { name, ..old(self).rec(id) }),
    {
        self.slots[id.idx as usize].data.name = name;
    }

    /// Write a record's kind label.
    pub fn set_kind(&mut self, id: EntityId, kind_name: String)
        requires
            old(self).wf(),
            old(self).valid(id),
        ensures
            final(self).wf(),
            old(self).same_but_record(*final(self), id),
            final(self).rec(id) == (EntityData { kind_name, ..old(self).rec(id) }),
    {
        self.slots[id.idx as usize].data.kind_name = kind_name;
    }

    /// Write a record's sprite reference.
    pub fn set_sprite(&mut self, id: EntityId, sprite: String)
        requires
            old(self).wf(),
            old(self).valid(id),
        ensures
            final(self).wf(),
            old(self).same_but_record(*final(self), id),
            final(self).rec(id) == (EntityData { sprite, ..old(self).rec(id) }),
    {
        self.slots[id.idx as usize].data.sprite = sprite;
    }

    /// Write a record's display size.
    pub fn set_size(&mut self, id: EntityId, size: u32)
        requires
            old(self).wf(),
            old(self).valid(id),
        ensures
            final(self).wf(),
            old(self).same_but_record(*final(self), id),
            final(self).rec(id) == (EntityData { size, ..old(self).rec(id) }),
    {
        self.slots[id.idx as usize].data.size = size;
    }

    /// Write a record's colour and dirty flag.
    pub fn set_color(&mut self, id: EntityId, color: EntityColor)
        requires
            old(self).wf(),
            old(self).valid(id),
        ensures
            final(self).wf(),
            old(self).same_but_record(*final(self), id),
            final(self).rec(id) == (EntityData { color, ..old(self).rec(id) }),
    {
        self.slots[id.idx as usize].data.color = color;
    }

    /// Write a record's site binding.
    pub fn set_bound_site(&mut self, id: EntityId, bound_site: SiteId)
        requires
            old(self).wf(),
            old(self).valid(id),
        ensures
            final(self).wf(),
            old(self).same_but_record(*final(self), id),
            final(self).rec(id) == (EntityData { bound_site, ..old(self).rec(id) }),
    {
        self.slots[id.idx as usize].data.bound_site = bound_site;
    }

    /// Write a record's flag set.
    pub fn set_flags(&mut self, id: EntityId, flags: Flags)
        requires
            old(self).wf(),
            old(self).valid(id),
        ensures
            final(self).wf(),
            old(self).same_but_record(*final(self), id),
            final(self).rec(id) == (EntityData { flags, ..old(self).rec(id) }),
    {
        self.slots[id.idx as usize].data.flags = flags;
    }

    /// Write one of a record's cross-links.
    pub fn set_link(&mut self, id: EntityId, link: LinkName, target: EntityId)
        requires
            old(self).wf(),
            old(self).valid(id),
        ensures
            final(self).wf(),
            old(self).same_but_record(*final(self), id),
            final(self).rec(id) == (EntityData {
                links: (match link {
                    LinkName::Culture => Links { culture: target },
                }),
                ..old(self).rec(id)
            }),
    {
        match link {
            LinkName::Culture => {
                self.slots[id.idx as usize].data.links.culture = target;
            },
        }
    }

    /// Attach word lists to a record.
    pub fn set_name_lists(&mut self, id: EntityId, lists: NameLists)
        requires
            old(self).wf(),
            old(self).valid(id),
        ensures
            final(self).wf(),
            old(self).same_but_record(*final(self), id),
            final(self).rec(id).name_lists matches Some(l) && l.spec_get(NameList::PersonalNames)
                == lists.spec_get(NameList::PersonalNames),
            final(self).rec(id) == (EntityData {
                name_lists: final(self).rec(id).name_lists,
                ..old(self).rec(id)
            }),
    {
        self.slots[id.idx as usize].data.name_lists = Some(lists);
    }

    /// Write one entity's parent pointer under one relation, leaving every
    /// other link and field alone.
    fn write_parent(&mut self, rel: HierarchyName, id: EntityId, p: EntityId)
        requires
            (id.idx as int) < old(self).slots@.len(),
        ensures
            final(self).slots@.len() == old(self).slots@.len(),
            final(self).free@ == old(self).free@,
            final(self).tags == old(self).tags,
            final(self).dummy == old(self).dummy,
            forall|j: int|
                0 <= j < old(self).slots@.len() && j != id.idx ==> final(self).slots@[j] == old(
                    self,
                ).slots@[j],
            final(self).slots@[id.idx as int].gen == old(self).slots@[id.idx as int].gen,
            final(self).slots@[id.idx as int].live == old(self).slots@[id.idx as int].live,
            same_non_hier(
                final(self).slots@[id.idx as int].data,
                old(self).slots@[id.idx as int].data,
            ),
            forall|rel2: HierarchyName|
                rel2 != rel ==> final(self).slots@[id.idx as int].data.hierarchies.spec_link(rel2)
                    == old(self).slots@[id.idx as int].data.hierarchies.spec_link(rel2),
            final(self).slots@[id.idx as int].data.hierarchies.spec_link(rel).parent == p,
            final(self).slots@[id.idx as int].data.hierarchies.spec_link(rel).children == old(
                self,
            ).slots@[id.idx as int].data.hierarchies.spec_link(rel).children,
    {
        let i = id.idx as usize;
        match rel {
            HierarchyName::Capital => {
                self.slots[i].data.hierarchies.capital.parent = p;
            },
            HierarchyName::Faction => {
                self.slots[i].data.hierarchies.faction.parent = p;
            },
            HierarchyName::PlaceOf => {
                self.slots[i].data.hierarchies.place_of.parent = p;
            },
        }
    }

    /// Insert `c` into one entity's children list under one relation.
    fn insert_child_entry(&mut self, rel: HierarchyName, id: EntityId, c: EntityId)
        requires
            (id.idx as int) < old(self).slots@.len(),
            children_sorted(
                old(self).slots@[id.idx as int].data.hierarchies.spec_link(rel).children@,
            ),
            forall|k: int|
                0 <= k < old(self).slots@[id.idx as int].data.hierarchies.spec_link(
                    rel,
                ).children@.len() ==> (#[trigger] old(self).slots@[
                id.idx as int].data.hierarchies.spec_link(rel).children@[k]).idx != c.idx,
        ensures
            final(self).slots@.len() == old(self).slots@.len(),
            final(self).free@ == old(self).free@,
            final(self).tags == old(self).tags,
            final(self).dummy == old(self).dummy,
            forall|j: int|
                0 <= j < old(self).slots@.len() && j != id.idx ==> final(self).slots@[j] == old(
                    self,
                ).slots@[j],
            final(self).slots@[id.idx as int].gen == old(self).slots@[id.idx as int].gen,
            final(self).slots@[id.idx as int].live == old(self).slots@[id.idx as int].live,
            same_non_hier(
                final(self).slots@[id.idx as int].data,
                old(self).slots@[id.idx as int].data,
            ),
            forall|rel2: HierarchyName|
                rel2 != rel ==> final(self).slots@[id.idx as int].data.hierarchies.spec_link(rel2)
                    == old(self).slots@[id.idx as int].data.hierarchies.spec_link(rel2),
            final(self).slots@[id.idx as int].data.hierarchies.spec_link(rel).parent == old(
                self,
            ).slots@[id.idx as int].data.hierarchies.spec_link(rel).parent,
            children_sorted(
                final(self).slots@[id.idx as int].data.hierarchies.spec_link(rel).children@,
            ),
            forall|x: EntityId|
                final(self).slots@[id.idx as int].data.hierarchies.spec_link(
                    rel,
                ).children@.contains(x) <==> (old(self).slots@[
                id.idx as int].data.hierarchies.spec_link(rel).children@.contains(x) || x == c),
    {
        let i = id.idx as usize;
        match rel {
            HierarchyName::Capital => {
                sorted_insert_vec(&mut self.slots[i].data.hierarchies.capital.children, c);
            },
            HierarchyName::Faction => {
                sorted_insert_vec(&mut self.slots[i].data.hierarchies.faction.children, c);
            },
            HierarchyName::PlaceOf => {
                sorted_insert_vec(&mut self.slots[i].data.hierarchies.place_of.children, c);
            },
        }
    }

    /// Remove `c` from one entity's children list under one relation.
    fn remove_child_entry(&mut self, rel: HierarchyName, id: EntityId, c: EntityId)
        requires
            (id.idx as int) < old(self).slots@.len(),
            children_sorted(
                old(self).slots@[id.idx as int].data.hierarchies.spec_link(rel).children@,
            ),
        ensures
            final(self).slots@.len() == old(self).slots@.len(),
            final(self).free@ == old(self).free@,
            final(self).tags == old(self).tags,
            final(self).dummy == old(self).dummy,
            forall|j: int|
                0 <= j < old(self).slots@.len() && j != id.idx ==> final(self).slots@[j] == old(
                    self,
                ).slots@[j],
            final(self).slots@[id.idx as int].gen == old(self).slots@[id.idx as int].gen,
            final(self).slots@[id.idx as int].live == old(self).slots@[id.idx as int].live,
            same_non_hier(
                final(self).slots@[id.idx as int].data,
                old(self).slots@[id.idx as int].data,
            ),
            forall|rel2: HierarchyName|
                rel2 != rel ==> final(self).slots@[id.idx as int].data.hierarchies.spec_link(rel2)
                    == old(self).slots@[id.idx as int].data.hierarchies.spec_link(rel2),
            final(self).slots@[id.idx as int].data.hierarchies.spec_link(rel).parent == old(
                self,
            ).slots@[id.idx as int].data.hierarchies.spec_link(rel).parent,
            children_sorted(
                final(self).slots@[id.idx as int].data.hierarchies.spec_link(rel).children@,
            ),
            forall|x: EntityId|
                final(self).slots@[id.idx as int].data.hierarchies.spec_link(
                    rel,
                ).children@.contains(x) <==> (old(self).slots@[
                id.idx as int].data.hierarchies.spec_link(rel).children@.contains(x) && x != c),
            old(self).slots@[id.idx as int].data.hierarchies.spec_link(rel).children@.contains(c)
                ==> final(self).slots@[id.idx as int].data.hierarchies.spec_link(
                rel,
            ).children@.len() < old(self).slots@[id.idx as int].data.hierarchies.spec_link(
                rel,
            ).children@.len(),
            !old(self).slots@[id.idx as int].data.hierarchies.spec_link(rel).children@.contains(c)
                ==> final(self).slots@[id.idx as int].data.hierarchies.spec_link(rel).children@
                == old(self).slots@[id.idx as int].data.hierarchies.spec_link(rel).children@,
    {
        let i = id.idx as usize;
        match rel {
            HierarchyName::Capital => {
                remove_child_vec(&mut self.slots[i].data.hierarchies.capital.children, c);
            },
            HierarchyName::Faction => {
                remove_child_vec(&mut self.slots[i].data.hierarchies.faction.children, c);
            },
            HierarchyName::PlaceOf => {
                remove_child_vec(&mut self.slots[i].data.hierarchies.place_of.children, c);
            },
        }
    }

    /// Detach `child` from its parent under `rel`: its parent pointer is
    /// cleared and it leaves the old parent's children list. A no-op when
    /// `child` is not a live entity or has no parent under `rel`.
    pub fn unparent(&mut self, rel: HierarchyName, child: EntityId)
        requires
            old(self).wf(),
        ensures
            final(self).wf(),
            (!old(self).valid(child) || old(self).parent_of(rel, child) == null_entity())
                ==> *final(self) == *old(self),
            forall|e: EntityId| final(self).valid(e) <==> old(self).valid(e),
            final(self).dummy_id() == old(self).dummy_id(),
            final(self).slot_count() == old(self).slot_count(),
            forall|t: Seq<char>, e: EntityId|
                final(self).tag_binds(t, e) <==> old(self).tag_binds(t, e),
            forall|e: EntityId|
                old(self).valid(e) ==> same_non_hier(final(self).rec(e), old(self).rec(e)),
            forall|e: EntityId, rel2: HierarchyName|
                old(self).valid(e) && rel2 != rel ==> final(self).rec(e).hierarchies.spec_link(
                    rel2,
                ) == old(self).rec(e).hierarchies.spec_link(rel2),
            old(self).valid(child) ==> final(self).parent_of(rel, child) == null_entity(),
            forall|e: EntityId|
                old(self).valid(e) && e != child ==> final(self).parent_of(rel, e) == old(
                    self,
                ).parent_of(rel, e),
            old(self).valid(child) ==> forall|e: EntityId|
                final(self).valid(e) ==> !final(self).children_of(rel, e).contains(child),
            forall|e: EntityId, x: EntityId|
                old(self).valid(e) ==> (final(self).children_of(rel, e).contains(x) <==> (old(
                    self,
                ).children_of(rel, e).contains(x) && !(old(self).valid(child) && x == child))),
            forall|e: EntityId|
                old(self).valid(e) && e != old(self).parent_of(rel, child)
                    ==> final(self).children_of(rel, e) == old(self).children_of(rel, e),
            (old(self).valid(child) && old(self).parent_of(rel, child) != null_entity() && old(
                self,
            ).parent_of(rel, child) != child) ==> final(self).children_of(
                rel,
                old(self).parent_of(rel, child),
            ).len() < old(self).children_of(rel, old(self).parent_of(rel, child)).len(),
    {
        let p0: EntityId;
        match self.get(child) {
            None => {
                return ;
            },
            Some(d) => {
                p0 = d.hierarchies.parent(rel);
            },
        }
        if p0.is_null() {
            return ;
        }
        let ghost s0 = *self;
        self.write_parent(rel, child, EntityId::null());
        let ghost s1 = *self;
        proof {
            assert(s0.valid(p0) || p0 == child);
            assert(s0.valid(p0));
            assert(children_sorted(
                s1.slots@[p0.idx as int].data.hierarchies.spec_link(rel).children@,
            ));
        }
        self.remove_child_entry(rel, p0, child);
        proof {
            let sf = *self;
            // No children list under `rel` holds `child` any more: only the
            // old parent's list did.
            assert forall|e: EntityId, x: EntityId|
                s0.valid(e) implies (sf.children_of(rel, e).contains(x) <==> (s0.children_of(
                rel,
                e,
            ).contains(x) && !(x == child))) by {
                if e.idx == p0.idx {
                    assert(e == p0);
                } else if e.idx == child.idx {
                    if s0.children_of(rel, e).contains(child) {
                        assert(s0.parent_of(rel, child) == e);
                        assert(false);
                    }
                } else {
                    if s0.children_of(rel, e).contains(child) {
                        assert(s0.parent_of(rel, child) == e);
                        assert(e.idx == p0.idx);
                    }
                }
            }
            // The invariant holds again.
            assert forall|i: int, rel2: HierarchyName|
                sf.live(i) implies {
                let p = (#[trigger] sf.slots@[i].data.hierarchies.spec_link(rel2)).parent;
                ||| p == null_entity()
                ||| p == sf.id_at(i)
                ||| (sf.valid(p) && sf.children_of(rel2, p).contains(sf.id_at(i)))
            } by {
                let p = sf.slots@[i].data.hierarchies.spec_link(rel2).parent;
                assert(s0.live(i));
                if rel2 == rel && i == child.idx as int {
                } else {
                    assert(p == s0.slots@[i].data.hierarchies.spec_link(rel2).parent);
                    if p != null_entity() && p != s0.id_at(i) {
                        assert(s0.valid(p) && s0.children_of(rel2, p).contains(s0.id_at(i)));
                        if rel2 == rel {
                            assert(s0.id_at(i) != child);
                        } else {
                            assert(sf.rec(p).hierarchies.spec_link(rel2) == s0.rec(
                                p,
                            ).hierarchies.spec_link(rel2));
                        }
                    }
                }
            }
            assert forall|i: int, rel2: HierarchyName, k: int|
                sf.live(i) && 0 <= k < sf.slots@[i].data.hierarchies.spec_link(
                    rel2,
                ).children@.len() implies {
                let c = #[trigger] sf.slots@[i].data.hierarchies.spec_link(rel2).children@[k];
                &&& sf.valid(c)
                &&& c != sf.id_at(i)
                &&& sf.parent_of(rel2, c) == sf.id_at(i)
            } by {
                let c = sf.slots@[i].data.hierarchies.spec_link(rel2).children@[k];
                assert(sf.slots@[i].data.hierarchies.spec_link(rel2).children@.contains(c));
                if rel2 == rel {
                    assert(sf.children_of(rel2, sf.id_at(i)).contains(c));
                    assert(s0.children_of(rel2, s0.id_at(i)).contains(c) && c != child);
                    let k0 = choose|k0: int|
                        0 <= k0 < s0.children_of(rel2, s0.id_at(i)).len() && s0.children_of(
                            rel2,
                            s0.id_at(i),
                        )[k0] == c;
                    assert(s0.valid(c) && c != s0.id_at(i) && s0.parent_of(rel2, c) == s0.id_at(
                        i,
                    ));
                } else {
                    assert(sf.slots@[i].data.hierarchies.spec_link(rel2) == s0.slots@[
                    i].data.hierarchies.spec_link(rel2));
                    assert(s0.slots@[i].data.hierarchies.spec_link(rel2).children@[k] == c);
                    assert(s0.valid(c) && c != s0.id_at(i) && s0.parent_of(rel2, c) == s0.id_at(
                        i,
                    ));
                    assert(sf.parent_of(rel2, c) == s0.parent_of(rel2, c));
                }
            }
            assert forall|i: int, rel2: HierarchyName|
                sf.live(i) implies children_sorted(
                sf.slots@[i].data.hierarchies.spec_link(rel2).children@,
            ) by {
                if !(rel2 == rel && i == p0.idx as int) {
                    assert(sf.slots@[i].data.hierarchies.spec_link(rel2).children@ == s0.slots@[
                    i].data.hierarchies.spec_link(rel2).children@);
                }
            }
            // Lists other than the old parent's are untouched as sequences.
            assert forall|e: EntityId|
                s0.valid(e) && e != p0 implies sf.children_of(rel, e) == s0.children_of(
                rel,
                e,
            ) by {
                if e.idx == p0.idx {
                    assert(e.gen == s0.slots@[e.idx as int].gen);
                    assert(p0.gen == s0.slots@[p0.idx as int].gen);
                    assert(false);
                }
                assert(sf.slots@[e.idx as int] == s1.slots@[e.idx as int]);
                if e.idx != child.idx {
                    assert(s1.slots@[e.idx as int] == s0.slots@[e.idx as int]);
                }
            }
            // The old parent's list shrank by the removed child.
            if p0 != child {
                assert(s0.children_of(rel, p0).contains(child));
                if p0.idx == child.idx {
                    assert(p0.gen == s0.slots@[p0.idx as int].gen);
                    assert(child.gen == s0.slots@[child.idx as int].gen);
                    assert(false);
                }
                assert(s1.slots@[p0.idx as int] == s0.slots@[p0.idx as int]);
                assert(sf.children_of(rel, p0).len() < s0.children_of(rel, p0).len());
            }
        }
    }

    /// The number of slots the store has ever used.
    pub fn len(&self) -> (r: usize)
        ensures
            r == self.slot_count(),
    {
        self.slots.len()
    }

    /// True when `id` refers to a live entity.
    pub fn is_valid(&self, id: EntityId) -> (r: bool)
        ensures
            r == self.valid(id),
    {
        if (id.idx as usize) < self.slots.len() {
            let slot = &self.slots[id.idx as usize];
            slot.live && slot.gen == id.gen
        } else {
            false
        }
    }

    /// Make `parent` the parent of `child` under `rel`: `child` first leaves
    /// any current parent, then joins the new parent's children list, unless
    /// the new parent is null or `child` itself (the self-root sentinel).
    /// A no-op when `child` is null.
    pub fn set_parent(&mut self, rel: HierarchyName, child: EntityId, parent: EntityId)
        requires
            old(self).wf(),
            child == null_entity() || old(self).valid(child),
            child != null_entity() && parent != null_entity() && parent != child ==> old(
                self,
            ).valid(parent),
        ensures
            final(self).wf(),
            child == null_entity() ==> *final(self) == *old(self),
            forall|e: EntityId| final(self).valid(e) <==> old(self).valid(e),
            final(self).dummy_id() == old(self).dummy_id(),
            final(self).slot_count() == old(self).slot_count(),
            forall|t: Seq<char>, e: EntityId|
                final(self).tag_binds(t, e) <==> old(self).tag_binds(t, e),
            forall|e: EntityId|
                old(self).valid(e) ==> same_non_hier(final(self).rec(e), old(self).rec(e)),
            forall|e: EntityId, rel2: HierarchyName|
                old(self).valid(e) && rel2 != rel ==> final(self).rec(e).hierarchies.spec_link(
                    rel2,
                ) == old(self).rec(e).hierarchies.spec_link(rel2),
            child != null_entity() ==> final(self).parent_of(rel, child) == parent,
            forall|e: EntityId|
                old(self).valid(e) && e != child ==> final(self).parent_of(rel, e) == old(
                    self,
                ).parent_of(rel, e),
            child != null_entity() ==> forall|e: EntityId, x: EntityId|
                old(self).valid(e) ==> (final(self).children_of(rel, e).contains(x) <==> ((old(
                    self,
                ).children_of(rel, e).contains(x) && x != child) || (x == child && e == parent
                    && parent != null_entity() && parent != child))),
            forall|e: EntityId|
                old(self).valid(e) && e != old(self).parent_of(rel, child) && e != parent
                    ==> final(self).children_of(rel, e) == old(self).children_of(rel, e),
    {
        if child.is_null() {
            return ;
        }
        self.unparent(rel, child);
        let ghost s1 = *self;
        self.write_parent(rel, child, parent);
        let ghost s2 = *self;
        proof {
            assert(s2.valid(child));
            assert(s2.id_at(child.idx as int) == child);
            assert forall|e: EntityId, rel2: HierarchyName|
                s1.valid(e) implies (#[trigger] s2.rec(e).hierarchies.spec_link(rel2)).children@
                == s1.rec(e).hierarchies.spec_link(rel2).children@ by {}
            // No children list under `rel` holds the child.
            assert forall|e: EntityId|
                s1.valid(e) implies !s2.children_of(rel, e).contains(child) by {
                assert(!s1.children_of(rel, e).contains(child));
            }
        }
        if child == parent || parent.is_null() {
            proof {
                let sf = *self;
                assert forall|i: int, rel2: HierarchyName|
                    sf.live(i) implies {
                    let p = (#[trigger] sf.slots@[i].data.hierarchies.spec_link(rel2)).parent;
                    ||| p == null_entity()
                    ||| p == sf.id_at(i)
                    ||| (sf.valid(p) && sf.children_of(rel2, p).contains(sf.id_at(i)))
                } by {
                    let p = sf.slots@[i].data.hierarchies.spec_link(rel2).parent;
                    if rel2 == rel && i == child.idx as int {
                        assert(p == parent);
                    } else {
                        assert(p == s1.slots@[i].data.hierarchies.spec_link(rel2).parent);
                        if p != null_entity() && p != s1.id_at(i) {
                            assert(s1.valid(p) && s1.children_of(rel2, p).contains(s1.id_at(i)));
                            assert(sf.children_of(rel2, p) == s1.children_of(rel2, p));
                        }
                    }
                }
                assert forall|i: int, rel2: HierarchyName, k: int|
                    sf.live(i) && 0 <= k < sf.slots@[i].data.hierarchies.spec_link(
                        rel2,
                    ).children@.len() implies {
                    let c = #[trigger] sf.slots@[i].data.hierarchies.spec_link(rel2).children@[k];
                    &&& sf.valid(c)
                    &&& c != sf.id_at(i)
                    &&& sf.parent_of(rel2, c) == sf.id_at(i)
                } by {
                    let c = sf.slots@[i].data.hierarchies.spec_link(rel2).children@[k];
                    assert(sf.slots@[i].data.hierarchies.spec_link(rel2).children@ == s1.slots@[
                    i].data.hierarchies.spec_link(rel2).children@);
                    assert(s1.slots@[i].data.hierarchies.spec_link(rel2).children@[k] == c);
                    assert(s1.valid(c) && c != s1.id_at(i) && s1.parent_of(rel2, c) == s1.id_at(
                        i,
                    ));
                    if c == child && rel2 == rel {
                        assert(s1.slots@[i].data.hierarchies.spec_link(rel2).children@.contains(
                            c,
                        ));
                        assert(!s1.children_of(rel, s1.id_at(i)).contains(child));
                        assert(false);
                    } else {
                        assert(sf.parent_of(rel2, c) == s1.parent_of(rel2, c));
                    }
                }
                assert forall|i: int, rel2: HierarchyName|
                    sf.live(i) implies children_sorted(
                    (#[trigger] sf.slots@[i].data.hierarchies.spec_link(rel2)).children@,
                ) by {
                    assert(sf.slots@[i].data.hierarchies.spec_link(rel2).children@ == s1.slots@[
                    i].data.hierarchies.spec_link(rel2).children@);
                }
                assert forall|e: EntityId|
                    old(self).valid(e) && e != old(self).parent_of(rel, child) implies sf
                    .children_of(rel, e) == old(self).children_of(rel, e) by {
                    assert(s1.children_of(rel, e) == old(self).children_of(rel, e));
                    assert(sf.rec(e).hierarchies.spec_link(rel).children@ == s1.rec(
                        e,
                    ).hierarchies.spec_link(rel).children@);
                }
            }
            return ;
        }
        proof {
            // No current entry in the new parent's list shares the child's
            // slot index.
            assert forall|k: int|
                0 <= k < s2.slots@[parent.idx as int].data.hierarchies.spec_link(
                    rel,
                ).children@.len() implies (#[trigger] s2.slots@[
            parent.idx as int].data.hierarchies.spec_link(rel).children@[k]).idx
                != child.idx by {
                let m = s2.slots@[parent.idx as int].data.hierarchies.spec_link(rel).children@[k];
                assert(s2.slots@[parent.idx as int].data.hierarchies.spec_link(
                    rel,
                ).children@.contains(m));
                assert(s2.children_of(rel, parent).contains(m));
                assert(s1.children_of(rel, parent).contains(m));
                assert(s1.valid(m) && m != child);
                if m.idx == child.idx {
                    assert(m.gen == s1.slots@[m.idx as int].gen);
                    assert(child.gen == s1.slots@[child.idx as int].gen);
                    assert(m == child);
                }
            }
            assert(children_sorted(
                s2.slots@[parent.idx as int].data.hierarchies.spec_link(rel).children@,
            ));
        }
        self.insert_child_entry(rel, parent, child);
        proof {
            let sf = *self;
            assert(sf.valid(child) && sf.valid(parent));
            assert(sf.parent_of(rel, child) == parent);
            assert(sf.children_of(rel, parent).contains(child));
            assert(sf.id_at(parent.idx as int) == parent);
            assert forall|i: int, rel2: HierarchyName|
                sf.live(i) implies {
                let p = (#[trigger] sf.slots@[i].data.hierarchies.spec_link(rel2)).parent;
                ||| p == null_entity()
                ||| p == sf.id_at(i)
                ||| (sf.valid(p) && sf.children_of(rel2, p).contains(sf.id_at(i)))
            } by {
                let p = sf.slots@[i].data.hierarchies.spec_link(rel2).parent;
                if rel2 == rel && i == child.idx as int {
                    assert(p == parent);
                } else {
                    assert(p == s1.slots@[i].data.hierarchies.spec_link(rel2).parent);
                    if p != null_entity() && p != s1.id_at(i) {
                        assert(s1.valid(p) && s1.children_of(rel2, p).contains(s1.id_at(i)));
                        if rel2 == rel && p == parent {
                            assert(s2.children_of(rel, parent).contains(s1.id_at(i)));
                            assert(sf.children_of(rel, parent).contains(s1.id_at(i)));
                        } else {
                            assert(sf.children_of(rel2, p) == s2.children_of(rel2, p));
                            assert(s2.children_of(rel2, p) == s1.children_of(rel2, p));
                        }
                    }
                }
            }
            assert forall|i: int, rel2: HierarchyName, k: int|
                sf.live(i) && 0 <= k < sf.slots@[i].data.hierarchies.spec_link(
                    rel2,
                ).children@.len() implies {
                let c = #[trigger] sf.slots@[i].data.hierarchies.spec_link(rel2).children@[k];
                &&& sf.valid(c)
                &&& c != sf.id_at(i)
                &&& sf.parent_of(rel2, c) == sf.id_at(i)
            } by {
                let c = sf.slots@[i].data.hierarchies.spec_link(rel2).children@[k];
                assert(sf.slots@[i].data.hierarchies.spec_link(rel2).children@.contains(c));
                if rel2 == rel && i == parent.idx as int {
                    assert(sf.children_of(rel, parent).contains(c));
                    if c == child {
                        assert(child != sf.id_at(i));
                    } else {
                        assert(s2.children_of(rel, parent).contains(c));
                        let k0 = choose|k0: int|
                            0 <= k0 < s2.slots@[i].data.hierarchies.spec_link(
                                rel2,
                            ).children@.len() && s2.slots@[i].data.hierarchies.spec_link(
                                rel2,
                            ).children@[k0] == c;
                        assert(s1.slots@[i].data.hierarchies.spec_link(rel2).children@[k0] == c);
                        assert(s1.valid(c) && c != s1.id_at(i) && s1.parent_of(rel2, c)
                            == s1.id_at(i));
                        assert(sf.parent_of(rel2, c) == s2.parent_of(rel2, c));
                        assert(s2.parent_of(rel2, c) == s1.parent_of(rel2, c));
                    }
                } else {
                    assert(sf.slots@[i].data.hierarchies.spec_link(rel2).children@ == s2.slots@[
                    i].data.hierarchies.spec_link(rel2).children@);
                    assert(s1.slots@[i].data.hierarchies.spec_link(rel2).children@[k] == c);
                    assert(s1.valid(c) && c != s1.id_at(i) && s1.parent_of(rel2, c) == s1.id_at(
                        i,
                    ));
                    if c == child && rel2 == rel {
                        assert(s1.children_of(rel, s1.id_at(i)).contains(child));
                        assert(false);
                    } else {
                        assert(sf.parent_of(rel2, c) == s1.parent_of(rel2, c));
                    }
                }
            }
            assert forall|i: int, rel2: HierarchyName|
                sf.live(i) implies children_sorted(
                (#[trigger] sf.slots@[i].data.hierarchies.spec_link(rel2)).children@,
            ) by {
                if !(rel2 == rel && i == parent.idx as int) {
                    assert(sf.slots@[i].data.hierarchies.spec_link(rel2).children@ == s1.slots@[
                    i].data.hierarchies.spec_link(rel2).children@);
                }
            }
            // The relational summary over the original state.
            assert forall|e: EntityId, x: EntityId|
                old(self).valid(e) implies (sf.children_of(rel, e).contains(x) <==> ((old(
                    self,
                ).children_of(rel, e).contains(x) && x != child) || (x == child && e == parent)))
                by {
                if e == parent {
                    assert(sf.children_of(rel, parent).contains(x) <==> (s2.children_of(
                        rel,
                        parent,
                    ).contains(x) || x == child));
                    assert(s2.children_of(rel, parent) == s1.children_of(rel, parent));
                } else {
                    assert(s1.valid(e));
                    if e.idx == parent.idx {
                        assert(e.gen == s1.slots@[e.idx as int].gen);
                        assert(parent.gen == s1.slots@[parent.idx as int].gen);
                        assert(false);
                    }
                    assert(sf.slots@[e.idx as int] == s2.slots@[e.idx as int]);
                    assert(sf.children_of(rel, e) == s2.children_of(rel, e));
                    assert(s2.children_of(rel, e) == s1.children_of(rel, e));
                }
            }
            assert forall|e: EntityId|
                old(self).valid(e) && e != old(self).parent_of(rel, child) && e
                    != parent implies sf.children_of(rel, e) == old(self).children_of(
                rel,
                e,
            ) by {
                assert(s1.children_of(rel, e) == old(self).children_of(rel, e));
                if e.idx == parent.idx {
                    assert(s1.valid(e) && s1.valid(parent));
                    assert(e.gen == s1.slots@[e.idx as int].gen);
                    assert(false);
                }
                assert(sf.slots@[e.idx as int] == s2.slots@[e.idx as int]);
                assert(s2.rec(e).hierarchies.spec_link(rel).children@ == s1.rec(
                    e,
                ).hierarchies.spec_link(rel).children@);
            }
        }
    }

    /// Clear every child of `parent` under `rel`, resetting each former
    /// child's parent pointer to null. A no-op when `parent` is not live.
    pub fn remove_all_children(&mut self, rel: HierarchyName, parent: EntityId)
        requires
            old(self).wf(),
        ensures
            final(self).wf(),
            !old(self).valid(parent) ==> *final(self) == *old(self),
            forall|e: EntityId| final(self).valid(e) <==> old(self).valid(e),
            final(self).dummy_id() == old(self).dummy_id(),
            final(self).slot_count() == old(self).slot_count(),
            forall|t: Seq<char>, e: EntityId|
                final(self).tag_binds(t, e) <==> old(self).tag_binds(t, e),
            forall|e: EntityId|
                old(self).valid(e) ==> same_non_hier(final(self).rec(e), old(self).rec(e)),
            forall|e: EntityId, rel2: HierarchyName|
                old(self).valid(e) && rel2 != rel ==> final(self).rec(e).hierarchies.spec_link(
                    rel2,
                ) == old(self).rec(e).hierarchies.spec_link(rel2),
            old(self).valid(parent) ==> final(self).children_of(rel, parent).len() == 0,
            forall|e: EntityId|
                old(self).valid(e) && e != parent ==> final(self).children_of(rel, e) == old(
                    self,
                ).children_of(rel, e),
            forall|e: EntityId|
                old(self).valid(e) ==> final(self).parent_of(rel, e) == (if old(self).valid(
                    parent,
                ) && old(self).children_of(rel, parent).contains(e) {
                    null_entity()
                } else {
                    old(self).parent_of(rel, e)
                }),
    {
        if !self.is_valid(parent) {
            return ;
        }
        proof {
            // A member of the parent's list is never the parent itself.
            assert forall|x: EntityId|
                old(self).children_of(rel, parent).contains(x) implies x != parent by {
                let k = choose|k: int|
                    0 <= k < old(self).children_of(rel, parent).len() && old(self).children_of(
                        rel,
                        parent,
                    )[k] == x;
                assert(old(self).id_at(parent.idx as int) == parent);
            }
        }
        loop
            invariant
                self.wf(),
                old(self).valid(parent),
                self.valid(parent),
                forall|x: EntityId|
                    old(self).children_of(rel, parent).contains(x) ==> x != parent,
                forall|e: EntityId| self.valid(e) <==> old(self).valid(e),
                self.dummy_id() == old(self).dummy_id(),
                self.slot_count() == old(self).slot_count(),
                forall|t: Seq<char>, e: EntityId|
                    self.tag_binds(t, e) <==> old(self).tag_binds(t, e),
                forall|e: EntityId|
                    old(self).valid(e) ==> same_non_hier(self.rec(e), old(self).rec(e)),
                forall|e: EntityId, rel2: HierarchyName|
                    old(self).valid(e) && rel2 != rel ==> self.rec(e).hierarchies.spec_link(rel2)
                        == old(self).rec(e).hierarchies.spec_link(rel2),
                forall|x: EntityId|
                    self.children_of(rel, parent).contains(x) ==> old(self).children_of(
                        rel,
                        parent,
                    ).contains(x),
                forall|e: EntityId|
                    old(self).valid(e) && e != parent ==> self.children_of(rel, e) == old(
                        self,
                    ).children_of(rel, e),
                forall|e: EntityId|
                    old(self).valid(e) ==> self.parent_of(rel, e) == (if old(self).children_of(
                        rel,
                        parent,
                    ).contains(e) && !self.children_of(rel, parent).contains(e) {
                        null_entity()
                    } else {
                        old(self).parent_of(rel, e)
                    }),
            ensures
                self.children_of(rel, parent).len() == 0,
            decreases self.children_of(rel, parent).len(),
        {
            let c: EntityId;
            {
                let list = self.index(parent).hierarchies.children(rel);
                if list.len() == 0 {
                    break ;
                }
                c = list[list.len() - 1];
                proof {
                    assert(self.children_of(rel, parent).contains(c));
                }
            }
            proof {
                assert(self.parent_of(rel, c) == parent);
                assert(self.valid(c));
            }
            self.unparent(rel, c);
        }
    }

    /// Destroy an entity: all of its hierarchy memberships are severed in
    /// both directions, its tag binding is dropped, and its slot is retired
    /// under a new generation, so the handle is detectable as stale.
    #[verifier::rlimit(100)]
    pub fn despawn(&mut self, id: EntityId)
        requires
            old(self).wf(),
            id != old(self).dummy_id(),
        ensures
            final(self).wf(),
            !final(self).valid(id),
            forall|e: EntityId| final(self).valid(e) <==> (old(self).valid(e) && e != id),
            final(self).dummy_id() == old(self).dummy_id(),
            final(self).slot_count() == old(self).slot_count(),
            forall|e: EntityId|
                final(self).valid(e) ==> same_non_hier(final(self).rec(e), old(self).rec(e)),
            forall|e: EntityId, rel: HierarchyName|
                final(self).valid(e) ==> final(self).parent_of(rel, e) == (if old(self).parent_of(
                    rel,
                    e,
                ) == id {
                    null_entity()
                } else {
                    old(self).parent_of(rel, e)
                }),
            forall|e: EntityId, rel: HierarchyName, x: EntityId|
                final(self).valid(e) ==> (final(self).children_of(rel, e).contains(x) <==> (old(
                    self,
                ).children_of(rel, e).contains(x) && x != id)),
            forall|t: Seq<char>, e: EntityId|
                final(self).tag_binds(t, e) <==> (old(self).tag_binds(t, e) && e != id),
    {
        self.remove_all_children(HierarchyName::Capital, id);
        self.unparent(HierarchyName::Capital, id);
        self.remove_all_children(HierarchyName::Faction, id);
        self.unparent(HierarchyName::Faction, id);
        self.remove_all_children(HierarchyName::PlaceOf, id);
        self.unparent(HierarchyName::PlaceOf, id);
        let ghost s6 = *self;
        proof {
            if s6.valid(id) {
                assert forall|rel: HierarchyName, e: EntityId|
                    s6.valid(e) implies s6.parent_of(rel, e) != id && !s6.children_of(
                    rel,
                    e,
                ).contains(id) by {
                    if s6.parent_of(rel, e) == id {
                        assert(s6.id_at(e.idx as int) == e);
                        if e != id {
                            assert(s6.children_of(rel, id).contains(e));
                            assert(s6.children_of(rel, id).len() == 0);
                        } else {
                            assert(s6.parent_of(rel, id) == null_entity());
                        }
                    }
                }
            }
        }
        if self.is_valid(id) {
            let i = id.idx as usize;
            self.slots[i].live = false;
            if self.slots[i].gen < u32::MAX {
                self.slots[i].gen = self.slots[i].gen + 1;
                self.free.push(id.idx);
            }
            let ghost s7 = *self;
            self.tags.remove(id.to_handle());
            proof {
                let sf = *self;
                assert forall|e: EntityId| sf.valid(e) <==> (s6.valid(e) && e != id) by {
                    if e.idx == id.idx && e != id {
                        assert(!s6.valid(e) || s6.slots@[e.idx as int].gen == e.gen);
                    }
                }
                assert forall|i2: int, rel2: HierarchyName|
                    sf.live(i2) implies {
                    let p = (#[trigger] sf.slots@[i2].data.hierarchies.spec_link(rel2)).parent;
                    ||| p == null_entity()
                    ||| p == sf.id_at(i2)
                    ||| (sf.valid(p) && sf.children_of(rel2, p).contains(sf.id_at(i2)))
                } by {
                    let p = sf.slots@[i2].data.hierarchies.spec_link(rel2).parent;
                    assert(i2 != id.idx as int);
                    assert(sf.slots@[i2] == s6.slots@[i2]);
                    assert(s6.live(i2) && sf.id_at(i2) == s6.id_at(i2));
                    if p != null_entity() && p != s6.id_at(i2) {
                        assert(s6.valid(p) && s6.children_of(rel2, p).contains(s6.id_at(i2)));
                        assert(s6.valid(s6.id_at(i2)));
                        assert(p != id);
                        assert(sf.slots@[p.idx as int] == s6.slots@[p.idx as int]);
                        assert(sf.children_of(rel2, p) == s6.children_of(rel2, p));
                        assert(sf.valid(p));
                    }
                }
                assert forall|i2: int, rel2: HierarchyName, k: int|
                    sf.live(i2) && 0 <= k < sf.slots@[i2].data.hierarchies.spec_link(
                        rel2,
                    ).children@.len() implies {
                    let c = #[trigger] sf.slots@[i2].data.hierarchies.spec_link(
                        rel2,
                    ).children@[k];
                    &&& sf.valid(c)
                    &&& c != sf.id_at(i2)
                    &&& sf.parent_of(rel2, c) == sf.id_at(i2)
                } by {
                    let c = sf.slots@[i2].data.hierarchies.spec_link(rel2).children@[k];
                    assert(i2 != id.idx as int);
                    assert(sf.slots@[i2] == s6.slots@[i2]);
                    assert(s6.slots@[i2].data.hierarchies.spec_link(rel2).children@[k] == c);
                    assert(s6.valid(c) && c != s6.id_at(i2) && s6.parent_of(rel2, c) == s6.id_at(
                        i2,
                    ));
                    assert(s6.valid(s6.id_at(i2)));
                    assert(s6.children_of(rel2, s6.id_at(i2)).contains(c));
                    assert(c != id);
                    assert(sf.slots@[c.idx as int] == s6.slots@[c.idx as int]);
                    assert(sf.valid(c));
                }
                assert forall|i2: int, rel2: HierarchyName|
                    sf.live(i2) implies children_sorted(
                    (#[trigger] sf.slots@[i2].data.hierarchies.spec_link(rel2)).children@,
                ) by {
                    assert(i2 != id.idx as int);
                    assert(sf.slots@[i2] == s6.slots@[i2]);
                }
                assert forall|t: Seq<char>, h: crate::ids::Handle|
                    #[trigger] sf.tags.binds(t, h) implies sf.valid(
                    EntityId { idx: h.idx, gen: h.gen },
                ) by {
                    assert(s7.tags.binds(t, h) && h != id.spec_handle());
                    assert(s6.tags.binds(t, h));
                    assert(s6.valid(EntityId { idx: h.idx, gen: h.gen }));
                    assert(EntityId { idx: h.idx, gen: h.gen } != id);
                }
                assert forall|t: Seq<char>, e: EntityId|
                    sf.tag_binds(t, e) <==> (s6.tag_binds(t, e) && e != id) by {
                    assert(e.spec_handle() == id.spec_handle() <==> e == id);
                }
                assert(sf.dummy_ok()) by {
                    assert(sf.dummy == s6.dummy && s6.valid(s6.dummy) && s6.dummy != id);
                }
            }
        } else {
            proof {
                assert forall|t: Seq<char>, e: EntityId|
                    self.tag_binds(t, e) implies e != id by {
                    assert(self.valid(EntityId { idx: e.idx, gen: e.gen }));
                    assert(self.valid(e));
                }
            }
        }
    }

    pub fn lookup(&self, tag: &str) -> (r: EntityId)
        requires
            self.wf(),
        ensures
            r == null_entity() ==> !self.has_tag(tag@),
            r != null_entity() ==> self.tag_binds(tag@, r) && self.valid(r),
    {
        match self.tags.lookup(tag) {
            Some(h) => {
                let e = EntityId::from_handle(h);
                proof {
                    assert(self.tags.binds(tag@, h));
                    assert(self.valid(e));
                    assert(e.gen >= 1);
                }
                e
            },
            None => EntityId::null(),
        }
    }

    /// The record for `id`: a live handle reads its own record, while the
    /// null handle and any stale handle read the reserved record. Reads
    /// never panic on a bad handle.
    pub fn index(&self, id: EntityId) -> (r: &EntityData)
        requires
            self.wf(),
        ensures
            *r == self.resolve(id),
    {
        if (id.idx as usize) < self.slots.len() {
            let slot = &self.slots[id.idx as usize];
            if slot.live && slot.gen == id.gen {
                return &slot.data;
            }
        }
        &self.slots[self.dummy.idx as usize].data
    }

    /// The record for `id`, if `id` is valid.
    pub fn get(&self, id: EntityId) -> (r: Option<&EntityData>)
        ensures
            match r {
                Some(d) => self.valid(id) && *d == self.rec(id),
                None => !self.valid(id),
            },
    {
        if (id.idx as usize) < self.slots.len() {
            let slot = &self.slots[id.idx as usize];
            if slot.live && slot.gen == id.gen {
                return Some(&slot.data);
            }
        }
        None
    }

    /// One step up the hierarchy: the parent that a read of `e` observes.
    pub open spec fn step_parent(self, rel: HierarchyName, e: EntityId) -> EntityId {
        self.resolve(e).hierarchies.spec_link(rel).parent
    }

    /// The handle that following parent pointers from `e` reaches within
    /// `fuel` steps: a handle whose parent is null or itself, or wherever
    /// the walk stands when the fuel runs out.
    pub open spec fn root_spec(self, rel: HierarchyName, e: EntityId, fuel: nat) -> EntityId
        decreases fuel,
    {
        let p = self.step_parent(rel, e);
        if p == null_entity() || p == e {
            e
        } else if fuel == 0 {
            e
        } else {
            self.root_spec(rel, p, (fuel - 1) as nat)
        }
    }

    /// True when the parent chain from `e` reaches a terminal handle within
    /// `fuel` steps.
    pub open spec fn chain_terminates(self, rel: HierarchyName, e: EntityId, fuel: nat) -> bool
        decreases fuel,
    {
        let p = self.step_parent(rel, e);
        if p == null_entity() || p == e {
            true
        } else if fuel == 0 {
            false
        } else {
            self.chain_terminates(rel, p, (fuel - 1) as nat)
        }
    }

    /// Follow parent pointers under `rel` until reaching an entity that is
    /// its own parent or has none, returning that terminal handle. The walk
    /// is bounded by the slot count, so it terminates even if the data were
    /// ever driven into a parent cycle.
    pub fn root_of(&self, rel: HierarchyName, entity: EntityId) -> (r: EntityId)
        requires
            self.wf(),
            entity == null_entity() || self.valid(entity),
        ensures
            r == self.root_spec(rel, entity, self.slot_count()),
            r == null_entity() || self.valid(r),
    {
        let mut cur = entity;
        let mut fuel: usize = self.slots.len();
        loop
            invariant
                self.wf(),
                cur == null_entity() || self.valid(cur),
                fuel <= self.slot_count(),
                self.root_spec(rel, entity, self.slot_count()) == self.root_spec(
                    rel,
                    cur,
                    fuel as nat,
                ),
            ensures
                cur == self.root_spec(rel, entity, self.slot_count()),
                cur == null_entity() || self.valid(cur),
            decreases fuel,
        {
            let p = self.index(cur).hierarchies.parent(rel);
            if p.is_null() || p == cur {
                break ;
            }
            if fuel == 0 {
                break ;
            }
            proof {
                // The parent pointer of a live record is null, itself, or
                // live; the self case was just excluded.
                let i = (if cur == null_entity() {
                    self.dummy_id()
                } else {
                    cur
                }).idx as int;
                assert(self.live(i) && self.id_at(i) == (if cur == null_entity() {
                    self.dummy_id()
                } else {
                    cur
                }));
                assert(self.valid(p));
            }
            cur = p;
            fuel = fuel - 1;
        }
        cur
    }

    /// The ordered chain from `e` up to its root, inclusive, as far as the
    /// fuel allows.
    pub open spec fn ancestry_spec(self, rel: HierarchyName, e: EntityId, fuel: nat) -> Seq<
        EntityId,
    >
        decreases fuel,
    {
        if e == null_entity() {
            Seq::empty()
        } else {
            let p = self.step_parent(rel, e);
            seq![e] + (if p == null_entity() || p == e || fuel == 0 {
                Seq::empty()
            } else {
                self.ancestry_spec(rel, p, (fuel - 1) as nat)
            })
        }
    }

    /// The ordered sequence from `entity` up to its root, both inclusive;
    /// empty for the null handle. Bounded like `root_of`.
    pub fn ancestry(&self, rel: HierarchyName, entity: EntityId) -> (r: Vec<EntityId>)
        requires
            self.wf(),
            entity == null_entity() || self.valid(entity),
        ensures
            r@ == self.ancestry_spec(rel, entity, self.slot_count()),
            forall|k: int| 0 <= k < r@.len() ==> self.valid(#[trigger] r@[k]),
    {
        let mut out: Vec<EntityId> = Vec::new();
        let mut cur = entity;
        let mut fuel: usize = self.slots.len();
        loop
            invariant_except_break
                self.wf(),
                cur == null_entity() || self.valid(cur),
                fuel <= self.slot_count(),
                self.ancestry_spec(rel, entity, self.slot_count()) == out@ + self.ancestry_spec(
                    rel,
                    cur,
                    fuel as nat,
                ),
                forall|k: int| 0 <= k < out@.len() ==> self.valid(#[trigger] out@[k]),
            ensures
                out@ == self.ancestry_spec(rel, entity, self.slot_count()),
                forall|k: int| 0 <= k < out@.len() ==> self.valid(#[trigger] out@[k]),
            decreases fuel,
        {
            if cur.is_null() {
                proof {
                    assert(self.ancestry_spec(rel, cur, fuel as nat) =~= Seq::<
                        EntityId,
                    >::empty());
                    assert(out@ + self.ancestry_spec(rel, cur, fuel as nat) =~= out@);
                }
                break ;
            }
            let ghost out0 = out@;
            out.push(cur);
            let p = self.index(cur).hierarchies.parent(rel);
            proof {
                assert(self.resolve(cur) == self.rec(cur));
                assert(out@ =~= out0 + seq![cur]);
            }
            if p.is_null() || p == cur || fuel == 0 {
                proof {
                    assert(self.ancestry_spec(rel, cur, fuel as nat) =~= seq![cur]);
                    assert(out0 + self.ancestry_spec(rel, cur, fuel as nat) =~= out@);
                }
                break ;
            }
            proof {
                let i = cur.idx as int;
                assert(self.live(i) && self.id_at(i) == cur);
                assert(self.valid(p));
                assert(self.ancestry_spec(rel, cur, fuel as nat) =~= seq![cur]
                    + self.ancestry_spec(rel, p, (fuel - 1) as nat));
                assert(out0 + self.ancestry_spec(rel, cur, fuel as nat) =~= out@
                    + self.ancestry_spec(rel, p, (fuel - 1) as nat));
            }
            cur = p;
            fuel = fuel - 1;
        }
        out
    }

    /// The children of `parent` under `rel`, as a read of `parent` sees
    /// them.
    pub fn children(&self, rel: HierarchyName, parent: EntityId) -> (r: &Vec<EntityId>)
        requires
            self.wf(),
            parent == null_entity() || self.valid(parent),
        ensures
            r@ == self.resolve(parent).hierarchies.spec_link(rel).children@,
    {
        self.index(parent).hierarchies.children(rel)
    }

    /// The children of `parent` under `rel` that carry all of `flags`.
    pub fn children_with_flags(&self, parent: EntityId, rel: HierarchyName, flags: &[Flag]) -> (r:
        Vec<EntityId>)
        requires
            self.wf(),
            parent == null_entity() || self.valid(parent),
        ensures
            forall|k: int|
                0 <= k < r@.len() ==> self.resolve(parent).hierarchies.spec_link(
                    rel,
                ).children@.contains(#[trigger] r@[k]) && self.valid(r@[k]) && self.rec(
                    r@[k],
                ).flags.spec_check_all(flags@),
            forall|x: EntityId|
                self.resolve(parent).hierarchies.spec_link(rel).children@.contains(x)
                    && self.valid(x) && self.rec(x).flags.spec_check_all(flags@) ==> r@.contains(
                    x,
                ),
    {
        let ghost owner = if parent == null_entity() {
            self.dummy_id()
        } else {
            parent
        };
        proof {
            assert(self.valid(owner) && self.id_at(owner.idx as int) == owner);
        }
        let list = self.index(parent).hierarchies.children(rel);
        let mut out: Vec<EntityId> = Vec::new();
        let mut j: usize = 0;
        while j < list.len()
            invariant
                self.wf(),
                parent == null_entity() || self.valid(parent),
                self.valid(owner),
                self.id_at(owner.idx as int) == owner,
                list@ == self.resolve(parent).hierarchies.spec_link(rel).children@,
                list@ == self.children_of(rel, owner),
                j <= list@.len(),
                forall|k: int|
                    0 <= k < out@.len() ==> list@.contains(#[trigger] out@[k]) && self.valid(
                        out@[k],
                    ) && self.rec(out@[k]).flags.spec_check_all(flags@),
                forall|m: int|
                    0 <= m < j && self.valid(#[trigger] list@[m]) && self.rec(
                        list@[m],
                    ).flags.spec_check_all(flags@) ==> out@.contains(list@[m]),
            decreases list@.len() - j,
        {
            let c = list[j];
            proof {
                assert(self.children_of(rel, owner)[j as int] == c);
                assert(self.valid(c));
            }
            let ghost out0 = out@;
            let keep = {
                let d = self.get(c).unwrap();
                d.flags.check_all(flags)
            };
            if keep {
                out.push(c);
                proof {
                    assert(out@[out@.len() - 1] == c);
                    assert(list@.contains(c));
                }
            }
            proof {
                assert forall|m: int|
                    0 <= m < j + 1 && self.valid(#[trigger] list@[m]) && self.rec(
                        list@[m],
                    ).flags.spec_check_all(flags@) implies out@.contains(list@[m]) by {
                    if m < j {
                        let k = choose|k: int| 0 <= k < out0.len() && out0[k] == list@[m];
                        assert(out@[k] == list@[m]);
                    } else {
                        assert(out@[out@.len() - 1] == c);
                    }
                }
            }
            j = j + 1;
        }
        out
    }

    /// Give `child` the same parent under `rel` that `sibling` has.
    pub fn make_sibling(&mut self, rel: HierarchyName, child: EntityId, sibling: EntityId)
        requires
            old(self).wf(),
            old(self).valid(sibling),
            child == null_entity() || old(self).valid(child),
        ensures
            final(self).wf(),
            child != null_entity() ==> final(self).parent_of(rel, child) == old(self).parent_of(
                rel,
                sibling,
            ),
            forall|e: EntityId| final(self).valid(e) <==> old(self).valid(e),
    {
        let parent = {
            let d = self.get(sibling).unwrap();
            d.hierarchies.parent(rel)
        };
        proof {
            if parent != null_entity() && parent != sibling {
                assert(self.id_at(sibling.idx as int) == sibling);
                assert(self.valid(parent));
            }
            if parent == sibling {
                assert(self.valid(parent));
            }
        }
        self.set_parent(rel, child, parent);
    }

    /// Mark `entity` as a root of `rel` by making it its own parent.
    pub fn set_root(&mut self, rel: HierarchyName, entity: EntityId)
        requires
            old(self).wf(),
            entity == null_entity() || old(self).valid(entity),
        ensures
            final(self).wf(),
            entity != null_entity() ==> final(self).parent_of(rel, entity) == entity,
            forall|e: EntityId| final(self).valid(e) <==> old(self).valid(e),
    {
        self.set_parent(rel, entity, entity);
    }

    /// Create a fresh untagged entity.
    pub fn spawn(&mut self) -> (r: EntityId)
        requires
            old(self).wf(),
            old(self).slot_count() < 0xFFFF_FFFE,
        ensures
            final(self).wf(),
            final(self).valid(r),
            !old(self).valid(r),
            r != null_entity(),
            final(self).slot_count() <= old(self).slot_count() + 1,
            final(self).dummy_id() == old(self).dummy_id(),
            forall|e: EntityId| e != r ==> (final(self).valid(e) <==> old(self).valid(e)),
            forall|e: EntityId| old(self).valid(e) ==> final(self).rec(e) == old(self).rec(e),
            forall|t: Seq<char>, e: EntityId|
                final(self).tag_binds(t, e) <==> old(self).tag_binds(t, e),
    {
        proof {
            reveal_strlit("");
        }
        self.spawn_with_tag("")
    }

    /// The ids of all live entities, in slot order.
    pub fn ids(&self) -> (r: Vec<EntityId>)
        requires
            self.wf(),
        ensures
            forall|k: int| 0 <= k < r@.len() ==> self.valid(#[trigger] r@[k]),
            forall|e: EntityId| self.valid(e) ==> r@.contains(e),
            forall|k1: int, k2: int| 0 <= k1 < k2 < r@.len() ==> r@[k1] != r@[k2],
    {
        let mut out: Vec<EntityId> = Vec::new();
        let mut i: usize = 0;
        while i < self.slots.len()
            invariant
                self.wf(),
                i <= self.slots@.len(),
                forall|k: int|
                    0 <= k < out@.len() ==> self.valid(#[trigger] out@[k]) && (out@[k].idx as int)
                        < i,
                forall|e: EntityId| self.valid(e) && (e.idx as int) < i ==> out@.contains(e),
                forall|k1: int, k2: int| 0 <= k1 < k2 < out@.len() ==> out@[k1].idx < out@[k2].idx,
            decreases self.slots@.len() - i,
        {
            let ghost out0 = out@;
            let slot = &self.slots[i];
            if slot.live {
                let e = EntityId { idx: i as u32, gen: slot.gen };
                out.push(e);
                proof {
                    assert(out@[out@.len() - 1] == e);
                }
            }
            proof {
                assert forall|e: EntityId|
                    self.valid(e) && (e.idx as int) < i + 1 implies out@.contains(e) by {
                    if (e.idx as int) < i {
                        let k = choose|k: int| 0 <= k < out0.len() && out0[k] == e;
                        assert(out@[k] == e);
                    } else {
                        assert(e == EntityId { idx: i as u32, gen: self.slots@[i as int].gen });
                        assert(out@[out@.len() - 1] == e);
                    }
                }
            }
            i = i + 1;
        }
        out
    }
}

impl Entities {
/// Inherit colour one level: every entity whose colour is dirty takes its
/// Faction parent's current colour and that parent's dirty flag, all reads
/// against the state at the start of the pass.
pub fn refresh_colours(&mut self)
    requires
        old(self).wf(),
    ensures
        final(self).wf(),
        forall|e: EntityId| final(self).valid(e) <==> old(self).valid(e),
        final(self).dummy_id() == old(self).dummy_id(),
        final(self).slot_count() == old(self).slot_count(),
        forall|t: Seq<char>, e: EntityId|
            final(self).tag_binds(t, e) <==> old(self).tag_binds(t, e),
        forall|e: EntityId|
            old(self).valid(e) ==> final(self).rec(e) == (if old(self).rec(
                e,
            ).color.dirty {
                EntityData {
                    color: EntityColor {
                        current: old(self).resolve(
                            old(self).parent_of(HierarchyName::Faction, e),
                        ).color.current,
                        dirty: old(self).resolve(
                            old(self).parent_of(HierarchyName::Faction, e),
                        ).color.dirty,
                    },
                    ..old(self).rec(e)
                }
            } else {
                old(self).rec(e)
            }),
{
    let ids = self.ids();
    let mut updates: Vec<(EntityId, EntityColor)> = Vec::new();
    let mut i: usize = 0;
    while i < ids.len()
        invariant
            self.wf(),
            i <= ids@.len(),
            forall|k: int| 0 <= k < ids@.len() ==> self.valid(#[trigger] ids@[k]),
            forall|e: EntityId| self.valid(e) ==> ids@.contains(e),
            forall|k1: int, k2: int| 0 <= k1 < k2 < ids@.len() ==> ids@[k1] != ids@[k2],
            forall|k: int|
                0 <= k < updates@.len() ==> {
                    let (e, c) = #[trigger] updates@[k];
                    &&& self.valid(e)
                    &&& self.rec(e).color.dirty
                    &&& c == (EntityColor {
                        current: self.resolve(
                            self.parent_of(HierarchyName::Faction, e),
                        ).color.current,
                        dirty: self.resolve(
                            self.parent_of(HierarchyName::Faction, e),
                        ).color.dirty,
                    })
                },
            forall|j: int|
                0 <= j < i && self.rec(#[trigger] ids@[j]).color.dirty ==> exists|k: int|
                    0 <= k < updates@.len() && (#[trigger] updates@[k]).0 == ids@[j],
            forall|k1: int, k2: int|
                0 <= k1 < k2 < updates@.len() ==> (#[trigger] updates@[k1]).0 != (
                #[trigger] updates@[k2]).0,
            forall|k: int|
                0 <= k < updates@.len() ==> ids@.contains((#[trigger] updates@[k]).0),
            forall|k: int, j: int|
                0 <= k < updates@.len() && 0 <= j < ids@.len() && (#[trigger] updates@[k]).0 == (
                #[trigger] ids@[j]) ==> j < i,
        decreases ids@.len() - i,
    {
        let e = ids[i];
        let ghost updates0 = updates@;
        let dirty = {
            let d = self.get(e).unwrap();
            d.color.dirty
        };
        if dirty {
            let p = {
                let d = self.get(e).unwrap();
                d.hierarchies.parent(HierarchyName::Faction)
            };
            proof {
                lemma_no_dangling_links(*self, HierarchyName::Faction, e);
            }
            let src = self.index(p);
            updates.push((e, EntityColor { current: src.color.current, dirty: src.color.dirty }));
            proof {
                assert(updates@[updates@.len() - 1].0 == e);
                assert forall|k1: int, k2: int|
                    0 <= k1 < k2 < updates@.len() implies (#[trigger] updates@[k1]).0 != (
                #[trigger] updates@[k2]).0 by {
                    if k2 == updates@.len() - 1 {
                        let j = choose|j: int|
                            0 <= j < ids@.len() && updates0[k1].0 == ids@[j];
                        assert(j < i);
                        let ji = choose|ji: int| 0 <= ji < ids@.len() && ids@[ji] == e;
                        assert(ids@[i as int] == e);
                        if updates@[k1].0 == e {
                            assert(ids@[j] == ids@[i as int]);
                            assert(j != i as int);
                            assert(false);
                        }
                    }
                }
            }
        }
        proof {
            assert forall|j: int|
                0 <= j < i + 1 && self.rec(#[trigger] ids@[j]).color.dirty implies exists|
                k: int,
            |
                0 <= k < updates@.len() && (#[trigger] updates@[k]).0 == ids@[j] by {
                if j < i {
                    let k = choose|k: int|
                        0 <= k < updates0.len() && (#[trigger] updates0[k]).0 == ids@[j];
                    assert(updates@[k].0 == ids@[j]);
                } else {
                    assert(updates@[updates@.len() - 1].0 == ids@[j]);
                }
            }
        }
        i = i + 1;
    }
    let ghost s0 = *self;
    let mut j: usize = 0;
    while j < updates.len()
        invariant
            self.wf(),
            j <= updates@.len(),
            forall|e: EntityId| self.valid(e) <==> s0.valid(e),
            self.dummy_id() == s0.dummy_id(),
            self.slot_count() == s0.slot_count(),
            forall|t: Seq<char>, e: EntityId| self.tag_binds(t, e) <==> s0.tag_binds(t, e),
            forall|k: int|
                0 <= k < updates@.len() ==> s0.valid((#[trigger] updates@[k]).0) && s0.rec(
                    updates@[k].0,
                ).color.dirty && updates@[k].1 == (EntityColor {
                    current: s0.resolve(s0.parent_of(HierarchyName::Faction, updates@[k].0),
                    ).color.current,
                    dirty: s0.resolve(
                        s0.parent_of(HierarchyName::Faction, updates@[k].0),
                    ).color.dirty,
                }),
            forall|e: EntityId|
                s0.valid(e) && s0.rec(e).color.dirty ==> exists|k: int|
                    0 <= k < updates@.len() && (#[trigger] updates@[k]).0 == e,
            forall|k1: int, k2: int|
                0 <= k1 < k2 < updates@.len() ==> (#[trigger] updates@[k1]).0 != (
                #[trigger] updates@[k2]).0,
            forall|e: EntityId|
                s0.valid(e) ==> self.rec(e) == (if exists|k: int|
                    0 <= k < j && (#[trigger] updates@[k]).0 == e {
                    EntityData {
                        color: updates@[choose|k: int|
                            0 <= k < j && (#[trigger] updates@[k]).0 == e].1,
                        ..s0.rec(e)
                    }
                } else {
                    s0.rec(e)
                }),
        decreases updates@.len() - j,
    {
        let (e, c) = updates[j];
        proof {
            if exists|k: int| 0 <= k < j && (#[trigger] updates@[k]).0 == e {
                let k = choose|k: int| 0 <= k < j && (#[trigger] updates@[k]).0 == e;
                assert(updates@[k].0 == updates@[j as int].0 && k < j);
                assert(false);
            }
        }
        self.set_color(e, c);
        proof {
            assert forall|e2: EntityId| s0.valid(e2) implies self.rec(e2) == (if exists|
                k: int,
            |
                0 <= k < j + 1 && (#[trigger] updates@[k]).0 == e2 {
                EntityData {
                    color: updates@[choose|k: int|
                        0 <= k < j + 1 && (#[trigger] updates@[k]).0 == e2].1,
                    ..s0.rec(e2)
                }
            } else {
                s0.rec(e2)
            }) by {
                if e2 == e {
                    assert(updates@[j as int].0 == e2);
                    let k = choose|k: int| 0 <= k < j + 1 && (#[trigger] updates@[k]).0 == e2;
                    assert(k == j as int);
                } else {
                    if exists|k: int| 0 <= k < j && (#[trigger] updates@[k]).0 == e2 {
                        let k = choose|k: int| 0 <= k < j && (#[trigger] updates@[k]).0 == e2;
                        let k2 = choose|k: int|
                            0 <= k < j + 1 && (#[trigger] updates@[k]).0 == e2;
                        assert(updates@[k].0 == e2);
                        assert(k2 == k || updates@[k2].0 != updates@[k].0 || k2 == k);
                        assert(updates@[k2].0 == e2);
                        if k2 != k {
                            assert(false);
                        }
                    } else {
                        if exists|k: int| 0 <= k < j + 1 && (#[trigger] updates@[k]).0 == e2 {
                            let k2 = choose|k: int|
                                0 <= k < j + 1 && (#[trigger] updates@[k]).0 == e2;
                            assert(k2 == j as int);
                            assert(false);
                        }
                    }
                }
            }
        }
        j = j + 1;
    }
    proof {
        assert forall|e: EntityId| s0.valid(e) implies final(self).rec(e) == (if s0.rec(
            e,
        ).color.dirty {
            EntityData {
                color: EntityColor {
                    current: s0.resolve(s0.parent_of(HierarchyName::Faction, e)).color.current,
                    dirty: s0.resolve(s0.parent_of(HierarchyName::Faction, e)).color.dirty,
                },
                ..s0.rec(e)
            }
        } else {
            s0.rec(e)
        }) by {
            if s0.rec(e).color.dirty {
                let k = choose|k: int|
                    0 <= k < updates@.len() && (#[trigger] updates@[k]).0 == e;
                assert(exists|k2: int|
                    0 <= k2 < updates@.len() && (#[trigger] updates@[k2]).0 == e);
                let k2 = choose|k2: int|
                    0 <= k2 < updates@.len() && (#[trigger] updates@[k2]).0 == e;
                assert(updates@[k2].1 == (EntityColor {
                    current: s0.resolve(s0.parent_of(HierarchyName::Faction, e)).color.current,
                    dirty: s0.resolve(s0.parent_of(HierarchyName::Faction, e)).color.dirty,
                }));
            } else {
                if exists|k: int|
                    0 <= k < updates@.len() && (#[trigger] updates@[k]).0 == e {
                    let k = choose|k: int|
                        0 <= k < updates@.len() && (#[trigger] updates@[k]).0 == e;
                    assert(s0.rec(e).color.dirty);
                }
            }
        }
    }
}
}

/// Law: under the store invariant, no live entity's links dangle. Every
/// parent pointer under every hierarchy is null or a live handle, and every
/// children entry is a live handle — so no sequence of spawns and despawns
/// can leave a reference to a despawned slot.
pub proof fn lemma_no_dangling_links(s: Entities, rel: HierarchyName, e: EntityId)
    requires
        s.wf(),
        s.valid(e),
    ensures
        s.parent_of(rel, e) == null_entity() || s.valid(s.parent_of(rel, e)),
        forall|k: int|
            0 <= k < s.children_of(rel, e).len() ==> s.valid(#[trigger] s.children_of(rel, e)[k]),
{
    let i = e.idx as int;
    assert(s.live(i) && s.id_at(i) == e);
    let p = s.slots@[i].data.hierarchies.spec_link(rel).parent;
    assert(p == null_entity() || p == s.id_at(i) || (s.valid(p) && s.children_of(rel, p).contains(
        s.id_at(i),
    )));
    assert forall|k: int|
        0 <= k < s.children_of(rel, e).len() implies s.valid(
        #[trigger] s.children_of(rel, e)[k],
    ) by {
        assert(s.slots@[i].data.hierarchies.spec_link(rel).children@[k] == s.children_of(
            rel,
            e,
        )[k]);
    }
}

/// The reserved record's handle is always live.
pub proof fn lemma_dummy_valid(s: Entities)
    requires
        s.wf(),
    ensures
        s.valid(s.dummy_id()),
{
}

/// Once a chain reaches a terminal handle within some fuel, more fuel does
/// not change where it ends.
proof fn lemma_root_fuel(s: Entities, rel: HierarchyName, e: EntityId, f: nat, f2: nat)
    requires
        s.chain_terminates(rel, e, f),
        f <= f2,
    ensures
        s.chain_terminates(rel, e, f2),
        s.root_spec(rel, e, f2) == s.root_spec(rel, e, f),
    decreases f,
{
    let p = s.step_parent(rel, e);
    if !(p == null_entity() || p == e) {
        lemma_root_fuel(s, rel, p, (f - 1) as nat, (f2 - 1) as nat);
    }
}

/// The handle a terminating walk ends at is terminal: its own parent is
/// null or itself.
proof fn lemma_root_terminal(s: Entities, rel: HierarchyName, e: EntityId, f: nat)
    requires
        s.chain_terminates(rel, e, f),
    ensures
        s.step_parent(rel, s.root_spec(rel, e, f)) == null_entity() || s.step_parent(
            rel,
            s.root_spec(rel, e, f),
        ) == s.root_spec(rel, e, f),
    decreases f,
{
    let p = s.step_parent(rel, e);
    if !(p == null_entity() || p == e) {
        lemma_root_terminal(s, rel, p, (f - 1) as nat);
    }
}

/// Law: `root_of` is idempotent. Wherever the parent chain from `e`
/// terminates within the store's slot count — as it does in every tree the
/// mutators are meant to build — the root of the root is the root itself.
pub proof fn lemma_root_of_idempotent(s: Entities, rel: HierarchyName, e: EntityId)
    requires
        s.wf(),
        s.chain_terminates(rel, e, s.slot_count()),
    ensures
        s.root_spec(rel, s.root_spec(rel, e, s.slot_count()), s.slot_count()) == s.root_spec(
            rel,
            e,
            s.slot_count(),
        ),
{
    lemma_root_terminal(s, rel, e, s.slot_count());
}

} // verus!
