//! Entity creation from declarative descriptions, and reusable prototypes.

use vstd::prelude::*;

use crate::entities::Entities;
use crate::entities::EntityColor;
use crate::entities::Flag;
use crate::entities::Flags;
use crate::entities::HierarchyName;
use crate::entities::LinkName;
use crate::entities::Links;
use crate::entities::same_non_hier;
use crate::entities::NameList;
use crate::entities::RGB;
use crate::ids::null_entity;
use crate::ids::null_site;
use crate::ids::EntityId;
use crate::ids::SiteId;
use crate::rng::rand_below;
use crate::sites::Sites;
use crate::tags::Tags;

verus! {

/// How a spawned entity is named: a fixed string, or a word picked from a
/// culture entity's name list.
pub enum Name {
    Fixed(String),
    FromList(EntityId, NameList),
}

/// How a spawned entity is coloured: a fixed colour, or inherited from its
/// faction parent at the next tick.
pub enum Color {
    Fixed(RGB),
    Dynamic,
}

/// Appearance data for a spawned entity.
pub struct Looks {
    pub sprite: String,
    /// Display size in hundredths of a map unit.
    pub size: u32,
    pub color: Color,
}

impl Looks {
    pub fn plain() -> (r: Looks)
        ensures
            r.sprite@ == Seq::<char>::empty(),
            r.size == 0,
            r.color is Fixed,
    {
        Looks { sprite: String::new(), size: 0, color: Color::Fixed(RGB { r: 0, g: 0, b: 0 }) }
    }
}

/// A declarative description of one entity to create.
pub struct SpawnEntity {
    pub tag: String,
    pub name: Name,
    pub kind: String,
    pub looks: Looks,
    pub site: SiteId,
    pub flags: Vec<Flag>,
    pub links: Vec<(LinkName, EntityId)>,
    pub parents: Vec<(HierarchyName, EntityId)>,
    pub children: Vec<(HierarchyName, EntityId)>,
}

impl SpawnEntity {
    /// What `spawn_entity` asks of the world for this description: the
    /// bound site must be real and unoccupied, linked entities must be live
    /// or null, and the name source must be readable.
    pub open spec fn args_ok(self, entities: Entities, sites: Sites) -> bool {
        &&& (self.site == null_site() || (sites.valid(self.site) && sites.bound_entity_of(
            self.site,
        ) == null_entity()))
        &&& forall|k: int|
            0 <= k < self.parents@.len() ==> ((#[trigger] self.parents@[k]).1 == null_entity()
                || entities.valid(self.parents@[k].1))
        &&& forall|k: int|
            0 <= k < self.children@.len() ==> ((#[trigger] self.children@[k]).1 == null_entity()
                || entities.valid(self.children@[k].1))
        &&& (self.name matches Name::FromList(src, _) ==> (src == null_entity()
            || entities.valid(src)))
    }

    pub fn spawn(
        &self,
        entities: &mut Entities,
        sites: &mut Sites,
        rng: &mut rand::rngs::SmallRng,
    ) -> (r: EntityId)
        requires
            old(entities).wf(),
            old(sites).wf(),
            old(entities).slot_count() < 0xFFFF_FFFE,
            self.args_ok(*old(entities), *old(sites)),
        ensures
            final(entities).wf(),
            final(sites).wf(),
            final(entities).valid(r),
            !old(entities).valid(r),
            final(entities).slot_count() <= old(entities).slot_count() + 1,
            final(entities).dummy_id() == old(entities).dummy_id(),
            forall|e: EntityId| old(entities).valid(e) ==> final(entities).valid(e),
            final(sites).spec_graph() == old(sites).spec_graph(),
    {
        spawn_entity(entities, sites, rng, self)
    }
}

/// The colour a colour description yields at spawn time.
pub open spec fn spec_color_of(c: Color) -> EntityColor {
    match c {
        Color::Fixed(rgb) => EntityColor { current: rgb, dirty: false },
        Color::Dynamic => EntityColor { current: RGB { r: 0, g: 0, b: 0 }, dirty: true },
    }
}

/// The cross-links after the given entries are written in order.
pub open spec fn spec_apply_links(start: Links, entries: Seq<(LinkName, EntityId)>) -> Links
    decreases entries.len(),
{
    if entries.len() == 0 {
        start
    } else {
        spec_apply_links(
            match entries[0].0 {
                LinkName::Culture => Links { culture: entries[0].1 },
            },
            entries.drop_first(),
        )
    }
}

/// The parent under `rel` after the given entries are applied in order,
/// starting from `cur`.
pub open spec fn spec_parent_from(
    rel: HierarchyName,
    entries: Seq<(HierarchyName, EntityId)>,
    cur: EntityId,
) -> EntityId
    decreases entries.len(),
{
    if entries.len() == 0 {
        cur
    } else {
        spec_parent_from(
            rel,
            entries.drop_first(),
            if entries[0].0 == rel {
                entries[0].1
            } else {
                cur
            },
        )
    }
}

/// What a spawned display name may be: the fixed string, or — for a list
/// pick, whatever the generator chose — a member of the source's word list,
/// or the placeholder when no list is readable.
pub open spec fn name_matches(entities: Entities, name: Name, picked: Seq<char>) -> bool {
    match name {
        Name::Fixed(s) => picked == s@,
        Name::FromList(src, list) => picked == "NONAME"@ || (entities.resolve(src).name_lists
            matches Some(nl) && exists|k: int|
            0 <= k < nl.spec_get(list).len() && (#[trigger] nl.spec_get(list)[k])@ == picked),
    }
}

/// Pick a display name as the description asks, drawing from the source
/// entity's word list where one is attached.
fn pick_name(
    entities: &Entities,
    rng: &mut rand::rngs::SmallRng,
    name: &Name,
) -> (r: String)
    requires
        entities.wf(),
    ensures
        name_matches(*entities, *name, r@),
{
    match name {
        Name::Fixed(s) => s.clone(),
        Name::FromList(src, list) => {
            let d = entities.index(*src);
            match &d.name_lists {
                None => "NONAME".to_owned(),
                Some(nl) => {
                    let words = nl.get(*list);
                    if words.len() == 0 {
                        "NONAME".to_owned()
                    } else {
                        let k = rand_below(rng, words.len());
                        words[k].clone()
                    }
                },
            }
        },
    }
}

/// Create one entity as `info` describes: record fields are filled in,
/// the site binding is made in both directions, and every requested
/// hierarchy link is installed.
pub fn spawn_entity(
    entities: &mut Entities,
    sites: &mut Sites,
    rng: &mut rand::rngs::SmallRng,
    info: &SpawnEntity,
) -> (r: EntityId)
    requires
        old(entities).wf(),
        old(sites).wf(),
        old(entities).slot_count() < 0xFFFF_FFFE,
        info.args_ok(*old(entities), *old(sites)),
    ensures
        final(entities).wf(),
        final(sites).wf(),
        final(entities).valid(r),
        !old(entities).valid(r),
        r != null_entity(),
        final(entities).slot_count() <= old(entities).slot_count() + 1,
        final(entities).dummy_id() == old(entities).dummy_id(),
        forall|e: EntityId| e != r ==> (final(entities).valid(e) <==> old(entities).valid(e)),
        forall|e: EntityId|
            old(entities).valid(e) ==> same_non_hier(final(entities).rec(e), old(entities).rec(e)),
        name_matches(*old(entities), info.name, final(entities).rec(r).name@),
        final(entities).rec(r).kind_name == info.kind,
        final(entities).rec(r).sprite == info.looks.sprite,
        final(entities).rec(r).size == info.looks.size,
        final(entities).rec(r).color == spec_color_of(info.looks.color),
        final(entities).rec(r).flags == Flags::spec_none().spec_set_all(info.flags@, true),
        final(entities).rec(r).links == spec_apply_links(
            Links { culture: null_entity() },
            info.links@,
        ),
        final(entities).rec(r).bound_site == info.site,
        forall|rel: HierarchyName|
            final(entities).parent_of(rel, r) == spec_parent_from(
                rel,
                info.parents@,
                null_entity(),
            ),
        forall|j: int|
            0 <= j < info.children@.len() && (#[trigger] info.children@[j]).1 != null_entity()
                ==> final(entities).parent_of(info.children@[j].0, info.children@[j].1) == r,
        info.tag@.len() > 0 ==> final(entities).tag_binds(info.tag@, r),
        final(sites).spec_graph() == old(sites).spec_graph(),
        info.site != null_site() ==> final(sites).bound_entity_of(info.site) == r,
        forall|s: SiteId|
            old(sites).valid(s) && s != info.site ==> final(sites).bound_entity_of(s) == old(
                sites,
            ).bound_entity_of(s),
{
    let name = pick_name(entities, rng, &info.name);
    let ghost picked = name@;
    let id = entities.spawn_with_tag(info.tag.as_str());
    let ghost g1 = *entities;
    entities.set_name(id, name);
    entities.set_kind(id, info.kind.clone());
    entities.set_sprite(id, info.looks.sprite.clone());
    entities.set_size(id, info.looks.size);
    let color = match &info.looks.color {
        Color::Fixed(rgb) => EntityColor { current: *rgb, dirty: false },
        Color::Dynamic => EntityColor { current: RGB { r: 0, g: 0, b: 0 }, dirty: true },
    };
    entities.set_color(id, color);
    let mut flags = Flags::none();
    flags.set_all(info.flags.as_slice(), true);
    entities.set_flags(id, flags);
    proof {
        assert forall|rel: HierarchyName|
            entities.parent_of(rel, id) == null_entity() && entities.children_of(
                rel,
                id,
            ).len() == 0 by {
            assert(entities.rec(id).hierarchies == g1.rec(id).hierarchies);
            let link = g1.rec(id).hierarchies.spec_link(rel);
            assert(link.parent == null_entity() && link.children@.len() == 0);
        }
        assert(spec_apply_links(Links { culture: null_entity() }, info.links@.skip(0))
            == spec_apply_links(Links { culture: null_entity() }, info.links@)) by {
            assert(info.links@.skip(0) =~= info.links@);
        }
    }
    let mut k: usize = 0;
    while k < info.links.len()
        invariant
            entities.wf(),
            entities.valid(id),
            id != null_entity(),
            !old(entities).valid(id),
            entities.dummy_id() == old(entities).dummy_id(),
            entities.slot_count() <= old(entities).slot_count() + 1,
            k <= info.links@.len(),
            forall|e: EntityId| e != id ==> (entities.valid(e) <==> old(entities).valid(e)),
            forall|e: EntityId|
                old(entities).valid(e) ==> same_non_hier(entities.rec(e), old(entities).rec(e)),
            name_matches(*old(entities), info.name, entities.rec(id).name@),
            entities.rec(id).kind_name == info.kind,
            entities.rec(id).sprite == info.looks.sprite,
            entities.rec(id).size == info.looks.size,
            entities.rec(id).color == spec_color_of(info.looks.color),
            entities.rec(id).flags == Flags::spec_none().spec_set_all(info.flags@, true),
            entities.rec(id).bound_site == null_site(),
            forall|rel: HierarchyName|
                #![trigger entities.rec(id).hierarchies.spec_link(rel)]
                entities.parent_of(rel, id) == null_entity() && entities.children_of(
                    rel,
                    id,
                ).len() == 0,
            info.tag@.len() > 0 ==> entities.tag_binds(info.tag@, id),
            spec_apply_links(entities.rec(id).links, info.links@.skip(k as int))
                == spec_apply_links(Links { culture: null_entity() }, info.links@),
        decreases info.links@.len() - k,
    {
        let ghost pre = *entities;
        let (link, tgt) = info.links[k];
        entities.set_link(id, link, tgt);
        proof {
            assert(entities.rec(id).hierarchies == pre.rec(id).hierarchies);
            assert forall|rel: HierarchyName|
                entities.parent_of(rel, id) == null_entity() && entities.children_of(
                    rel,
                    id,
                ).len() == 0 by {
                assert(pre.parent_of(rel, id) == null_entity());
            }
            assert(info.links@.skip(k as int).drop_first() =~= info.links@.skip(k + 1));
            assert(info.links@.skip(k as int)[0] == info.links@[k as int]);
        }
        k = k + 1;
    }
    proof {
        assert(info.links@.skip(k as int).len() == 0);
    }
    let ghost g2 = *entities;
    if !info.site.is_null() {
        entities.set_bound_site(id, info.site);
        sites.set_bound_entity(info.site, id);
    }
    proof {
        assert forall|rel: HierarchyName|
            spec_parent_from(rel, info.parents@.skip(0), entities.parent_of(rel, id))
                == spec_parent_from(rel, info.parents@, null_entity()) by {
            assert(entities.rec(id).hierarchies == g2.rec(id).hierarchies);
            let link = g2.rec(id).hierarchies.spec_link(rel);
            assert(link.parent == null_entity());
            assert(info.parents@.skip(0) =~= info.parents@);
        }
    }
    let mut k: usize = 0;
    while k < info.parents.len()
        invariant
            entities.wf(),
            sites.wf(),
            entities.valid(id),
            id != null_entity(),
            !old(entities).valid(id),
            entities.dummy_id() == old(entities).dummy_id(),
            entities.slot_count() <= old(entities).slot_count() + 1,
            k <= info.parents@.len(),
            forall|e: EntityId| e != id ==> (entities.valid(e) <==> old(entities).valid(e)),
            forall|e: EntityId|
                old(entities).valid(e) ==> same_non_hier(entities.rec(e), old(entities).rec(e)),
            name_matches(*old(entities), info.name, entities.rec(id).name@),
            entities.rec(id).kind_name == info.kind,
            entities.rec(id).sprite == info.looks.sprite,
            entities.rec(id).size == info.looks.size,
            entities.rec(id).color == spec_color_of(info.looks.color),
            entities.rec(id).flags == Flags::spec_none().spec_set_all(info.flags@, true),
            entities.rec(id).links == spec_apply_links(
                Links { culture: null_entity() },
                info.links@,
            ),
            entities.rec(id).bound_site == info.site,
            info.tag@.len() > 0 ==> entities.tag_binds(info.tag@, id),
            forall|j: int|
                0 <= j < info.parents@.len() ==> ((#[trigger] info.parents@[j]).1
                    == null_entity() || old(entities).valid(info.parents@[j].1)),
            forall|rel: HierarchyName|
                spec_parent_from(rel, info.parents@.skip(k as int), entities.parent_of(rel, id))
                    == spec_parent_from(rel, info.parents@, null_entity()),
        decreases info.parents@.len() - k,
    {
        let (rel0, parent) = info.parents[k];
        proof {
            if parent != null_entity() {
                assert(old(entities).valid(parent));
                assert(parent != id);
                assert(entities.valid(parent));
            }
        }
        entities.set_parent(rel0, id, parent);
        proof {
            assert forall|rel: HierarchyName|
                spec_parent_from(rel, info.parents@.skip(k + 1), entities.parent_of(rel, id))
                    == spec_parent_from(rel, info.parents@, null_entity()) by {
                assert(info.parents@.skip(k as int).drop_first() =~= info.parents@.skip(k + 1));
                assert(info.parents@.skip(k as int)[0] == info.parents@[k as int]);
            }
        }
        k = k + 1;
    }
    proof {
        assert(info.parents@.skip(k as int).len() == 0);
    }
    let mut k: usize = 0;
    while k < info.children.len()
        invariant
            entities.wf(),
            sites.wf(),
            entities.valid(id),
            id != null_entity(),
            !old(entities).valid(id),
            entities.dummy_id() == old(entities).dummy_id(),
            entities.slot_count() <= old(entities).slot_count() + 1,
            k <= info.children@.len(),
            forall|e: EntityId| e != id ==> (entities.valid(e) <==> old(entities).valid(e)),
            forall|e: EntityId|
                old(entities).valid(e) ==> same_non_hier(entities.rec(e), old(entities).rec(e)),
            name_matches(*old(entities), info.name, entities.rec(id).name@),
            entities.rec(id).kind_name == info.kind,
            entities.rec(id).sprite == info.looks.sprite,
            entities.rec(id).size == info.looks.size,
            entities.rec(id).color == spec_color_of(info.looks.color),
            entities.rec(id).flags == Flags::spec_none().spec_set_all(info.flags@, true),
            entities.rec(id).links == spec_apply_links(
                Links { culture: null_entity() },
                info.links@,
            ),
            entities.rec(id).bound_site == info.site,
            info.tag@.len() > 0 ==> entities.tag_binds(info.tag@, id),
            forall|j: int|
                0 <= j < info.children@.len() ==> ((#[trigger] info.children@[j]).1
                    == null_entity() || old(entities).valid(info.children@[j].1)),
            forall|rel: HierarchyName|
                #![trigger entities.rec(id).hierarchies.spec_link(rel)]
                entities.parent_of(rel, id) == spec_parent_from(
                    rel,
                    info.parents@,
                    null_entity(),
                ),
            forall|j: int|
                0 <= j < k && (#[trigger] info.children@[j]).1 != null_entity()
                    ==> entities.parent_of(info.children@[j].0, info.children@[j].1) == id,
        decreases info.children@.len() - k,
    {
        let (rel0, child) = info.children[k];
        proof {
            if child != null_entity() {
                assert(old(entities).valid(child));
                assert(child != id);
                assert(entities.valid(child));
            }
        }
        let ghost pre = *entities;
        entities.set_parent(rel0, child, id);
        proof {
            assert forall|rel: HierarchyName|
                #![trigger entities.rec(id).hierarchies.spec_link(rel)]
                entities.parent_of(rel, id) == spec_parent_from(
                    rel,
                    info.parents@,
                    null_entity(),
                ) by {
                assert(pre.parent_of(rel, id) == spec_parent_from(
                    rel,
                    info.parents@,
                    null_entity(),
                ));
                if rel != rel0 {
                    assert(entities.rec(id).hierarchies.spec_link(rel) == pre.rec(
                        id,
                    ).hierarchies.spec_link(rel));
                } else {
                    if child == null_entity() {
                        assert(*entities == pre);
                    } else {
                        assert(pre.valid(id) && id != child);
                        assert(entities.parent_of(rel0, id) == pre.parent_of(rel0, id));
                    }
                }
            }
        }
        k = k + 1;
    }
    id
}

/// A reusable description of an entity kind that actions can instantiate.
pub struct Prototype {
    pub name: String,
    pub kind: String,
    pub flags: Vec<Flag>,
    pub has_location: bool,
    pub has_faction: bool,
}

/// Arguments an action supplies when instantiating a prototype.
#[derive(Clone, Copy, PartialEq, Eq, Structural, Debug)]
pub struct PrototypeArgs {
    pub location: EntityId,
    pub faction: EntityId,
}

/// Copy a prototype field for field.
pub fn clone_prototype(p: &Prototype) -> (r: Prototype)
    ensures
        r.name == p.name,
        r.kind == p.kind,
        r.flags@ == p.flags@,
        r.has_location == p.has_location,
        r.has_faction == p.has_faction,
{
    let mut flags: Vec<Flag> = Vec::new();
    let mut k: usize = 0;
    while k < p.flags.len()
        invariant
            k <= p.flags@.len(),
            flags@ == p.flags@.take(k as int),
        decreases p.flags@.len() - k,
    {
        flags.push(p.flags[k]);
        proof {
            assert(flags@ =~= p.flags@.take(k + 1));
        }
        k = k + 1;
    }
    proof {
        assert(p.flags@.take(p.flags@.len() as int) =~= p.flags@);
    }
    Prototype {
        name: p.name.clone(),
        kind: p.kind.clone(),
        flags,
        has_location: p.has_location,
        has_faction: p.has_faction,
    }
}

impl Prototype {
    /// Instantiate the prototype: the new entity takes the prototype's
    /// naming and flags, and joins the location and faction the arguments
    /// name.
    pub fn spawn(
        &self,
        entities: &mut Entities,
        sites: &mut Sites,
        rng: &mut rand::rngs::SmallRng,
        args: &PrototypeArgs,
    ) -> (r: EntityId)
        requires
            old(entities).wf(),
            old(sites).wf(),
            old(entities).slot_count() < 0xFFFF_FFFE,
            self.has_location ==> args.location != null_entity() && old(entities).valid(
                args.location,
            ),
            self.has_faction ==> args.faction != null_entity() && old(entities).valid(
                args.faction,
            ),
        ensures
            final(entities).wf(),
            final(sites).wf(),
            final(entities).valid(r),
            !old(entities).valid(r),
            final(entities).slot_count() <= old(entities).slot_count() + 1,
            final(entities).dummy_id() == old(entities).dummy_id(),
            forall|e: EntityId| e != r ==> (final(entities).valid(e) <==> old(entities).valid(e)),
            forall|e: EntityId|
                old(entities).valid(e) ==> same_non_hier(
                    final(entities).rec(e),
                    old(entities).rec(e),
                ),
            final(entities).rec(r).name@ == self.name@,
            final(entities).rec(r).kind_name@ == self.kind@,
            final(entities).rec(r).flags == Flags::spec_none().spec_set_all(self.flags@, true),
            final(entities).parent_of(HierarchyName::PlaceOf, r) == (if self.has_location {
                args.location
            } else {
                null_entity()
            }),
            final(entities).parent_of(HierarchyName::Faction, r) == (if self.has_faction {
                args.faction
            } else {
                null_entity()
            }),
            final(entities).parent_of(HierarchyName::Capital, r) == null_entity(),
            final(sites).spec_graph() == old(sites).spec_graph(),
            forall|s2: SiteId|
                old(sites).valid(s2) ==> final(sites).bound_entity_of(s2) == old(
                    sites,
                ).bound_entity_of(s2),
    {
        let mut parents: Vec<(HierarchyName, EntityId)> = Vec::new();
        if self.has_location {
            parents.push((HierarchyName::PlaceOf, args.location));
        }
        if self.has_faction {
            parents.push((HierarchyName::Faction, args.faction));
        }
        let info = SpawnEntity {
            tag: String::new(),
            name: Name::Fixed(self.name.clone()),
            kind: self.kind.clone(),
            looks: Looks::plain(),
            site: SiteId::null(),
            flags: {
                let p = clone_prototype(self);
                p.flags
            },
            links: Vec::new(),
            parents,
            children: Vec::new(),
        };
        proof {
            assert forall|k: int|
                0 <= k < info.parents@.len() implies ((#[trigger] info.parents@[k]).1
                == null_entity() || old(entities).valid(info.parents@[k].1)) by {}
        }
        let r = spawn_entity(entities, sites, rng, &info);
        proof {
            reveal_with_fuel(spec_parent_from, 4);
            let ps = info.parents@;
            if self.has_location && self.has_faction {
                assert(ps =~= seq![
                    (HierarchyName::PlaceOf, args.location),
                    (HierarchyName::Faction, args.faction),
                ]);
                assert(ps.drop_first() =~= seq![(HierarchyName::Faction, args.faction)]);
                assert(ps.drop_first().drop_first() =~= Seq::<
                    (HierarchyName, EntityId),
                >::empty());
            } else if self.has_location {
                assert(ps =~= seq![(HierarchyName::PlaceOf, args.location)]);
                assert(ps.drop_first() =~= Seq::<(HierarchyName, EntityId)>::empty());
            } else if self.has_faction {
                assert(ps =~= seq![(HierarchyName::Faction, args.faction)]);
                assert(ps.drop_first() =~= Seq::<(HierarchyName, EntityId)>::empty());
            } else {
                assert(ps =~= Seq::<(HierarchyName, EntityId)>::empty());
            }
            assert(final(entities).parent_of(HierarchyName::Capital, r) == spec_parent_from(
                HierarchyName::Capital,
                ps,
                null_entity(),
            ));
        }
        r
    }
}

/// The registry of named prototypes.
pub struct Prototypes {
    entries: Vec<Prototype>,
    tags: Tags,
}

impl Prototypes {
    pub closed spec fn spec_entries(self) -> Seq<Prototype> {
        self.entries@
    }

    pub closed spec fn wf(self) -> bool {
        &&& self.tags.wf()
        &&& forall|t: Seq<char>, h: crate::ids::Handle|
            #[trigger] self.tags.binds(t, h) ==> h.gen == 1 && (h.idx as int)
                < self.entries@.len()
    }

    pub fn new() -> (r: Prototypes)
        ensures
            r.wf(),
            r.spec_entries().len() == 0,
    {
        Prototypes { entries: Vec::new(), tags: Tags::new() }
    }

    /// Register a prototype under `tag`.
    pub fn define(&mut self, tag: &str, proto: Prototype)
        requires
            old(self).wf(),
            old(self).spec_entries().len() < 0xFFFF_FFFF,
        ensures
            final(self).wf(),
    {
        let idx = self.entries.len() as u32;
        self.entries.push(proto);
        self.tags.insert(tag, crate::ids::Handle { idx, gen: 1 });
        proof {
            assert forall|t: Seq<char>, h: crate::ids::Handle|
                #[trigger] self.tags.binds(t, h) implies h.gen == 1 && (h.idx as int)
                < self.entries@.len() by {
                if !(t == tag@ && h == (crate::ids::Handle { idx, gen: 1 })) {
                    assert(old(self).tags.binds(t, h));
                }
            }
        }
    }

    /// True when a prototype is registered under `t`.
    pub closed spec fn spec_has_tag(self, t: Seq<char>) -> bool {
        self.tags.has_tag(t)
    }

    /// The prototype registered under `t`.
    pub closed spec fn spec_named(self, t: Seq<char>) -> Prototype {
        let h = choose|h: crate::ids::Handle| self.tags.binds(t, h);
        self.entries@[h.idx as int]
    }

    /// The prototype bound to `tag`, if any.
    pub fn lookup(&self, tag: &str) -> (r: Option<&Prototype>)
        requires
            self.wf(),
        ensures
            r is Some <==> self.spec_has_tag(tag@),
            r matches Some(p) ==> *p == self.spec_named(tag@),
    {
        match self.tags.lookup(tag) {
            Some(h) => {
                proof {
                    assert(self.tags.binds(tag@, h));
                    self.tags.lemma_binds_has_tag(tag@, h);
                    let h2 = choose|h2: crate::ids::Handle| self.tags.binds(tag@, h2);
                    self.tags.lemma_binds_unique(tag@, h, h2);
                }
                let p = &self.entries[h.idx as usize];
                Some(p)
            },
            None => None,
        }
    }
}

} // verus!
