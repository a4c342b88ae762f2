//! Construction of the starting world: sites and their connections,
//! factions, locations, people, and cards. A definition whose references do
//! not resolve is dropped; construction always completes.

use vstd::prelude::*;

use crate::entities::Entities;
use crate::entities::Flag;
use crate::entities::HierarchyName;
use crate::entities::LinkName;
use crate::entities::NameList;
use crate::entities::NameLists;
use crate::entities::RGB;
use crate::geom::Pos;
use crate::graph2d::MAX_SITES;
use crate::ids::EntityId;
use crate::rng::rand_byte;
use crate::rng::rng_from_seed;
use crate::sites::Sites;
use crate::spawn::Color;
use crate::spawn::Looks;
use crate::spawn::Name;
use crate::spawn::Prototype;
use crate::spawn::Prototypes;
use crate::spawn::SpawnEntity;

verus! {

fn random_color(rng: &mut rand::rngs::SmallRng) -> RGB {
    RGB { r: rand_byte(rng), g: rand_byte(rng), b: rand_byte(rng) }
}

fn init_cultures(entities: &mut Entities, sites: &mut Sites, rng: &mut rand::rngs::SmallRng)
    requires
        old(entities).wf(),
        old(sites).wf(),
        old(entities).slot_count() < 0x2000,
    ensures
        final(entities).wf(),
        final(sites).wf(),
        final(entities).slot_count() <= old(entities).slot_count() + 2,
        final(entities).dummy_id() == old(entities).dummy_id(),
        forall|e: EntityId| old(entities).valid(e) ==> final(entities).valid(e),
        final(sites).spec_graph() == old(sites).spec_graph(),
{
    let mut anglish_names: Vec<String> = Vec::new();
    anglish_names.push("Aelfric".to_owned());
    anglish_names.push("Beornred".to_owned());
    anglish_names.push("Cuthbert".to_owned());
    let anglish = SpawnEntity {
        tag: "anglish".to_owned(),
        name: Name::Fixed("Anglish".to_owned()),
        kind: "Culture".to_owned(),
        looks: Looks::plain(),
        site: crate::ids::SiteId::null(),
        flags: Vec::new(),
        links: Vec::new(),
        parents: Vec::new(),
        children: Vec::new(),
    };
    let id = anglish.spawn(entities, sites, rng);
    entities.set_name_lists(id, NameLists::new().with(NameList::PersonalNames, anglish_names));

    let mut brythonic_names: Vec<String> = Vec::new();
    brythonic_names.push("Owain".to_owned());
    brythonic_names.push("Urien".to_owned());
    brythonic_names.push("Rhydderch".to_owned());
    let brythonic = SpawnEntity {
        tag: "brythonic".to_owned(),
        name: Name::Fixed("Brythonic".to_owned()),
        kind: "Culture".to_owned(),
        looks: Looks::plain(),
        site: crate::ids::SiteId::null(),
        flags: Vec::new(),
        links: Vec::new(),
        parents: Vec::new(),
        children: Vec::new(),
    };
    let id2 = brythonic.spawn(entities, sites, rng);
    entities.set_name_lists(id2, NameLists::new().with(NameList::PersonalNames, brythonic_names));
}

fn init_prototypes(prototypes: &mut Prototypes)
    requires
        old(prototypes).wf(),
        old(prototypes).spec_entries().len() < 0x1000,
    ensures
        final(prototypes).wf(),
{
    let mut flags: Vec<Flag> = Vec::new();
    flags.push(Flag::IsCard);
    prototypes.define(
        "bonheddwr",
        Prototype {
            name: "Bonheddwr".to_owned(),
            kind: "Card".to_owned(),
            flags,
            has_location: true,
            has_faction: false,
        },
    );
}

fn connect_sites(sites: &mut Sites, tag1: &str, tag2: &str)
    requires
        old(sites).wf(),
    ensures
        final(sites).wf(),
        final(sites).spec_graph().node_count() == old(sites).spec_graph().node_count(),
        forall|id: crate::ids::SiteId| final(sites).valid(id) <==> old(sites).valid(id),
        forall|id: crate::ids::SiteId|
            old(sites).valid(id) ==> final(sites).bound_entity_of(id) == old(
                sites,
            ).bound_entity_of(id),
{
    let a = sites.lookup(tag1);
    let b = sites.lookup(tag2);
    match (a, b) {
        (Some(id1), Some(id2)) => {
            sites.connect(id1, id2);
        },
        _ => {},
    }
}

fn init_sites(sites: &mut Sites)
    requires
        old(sites).wf(),
        old(sites).spec_graph().node_count() + 10 <= MAX_SITES,
    ensures
        final(sites).wf(),
{
    sites.define("caer_ligualid", Pos::new(0, 0));
    sites.define("din_drust", Pos::new(-70, -90));
    sites.define("anava", Pos::new(70, -50));
    sites.define("llan_heledd", Pos::new(30, 120));
    sites.define("caer_ligualid-din_drust", Pos::new(-40, -40));
    sites.define("caer_ligualid_south", Pos::new(0, 80));
    sites.define("isura", Pos::new(-130, -80));
    sites.define("isura_west", Pos::new(-195, -100));
    sites.define("din_rheged", Pos::new(-250, -84));
    sites.define("ad_candidam_casam", Pos::new(-190, -62));

    connect_sites(sites, "caer_ligualid", "anava");
    connect_sites(sites, "din_drust", "anava");
    connect_sites(sites, "caer_ligualid", "caer_ligualid_south");
    connect_sites(sites, "caer_ligualid_south", "llan_heledd");
    connect_sites(sites, "caer_ligualid", "caer_ligualid-din_drust");
    connect_sites(sites, "din_drust", "caer_ligualid-din_drust");
    connect_sites(sites, "din_drust", "isura");
    connect_sites(sites, "isura", "isura_west");
    connect_sites(sites, "isura_west", "din_rheged");
    connect_sites(sites, "isura_west", "ad_candidam_casam");
}

fn init_faction(
    entities: &mut Entities,
    sites: &mut Sites,
    rng: &mut rand::rngs::SmallRng,
    tag: &str,
    name: &str,
    parent_tag: &str,
    color: Color,
)
    requires
        old(entities).wf(),
        old(sites).wf(),
        old(entities).slot_count() < 0x2000,
    ensures
        final(entities).wf(),
        final(sites).wf(),
        final(entities).slot_count() <= old(entities).slot_count() + 1,
        final(entities).dummy_id() == old(entities).dummy_id(),
        forall|e: EntityId| old(entities).valid(e) ==> final(entities).valid(e),
        final(sites).spec_graph() == old(sites).spec_graph(),
{
    let parent = if parent_tag.is_empty() {
        EntityId::null()
    } else {
        entities.lookup(parent_tag)
    };
    let mut parents: Vec<(HierarchyName, EntityId)> = Vec::new();
    parents.push((HierarchyName::Faction, parent));
    let mut flags: Vec<Flag> = Vec::new();
    flags.push(Flag::IsFaction);
    let info = SpawnEntity {
        tag: tag.to_owned(),
        name: Name::Fixed(name.to_owned()),
        kind: "Faction".to_owned(),
        looks: Looks { sprite: String::new(), size: 0, color },
        site: crate::ids::SiteId::null(),
        flags,
        links: Vec::new(),
        parents,
        children: Vec::new(),
    };
    info.spawn(entities, sites, rng);
}

fn init_factions(entities: &mut Entities, sites: &mut Sites, rng: &mut rand::rngs::SmallRng)
    requires
        old(entities).wf(),
        old(sites).wf(),
        old(entities).slot_count() + 3 < 0x2000,
    ensures
        final(entities).wf(),
        final(sites).wf(),
        final(entities).slot_count() <= old(entities).slot_count() + 3,
        final(entities).dummy_id() == old(entities).dummy_id(),
        forall|e: EntityId| old(entities).valid(e) ==> final(entities).valid(e),
        final(sites).spec_graph() == old(sites).spec_graph(),
{
    init_faction(
        entities,
        sites,
        rng,
        "rheged",
        "Rheged",
        "",
        Color::Fixed(RGB { r: 200, g: 40, b: 30 }),
    );
    let c1 = random_color(rng);
    init_faction(entities, sites, rng, "clan_drust", "Clan Drust", "rheged", Color::Fixed(c1));
    let c2 = random_color(rng);
    init_faction(entities, sites, rng, "clan_heledd", "Clan Heledd", "rheged", Color::Fixed(c2));
}

fn init_location(
    entities: &mut Entities,
    sites: &mut Sites,
    rng: &mut rand::rngs::SmallRng,
    name: &str,
    site_tag: &str,
    culture_tag: &str,
    faction_tag: &str,
    image: &str,
    size: u32,
) -> (r: EntityId)
    requires
        old(entities).wf(),
        old(sites).wf(),
        old(entities).slot_count() < 0x2000,
    ensures
        final(entities).wf(),
        final(sites).wf(),
        final(entities).slot_count() <= old(entities).slot_count() + 1,
        final(entities).dummy_id() == old(entities).dummy_id(),
        forall|e: EntityId| old(entities).valid(e) ==> final(entities).valid(e),
        final(sites).spec_graph() == old(sites).spec_graph(),
        r == crate::ids::null_entity() || final(entities).valid(r),
{
    let faction = entities.lookup(faction_tag);
    if faction.is_null() {
        return EntityId::null();
    }
    let culture = entities.lookup(culture_tag);
    if culture.is_null() {
        return EntityId::null();
    }
    let site = match sites.lookup(site_tag) {
        Some(s) => s,
        None => {
            return EntityId::null();
        },
    };
    if !sites.bound_entity(site).is_null() {
        return EntityId::null();
    }
    let mut flags: Vec<Flag> = Vec::new();
    flags.push(Flag::IsLocation);
    flags.push(Flag::IsPlace);
    let mut links: Vec<(LinkName, EntityId)> = Vec::new();
    links.push((LinkName::Culture, culture));
    let mut parents: Vec<(HierarchyName, EntityId)> = Vec::new();
    parents.push((HierarchyName::Faction, faction));
    let mut children: Vec<(HierarchyName, EntityId)> = Vec::new();
    children.push((HierarchyName::Capital, faction));
    let info = SpawnEntity {
        tag: site_tag.to_owned(),
        name: Name::Fixed(name.to_owned()),
        kind: "Town".to_owned(),
        looks: Looks { sprite: image.to_owned(), size, color: Color::Dynamic },
        site,
        flags,
        links,
        parents,
        children,
    };
    info.spawn(entities, sites, rng)
}

fn init_people_at(
    entities: &mut Entities,
    sites: &mut Sites,
    rng: &mut rand::rngs::SmallRng,
    location: EntityId,
    count: usize,
)
    requires
        old(entities).wf(),
        old(sites).wf(),
        old(entities).slot_count() + count < 0x3000,
        count < 0x100,
    ensures
        final(entities).wf(),
        final(sites).wf(),
        final(entities).slot_count() <= old(entities).slot_count() + count,
        final(entities).dummy_id() == old(entities).dummy_id(),
        forall|e: EntityId| old(entities).valid(e) ==> final(entities).valid(e),
        final(sites).spec_graph() == old(sites).spec_graph(),
{
    if location.is_null() || !entities.is_valid(location) {
        return ;
    }
    let mut n: usize = 0;
    while n < count
        invariant
            entities.wf(),
            sites.wf(),
            n <= count,
            count < 0x100,
            entities.slot_count() <= old(entities).slot_count() + n,
            old(entities).slot_count() + count < 0x3000,
            entities.dummy_id() == old(entities).dummy_id(),
            entities.valid(location),
            forall|e: EntityId| old(entities).valid(e) ==> entities.valid(e),
            sites.spec_graph() == old(sites).spec_graph(),
        decreases count - n,
    {
        let culture0 = {
            let d = entities.get(location).unwrap();
            d.links.get(LinkName::Culture)
        };
        let culture = if entities.is_valid(culture0) {
            culture0
        } else {
            EntityId::null()
        };
        let faction0 = {
            let d = entities.get(location).unwrap();
            d.hierarchies.parent(HierarchyName::Faction)
        };
        let faction = if entities.is_valid(faction0) {
            faction0
        } else {
            EntityId::null()
        };
        let mut flags: Vec<Flag> = Vec::new();
        flags.push(Flag::IsPerson);
        let mut links: Vec<(LinkName, EntityId)> = Vec::new();
        links.push((LinkName::Culture, culture));
        let mut parents: Vec<(HierarchyName, EntityId)> = Vec::new();
        parents.push((HierarchyName::PlaceOf, location));
        parents.push((HierarchyName::Faction, faction));
        let info = SpawnEntity {
            tag: String::new(),
            name: Name::FromList(culture, NameList::PersonalNames),
            kind: "Person".to_owned(),
            looks: Looks::plain(),
            site: crate::ids::SiteId::null(),
            flags,
            links,
            parents,
            children: Vec::new(),
        };
        info.spawn(entities, sites, rng);
        n = n + 1;
    }
}

fn init_cards(
    entities: &mut Entities,
    sites: &mut Sites,
    prototypes: &Prototypes,
    rng: &mut rand::rngs::SmallRng,
)
    requires
        old(entities).wf(),
        old(sites).wf(),
        prototypes.wf(),
        old(entities).slot_count() < 0x3000,
    ensures
        final(entities).wf(),
        final(sites).wf(),
        final(entities).slot_count() <= old(entities).slot_count() + 1,
        final(entities).dummy_id() == old(entities).dummy_id(),
        forall|e: EntityId| old(entities).valid(e) ==> final(entities).valid(e),
        final(sites).spec_graph() == old(sites).spec_graph(),
{
    let location = entities.lookup("caer_ligualid");
    if location.is_null() {
        return ;
    }
    match prototypes.lookup("bonheddwr") {
        Some(p) => {
            let proto = crate::spawn::clone_prototype(p);
            if !proto.has_faction {
                let args = crate::spawn::PrototypeArgs {
                    location,
                    faction: EntityId::null(),
                };
                proto.spawn(entities, sites, rng, &args);
            }
        },
        None => {},
    }
}

/// Populate a fresh world from the declarative content tables.
pub(crate) fn init(
    entities: &mut Entities,
    sites: &mut Sites,
    prototypes: &mut Prototypes,
    seed: u64,
)
    requires
        old(entities).wf(),
        old(sites).wf(),
        old(prototypes).wf(),
        old(entities).slot_count() < 0x100,
        old(sites).spec_graph().node_count() + 10 <= MAX_SITES,
        old(prototypes).spec_entries().len() < 0x100,
    ensures
        final(entities).wf(),
        final(sites).wf(),
        final(prototypes).wf(),
        final(entities).dummy_id() == old(entities).dummy_id(),
{
    let mut rng = rng_from_seed(seed);
    init_cultures(entities, sites, &mut rng);
    init_prototypes(prototypes);
    init_sites(sites);
    init_factions(entities, sites, &mut rng);
    let town = init_location(
        entities,
        sites,
        &mut rng,
        "Caer Ligualid",
        "caer_ligualid",
        "brythonic",
        "rheged",
        "town",
        200,
    );
    let village1 = init_location(
        entities,
        sites,
        &mut rng,
        "Anava",
        "anava",
        "brythonic",
        "rheged",
        "village",
        140,
    );
    let hillfort = init_location(
        entities,
        sites,
        &mut rng,
        "Din Drust",
        "din_drust",
        "brythonic",
        "clan_drust",
        "hillfort",
        175,
    );
    let village2 = init_location(
        entities,
        sites,
        &mut rng,
        "Llan Heledd",
        "llan_heledd",
        "brythonic",
        "clan_heledd",
        "village",
        140,
    );
    init_people_at(entities, sites, &mut rng, town, 5);
    init_people_at(entities, sites, &mut rng, village1, 3);
    init_people_at(entities, sites, &mut rng, hillfort, 3);
    init_people_at(entities, sites, &mut rng, village2, 3);
    init_cards(entities, sites, prototypes, &mut rng);
}

} // verus!
