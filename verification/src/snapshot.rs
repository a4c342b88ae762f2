//! Snapshot objects: the immutable per-entity trees the view hands to the
//! presentation layer.

use vstd::prelude::*;

use crate::entities::Entities;
use crate::entities::Flag;
use crate::entities::HierarchyName;
use crate::ids::null_entity;
use crate::ids::EntityId;
use crate::object::Object;
use crate::object::ObjectHandle;
use crate::object::ObjectId;
use crate::numfmt::format_u64;
use crate::object::Value;

verus! {

/// A minimal name-and-handle snapshot object.
fn reference_object(e: EntityId, name_val: String) -> (r: Object)
    ensures
        r.wf(),
{
    let mut obj = Object::new();
    obj.set("id", Value::Id(ObjectId(ObjectHandle::Entity(e))));
    obj.set("name", Value::Text(name_val));
    obj
}

/// A snapshot object that carries only its own reference.
fn handle_object(oid: ObjectId) -> (r: Object)
    ensures
        r.wf(),
{
    let mut obj = Object::new();
    obj.set("id", Value::Id(oid));
    obj
}

/// The global pseudo-entity's snapshot: its reference and the turn counter.
fn global_object(oid: ObjectId, turn_text: String) -> (r: Object)
    ensures
        r.wf(),
{
    let mut obj = Object::new();
    obj.set("id", Value::Id(oid));
    obj.set("turn_number", Value::Text(turn_text));
    obj
}

/// A site's snapshot: its reference and fixed labels.
fn site_object(oid: ObjectId, name_val: String, kind_val: String) -> (r: Object)
    ensures
        r.wf(),
{
    let mut obj = Object::new();
    obj.set("id", Value::Id(oid));
    obj.set("name", Value::Text(name_val));
    obj.set("kind", Value::Text(kind_val));
    obj
}

/// An entity's full snapshot object, from the values its record carries.
fn entity_object(
    e: EntityId,
    name_val: String,
    kind_val: String,
    faction_val: String,
    reign_val: String,
    chain: Vec<Object>,
    folk: Option<Vec<Object>>,
) -> (r: Object)
    ensures
        r.wf(),
{
    let mut obj = Object::new();
    obj.set("id", Value::Id(ObjectId(ObjectHandle::Entity(e))));
    obj.set("name", Value::Text(name_val));
    obj.set("kind", Value::Text(kind_val));
    obj.set("faction", Value::Text(faction_val));
    obj.set("reign", Value::Text(reign_val));
    obj.set("hierarchy", Value::List(chain));
    match folk {
        Some(p) => {
            obj.set("people_here", Value::List(p));
        },
        None => {},
    }
    obj
}

/// A minimal name-and-handle snapshot for each referenced entity.
fn extract_reference_list(entities: &Entities, list: &Vec<EntityId>) -> (r: Vec<Object>)
    requires
        entities.wf(),
        forall|k: int|
            0 <= k < list@.len() ==> (#[trigger] list@[k] == null_entity() || entities.valid(
                list@[k],
            )),
    ensures
        r@.len() == list@.len(),
        forall|k: int| 0 <= k < r@.len() ==> (#[trigger] r@[k]).wf(),
{
    let mut out: Vec<Object> = Vec::new();
    let mut k: usize = 0;
    while k < list.len()
        invariant
            entities.wf(),
            k <= list@.len(),
            out@.len() == k,
            forall|m: int|
                0 <= m < list@.len() ==> (#[trigger] list@[m] == null_entity() || entities.valid(
                    list@[m],
                )),
            forall|m: int| 0 <= m < out@.len() ==> (#[trigger] out@[m]).wf(),
        decreases list@.len() - k,
    {
        let e = list[k];
        let d = entities.index(e);
        let obj = reference_object(e, d.name.clone());
        out.push(obj);
        k = k + 1;
    }
    out
}

/// The full snapshot of one entity: identity, naming, faction, hierarchy
/// root and chain, and the people at a place.
fn extract_entity(entities: &Entities, subject: EntityId) -> (r: Object)
    requires
        entities.wf(),
        subject == null_entity() || entities.valid(subject),
    ensures
        r.wf(),
{
    let d = entities.index(subject);
    let name_val = d.name.clone();
    let kind_val = d.kind_name.clone();
    let faction_id = d.hierarchies.parent(HierarchyName::Faction);
    proof {
        crate::entities::lemma_dummy_valid(*entities);
        if subject != null_entity() {
            crate::entities::lemma_no_dangling_links(*entities, HierarchyName::Faction, subject);
        } else {
            crate::entities::lemma_no_dangling_links(
                *entities,
                HierarchyName::Faction,
                entities.dummy_id(),
            );
        }
    }
    let faction_name = {
        let fd = entities.index(faction_id);
        fd.name.clone()
    };
    let root = entities.root_of(HierarchyName::Faction, subject);
    let reign_name = {
        let rd = entities.index(root);
        rd.name.clone()
    };
    let chain = entities.ancestry(HierarchyName::Faction, subject);
    proof {
        assert forall|k: int|
            0 <= k < chain@.len() implies (#[trigger] chain@[k] == null_entity()
            || entities.valid(chain@[k])) by {}
    }
    let refs = extract_reference_list(entities, &chain);
    let is_place = {
        let d2 = entities.index(subject);
        d2.flags.get(Flag::IsPlace)
    };
    let folk = if is_place {
        let flags = [Flag::IsPerson];
        let people_ids = entities.children_with_flags(subject, HierarchyName::PlaceOf, &flags);
        proof {
            assert forall|k: int|
                0 <= k < people_ids@.len() implies (#[trigger] people_ids@[k] == null_entity()
                || entities.valid(people_ids@[k])) by {}
        }
        Some(extract_reference_list(entities, &people_ids))
    } else {
        None
    };
    entity_object(subject, name_val, kind_val, faction_name, reign_name, refs, folk)
}

/// The snapshot object for one reference: the global pseudo-entity carries
/// the turn counter, a site a fixed label, an entity its full record.
pub(crate) fn extract_object(entities: &Entities, turn_number: u64, oid: ObjectId) -> (r: Object)
    requires
        entities.wf(),
        oid.0 matches ObjectHandle::Entity(e) ==> (e == null_entity() || entities.valid(e)),
    ensures
        r.wf(),
{
    match oid.0 {
        ObjectHandle::Null => handle_object(oid),
        ObjectHandle::Global => {
            let t = format_u64(turn_number);
            global_object(oid, t)
        },
        ObjectHandle::Site(_) => site_object(oid, "Site".to_owned(), "Site".to_owned()),
        ObjectHandle::Entity(subject) => extract_entity(entities, subject),
        ObjectHandle::AvailableAction(_) => handle_object(oid),
    }
}



} // verus!
