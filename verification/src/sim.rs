//! The tick coordinator: one synchronous step per external request.
//!
//! A tick applies turn-advance and active-subject changes, propagates
//! inherited colour one hierarchy level, recomputes the available actions
//! for the current subject/target pair, applies an interaction, and, when
//! asked, extracts a snapshot of the world bounded by the viewport.

use vstd::prelude::*;

use crate::aspects::Aspects;
use crate::entities::Entities;
use crate::entities::Flag;
use crate::entities::HierarchyName;
use crate::geom::Extents;
use crate::ids::null_entity;
use crate::ids::EntityId;
use crate::object::ObjectHandle;
use crate::object::ObjectId;
use crate::rng::rng_from_seed;
use crate::sites::Sites;
use crate::spawn::clone_prototype;
use crate::spawn::Prototype;
use crate::spawn::PrototypeArgs;
use crate::spawn::Prototypes;
use crate::view::extract;
use crate::view::SimView;

verus! {

/// What an external caller asks of one tick.
pub struct TickRequest {
    pub view: ViewRequest,
    pub end_turn: bool,
    pub make_active: Option<ObjectId>,
    pub interacted_with_object: Option<ObjectId>,
}

pub struct ViewRequest {
    pub enabled: bool,
    pub map_viewport: Extents,
}

impl TickRequest {
    /// A request that changes nothing and asks for no view.
    pub fn idle() -> (r: TickRequest)
        ensures
            !r.end_turn,
            r.make_active is None,
            r.interacted_with_object is None,
            !r.view.enabled,
    {
        TickRequest {
            view: ViewRequest { enabled: false, map_viewport: Extents::everything() },
            end_turn: false,
            make_active: None,
            interacted_with_object: None,
        }
    }
}

/// One action offered for the current subject/target pair.
pub struct Action {
    pub name: String,
    pub spawn_prototype: Option<(Prototype, PrototypeArgs)>,
}

pub struct AvailableActions {
    pub has_any: bool,
    pub list: Vec<Action>,
}

/// What the tick machinery needs of every stored action: the arguments it
/// would spawn with resolve to live entities where the prototype demands
/// one.
pub open spec fn actions_ok(list: Seq<Action>, entities: Entities) -> bool {
    forall|k: int|
        0 <= k < list.len() ==> ((#[trigger] list[k]).spawn_prototype matches Some(pa) ==> ((
        pa.0.has_location ==> pa.1.location != null_entity() && entities.valid(pa.1.location)) && (
        pa.0.has_faction ==> pa.1.faction != null_entity() && entities.valid(pa.1.faction))))
}

/// The active subject after a request is applied: a live entity reference
/// makes that entity active, a stale one clears the subject, anything else
/// leaves it alone.
pub open spec fn active_after(
    make_active: Option<ObjectId>,
    entities: Entities,
    cur: EntityId,
) -> EntityId {
    match make_active {
        Some(o) => match o.0 {
            ObjectHandle::Entity(id) => if entities.valid(id) {
                id
            } else {
                null_entity()
            },
            _ => cur,
        },
        None => cur,
    }
}

/// What the rebuilt action list holds for a given subject/target pair:
/// nothing without both; otherwise the test action, a kiss for a person
/// target, and — when the recruit prototype is registered and needs no
/// faction — a recruit action carrying that prototype and the target as its
/// location.
pub open spec fn describes_actions(
    list: Seq<Action>,
    has_any: bool,
    entities: Entities,
    prototypes: Prototypes,
    active: EntityId,
    selected: EntityId,
) -> bool {
    let has = active != null_entity() && selected != null_entity();
    let target = entities.resolve(selected);
    let person = target.flags.is_person;
    let recruit = target.flags.is_location && prototypes.spec_has_tag("bonheddwr"@)
        && !prototypes.spec_named("bonheddwr"@).has_faction;
    &&& has_any == has
    &&& (!has) ==> list.len() == 0
    &&& has ==> {
        &&& list.len() == 1 + (if person {
            1int
        } else {
            0int
        }) + (if recruit {
            1int
        } else {
            0int
        })
        &&& list[0].name@ == "Test Action"@ && list[0].spawn_prototype is None
        &&& person ==> list[1].name@ == "Kiss"@ && list[1].spawn_prototype is None
        &&& recruit ==> {
            let j: int = if person {
                2
            } else {
                1
            };
            let named = prototypes.spec_named("bonheddwr"@);
            &&& list[j].name@ == "Recruit"@
            &&& list[j].spawn_prototype matches Some(pa) && pa.0.name == named.name && pa.0.kind
                == named.kind && pa.0.flags@ == named.flags@ && pa.0.has_location
                == named.has_location && !pa.0.has_faction && pa.1 == (PrototypeArgs {
                location: selected,
                faction: null_entity(),
            })
        }
    }
}

pub struct Interaction {
    pub selected_entity: EntityId,
}

/// The whole mutable world: one value, passed explicitly, no globals.
pub struct Simulation {
    pub(crate) turn_number: u64,
    pub(crate) aspects: Aspects,
    pub(crate) sites: Sites,
    pub(crate) prototypes: Prototypes,
    pub(crate) entities: Entities,
    pub(crate) interaction: Interaction,
    pub(crate) active_agent: EntityId,
    pub(crate) available_actions: AvailableActions,
}

impl Simulation {
    pub closed spec fn spec_entities(self) -> Entities {
        self.entities
    }

    pub closed spec fn spec_sites(self) -> Sites {
        self.sites
    }

    pub closed spec fn spec_turn(self) -> u64 {
        self.turn_number
    }

    pub closed spec fn spec_selected(self) -> EntityId {
        self.interaction.selected_entity
    }

    pub closed spec fn spec_active(self) -> EntityId {
        self.active_agent
    }

    pub closed spec fn spec_actions(self) -> Seq<Action> {
        self.available_actions.list@
    }

    pub closed spec fn spec_has_any(self) -> bool {
        self.available_actions.has_any
    }

    pub closed spec fn spec_prototypes(self) -> Prototypes {
        self.prototypes
    }

    /// The world invariant: every subsystem is well formed, the active and
    /// selected handles are null or live, and stored actions hold live
    /// arguments.
    pub closed spec fn wf(self) -> bool {
        &&& self.entities.wf()
        &&& self.sites.wf()
        &&& self.prototypes.wf()
        &&& self.aspects.wf()
        &&& (self.active_agent == null_entity() || self.entities.valid(self.active_agent))
        &&& (self.interaction.selected_entity == null_entity() || self.entities.valid(
            self.interaction.selected_entity,
        ))
        &&& actions_ok(self.available_actions.list@, self.entities)
    }

    /// Build the starting world from the fixed seed and run one settling
    /// tick.
    pub fn new() -> (r: Simulation)
        ensures
            r.wf(),
            r.spec_turn() == 1,
            r.spec_selected() == null_entity(),
            r.spec_active() == null_entity(),
            !r.spec_has_any(),
    {
        let mut sim = Simulation {
            turn_number: 1,
            aspects: Aspects::new(),
            sites: Sites::new(),
            prototypes: Prototypes::new(),
            entities: Entities::new(),
            interaction: Interaction { selected_entity: EntityId::null() },
            active_agent: EntityId::null(),
            available_actions: AvailableActions { has_any: false, list: Vec::new() },
        };
        crate::init::init(&mut sim.entities, &mut sim.sites, &mut sim.prototypes, 2704);
        sim.tick(&TickRequest::idle());
        sim
    }

    /// Run one simulation step and hand back the requested view.
    pub fn tick(&mut self, request: &TickRequest) -> (r: SimView)
        requires
            old(self).wf(),
        ensures
            final(self).wf(),
            tick_ensures(*old(self), *final(self), *request, r),
    {
        tick(self, request)
    }

}

/// Rebuild the action list for the current subject and target.
fn determine_available_actions(sim: &mut Simulation)
    requires
        old(sim).wf(),
    ensures
        final(sim).wf(),
        final(sim).spec_entities() == old(sim).spec_entities(),
        final(sim).spec_sites() == old(sim).spec_sites(),
        final(sim).spec_turn() == old(sim).spec_turn(),
        final(sim).spec_selected() == old(sim).spec_selected(),
        final(sim).spec_active() == old(sim).spec_active(),
        final(sim).spec_prototypes() == old(sim).spec_prototypes(),
        describes_actions(
            final(sim).spec_actions(),
            final(sim).spec_has_any(),
            old(sim).spec_entities(),
            old(sim).spec_prototypes(),
            old(sim).spec_active(),
            old(sim).spec_selected(),
        ),
{
    let active = sim.active_agent;
    let selected = sim.interaction.selected_entity;
    let mut actions = AvailableActions { has_any: false, list: Vec::new() };
    let has_subject_and_object = !active.is_null() && !selected.is_null();
    actions.has_any = has_subject_and_object;
    if has_subject_and_object {
        actions.list.push(Action { name: "Test Action".to_owned(), spawn_prototype: None });
        let target = sim.entities.index(selected);
        if target.flags.get(Flag::IsPerson) {
            actions.list.push(Action { name: "Kiss".to_owned(), spawn_prototype: None });
        }
        if target.flags.get(Flag::IsLocation) {
            match sim.prototypes.lookup("bonheddwr") {
                Some(p) => {
                    let proto = clone_prototype(p);
                    if !proto.has_faction {
                        let args = PrototypeArgs {
                            location: selected,
                            faction: EntityId::null(),
                        };
                        actions.list.push(
                            Action {
                                name: "Recruit".to_owned(),
                                spawn_prototype: Some((proto, args)),
                            },
                        );
                    }
                },
                None => {},
            }
        }
    }
    proof {
        assert forall|k: int|
            0 <= k < actions.list@.len() implies ((#[trigger] actions.list@[k]).spawn_prototype
            matches Some(pa) ==> ((pa.0.has_location ==> pa.1.location != null_entity()
            && sim.entities.valid(pa.1.location)) && (pa.0.has_faction ==> pa.1.faction
            != null_entity() && sim.entities.valid(pa.1.faction)))) by {}
    }
    sim.available_actions = actions;
}

/// Apply one interaction: update the selection, or run the chosen action.
/// A reference that does not resolve, or an action index out of range, is
/// skipped, never fatal.
fn handle_interaction(sim: &mut Simulation, interacted_with: ObjectId)
    requires
        old(sim).wf(),
    ensures
        final(sim).wf(),
        final(sim).spec_turn() == old(sim).spec_turn(),
        final(sim).spec_active() == old(sim).spec_active(),
        final(sim).spec_actions() == old(sim).spec_actions(),
        final(sim).spec_has_any() == old(sim).spec_has_any(),
        forall|e: EntityId|
            old(sim).spec_entities().valid(e) ==> final(sim).spec_entities().valid(e)
                && crate::entities::same_non_hier(
                final(sim).spec_entities().rec(e),
                old(sim).spec_entities().rec(e),
            ),
        interacted_with.0 is Null ==> final(sim).spec_selected() == null_entity()
            && final(sim).spec_entities() == old(sim).spec_entities(),
        interacted_with.0 matches ObjectHandle::Entity(id) ==> final(sim).spec_selected() == (
        if old(sim).spec_entities().valid(id) {
            id
        } else {
            null_entity()
        }) && final(sim).spec_entities() == old(sim).spec_entities(),
        (interacted_with.0 is Site || interacted_with.0 is Global) ==> *final(sim) == *old(sim),
        interacted_with.0 matches ObjectHandle::AvailableAction(idx) ==> {
            &&& final(sim).spec_selected() == old(sim).spec_selected()
            &&& (idx >= old(sim).spec_actions().len() ==> *final(sim) == *old(sim))
            &&& (idx < old(sim).spec_actions().len() && old(sim).spec_actions()[idx as int]
                .spawn_prototype is None ==> *final(sim) == *old(sim))
            &&& (idx < old(sim).spec_actions().len() ==> (old(sim).spec_actions()[idx as int]
                .spawn_prototype matches Some(pa) ==> old(sim).spec_entities().slot_count()
                < 0xFFFF_FFFE ==> exists|e: EntityId|
                {
                    &&& !old(sim).spec_entities().valid(e)
                    &&& #[trigger] final(sim).spec_entities().valid(e)
                    &&& final(sim).spec_entities().rec(e).name@ == pa.0.name@
                    &&& final(sim).spec_entities().rec(e).kind_name@ == pa.0.kind@
                    &&& final(sim).spec_entities().rec(e).flags
                        == crate::entities::Flags::spec_none().spec_set_all(pa.0.flags@, true)
                    &&& final(sim).spec_entities().parent_of(HierarchyName::PlaceOf, e) == (
                    if pa.0.has_location {
                        pa.1.location
                    } else {
                        null_entity()
                    })
                    &&& final(sim).spec_entities().parent_of(HierarchyName::Faction, e) == (
                    if pa.0.has_faction {
                        pa.1.faction
                    } else {
                        null_entity()
                    })
                }))
        },
{
    let mut rng = rng_from_seed(sim.turn_number.wrapping_mul(13).wrapping_add(2732));
    match interacted_with.0 {
        ObjectHandle::Null => {
            sim.interaction.selected_entity = EntityId::null();
        },
        ObjectHandle::Entity(id) => {
            if sim.entities.is_valid(id) {
                sim.interaction.selected_entity = id;
            } else {
                sim.interaction.selected_entity = EntityId::null();
            }
        },
        ObjectHandle::AvailableAction(idx) => {
            if idx < sim.available_actions.list.len() {
                match &sim.available_actions.list[idx].spawn_prototype {
                    Some((proto, args)) => {
                        if sim.entities.len() < 0xFFFF_FFFE {
                            let args2 = *args;
                            let spawned = proto.spawn(
                                &mut sim.entities,
                                &mut sim.sites,
                                &mut rng,
                                &args2,
                            );
                            proof {
                                assert(final(sim).spec_entities().valid(spawned));
                            }
                        }
                    },
                    None => {},
                }
            }
        },
        _ => {},
    }
}

fn tick(sim: &mut Simulation, request: &TickRequest) -> (r: SimView)
    requires
        old(sim).wf(),
    ensures
        final(sim).wf(),
        tick_ensures(*old(sim), *final(sim), *request, r),
{
    if request.end_turn && sim.turn_number < u64::MAX {
        sim.turn_number = sim.turn_number + 1;
    }
    match request.make_active {
        Some(object) => {
            match object.as_entity() {
                Some(id) => {
                    if sim.entities.is_valid(id) {
                        sim.active_agent = id;
                    } else {
                        sim.active_agent = EntityId::null();
                    }
                },
                None => {},
            }
        },
        None => {},
    }
    let ghost s0 = *old(sim);
    sim.entities.refresh_colours();
    let ghost s2 = *sim;
    proof {
        // Colour refresh leaves validity and flags alone, so the action
        // list the next step builds reads the same subject and target.
        let sel = s0.spec_selected();
        let se = s0.spec_entities();
        let s2e = s2.spec_entities();
        crate::entities::lemma_dummy_valid(se);
        if se.valid(sel) {
            assert(s2e.rec(sel).flags == se.rec(sel).flags);
        }
        assert(s2e.rec(se.dummy_id()).flags == se.rec(se.dummy_id()).flags);
        assert(s2e.resolve(sel).flags == se.resolve(sel).flags);
    }
    determine_available_actions(sim);
    proof {
        assert(describes_actions(
            sim.spec_actions(),
            sim.spec_has_any(),
            s0.spec_entities(),
            s0.spec_prototypes(),
            sim.spec_active(),
            s0.spec_selected(),
        ));
    }
    match request.interacted_with_object {
        Some(object) => {
            handle_interaction(sim, object);
        },
        None => {},
    }
    if request.view.enabled {
        extract(
            &sim.entities,
            &sim.sites,
            sim.turn_number,
            &request.view.map_viewport,
            sim.interaction.selected_entity,
        )
    } else {
        SimView::empty()
    }
}

/// Everything one tick promises of the world and the returned view: the
/// turn counter and active subject are updated as requested, colour is
/// inherited one level, the action list describes the subject/target pair,
/// the interaction is applied, and the view is empty or culled as asked.
pub open spec fn tick_ensures(
    pre: Simulation,
    post: Simulation,
    request: TickRequest,
    r: SimView,
) -> bool {
    let active = active_after(request.make_active, pre.spec_entities(), pre.spec_active());
    &&& r.root.wf()
    &&& r.selected.wf()
    // Step 1: turn and subject.
    &&& (request.end_turn && pre.spec_turn() < u64::MAX ==> post.spec_turn() == pre.spec_turn()
        + 1)
    &&& (request.end_turn && pre.spec_turn() == u64::MAX ==> post.spec_turn() == pre.spec_turn())
    &&& (!request.end_turn ==> post.spec_turn() == pre.spec_turn())
    &&& post.spec_active() == active
    // Step 2: colour inheritance, one level per tick.
    &&& forall|e: EntityId|
        pre.spec_entities().valid(e) ==> post.spec_entities().valid(e)
    &&& forall|e: EntityId|
        pre.spec_entities().valid(e) ==> (#[trigger] post.spec_entities().rec(e)).color == (
        if pre.spec_entities().rec(e).color.dirty {
            crate::entities::EntityColor {
                current: pre.spec_entities().resolve(
                    pre.spec_entities().parent_of(HierarchyName::Faction, e),
                ).color.current,
                dirty: pre.spec_entities().resolve(
                    pre.spec_entities().parent_of(HierarchyName::Faction, e),
                ).color.dirty,
            }
        } else {
            pre.spec_entities().rec(e).color
        })
    // Step 3: the action list for the (subject, target) pair.
    &&& describes_actions(
        post.spec_actions(),
        post.spec_has_any(),
        pre.spec_entities(),
        pre.spec_prototypes(),
        active,
        pre.spec_selected(),
    )
    // Step 4: the interaction.
    &&& (request.interacted_with_object is None ==> post.spec_selected() == pre.spec_selected())
    &&& (request.interacted_with_object matches Some(o) ==> {
        &&& (o.0 is Null ==> post.spec_selected() == null_entity())
        &&& (o.0 matches ObjectHandle::Entity(id) ==> post.spec_selected() == (
        if pre.spec_entities().valid(id) {
            id
        } else {
            null_entity()
        }))
        &&& (!(o.0 is Null) && !(o.0 is Entity) ==> post.spec_selected() == pre.spec_selected())
        &&& (o.0 matches ObjectHandle::AvailableAction(idx) ==> idx < post.spec_actions().len()
            ==> (post.spec_actions()[idx as int].spawn_prototype matches Some(pa)
            ==> pre.spec_entities().slot_count() < 0xFFFF_FFFE ==> exists|e: EntityId|
            {
                &&& !pre.spec_entities().valid(e)
                &&& #[trigger] post.spec_entities().valid(e)
                &&& post.spec_entities().rec(e).name@ == pa.0.name@
                &&& post.spec_entities().rec(e).kind_name@ == pa.0.kind@
                &&& post.spec_entities().rec(e).flags
                    == crate::entities::Flags::spec_none().spec_set_all(pa.0.flags@, true)
                &&& post.spec_entities().parent_of(HierarchyName::PlaceOf, e) == (
                if pa.0.has_location {
                    pa.1.location
                } else {
                    null_entity()
                })
                &&& post.spec_entities().parent_of(HierarchyName::Faction, e) == (
                if pa.0.has_faction {
                    pa.1.faction
                } else {
                    null_entity()
                })
            }))
    })
    // Step 5: the view, culled to the viewport or empty.
    &&& (!request.view.enabled ==> {
        &&& r.map_items@.len() == 0
        &&& r.map_lines@.len() == 0
        &&& forall|k: Seq<char>, v: crate::object::Value| !r.root.maps(k, v)
        &&& forall|k: Seq<char>, v: crate::object::Value| !r.selected.maps(k, v)
    })
    &&& (request.view.enabled ==> {
        &&& forall|k: int|
            0 <= k < r.map_items@.len() ==> request.view.map_viewport.spec_contains(
                (#[trigger] r.map_items@[k]).pos,
            )
        &&& forall|k: int|
            0 <= k < r.map_lines@.len() ==> (request.view.map_viewport.spec_contains(
                (#[trigger] r.map_lines@[k]).0,
            ) || request.view.map_viewport.spec_contains(r.map_lines@[k].1))
    })
}

} // verus!
