//! Snapshot extraction: the read-only view of the world handed to a
//! presentation layer.
//!
//! The view holds flat lists for map rendering — positioned items and edge
//! lines, both culled against the viewport — plus snapshot objects for the
//! global pseudo-entity and the current selection. Nothing in it refers
//! back to live storage.

use vstd::prelude::*;

use crate::entities::Entities;
use crate::entities::RGB;
use crate::geom::Extents;
use crate::geom::Pos;
use crate::ids::null_entity;
use crate::ids::EntityId;
use crate::ids::SiteId;
use crate::object::Object;
use crate::object::ObjectHandle;
use crate::object::ObjectId;
use crate::object::Value;
use crate::sites::Sites;
use crate::snapshot::extract_object;

verus! {

/// One positioned thing to draw: an unbound site or a bound entity.
pub struct MapItem {
    pub id: ObjectId,
    pub name: String,
    pub color: RGB,
    pub image: String,
    pub pos: Pos,
    /// Display size in hundredths of a map unit.
    pub size: u32,
    /// Background sites draw below foreground entities.
    pub layer: u8,
}

/// The immutable result of one extraction.
pub struct SimView {
    pub map_lines: Vec<(Pos, Pos)>,
    pub map_items: Vec<MapItem>,
    pub root: Object,
    pub selected: Object,
}

impl SimView {
    pub fn empty() -> (r: SimView)
        ensures
            r.map_lines@.len() == 0,
            r.map_items@.len() == 0,
            r.root.wf(),
            r.selected.wf(),
            forall|k: Seq<char>, v: Value| !r.root.maps(k, v),
            forall|k: Seq<char>, v: Value| !r.selected.maps(k, v),
    {
        SimView {
            map_lines: Vec::new(),
            map_items: Vec::new(),
            root: Object::new(),
            selected: Object::new(),
        }
    }
}

/// What the drawn edge list is: in step with a sequence of canonical site
/// pairs, each a real undirected edge with at least one visible endpoint,
/// no edge twice, and every half-visible edge present.
pub open spec fn lines_match(
    g: crate::graph2d::Graph2D,
    edges: Seq<(SiteId, SiteId)>,
    lines: Seq<(Pos, Pos)>,
    viewport: Extents,
) -> bool {
    &&& edges.len() == lines.len()
    &&& forall|k: int|
        0 <= k < edges.len() ==> {
            let (a, b) = #[trigger] edges[k];
            &&& g.adjacent(a, b)
            &&& a.idx < b.idx
            &&& lines[k] == (g.pos_of(a), g.pos_of(b))
            &&& (viewport.spec_contains(g.pos_of(a)) || viewport.spec_contains(g.pos_of(b)))
        }
    &&& forall|k1: int, k2: int| 0 <= k1 < k2 < edges.len() ==> edges[k1] != edges[k2]
    &&& forall|a: SiteId, b: SiteId|
        g.adjacent(a, b) && a.idx < b.idx && (viewport.spec_contains(g.pos_of(a))
            || viewport.spec_contains(g.pos_of(b))) ==> edges.contains((a, b))
}

/// The map edges to draw: each undirected edge exactly once, in canonical
/// orientation, kept exactly when at least one endpoint lies inside the
/// viewport.
pub fn map_view_lines(sites: &Sites, viewport: &Extents) -> (r: Vec<(Pos, Pos)>)
    requires
        sites.wf(),
    ensures
        exists|edges: Seq<(SiteId, SiteId)>|
            lines_match(sites.spec_graph(), edges, r@, *viewport),
        forall|k: int|
            0 <= k < r@.len() ==> viewport.spec_contains((#[trigger] r@[k]).0)
                || viewport.spec_contains(r@[k].1),
{
    let ghost g = sites.spec_graph();
    let mut out: Vec<(Pos, Pos)> = Vec::new();
    let mut edges: Ghost<Seq<(SiteId, SiteId)>> = Ghost(Seq::empty());
    let graph = sites.graph();
    let nodes = graph.nodes();
    let mut i: usize = 0;
    while i < nodes.len()
        invariant
            sites.wf(),
            *graph == g,
            g == sites.spec_graph(),
            graph.wf(),
            i <= nodes@.len(),
            nodes@.len() == graph.node_count(),
            nodes@.len() <= crate::graph2d::MAX_SITES,
            forall|n: int|
                0 <= n < nodes@.len() ==> (#[trigger] nodes@[n]).id == crate::graph2d::site_at(n)
                    && nodes@[n].pos == g.pos_of(crate::graph2d::site_at(n)),
            edges@.len() == out@.len(),
            forall|k: int|
                0 <= k < edges@.len() ==> {
                    let (a, b) = #[trigger] edges@[k];
                    &&& g.adjacent(a, b)
                    &&& a.idx < b.idx
                    &&& (a.idx as int) < i
                    &&& out@[k] == (g.pos_of(a), g.pos_of(b))
                    &&& (viewport.spec_contains(g.pos_of(a)) || viewport.spec_contains(
                        g.pos_of(b),
                    ))
                },
            forall|k1: int, k2: int| 0 <= k1 < k2 < edges@.len() ==> edges@[k1] != edges@[k2],
            forall|a: SiteId, b: SiteId|
                g.adjacent(a, b) && a.idx < b.idx && (a.idx as int) < i && (
                viewport.spec_contains(g.pos_of(a)) || viewport.spec_contains(g.pos_of(b)))
                    ==> edges@.contains((a, b)),
        decreases nodes@.len() - i,
    {
        let src = nodes[i].id;
        let src_pos = nodes[i].pos;
        let parent_in = viewport.contains(src_pos);
        let greater = graph.greater_neighbours(src);
        let ghost edges_base = edges@;
        let mut j: usize = 0;
        while j < greater.len()
            invariant
                sites.wf(),
                *graph == g,
                graph.wf(),
                g.valid(src),
                src == crate::graph2d::site_at(i as int),
                (src.idx as int) == i as int,
                src_pos == g.pos_of(src),
                parent_in == viewport.spec_contains(src_pos),
                j <= greater@.len(),
                greater@ == g.neighbours_of(src).filter(
                    |n: crate::graph2d::Neighbour| n.id.idx > src.idx,
                ),
                forall|k1: int, k2: int|
                    0 <= k1 < k2 < greater@.len() ==> (#[trigger] greater@[k1]).id != (
                    #[trigger] greater@[k2]).id,
                forall|k: int|
                    0 <= k < greater@.len() ==> (#[trigger] greater@[k]).id.idx > src.idx
                        && g.neighbours_of(src).contains(greater@[k]),
                forall|j2: int|
                    0 <= j2 < g.neighbours_of(src).len() && (#[trigger] g.neighbours_of(src)[
                    j2]).id.idx > src.idx ==> greater@.contains(g.neighbours_of(src)[j2]),
                edges@.len() == out@.len(),
                edges_base.len() <= edges@.len(),
                forall|k: int| 0 <= k < edges_base.len() ==> edges@[k] == edges_base[k],
                forall|k: int|
                    0 <= k < edges_base.len() ==> (#[trigger] edges_base[k]).0.idx < i,
                forall|k: int|
                    edges_base.len() <= k < edges@.len() ==> (#[trigger] edges@[k]).0 == src
                        && exists|j2: int| 0 <= j2 < j && edges@[k].1 == (#[trigger] greater@[
                        j2]).id,
                forall|k: int|
                    0 <= k < edges@.len() ==> {
                        let (a, b) = #[trigger] edges@[k];
                        &&& g.adjacent(a, b)
                        &&& a.idx < b.idx
                        &&& out@[k] == (g.pos_of(a), g.pos_of(b))
                        &&& (viewport.spec_contains(g.pos_of(a)) || viewport.spec_contains(
                            g.pos_of(b),
                        ))
                    },
                forall|k1: int, k2: int|
                    0 <= k1 < k2 < edges@.len() ==> edges@[k1] != edges@[k2],
                forall|a: SiteId, b: SiteId|
                    g.adjacent(a, b) && a.idx < b.idx && (a.idx as int) < i && (
                    viewport.spec_contains(g.pos_of(a)) || viewport.spec_contains(g.pos_of(b)))
                        ==> edges@.contains((a, b)),
                forall|j2: int|
                    0 <= j2 < j && (viewport.spec_contains(src_pos) || viewport.spec_contains(
                        g.pos_of((#[trigger] greater@[j2]).id),
                    )) ==> edges@.contains((src, greater@[j2].id)),
            decreases greater@.len() - j,
        {
            let n = greater[j];
            proof {
                assert(g.neighbours_of(src).contains(n));
                crate::graph2d::lemma_member_adjacent(g, src, n);
                crate::graph2d::lemma_adjacent_valid(g, src, n.id);
            }
            let ghost edges0 = edges@;
            match graph.get(n.id) {
                Some(dest) => {
                    let child_in = viewport.contains(dest.pos);
                    if parent_in || child_in {
                        out.push((src_pos, dest.pos));
                        edges = Ghost(edges@.push((src, n.id)));
                        proof {
                            assert(edges@[edges@.len() - 1] == (src, n.id));
                            assert forall|k1: int, k2: int|
                                0 <= k1 < k2 < edges@.len() implies edges@[k1] != edges@[k2] by {
                                if k2 == edges@.len() - 1 {
                                    if k1 < edges_base.len() {
                                        assert(edges@[k1].0.idx < i);
                                    } else {
                                        let j2 = choose|j2: int|
                                            0 <= j2 < j && edges0[k1].1 == (#[trigger] greater@[
                                            j2]).id;
                                        assert(greater@[j2].id != greater@[j as int].id);
                                    }
                                }
                            }
                            assert forall|k: int|
                                edges_base.len() <= k < edges@.len() implies (
                            #[trigger] edges@[k]).0 == src && exists|j2: int|
                                0 <= j2 < j + 1 && edges@[k].1 == (#[trigger] greater@[
                                j2]).id by {
                                if k < edges@.len() - 1 {
                                    let j2 = choose|j2: int|
                                        0 <= j2 < j && edges0[k].1 == (#[trigger] greater@[
                                        j2]).id;
                                    assert(edges@[k].1 == greater@[j2].id);
                                } else {
                                    assert(edges@[k].1 == greater@[j as int].id);
                                }
                            }
                            assert forall|a: SiteId, b: SiteId|
                                g.adjacent(a, b) && a.idx < b.idx && (a.idx as int) < i && (
                                viewport.spec_contains(g.pos_of(a)) || viewport.spec_contains(
                                    g.pos_of(b),
                                )) implies edges@.contains((a, b)) by {
                                let k = choose|k: int|
                                    0 <= k < edges0.len() && edges0[k] == (a, b);
                                assert(edges@[k] == (a, b));
                            }
                        }
                    }
                },
                None => {
                    proof {
                        assert(false);
                    }
                },
            }
            proof {
                assert forall|j2: int|
                    0 <= j2 < j + 1 && (viewport.spec_contains(src_pos)
                        || viewport.spec_contains(g.pos_of((#[trigger] greater@[j2]).id)))
                    implies edges@.contains((src, greater@[j2].id)) by {
                    if j2 < j {
                        let k = choose|k: int|
                            0 <= k < edges0.len() && edges0[k] == (src, greater@[j2].id);
                        assert(edges@[k] == (src, greater@[j2].id));
                    } else {
                        assert(edges@[edges@.len() - 1] == (src, greater@[j2].id));
                    }
                }
            }
            j = j + 1;
        }
        proof {
            assert forall|a: SiteId, b: SiteId|
                g.adjacent(a, b) && a.idx < b.idx && (a.idx as int) < i + 1 && (
                viewport.spec_contains(g.pos_of(a)) || viewport.spec_contains(g.pos_of(b)))
                implies edges@.contains((a, b)) by {
                if (a.idx as int) < i {
                    let k = choose|k: int|
                        0 <= k < edges_base.len() && edges_base[k] == (a, b);
                    assert(edges@[k] == (a, b));
                } else {
                    crate::graph2d::lemma_adjacent_valid(g, a, b);
                    assert(a.idx as int == i as int);
                    assert(a.gen == 1);
                    assert(a == src);
                    crate::graph2d::lemma_adjacent_member(g, src, b);
                    let m = choose|m: int|
                        0 <= m < g.neighbours_of(src).len() && (#[trigger] g.neighbours_of(src)[
                        m]).id == b;
                    assert(g.neighbours_of(src)[m].id.idx > src.idx);
                    assert(greater@.contains(g.neighbours_of(src)[m]));
                    let j2 = choose|j2: int|
                        0 <= j2 < greater@.len() && greater@[j2] == g.neighbours_of(src)[m];
                    assert(g.pos_of(greater@[j2].id) == g.pos_of(b));
                    assert(edges@.contains((src, greater@[j2].id)));
                }
            }
        }
        i = i + 1;
    }
    proof {
        assert forall|a: SiteId, b: SiteId|
            g.adjacent(a, b) && a.idx < b.idx && (viewport.spec_contains(g.pos_of(a))
                || viewport.spec_contains(g.pos_of(b))) implies edges@.contains((a, b)) by {
            crate::graph2d::lemma_adjacent_valid(g, a, b);
        }
        assert(lines_match(g, edges@, out@, *viewport));
        assert forall|k: int|
            0 <= k < out@.len() implies viewport.spec_contains((#[trigger] out@[k]).0)
                || viewport.spec_contains(out@[k].1) by {
            let (a, b) = edges@[k];
            assert(out@[k] == (g.pos_of(a), g.pos_of(b)));
        }
    }
    out
}

/// The positioned items to draw: every unbound site inside the viewport on
/// the background layer, and every entity bound to a visible site above
/// them, carrying its record's name, colour, sprite and size. An entity
/// bound to a site outside the viewport never appears.
pub fn map_view_items(entities: &Entities, sites: &Sites, viewport: &Extents) -> (r: Vec<MapItem>)
    requires
        entities.wf(),
        sites.wf(),
    ensures
        forall|k: int| 0 <= k < r@.len() ==> viewport.spec_contains((#[trigger] r@[k]).pos),
        forall|k: int|
            0 <= k < r@.len() ==> ((#[trigger] r@[k]).id.0 is Site || r@[k].id.0 is Entity),
        forall|k: int|
            0 <= k < r@.len() ==> ((#[trigger] r@[k]).id.0 matches ObjectHandle::Site(s) ==> {
                &&& sites.valid(s)
                &&& sites.bound_entity_of(s) == null_entity()
                &&& r@[k].pos == sites.spec_graph().pos_of(s)
                &&& r@[k].layer == 0
            }),
        forall|k: int|
            0 <= k < r@.len() ==> ((#[trigger] r@[k]).id.0 matches ObjectHandle::Entity(e) ==> {
                &&& entities.valid(e)
                &&& sites.valid(entities.rec(e).bound_site)
                &&& r@[k].pos == sites.spec_graph().pos_of(entities.rec(e).bound_site)
                &&& r@[k].name == entities.rec(e).name
                &&& r@[k].color == entities.rec(e).color.current
                &&& r@[k].image == entities.rec(e).sprite
                &&& r@[k].size == entities.rec(e).size
                &&& r@[k].layer == 1
            }),
        forall|s: SiteId|
            sites.valid(s) && sites.bound_entity_of(s) == null_entity()
                && viewport.spec_contains(sites.spec_graph().pos_of(s)) ==> exists|k: int|
                0 <= k < r@.len() && (#[trigger] r@[k]).id == ObjectId(ObjectHandle::Site(s)),
        forall|e: EntityId|
            entities.valid(e) && sites.valid(entities.rec(e).bound_site)
                && viewport.spec_contains(
                sites.spec_graph().pos_of(entities.rec(e).bound_site),
            ) ==> exists|k: int|
                0 <= k < r@.len() && (#[trigger] r@[k]).id == ObjectId(ObjectHandle::Entity(e)),
        forall|k1: int, k2: int|
            0 <= k1 < k2 < r@.len() ==> (#[trigger] r@[k1]).layer <= (#[trigger] r@[k2]).layer,
{
    let mut out: Vec<MapItem> = Vec::new();
    let count = sites.graph().nodes().len();
    let mut i: usize = 0;
    while i < count
        invariant
            entities.wf(),
            sites.wf(),
            i <= count,
            count == sites.spec_graph().node_count(),
            count <= crate::graph2d::MAX_SITES,
            forall|k: int|
                0 <= k < out@.len() ==> viewport.spec_contains((#[trigger] out@[k]).pos),
            forall|k: int| 0 <= k < out@.len() ==> (#[trigger] out@[k]).id.0 is Site,
            forall|k: int| 0 <= k < out@.len() ==> (#[trigger] out@[k]).layer == 0,
            forall|k: int|
                0 <= k < out@.len() ==> ((#[trigger] out@[k]).id.0 matches ObjectHandle::Site(s)
                    ==> {
                    &&& sites.valid(s)
                    &&& sites.bound_entity_of(s) == null_entity()
                    &&& out@[k].pos == sites.spec_graph().pos_of(s)
                }),
            forall|s: SiteId|
                sites.valid(s) && (s.idx as int) < i && sites.bound_entity_of(s) == null_entity()
                    && viewport.spec_contains(sites.spec_graph().pos_of(s)) ==> exists|k: int|
                    0 <= k < out@.len() && (#[trigger] out@[k]).id == ObjectId(
                        ObjectHandle::Site(s),
                    ),
        decreases count - i,
    {
        let site = SiteId { idx: i as u32, gen: 1 };
        let ghost out0 = out@;
        let bound = sites.bound_entity(site);
        if bound.is_null() {
            let pos = sites.pos_of(site);
            if viewport.contains(pos) {
                out.push(
                    MapItem {
                        id: ObjectId(ObjectHandle::Site(site)),
                        name: String::new(),
                        color: RGB { r: 130, g: 130, b: 130 },
                        image: String::new(),
                        pos,
                        size: 100,
                        layer: 0,
                    },
                );
            }
        }
        proof {
            assert forall|s: SiteId|
                sites.valid(s) && (s.idx as int) < i + 1 && sites.bound_entity_of(s)
                    == null_entity() && viewport.spec_contains(
                    sites.spec_graph().pos_of(s),
                ) implies exists|k: int|
                0 <= k < out@.len() && (#[trigger] out@[k]).id == ObjectId(
                    ObjectHandle::Site(s),
                ) by {
                if (s.idx as int) < i {
                    let k = choose|k: int|
                        0 <= k < out0.len() && (#[trigger] out0[k]).id == ObjectId(
                            ObjectHandle::Site(s),
                        );
                    assert(out@[k].id == ObjectId(ObjectHandle::Site(s)));
                } else {
                    assert(s == site);
                    assert(out@[out@.len() - 1].id == ObjectId(ObjectHandle::Site(s)));
                }
            }
        }
        i = i + 1;
    }
    let ghost site_count = out@.len();
    let ids = entities.ids();
    let mut j: usize = 0;
    while j < ids.len()
        invariant
            entities.wf(),
            sites.wf(),
            j <= ids@.len(),
            site_count <= out@.len(),
            forall|k: int| 0 <= k < ids@.len() ==> entities.valid(#[trigger] ids@[k]),
            forall|e: EntityId| entities.valid(e) ==> ids@.contains(e),
            forall|k: int|
                0 <= k < out@.len() ==> viewport.spec_contains((#[trigger] out@[k]).pos),
            forall|k: int|
                0 <= k < out@.len() ==> ((#[trigger] out@[k]).id.0 is Site || out@[k].id.0
                    is Entity),
            forall|k: int|
                0 <= k < site_count ==> (#[trigger] out@[k]).id.0 is Site && out@[k].layer == 0,
            forall|k: int|
                site_count <= k < out@.len() ==> (#[trigger] out@[k]).id.0 is Entity && out@[
                k].layer == 1,
            forall|k: int|
                0 <= k < out@.len() ==> ((#[trigger] out@[k]).id.0 matches ObjectHandle::Site(s)
                    ==> {
                    &&& sites.valid(s)
                    &&& sites.bound_entity_of(s) == null_entity()
                    &&& out@[k].pos == sites.spec_graph().pos_of(s)
                }),
            forall|s: SiteId|
                sites.valid(s) && sites.bound_entity_of(s) == null_entity()
                    && viewport.spec_contains(sites.spec_graph().pos_of(s)) ==> exists|k: int|
                    0 <= k < out@.len() && (#[trigger] out@[k]).id == ObjectId(
                        ObjectHandle::Site(s),
                    ),
            forall|k: int|
                0 <= k < out@.len() ==> ((#[trigger] out@[k]).id.0 matches ObjectHandle::Entity(
                    e,
                ) ==> {
                    &&& entities.valid(e)
                    &&& sites.valid(entities.rec(e).bound_site)
                    &&& out@[k].pos == sites.spec_graph().pos_of(entities.rec(e).bound_site)
                    &&& out@[k].name == entities.rec(e).name
                    &&& out@[k].color == entities.rec(e).color.current
                    &&& out@[k].image == entities.rec(e).sprite
                    &&& out@[k].size == entities.rec(e).size
                }),
            forall|m: int|
                0 <= m < j && entities.valid(#[trigger] ids@[m]) && sites.valid(
                    entities.rec(ids@[m]).bound_site,
                ) && viewport.spec_contains(
                    sites.spec_graph().pos_of(entities.rec(ids@[m]).bound_site),
                ) ==> exists|k: int|
                    0 <= k < out@.len() && (#[trigger] out@[k]).id == ObjectId(
                        ObjectHandle::Entity(ids@[m]),
                    ),
        decreases ids@.len() - j,
    {
        let e = ids[j];
        let ghost out0 = out@;
        let d = entities.get(e).unwrap();
        let bound = d.bound_site;
        if !bound.is_null() && sites.graph().get(bound).is_some() {
            let pos = sites.pos_of(bound);
            if viewport.contains(pos) {
                out.push(
                    MapItem {
                        id: ObjectId(ObjectHandle::Entity(e)),
                        name: d.name.clone(),
                        color: d.color.current,
                        image: d.sprite.clone(),
                        pos,
                        size: d.size,
                        layer: 1,
                    },
                );
            }
        }
        proof {
            assert forall|m: int|
                0 <= m < j + 1 && entities.valid(#[trigger] ids@[m]) && sites.valid(
                    entities.rec(ids@[m]).bound_site,
                ) && viewport.spec_contains(
                    sites.spec_graph().pos_of(entities.rec(ids@[m]).bound_site),
                ) implies exists|k: int|
                0 <= k < out@.len() && (#[trigger] out@[k]).id == ObjectId(
                    ObjectHandle::Entity(ids@[m]),
                ) by {
                if m < j {
                    let k = choose|k: int|
                        0 <= k < out0.len() && (#[trigger] out0[k]).id == ObjectId(
                            ObjectHandle::Entity(ids@[m]),
                        );
                    assert(out@[k].id == ObjectId(ObjectHandle::Entity(ids@[m])));
                } else {
                    assert(ids@[m] == e);
                    assert(sites.valid(entities.rec(e).bound_site));
                    assert(out@[out@.len() - 1].id == ObjectId(ObjectHandle::Entity(e)));
                }
            }
            assert forall|s: SiteId|
                sites.valid(s) && sites.bound_entity_of(s) == null_entity()
                    && viewport.spec_contains(sites.spec_graph().pos_of(s)) implies exists|
                k: int,
            |
                0 <= k < out@.len() && (#[trigger] out@[k]).id == ObjectId(
                    ObjectHandle::Site(s),
                ) by {
                let k = choose|k: int|
                    0 <= k < out0.len() && (#[trigger] out0[k]).id == ObjectId(
                        ObjectHandle::Site(s),
                    );
                assert(out@[k].id == ObjectId(ObjectHandle::Site(s)));
            }
        }
        j = j + 1;
    }
    proof {
        assert forall|e: EntityId|
            entities.valid(e) && sites.valid(entities.rec(e).bound_site)
                && viewport.spec_contains(
                sites.spec_graph().pos_of(entities.rec(e).bound_site),
            ) implies exists|k: int|
            0 <= k < out@.len() && (#[trigger] out@[k]).id == ObjectId(
                ObjectHandle::Entity(e),
            ) by {
            assert(ids@.contains(e));
            let m = choose|m: int| 0 <= m < ids@.len() && ids@[m] == e;
        }
        assert forall|k1: int, k2: int|
            0 <= k1 < k2 < out@.len() implies (#[trigger] out@[k1]).layer <= (
        #[trigger] out@[k2]).layer by {
            if k2 < site_count {
            } else if k1 < site_count {
            }
        }
    }
    out
}

/// Build the full view: culled map items and edges, the global snapshot,
/// and the selected entity's snapshot.
pub fn extract(
    entities: &Entities,
    sites: &Sites,
    turn_number: u64,
    viewport: &Extents,
    selected: EntityId,
) -> (r: SimView)
    requires
        entities.wf(),
        sites.wf(),
        selected == null_entity() || entities.valid(selected),
    ensures
        r.root.wf(),
        r.selected.wf(),
        forall|k: int|
            0 <= k < r.map_items@.len() ==> viewport.spec_contains(
                (#[trigger] r.map_items@[k]).pos,
            ),
        forall|k: int|
            0 <= k < r.map_lines@.len() ==> viewport.spec_contains((#[trigger] r.map_lines@[k]).0)
                || viewport.spec_contains(r.map_lines@[k].1),
{
    let map_items = map_view_items(entities, sites, viewport);
    let map_lines = map_view_lines(sites, viewport);
    let root = extract_object(entities, turn_number, ObjectId::global());
    let selected_id = if selected.is_null() {
        ObjectId::null()
    } else {
        ObjectId::entity(selected)
    };
    let selected_obj = extract_object(entities, turn_number, selected_id);
    SimView { map_lines, map_items, root, selected: selected_obj }
}







} // verus!
