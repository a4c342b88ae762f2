//! Named sites: the spatial graph plus per-site bookkeeping and tags.

use vstd::prelude::*;

use crate::geom::Pos;
use crate::graph2d::Graph2D;
use crate::graph2d::MAX_SITES;
use crate::ids::null_entity;
use crate::ids::EntityId;
use crate::ids::SiteId;
use crate::tags::Tags;

verus! {

/// Per-site bookkeeping: the entity bound to the site, if any.
pub struct SiteData {
    pub id: SiteId,
    pub bound_entity: EntityId,
}

pub struct Sites {
    graph: Graph2D,
    tags: Tags,
    data: Vec<SiteData>,
}

impl Sites {
    pub closed spec fn spec_data(self) -> Seq<SiteData> {
        self.data@
    }

    /// The spatial graph as the specifications see it.
    pub closed spec fn spec_graph(self) -> Graph2D {
        self.graph
    }

    /// Read access to the spatial graph.
    pub fn graph(&self) -> (r: &Graph2D)
        requires
            self.wf(),
        ensures
            *r == self.spec_graph(),
            r.wf(),
    {
        &self.graph
    }

    /// Connect two sites in the underlying graph.
    pub fn connect(&mut self, a: SiteId, b: SiteId)
        requires
            old(self).wf(),
            old(self).valid(a),
            old(self).valid(b),
        ensures
            final(self).wf(),
            final(self).spec_graph().node_count() == old(self).spec_graph().node_count(),
            forall|id: SiteId| final(self).valid(id) <==> old(self).valid(id),
            forall|id: SiteId|
                old(self).valid(id) ==> final(self).spec_graph().pos_of(id) == old(
                    self,
                ).spec_graph().pos_of(id) && final(self).bound_entity_of(id) == old(
                    self,
                ).bound_entity_of(id),
            forall|x: SiteId, y: SiteId|
                final(self).spec_graph().adjacent(x, y) <==> (old(self).spec_graph().adjacent(
                    x,
                    y,
                ) || (x == a && y == b) || (x == b && y == a)),
            forall|t: Seq<char>, id: SiteId|
                final(self).tag_binds(t, id) <==> old(self).tag_binds(t, id),
    {
        self.graph.connect(a, b);
    }

    /// True when the registry binds tag `t` to site `id`.
    pub closed spec fn tag_binds(self, t: Seq<char>, id: SiteId) -> bool {
        self.tags.binds(t, id.spec_handle())
    }

    /// True when some binding uses tag `t`.
    pub closed spec fn has_tag(self, t: Seq<char>) -> bool {
        self.tags.has_tag(t)
    }

    /// The invariant: one bookkeeping record per graph node, records
    /// self-identify, and tags resolve to real sites.
    pub closed spec fn wf(self) -> bool {
        &&& self.graph.wf()
        &&& self.data@.len() == self.graph.node_count()
        &&& forall|i: int|
            0 <= i < self.data@.len() ==> (#[trigger] self.data@[i]).id
                == crate::graph2d::site_at(i)
        &&& self.tags.wf()
        &&& forall|t: Seq<char>, h: crate::ids::Handle|
            #[trigger] self.tags.binds(t, h) ==> self.graph.valid(SiteId { idx: h.idx, gen: h.gen })
    }

    pub open spec fn valid(self, id: SiteId) -> bool {
        self.spec_graph().valid(id)
    }

    pub closed spec fn bound_entity_of(self, id: SiteId) -> EntityId {
        self.spec_data()[id.idx as int].bound_entity
    }

    pub fn new() -> (r: Sites)
        ensures
            r.wf(),
            r.spec_graph().node_count() == 0,
    {
        Sites { graph: Graph2D::new(), tags: Tags::new(), data: Vec::new() }
    }

    /// Define a named site at `pos`, binding `tag` to the fresh handle.
    pub fn define(&mut self, tag: &str, pos: Pos) -> (r: SiteId)
        requires
            old(self).wf(),
            old(self).spec_graph().node_count() < MAX_SITES,
            pos.in_bounds(),
        ensures
            final(self).wf(),
            final(self).valid(r),
            !old(self).valid(r),
            final(self).spec_graph().node_count() == old(self).spec_graph().node_count() + 1,
            final(self).spec_graph().pos_of(r) == pos,
            final(self).bound_entity_of(r) == null_entity(),
            final(self).tag_binds(tag@, r),
            forall|id: SiteId|
                old(self).valid(id) ==> final(self).valid(id) && final(self).spec_graph().pos_of(
                    id,
                ) == old(self).spec_graph().pos_of(id) && final(self).bound_entity_of(id) == old(
                    self,
                ).bound_entity_of(id),
            forall|a: SiteId, b: SiteId|
                final(self).spec_graph().adjacent(a, b) <==> old(self).spec_graph().adjacent(
                    a,
                    b,
                ),
    {
        let id = self.graph.insert(pos);
        self.tags.insert(tag, id.to_handle());
        self.data.push(SiteData { id, bound_entity: EntityId::null() });
        proof {
            assert forall|sid: SiteId|
                old(self).valid(sid) implies final(self).bound_entity_of(sid) == old(
                self,
            ).bound_entity_of(sid) by {
                assert(self.data@[sid.idx as int] == old(self).data@[sid.idx as int]);
            }
            assert forall|t: Seq<char>, h: crate::ids::Handle|
                #[trigger] self.tags.binds(t, h) implies self.graph.valid(
                SiteId { idx: h.idx, gen: h.gen },
            ) by {
                if !(t == tag@ && h == id.spec_handle()) {
                    assert(old(self).tags.binds(t, h));
                }
            }
        }
        id
    }

    /// Resolve a tag to its site handle.
    pub fn lookup(&self, tag: &str) -> (r: Option<SiteId>)
        requires
            self.wf(),
        ensures
            match r {
                Some(id) => self.tag_binds(tag@, id) && self.valid(id),
                None => !self.has_tag(tag@),
            },
    {
        match self.tags.lookup(tag) {
            Some(h) => {
                let id = SiteId::from_handle(h);
                proof {
                    assert(self.tags.binds(tag@, h));
                }
                Some(id)
            },
            None => None,
        }
    }

    /// The position of `site`, or the far sentinel for a handle that does
    /// not resolve.
    pub fn pos_of(&self, site: SiteId) -> (r: Pos)
        requires
            self.wf(),
        ensures
            self.valid(site) ==> r == self.spec_graph().pos_of(site),
            !self.valid(site) ==> r == (Pos { x: i64::MAX, y: i64::MAX }),
    {
        match self.graph.get(site) {
            Some(n) => n.pos,
            None => Pos { x: i64::MAX, y: i64::MAX },
        }
    }

    /// The entity bound to `site`, or null.
    pub fn bound_entity(&self, site: SiteId) -> (r: EntityId)
        requires
            self.wf(),
        ensures
            self.valid(site) ==> r == self.bound_entity_of(site),
            !self.valid(site) ==> r == null_entity(),
    {
        if site.gen == 1 && (site.idx as usize) < self.data.len() {
            proof {
                assert(self.valid(site));
            }
            self.data[site.idx as usize].bound_entity
        } else {
            proof {
                if self.valid(site) {
                    assert((site.idx as int) < self.data@.len());
                }
            }
            EntityId::null()
        }
    }

    /// Record that `entity` is bound to `site`.
    pub fn set_bound_entity(&mut self, site: SiteId, entity: EntityId)
        requires
            old(self).wf(),
            old(self).valid(site),
        ensures
            final(self).wf(),
            final(self).bound_entity_of(site) == entity,
            final(self).spec_graph() == old(self).spec_graph(),
            forall|id: SiteId|
                old(self).valid(id) && id != site ==> final(self).bound_entity_of(id) == old(
                    self,
                ).bound_entity_of(id),
            forall|t: Seq<char>, id: SiteId|
                final(self).tag_binds(t, id) <==> old(self).tag_binds(t, id),
    {
        let i = site.idx as usize;
        self.data[i].bound_entity = entity;
        proof {
            assert forall|id: SiteId|
                old(self).valid(id) && id != site implies final(self).bound_entity_of(id) == old(
                self,
            ).bound_entity_of(id) by {
                if id.idx != site.idx {
                } else {
                    assert(id.gen == 1 && site.gen == 1);
                    assert(false);
                }
            }
        }
    }
}

} // verus!
