//! The weighted undirected spatial graph of positioned sites.
//!
//! Nodes are added at world construction and never removed. `connect` links
//! two sites with a bidirectional edge whose weight is the fixed-point
//! Euclidean metric of their positions, and records the weight in a cache
//! keyed by the canonical (lower index, higher index) pair. `astar` answers
//! shortest-path queries over those integer weights.

use vstd::prelude::*;

use crate::geom::edge_metric;
use crate::geom::edge_metric_exec;
use crate::geom::heuristic_metric_exec;
use crate::geom::lemma_metric_symmetric;
use crate::geom::Pos;
use crate::ids::SiteId;

verus! {

/// The sentinel distance reported for unconnected pairs.
pub const INFINITE_DISTANCE: u64 = u64::MAX;

/// The graph never grows past this many sites, which keeps every path cost
/// comfortably inside 64 bits.
pub const MAX_SITES: usize = 65536;

/// One edge endpoint as seen from a node: the neighbouring site and the
/// metric distance of the edge.
#[derive(Clone, Copy)]
pub struct Neighbour {
    pub id: SiteId,
    pub distance: u64,
}

/// A positioned node together with its adjacency list.
pub struct Node {
    pub id: SiteId,
    pub pos: Pos,
    pub neighbours: Vec<Neighbour>,
}

pub struct Graph2D {
    nodes: Vec<Node>,
    cache: Vec<(u32, u32, u64)>,
}

/// The handle of the node stored at index `i`.
pub open spec fn site_at(i: int) -> SiteId {
    SiteId { idx: i as u32, gen: 1 }
}

/// Filtering an adjacency list with pairwise-distinct targets keeps its
/// members and their distinctness.
proof fn lemma_filter_neighbours(s: Seq<Neighbour>, pred: spec_fn(Neighbour) -> bool)
    requires
        forall|k1: int, k2: int|
            0 <= k1 < k2 < s.len() ==> (#[trigger] s[k1]).id != (#[trigger] s[k2]).id,
    ensures
        forall|k: int| 0 <= k < s.filter(pred).len() ==> s.contains(#[trigger] s.filter(pred)[k]),
        forall|k1: int, k2: int|
            0 <= k1 < k2 < s.filter(pred).len() ==> (#[trigger] s.filter(pred)[k1]).id != (
            #[trigger] s.filter(pred)[k2]).id,
    decreases s.len(),
{
    reveal(Seq::filter);
    if s.len() > 0 {
        let d = s.drop_last();
        assert forall|k1: int, k2: int|
            0 <= k1 < k2 < d.len() implies (#[trigger] d[k1]).id != (#[trigger] d[k2]).id by {
            assert(s[k1].id != s[k2].id);
        }
        lemma_filter_neighbours(d, pred);
        let f = s.filter(pred);
        let fd = d.filter(pred);
        assert forall|k: int| 0 <= k < f.len() implies s.contains(#[trigger] f[k]) by {
            if pred(s.last()) && k == f.len() - 1 {
                assert(s[s.len() - 1] == f[k]);
            } else {
                assert(f[k] == fd[k]);
                assert(d.contains(fd[k]));
                let j = choose|j: int| 0 <= j < d.len() && d[j] == fd[k];
                assert(s[j] == f[k]);
            }
        }
        assert forall|k1: int, k2: int|
            0 <= k1 < k2 < f.len() implies (#[trigger] f[k1]).id != (#[trigger] f[k2]).id by {
            if pred(s.last()) && k2 == f.len() - 1 {
                assert(f[k1] == fd[k1]);
                assert(d.contains(fd[k1]));
                let j = choose|j: int| 0 <= j < d.len() && d[j] == fd[k1];
                assert(s[j].id != s[s.len() - 1].id);
            } else {
                assert(f[k1] == fd[k1] && f[k2] == fd[k2]);
            }
        }
    }
}

impl Graph2D {
    pub closed spec fn node_count(self) -> nat {
        self.nodes@.len()
    }

    /// A handle is valid when it points at a stored node.
    pub open spec fn valid(self, id: SiteId) -> bool {
        id.gen == 1 && (id.idx as int) < self.node_count()
    }

    pub closed spec fn pos_of(self, id: SiteId) -> Pos {
        self.nodes@[id.idx as int].pos
    }

    pub closed spec fn neighbours_of(self, id: SiteId) -> Seq<Neighbour> {
        self.nodes@[id.idx as int].neighbours@
    }

    /// True when `b` appears in `a`'s adjacency list.
    pub closed spec fn adjacent(self, a: SiteId, b: SiteId) -> bool {
        self.valid(a) && exists|k: int|
            0 <= k < self.neighbours_of(a).len() && self.neighbours_of(a)[k].id == b
    }

    spec fn nodes_ok(self) -> bool {
        &&& self.nodes@.len() <= MAX_SITES
        &&& forall|i: int| 0 <= i < self.nodes@.len() ==> self.nodes@[i].id == site_at(i)
        &&& forall|i: int| 0 <= i < self.nodes@.len() ==> (#[trigger] self.nodes@[i].pos).in_bounds()
    }

    spec fn neighbours_ok(self) -> bool {
        &&& forall|i: int, k: int|
            0 <= i < self.nodes@.len() && 0 <= k < self.nodes@[i].neighbours@.len()
                ==> self.valid((#[trigger] self.nodes@[i].neighbours@[k]).id)
        &&& forall|i: int, k: int|
            0 <= i < self.nodes@.len() && 0 <= k < self.nodes@[i].neighbours@.len()
                ==> (#[trigger] self.nodes@[i].neighbours@[k]).distance == edge_metric(
                self.nodes@[i].pos,
                self.nodes@[self.nodes@[i].neighbours@[k].id.idx as int].pos,
            )
        &&& forall|i: int, k1: int, k2: int|
            0 <= i < self.nodes@.len() && 0 <= k1 < k2 < self.nodes@[i].neighbours@.len()
                ==> (#[trigger] self.nodes@[i].neighbours@[k1]).id != (
            #[trigger] self.nodes@[i].neighbours@[k2]).id
    }

    spec fn symmetric_ok(self) -> bool {
        forall|a: SiteId, b: SiteId| #[trigger] self.adjacent(a, b) ==> self.adjacent(b, a)
    }

    spec fn cache_ok(self) -> bool {
        &&& forall|c: int|
            0 <= c < self.cache@.len() ==> {
                let e = #[trigger] self.cache@[c];
                &&& e.0 <= e.1
                &&& self.adjacent(SiteId { idx: e.0, gen: 1 }, SiteId { idx: e.1, gen: 1 })
                &&& e.2 == edge_metric(
                    self.nodes@[e.0 as int].pos,
                    self.nodes@[e.1 as int].pos,
                )
            }
        &&& forall|a: SiteId, b: SiteId|
            #[trigger] self.adjacent(a, b) && a.idx <= b.idx ==> exists|c: int|
                0 <= c < self.cache@.len() && (#[trigger] self.cache@[c]).0 == a.idx
                    && self.cache@[c].1 == b.idx
    }

    /// The graph invariant: node handles match their slots, positions are in
    /// bounds, adjacency lists hold valid distinct entries weighted by the
    /// metric of their endpoints, adjacency is symmetric, and the distance
    /// cache holds exactly the connected pairs under canonical keys.
    pub closed spec fn wf(self) -> bool {
        &&& self.nodes_ok()
        &&& self.neighbours_ok()
        &&& self.symmetric_ok()
        &&& self.cache_ok()
    }

    pub fn new() -> (r: Graph2D)
        ensures
            r.wf(),
            r.node_count() == 0,
            forall|a: SiteId, b: SiteId| !r.adjacent(a, b),
    {
        Graph2D { nodes: Vec::new(), cache: Vec::new() }
    }

    /// Add an isolated node at `pos` and hand back its fresh handle.
    pub fn insert(&mut self, pos: Pos) -> (r: SiteId)
        requires
            old(self).wf(),
            old(self).node_count() < MAX_SITES,
            pos.in_bounds(),
        ensures
            final(self).wf(),
            final(self).valid(r),
            !old(self).valid(r),
            r == site_at(old(self).node_count() as int),
            final(self).node_count() == old(self).node_count() + 1,
            final(self).pos_of(r) == pos,
            forall|id: SiteId| old(self).valid(id) ==> final(self).valid(id) && final(self).pos_of(
                id,
            ) == old(self).pos_of(id),
            forall|a: SiteId, b: SiteId| final(self).adjacent(a, b) <==> old(self).adjacent(a, b),
    {
        let idx: usize = self.nodes.len();
        let id = SiteId { idx: idx as u32, gen: 1 };
        self.nodes.push(Node { id, pos, neighbours: Vec::new() });
        proof {
            assert forall|a: SiteId, b: SiteId|
                final(self).adjacent(a, b) implies old(self).adjacent(a, b) by {
                let k = choose|k: int|
                    0 <= k < final(self).neighbours_of(a).len() && final(self).neighbours_of(a)[
                        k].id == b;
                if a.idx as int == idx {
                    assert(final(self).neighbours_of(a).len() == 0);
                } else {
                    assert(old(self).neighbours_of(a)[k].id == b);
                }
            }
            assert forall|a: SiteId, b: SiteId|
                old(self).adjacent(a, b) implies final(self).adjacent(a, b) by {
                let k = choose|k: int|
                    0 <= k < old(self).neighbours_of(a).len() && old(self).neighbours_of(a)[k].id
                        == b;
                assert(final(self).neighbours_of(a)[k].id == b);
            }
        }
        id
    }

    /// True when `b` already stands in `a`'s adjacency list.
    fn has_neighbour(&self, a: SiteId, b: SiteId) -> (r: bool)
        requires
            self.valid(a),
        ensures
            r == self.adjacent(a, b),
    {
        let list = &self.nodes[a.idx as usize].neighbours;
        let mut k: usize = 0;
        while k < list.len()
            invariant
                k <= list@.len(),
                list@ == self.neighbours_of(a),
                self.valid(a),
                forall|j: int| 0 <= j < k ==> list@[j].id != b,
            decreases list@.len() - k,
        {
            if list[k].id == b {
                return true;
            }
            k = k + 1;
        }
        false
    }

    /// The local part of the invariant: everything but symmetry and the
    /// cache, which a half-made connection temporarily breaks.
    spec fn wf_local(self) -> bool {
        self.nodes_ok() && self.neighbours_ok()
    }

    /// Append `y` to `x`'s adjacency list.
    fn add_neighbour(&mut self, x: SiteId, y: SiteId, d: u64)
        requires
            old(self).wf_local(),
            old(self).valid(x),
            old(self).valid(y),
            !old(self).adjacent(x, y),
            d == edge_metric(old(self).pos_of(x), old(self).pos_of(y)),
        ensures
            final(self).wf_local(),
            final(self).node_count() == old(self).node_count(),
            final(self).cache@ == old(self).cache@,
            forall|id: SiteId|
                old(self).valid(id) ==> final(self).pos_of(id) == old(self).pos_of(id),
            forall|id: SiteId| final(self).valid(id) <==> old(self).valid(id),
            forall|p: SiteId, q: SiteId|
                final(self).adjacent(p, q) <==> (old(self).adjacent(p, q) || (p == x && q == y)),
    {
        let xi: usize = x.idx as usize;
        self.nodes[xi].neighbours.push(Neighbour { id: y, distance: d });
        proof {
            assert forall|i: int|
                0 <= i < self.nodes@.len() && i != xi implies self.nodes@[i] == old(
                self,
            ).nodes@[i] by {}
            assert(self.nodes@[xi as int].id == old(self).nodes@[xi as int].id);
            assert(self.nodes@[xi as int].pos == old(self).nodes@[xi as int].pos);
            assert(self.nodes@[xi as int].neighbours@ == old(self).nodes@[
            xi as int].neighbours@.push(Neighbour { id: y, distance: d }));
            assert forall|i: int, k1: int, k2: int|
                0 <= i < self.nodes@.len() && 0 <= k1 < k2 < self.nodes@[
                i].neighbours@.len() implies (#[trigger] self.nodes@[i].neighbours@[k1]).id != (
            #[trigger] self.nodes@[i].neighbours@[k2]).id by {
                if i == xi && k2 == self.nodes@[i].neighbours@.len() - 1 {
                    if old(self).nodes@[i].neighbours@[k1].id == y {
                        assert(old(self).neighbours_of(x)[k1].id == y);
                        assert(old(self).adjacent(x, y));
                    }
                }
            }
            assert forall|p: SiteId, q: SiteId|
                final(self).adjacent(p, q) implies (old(self).adjacent(p, q) || (p == x && q
                == y)) by {
                let k = choose|k: int|
                    0 <= k < final(self).neighbours_of(p).len() && final(self).neighbours_of(p)[
                        k].id == q;
                if p.idx as int == xi as int {
                    if k < old(self).neighbours_of(p).len() {
                        assert(old(self).neighbours_of(p)[k].id == q);
                    } else {
                        assert(p == x && q == y);
                    }
                } else {
                    assert(old(self).neighbours_of(p)[k].id == q);
                }
            }
            assert forall|p: SiteId, q: SiteId|
                old(self).adjacent(p, q) implies final(self).adjacent(p, q) by {
                let k = choose|k: int|
                    0 <= k < old(self).neighbours_of(p).len() && old(self).neighbours_of(p)[k].id
                        == q;
                assert(final(self).neighbours_of(p)[k].id == q);
            }
            assert(final(self).adjacent(x, y)) by {
                let n = final(self).neighbours_of(x).len() - 1;
                assert(final(self).neighbours_of(x)[n].id == y);
            }
        }
    }

    /// Look the canonical pair up in the distance cache.
    fn find_cache(&self, lo: u32, hi: u32) -> (r: Option<usize>)
        ensures
            match r {
                Some(c) => c < self.cache@.len() && self.cache@[c as int].0 == lo && self.cache@[
                    c as int].1 == hi,
                None => forall|e: int|
                    0 <= e < self.cache@.len() ==> !((#[trigger] self.cache@[e]).0 == lo
                        && self.cache@[e].1 == hi),
            },
    {
        let mut c: usize = 0;
        while c < self.cache.len()
            invariant
                c <= self.cache@.len(),
                forall|e: int|
                    0 <= e < c ==> !((#[trigger] self.cache@[e]).0 == lo && self.cache@[e].1
                        == hi),
            decreases self.cache@.len() - c,
        {
            if self.cache[c].0 == lo && self.cache[c].1 == hi {
                return Some(c);
            }
            c = c + 1;
        }
        None
    }

    /// Connect `a` and `b` with a bidirectional edge weighted by the metric
    /// distance of their positions, and record that distance under the
    /// canonical key. Repeated connections are absorbed.
    pub fn connect(&mut self, a: SiteId, b: SiteId)
        requires
            old(self).wf(),
            old(self).valid(a),
            old(self).valid(b),
        ensures
            final(self).wf(),
            final(self).node_count() == old(self).node_count(),
            forall|id: SiteId| final(self).valid(id) <==> old(self).valid(id),
            forall|id: SiteId|
                old(self).valid(id) ==> final(self).pos_of(id) == old(self).pos_of(id),
            forall|x: SiteId, y: SiteId|
                final(self).adjacent(x, y) <==> (old(self).adjacent(x, y) || (x == a && y == b) || (
                x == b && y == a)),
    {
        let d: u64 = edge_metric_exec(
            self.nodes[a.idx as usize].pos,
            self.nodes[b.idx as usize].pos,
        );
        proof {
            lemma_metric_symmetric(old(self).pos_of(a), old(self).pos_of(b));
        }
        if !self.has_neighbour(a, b) {
            self.add_neighbour(a, b, d);
        }
        proof {
            assert(forall|p: SiteId, q: SiteId|
                self.adjacent(p, q) <==> (old(self).adjacent(p, q) || (p == a && q == b)));
        }
        let ghost s1 = *self;
        if !self.has_neighbour(b, a) {
            self.add_neighbour(b, a, d);
        }
        proof {
            assert(forall|p: SiteId, q: SiteId|
                self.adjacent(p, q) <==> (s1.adjacent(p, q) || (p == b && q == a)));
            assert(self.adjacent(a, b) && self.adjacent(b, a));
        }
        // Record the distance under the canonical key.
        let lo: u32 = if a.idx <= b.idx {
            a.idx
        } else {
            b.idx
        };
        let hi: u32 = if a.idx <= b.idx {
            b.idx
        } else {
            a.idx
        };
        let ghost g2 = *self;
        match self.find_cache(lo, hi) {
            Some(_) => {},
            None => {
                self.cache.push((lo, hi, d));
            },
        }
        proof {
            assert(self.nodes@ == g2.nodes@);
            assert forall|p: SiteId, q: SiteId|
                self.adjacent(p, q) <==> g2.adjacent(p, q) by {
                if g2.adjacent(p, q) {
                    let k = choose|k: int|
                        0 <= k < g2.neighbours_of(p).len() && g2.neighbours_of(p)[k].id == q;
                    assert(self.neighbours_of(p)[k].id == q);
                }
                if self.adjacent(p, q) {
                    let k = choose|k: int|
                        0 <= k < self.neighbours_of(p).len() && self.neighbours_of(p)[k].id == q;
                    assert(g2.neighbours_of(p)[k].id == q);
                }
            }
            assert(self.adjacent(a, b) && self.adjacent(b, a));
            assert forall|x: SiteId, y: SiteId| #[trigger] self.adjacent(x, y) implies self
                .adjacent(y, x) by {
                if !old(self).adjacent(x, y) {
                    assert((x == a && y == b) || (x == b && y == a));
                }
            }
            assert forall|c: int| 0 <= c < self.cache@.len() implies {
                let e = #[trigger] self.cache@[c];
                &&& e.0 <= e.1
                &&& self.adjacent(SiteId { idx: e.0, gen: 1 }, SiteId { idx: e.1, gen: 1 })
                &&& e.2 == edge_metric(self.nodes@[e.0 as int].pos, self.nodes@[e.1 as int].pos)
            } by {
                if c < g2.cache@.len() {
                    assert(g2.cache@[c] == old(self).cache@[c]);
                    let e = self.cache@[c];
                    assert(old(self).adjacent(
                        SiteId { idx: e.0, gen: 1 },
                        SiteId { idx: e.1, gen: 1 },
                    ));
                } else {
                    assert(self.cache@[c] == (lo, hi, d));
                }
            }
            assert forall|x: SiteId, y: SiteId|
                #[trigger] self.adjacent(x, y) && x.idx <= y.idx implies exists|e: int|
                0 <= e < self.cache@.len() && (#[trigger] self.cache@[e]).0 == x.idx
                    && self.cache@[e].1 == y.idx by {
                if old(self).adjacent(x, y) {
                    let e = choose|e: int|
                        0 <= e < old(self).cache@.len() && (#[trigger] old(self).cache@[e]).0
                            == x.idx && old(self).cache@[e].1 == y.idx;
                    assert(self.cache@[e].0 == x.idx && self.cache@[e].1 == y.idx);
                } else {
                    assert(x.idx == lo && y.idx == hi);
                    if self.cache@.len() == g2.cache@.len() {
                        let e = choose|e: int|
                            0 <= e < g2.cache@.len() && g2.cache@[e].0 == lo && g2.cache@[e].1
                                == hi;
                        assert(self.cache@[e].0 == lo && self.cache@[e].1 == hi);
                    } else {
                        let n = self.cache@.len() - 1;
                        assert(self.cache@[n].0 == lo && self.cache@[n].1 == hi);
                    }
                }
            }
        }
    }

    /// A read-only view of all nodes, in insertion order.
    pub fn nodes(&self) -> (r: &Vec<Node>)
        requires
            self.wf(),
        ensures
            r@.len() == self.node_count(),
            r@.len() <= MAX_SITES,
            forall|i: int|
                0 <= i < r@.len() ==> (#[trigger] r@[i]).pos == self.pos_of(site_at(i)) && r@[
                i].id == site_at(i) && r@[i].neighbours@ == self.neighbours_of(site_at(i)),
    {
        &self.nodes
    }

    /// The node behind `id`, if the handle is valid.
    pub fn get(&self, id: SiteId) -> (r: Option<&Node>)
        ensures
            match r {
                Some(n) => self.valid(id) && n.pos == self.pos_of(id) && n.neighbours@
                    == self.neighbours_of(id),
                None => !self.valid(id),
            },
    {
        if id.gen == 1 && (id.idx as usize) < self.nodes.len() {
            Some(&self.nodes[id.idx as usize])
        } else {
            None
        }
    }

    /// The adjacency list of `id`.
    pub fn neighbours(&self, id: SiteId) -> (r: &Vec<Neighbour>)
        requires
            self.valid(id),
        ensures
            r@ == self.neighbours_of(id),
    {
        &self.nodes[id.idx as usize].neighbours
    }

    /// The neighbours of `id` whose handle index is strictly greater, in
    /// list order: exactly the subsequence of the adjacency list beyond
    /// `id`, so taking the union over all nodes enumerates each undirected
    /// edge exactly once.
    pub fn greater_neighbours(&self, id: SiteId) -> (r: Vec<Neighbour>)
        requires
            self.wf(),
            self.valid(id),
        ensures
            r@ == self.neighbours_of(id).filter(|n: Neighbour| n.id.idx > id.idx),
            forall|k1: int, k2: int|
                0 <= k1 < k2 < r@.len() ==> (#[trigger] r@[k1]).id != (#[trigger] r@[k2]).id,
            forall|k: int|
                0 <= k < r@.len() ==> (#[trigger] r@[k]).id.idx > id.idx
                    && self.neighbours_of(id).contains(r@[k]),
            forall|j: int|
                0 <= j < self.neighbours_of(id).len() && (#[trigger] self.neighbours_of(id)[
                j]).id.idx > id.idx ==> r@.contains(self.neighbours_of(id)[j]),
    {
        let ghost pred = |n: Neighbour| n.id.idx > id.idx;
        let list = &self.nodes[id.idx as usize].neighbours;
        let mut out: Vec<Neighbour> = Vec::new();
        let mut j: usize = 0;
        proof {
            assert(list@.take(0) =~= Seq::<Neighbour>::empty());
            reveal(Seq::filter);
        }
        while j < list.len()
            invariant
                j <= list@.len(),
                list@ == self.neighbours_of(id),
                out@ == list@.take(j as int).filter(pred),
                pred == (|n: Neighbour| n.id.idx > id.idx),
            decreases list@.len() - j,
        {
            let ghost out0 = out@;
            let n = list[j];
            if n.id.idx > id.idx {
                out.push(n);
            }
            proof {
                reveal(Seq::filter);
                assert(list@.take(j + 1).drop_last() =~= list@.take(j as int));
                assert(list@.take(j + 1).last() == list@[j as int]);
                assert(out@ =~= list@.take(j + 1).filter(pred));
            }
            j = j + 1;
        }
        proof {
            assert(list@.take(list@.len() as int) =~= list@);
            lemma_filter_neighbours(self.neighbours_of(id), pred);
            self.neighbours_of(id).filter_lemma(pred);
            assert forall|k: int|
                0 <= k < out@.len() implies (#[trigger] out@[k]).id.idx > id.idx
                    && self.neighbours_of(id).contains(out@[k]) by {
                assert(pred(out@[k]));
            }
        }
        out
    }

    /// True when `p` walks from `a` to `b` along edges of the graph.    /// True when `p` walks from `a` to `b` along edges of the graph.
    pub open spec fn is_path(self, p: Seq<SiteId>, a: SiteId, b: SiteId) -> bool {
        &&& p.len() >= 1
        &&& p[0] == a
        &&& p[p.len() - 1] == b
        &&& forall|k: int| 0 <= k < p.len() - 1 ==> self.adjacent(#[trigger] p[k], p[k + 1])
    }

    /// The summed metric distance along consecutive positions of `p`.
    pub open spec fn path_cost(self, p: Seq<SiteId>) -> int
        decreases p.len(),
    {
        if p.len() <= 1 {
            0
        } else {
            edge_metric(self.pos_of(p[0]), self.pos_of(p[1])) + self.path_cost(p.drop_first())
        }
    }

    /// Relies on pathfinding::directed::astar::astar: it returns a shortest
    /// path from `start` to `end` together with its total cost, or None when
    /// no path exists. The successor closure hands over each node's
    /// adjacency list with its stored weight; by the graph invariant that
    /// weight is the Euclidean metric of the endpoints rounded up. The
    /// heuristic closure is the straight-line metric rounded down, which by
    /// the triangle inequality never exceeds any path's summed rounded-up
    /// edge weights, so the heuristic is admissible and the crate documents
    /// the result as optimal. Costs stay far below u64::MAX: at most
    /// MAX_SITES edges of metric at most 4_000_000_000 each, so the sums the
    /// search forms cannot overflow.
    #[verifier::external_body]
    fn astar_search(&self, start: SiteId, end: SiteId) -> (r: Option<(Vec<SiteId>, u64)>)
        requires
            self.wf(),
            self.valid(start),
            self.valid(end),
        ensures
            match r {
                Some(pc) => self.is_path(pc.0@, start, end) && pc.1 as int == self.path_cost(
                    pc.0@,
                ) && forall|q: Seq<SiteId>|
                    self.is_path(q, start, end) ==> self.path_cost(q) >= pc.1 as int,
                None => forall|q: Seq<SiteId>| !self.is_path(q, start, end),
            },
    {
        let end_pos = self.nodes[end.idx as usize].pos;
        pathfinding::directed::astar::astar(
            &start,
            |s: &SiteId| {
                let list = &self.nodes[s.idx as usize].neighbours;
                list.iter().map(|n| (n.id, n.distance)).collect::<Vec<(SiteId, u64)>>()
            },
            |s: &SiteId| heuristic_metric_exec(self.nodes[s.idx as usize].pos, end_pos),
            |s: &SiteId| *s == end,
        )
    }

    /// The shortest path from `start` to `end` and its total metric cost,
    /// or None when the two sites are not connected. The returned cost
    /// equals the summed edge metrics of the returned path, and no path has
    /// a smaller cost.
    pub fn astar(&self, start: SiteId, end: SiteId) -> (r: Option<(Vec<SiteId>, u64)>)
        requires
            self.wf(),
            self.valid(start),
            self.valid(end),
        ensures
            match r {
                Some(pc) => self.is_path(pc.0@, start, end) && pc.1 as int == self.path_cost(
                    pc.0@,
                ) && forall|q: Seq<SiteId>|
                    self.is_path(q, start, end) ==> self.path_cost(q) >= pc.1 as int,
                None => forall|q: Seq<SiteId>| !self.is_path(q, start, end),
            },
    {
        self.astar_search(start, end)
    }

    /// The cached metric distance: zero for a site and itself, the metric of
    /// the edge for connected pairs, and the infinite sentinel otherwise.
    pub open spec fn spec_distance(self, a: SiteId, b: SiteId) -> u64 {
        if a == b {
            0
        } else if self.adjacent(a, b) {
            edge_metric(self.pos_of(a), self.pos_of(b)) as u64
        } else {
            INFINITE_DISTANCE
        }
    }

    /// The distance between two sites, as recorded by `connect`.
    pub fn distance(&self, a: SiteId, b: SiteId) -> (r: u64)
        requires
            self.wf(),
        ensures
            r == self.spec_distance(a, b),
    {
        if a == b {
            return 0;
        }
        if a.gen != 1 || b.gen != 1 {
            proof {
                if self.adjacent(a, b) {
                    let k = choose|k: int|
                        0 <= k < self.neighbours_of(a).len() && self.neighbours_of(a)[k].id == b;
                    assert(self.valid(self.neighbours_of(a)[k].id));
                }
            }
            return INFINITE_DISTANCE;
        }
        let lo: u32 = if a.idx <= b.idx {
            a.idx
        } else {
            b.idx
        };
        let hi: u32 = if a.idx <= b.idx {
            b.idx
        } else {
            a.idx
        };
        let mut c: usize = 0;
        while c < self.cache.len()
            invariant
                self.wf(),
                a.gen == 1 && b.gen == 1 && a != b,
                lo == (if a.idx <= b.idx {
                    a.idx
                } else {
                    b.idx
                }),
                hi == (if a.idx <= b.idx {
                    b.idx
                } else {
                    a.idx
                }),
                c <= self.cache@.len(),
                forall|e: int|
                    0 <= e < c ==> !((#[trigger] self.cache@[e]).0 == lo && self.cache@[e].1
                        == hi),
            decreases self.cache@.len() - c,
        {
            if self.cache[c].0 == lo && self.cache[c].1 == hi {
                proof {
                    assert(self.adjacent(SiteId { idx: lo, gen: 1 }, SiteId { idx: hi, gen: 1 }));
                    if a.idx <= b.idx {
                        assert(a == SiteId { idx: lo, gen: 1 } && b == SiteId { idx: hi, gen: 1 });
                    } else {
                        assert(b == SiteId { idx: lo, gen: 1 } && a == SiteId { idx: hi, gen: 1 });
                    }
                    assert(self.adjacent(a, b));
                    lemma_metric_symmetric(self.pos_of(a), self.pos_of(b));
                }
                return self.cache[c].2;
            }
            c = c + 1;
        }
        proof {
            if self.adjacent(a, b) {
                if a.idx <= b.idx {
                    assert(self.adjacent(a, b) && a.idx <= b.idx);
                } else {
                    assert(self.adjacent(b, a) && b.idx <= a.idx);
                }
                let e = choose|e: int|
                    0 <= e < self.cache@.len() && (#[trigger] self.cache@[e]).0 == lo
                        && self.cache@[e].1 == hi;
                assert(false);
            }
        }
        INFINITE_DISTANCE
    }
}

/// Membership in an adjacency list is adjacency.
pub proof fn lemma_member_adjacent(g: Graph2D, a: SiteId, n: Neighbour)
    requires
        g.valid(a),
        g.neighbours_of(a).contains(n),
    ensures
        g.adjacent(a, n.id),
{
    let m = choose|m: int| 0 <= m < g.neighbours_of(a).len() && g.neighbours_of(a)[m] == n;
    assert(g.neighbours_of(a)[m].id == n.id);
}

/// Adjacency is witnessed by an adjacency-list entry.
pub proof fn lemma_adjacent_member(g: Graph2D, a: SiteId, b: SiteId)
    requires
        g.adjacent(a, b),
    ensures
        exists|m: int|
            0 <= m < g.neighbours_of(a).len() && (#[trigger] g.neighbours_of(a)[m]).id == b,
{
}

/// An adjacency's endpoints are both live sites.
pub proof fn lemma_adjacent_valid(g: Graph2D, a: SiteId, b: SiteId)
    requires
        g.wf(),
        g.adjacent(a, b),
    ensures
        g.valid(a),
        g.valid(b),
{
    let k = choose|k: int|
        0 <= k < g.neighbours_of(a).len() && g.neighbours_of(a)[k].id == b;
    assert(g.valid(g.neighbours_of(a)[k].id));
}

/// Law: the recorded distance is symmetric. For connected or equal pairs it
/// is the shared edge metric or zero, and for disconnected pairs it is the
/// infinite sentinel in both directions.
pub proof fn lemma_distance_symmetric(g: Graph2D, a: SiteId, b: SiteId)
    requires
        g.wf(),
    ensures
        g.spec_distance(a, b) == g.spec_distance(b, a),
{
    if a != b {
        lemma_metric_symmetric(g.pos_of(a), g.pos_of(b));
        if g.adjacent(a, b) {
            assert(g.adjacent(b, a));
        }
        if g.adjacent(b, a) {
            assert(g.adjacent(a, b));
        }
    }
}

} // verus!
