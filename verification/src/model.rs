//! The mathematical model of a mesh, and the transitions its mutations
//! follow.
//!
//! Every contract of the executable mesh speaks of this model: finite maps
//! for the vertex store, the face store, the two attribute stores and the
//! halfedge adjacency table, together with the two handle counters. The
//! invariant `inv` states the mutual consistency the topology builder
//! maintains.

use vstd::prelude::*;
use crate::store::handle_attr_keys;

verus! {

/// A 3D position. The scalar type is opaque to the topology, which never
/// inspects coordinate values.
#[derive(Clone, Copy, Debug)]
pub struct Point<S> {
    pub x: S,
    pub y: S,
    pub z: S,
}

impl<S: Copy> Point<S> {
    /// A position from its three coordinates.
    pub fn new(x: S, y: S, z: S) -> (r: Self)
        ensures
            r.x == x,
            r.y == y,
            r.z == z,
    {
        Point { x, y, z }
    }
}

/// The stored record of one vertex: its position coordinates.
#[derive(Clone, Copy, Debug)]
pub struct VertexData<S> {
    pub x: S,
    pub y: S,
    pub z: S,
}

impl<S: Copy> VertexData<S> {
    /// The position this record holds.
    pub open spec fn spec_position(self) -> Point<S> {
        Point { x: self.x, y: self.y, z: self.z }
    }

    /// A record from a position.
    pub fn new(point: Point<S>) -> (r: Self)
        ensures
            r.spec_position() == point,
    {
        VertexData { x: point.x, y: point.y, z: point.z }
    }

    /// The position as a point.
    pub fn position(&self) -> (r: Point<S>)
        ensures
            r == self.spec_position(),
    {
        Point { x: self.x, y: self.y, z: self.z }
    }

    /// Replace the position.
    pub fn set_position(&mut self, point: Point<S>)
        ensures
            final(self).spec_position() == point,
    {
        self.x = point.x;
        self.y = point.y;
        self.z = point.z;
    }
}

/// The state of a mesh: its stores, its adjacency table, and its two handle
/// counters.
pub ghost struct MeshModel<S> {
    /// Position of each stored vertex handle.
    pub vertices: Map<usize, Point<S>>,
    /// Scalar attributes of vertices, keyed by handle and attribute name.
    pub vertex_attrs: Map<(usize, Seq<char>), S>,
    /// Vertex cycle of each stored face handle.
    pub faces: Map<usize, Seq<usize>>,
    /// Scalar attributes of faces, keyed by handle and attribute name.
    pub face_attrs: Map<(usize, Seq<char>), S>,
    /// Directed vertex pairs, mapped to the face owning that direction, or
    /// to nothing for a boundary halfedge.
    pub halfedge: Map<(usize, usize), Option<usize>>,
    /// The next vertex handle the mesh allocates on its own.
    pub next_vertex: usize,
    /// The next face handle the mesh allocates on its own.
    pub next_face: usize,
}

/// The model of a freshly created or cleared mesh.
pub open spec fn empty_model<S>() -> MeshModel<S> {
    MeshModel {
        vertices: Map::empty(),
        vertex_attrs: Map::empty(),
        faces: Map::empty(),
        face_attrs: Map::empty(),
        halfedge: Map::empty(),
        next_vertex: 0,
        next_face: 0,
    }
}

/// No handle occurs twice in the sequence.
pub open spec fn handles_distinct(vs: Seq<usize>) -> bool {
    forall|i: int, j: int| 0 <= i < j < vs.len() ==> vs[i] != vs[j]
}

/// The directed edge that leaves position `i` of a face cycle.
pub open spec fn cycle_edge(vs: Seq<usize>, i: int) -> (usize, usize) {
    (vs[i], vs[if i == vs.len() - 1 {
        0
    } else {
        i + 1
    }])
}

/// A counter advanced past a handle: allocating `k` leaves the counter at
/// `k + 1` unless it already stood higher.
pub open spec fn counter_after(cur: usize, k: usize) -> usize {
    if k >= cur {
        (k + 1) as usize
    } else {
        cur
    }
}

/// What `add_vertex` does to the model: the position is stored under the
/// handle, any previous attributes of that handle are dropped, and the
/// counter moves past the handle.
pub open spec fn spec_add_vertex<S>(m: MeshModel<S>, k: usize, p: Point<S>) -> MeshModel<S> {
    MeshModel {
        vertices: m.vertices.insert(k, p),
        vertex_attrs: m.vertex_attrs.remove_keys(handle_attr_keys(k)),
        next_vertex: counter_after(m.next_vertex, k),
        ..m
    }
}

/// Whether a vertex list is accepted by `add_face`: at least three handles,
/// no handle repeated, every handle present in the vertex store.
pub open spec fn add_face_ok<S>(m: MeshModel<S>, vs: Seq<usize>) -> bool {
    &&& vs.len() >= 3
    &&& handles_distinct(vs)
    &&& forall|i: int| 0 <= i < vs.len() ==> m.vertices.dom().contains(#[trigger] vs[i])
}

/// The halfedge table after recording the first `n` directed edges of the
/// cycle `vs` for face `f`: each forward edge is owned by `f` (overwriting
/// any previous owner), and the reverse edge is created as a boundary
/// halfedge when it is not already present.
pub open spec fn add_face_edges(
    he: Map<(usize, usize), Option<usize>>,
    vs: Seq<usize>,
    f: usize,
    n: nat,
) -> Map<(usize, usize), Option<usize>>
    decreases n,
{
    if n == 0 {
        he
    } else {
        let prev = add_face_edges(he, vs, f, (n - 1) as nat);
        let u = vs[n - 1];
        let v = vs[if n == vs.len() {
            0
        } else {
            n as int
        }];
        let forward = prev.insert((u, v), Some(f));
        if forward.dom().contains((v, u)) {
            forward
        } else {
            forward.insert((v, u), None)
        }
    }
}

/// What recording a face's edges adds to the halfedge table: nothing is
/// removed, every processed cycle edge is present in both directions, any
/// new key is a processed cycle edge or its reverse, and any owner recorded
/// is the new face or carried over unchanged.
pub proof fn lemma_add_face_edges(
    he: Map<(usize, usize), Option<usize>>,
    vs: Seq<usize>,
    f: usize,
    n: nat,
)
    requires
        1 <= vs.len(),
        n <= vs.len(),
    ensures
        he.dom().finite() ==> add_face_edges(he, vs, f, n).dom().finite(),
        forall|p: (usize, usize)|
            he.dom().contains(p) ==> #[trigger] add_face_edges(he, vs, f, n).dom().contains(p),
        forall|p: (usize, usize)|
            #[trigger] add_face_edges(he, vs, f, n).dom().contains(p) ==> he.dom().contains(p)
                || exists|i: int|
                0 <= i < n && (p == cycle_edge(vs, i) || p == (
                    cycle_edge(vs, i).1,
                    cycle_edge(vs, i).0,
                )),
        forall|i: int|
            0 <= i < n ==> add_face_edges(he, vs, f, n).dom().contains(
                #[trigger] cycle_edge(vs, i),
            ) && add_face_edges(he, vs, f, n).dom().contains(
                (cycle_edge(vs, i).1, cycle_edge(vs, i).0),
            ),
        forall|p: (usize, usize)|
            #[trigger] add_face_edges(he, vs, f, n).dom().contains(p) && add_face_edges(
                he,
                vs,
                f,
                n,
            )[p] is Some ==> add_face_edges(he, vs, f, n)[p]->0 == f || (he.dom().contains(p)
                && he[p] == add_face_edges(he, vs, f, n)[p]),
    decreases n,
{
    if n > 0 {
        lemma_add_face_edges(he, vs, f, (n - 1) as nat);
        let prev = add_face_edges(he, vs, f, (n - 1) as nat);
        let cur = add_face_edges(he, vs, f, n);
        let u = vs[n - 1];
        let v = vs[if n == vs.len() {
            0
        } else {
            n as int
        }];
        assert(cycle_edge(vs, n - 1) == (u, v));
        assert forall|p: (usize, usize)| #[trigger] cur.dom().contains(p) implies he.dom().contains(
            p,
        ) || exists|i: int|
            0 <= i < n && (p == cycle_edge(vs, i) || p == (
                cycle_edge(vs, i).1,
                cycle_edge(vs, i).0,
            )) by {
            if p == (u, v) || p == (v, u) {
                assert(0 <= n - 1 < n && (p == cycle_edge(vs, n - 1) || p == (
                    cycle_edge(vs, n - 1).1,
                    cycle_edge(vs, n - 1).0,
                )));
            } else {
                assert(prev.dom().contains(p));
            }
        }
        assert forall|i: int| 0 <= i < n implies cur.dom().contains(#[trigger] cycle_edge(vs, i))
            && cur.dom().contains((cycle_edge(vs, i).1, cycle_edge(vs, i).0)) by {
            if i < n - 1 {
                assert(prev.dom().contains(cycle_edge(vs, i)));
                assert(prev.dom().contains((cycle_edge(vs, i).1, cycle_edge(vs, i).0)));
            }
        }
    }
}

/// What a successful `add_face` does to the model.
pub open spec fn spec_add_face<S>(m: MeshModel<S>, vs: Seq<usize>, k: usize) -> MeshModel<S> {
    MeshModel {
        faces: m.faces.insert(k, vs),
        halfedge: add_face_edges(m.halfedge, vs, k, vs.len()),
        next_face: counter_after(m.next_face, k),
        ..m
    }
}

/// The spec-level view of one soup polygon: each point with the byte key it
/// quantizes to.
pub open spec fn poly_view<S>(p: Vec<(Point<S>, Vec<u8>)>) -> Seq<(Point<S>, Seq<u8>)> {
    p@.map_values(|q: (Point<S>, Vec<u8>)| (q.0, q.1@))
}

/// The spec-level view of a polygon soup.
pub open spec fn soup_view<S>(ps: Vec<Vec<(Point<S>, Vec<u8>)>>) -> Seq<Seq<(Point<S>, Seq<u8>)>> {
    ps@.map_values(|p: Vec<(Point<S>, Vec<u8>)>| poly_view(p))
}

/// How many points a soup holds in total.
pub open spec fn total_points<S>(polys: Seq<Seq<(Point<S>, Seq<u8>)>>) -> nat
    decreases polys.len(),
{
    if polys.len() == 0 {
        0
    } else {
        total_points(polys.drop_last()) + polys.last().len()
    }
}

/// A prefix of a soup holds at most as many points as the whole.
pub proof fn lemma_total_points_take<S>(polys: Seq<Seq<(Point<S>, Seq<u8>)>>, i: int)
    requires
        0 <= i <= polys.len(),
    ensures
        total_points(polys.take(i)) <= total_points(polys),
    decreases polys.len() - i,
{
    if i == polys.len() {
        assert(polys.take(i) =~= polys);
    } else {
        lemma_total_points_take(polys, i + 1);
        assert(polys.take(i + 1).drop_last() =~= polys.take(i));
        assert(total_points(polys.take(i + 1)) == total_points(polys.take(i)) + polys[i].len());
    }
}

/// What meeting one soup point does: a point whose key was seen before is
/// coalesced to the handle first recorded for that key; otherwise a fresh
/// vertex is added under the next free handle and its key is recorded.
pub open spec fn soup_add_point<S>(
    m: MeshModel<S>,
    idx: Map<Seq<u8>, usize>,
    pt: (Point<S>, Seq<u8>),
) -> (MeshModel<S>, Map<Seq<u8>, usize>, usize) {
    if idx.dom().contains(pt.1) {
        (m, idx, idx[pt.1])
    } else {
        let h = m.next_vertex;
        (spec_add_vertex(m, h, pt.0), idx.insert(pt.1, h), h)
    }
}

/// The state after meeting the first `j` points of one polygon, with the
/// handles they resolved to, in order.
pub open spec fn soup_polygon_points<S>(
    m: MeshModel<S>,
    idx: Map<Seq<u8>, usize>,
    poly: Seq<(Point<S>, Seq<u8>)>,
    j: nat,
) -> (MeshModel<S>, Map<Seq<u8>, usize>, Seq<usize>)
    decreases j,
{
    if j == 0 {
        (m, idx, Seq::empty())
    } else {
        let st = soup_polygon_points(m, idx, poly, (j - 1) as nat);
        let nxt = soup_add_point(st.0, st.1, poly[j - 1]);
        (nxt.0, nxt.1, st.2.push(nxt.2))
    }
}

/// The state after ingesting the first `i` polygons of a soup: a polygon
/// with fewer than three points is skipped whole; otherwise its points are
/// resolved to handles and the face is added under the next free handle —
/// which does nothing when the resolved handles repeat.
pub open spec fn soup_polygons<S>(
    m: MeshModel<S>,
    idx: Map<Seq<u8>, usize>,
    polys: Seq<Seq<(Point<S>, Seq<u8>)>>,
    i: nat,
) -> (MeshModel<S>, Map<Seq<u8>, usize>)
    decreases i,
{
    if i == 0 {
        (m, idx)
    } else {
        let st = soup_polygons(m, idx, polys, (i - 1) as nat);
        let poly = polys[i - 1];
        if poly.len() < 3 {
            st
        } else {
            let pts = soup_polygon_points(st.0, st.1, poly, poly.len());
            if add_face_ok(pts.0, pts.2) {
                (spec_add_face(pts.0, pts.2, pts.0.next_face), pts.1)
            } else {
                (pts.0, pts.1)
            }
        }
    }
}

/// The mesh built from a whole soup, starting from an empty mesh and an
/// empty key index.
pub open spec fn spec_from_polygons<S>(polys: Seq<Seq<(Point<S>, Seq<u8>)>>) -> MeshModel<S> {
    soup_polygons(empty_model::<S>(), Map::<Seq<u8>, usize>::empty(), polys, polys.len()).0
}

/// The undirected edges of a halfedge table: the unordered vertex pairs
/// present as keys in either direction, each written with its smaller
/// endpoint first so that it is counted once.
pub open spec fn undirected_edges(m: Map<(usize, usize), Option<usize>>) -> Set<(usize, usize)> {
    Set::new(
        |q: (usize, usize)|
            q.0 < q.1 && (m.dom().contains(q) || m.dom().contains((q.1, q.0))),
    )
}

/// How many undirected edges the mesh has: directed pairs counted once per
/// unordered pair.
pub open spec fn spec_edge_count<S>(m: MeshModel<S>) -> nat {
    undirected_edges(m.halfedge).len()
}

/// The Euler characteristic: vertices minus edges plus faces.
pub open spec fn spec_euler<S>(m: MeshModel<S>) -> int {
    m.vertices.dom().len() - spec_edge_count(m) + m.faces.dom().len()
}

/// Whether the vertex has an outgoing boundary halfedge.
pub open spec fn spec_is_boundary<S>(m: MeshModel<S>, k: usize) -> bool {
    exists|v: usize| m.halfedge.dom().contains((k, v)) && m.halfedge[(k, v)] is None
}

/// A stored face cycle is consistent with the rest of the mesh: it is an
/// accepted vertex list and both directions of each of its edges are present
/// in the halfedge table.
pub open spec fn face_cycle_ok<S>(m: MeshModel<S>, vs: Seq<usize>) -> bool {
    &&& add_face_ok(m, vs)
    &&& forall|i: int|
        0 <= i < vs.len() ==> m.halfedge.dom().contains(#[trigger] cycle_edge(vs, i))
            && m.halfedge.dom().contains((cycle_edge(vs, i).1, cycle_edge(vs, i).0))
}

/// The consistency the topology builder maintains.
pub open spec fn inv<S>(m: MeshModel<S>) -> bool {
    &&& m.vertices.dom().finite()
    &&& m.faces.dom().finite()
    &&& m.halfedge.dom().finite()
    // a halfedge joins two distinct stored vertices, and its reverse exists
    &&& forall|p: (usize, usize)|
        #[trigger] m.halfedge.dom().contains(p) ==> p.0 != p.1 && m.vertices.dom().contains(p.0)
            && m.vertices.dom().contains(p.1) && m.halfedge.dom().contains((p.1, p.0))
    // a halfedge owner is a stored face
    &&& forall|p: (usize, usize)|
        #[trigger] m.halfedge.dom().contains(p) && m.halfedge[p] is Some ==> m.faces.dom().contains(
            m.halfedge[p]->0,
        )
    // every stored face cycle is consistent
    &&& forall|f: usize|
        #[trigger] m.faces.dom().contains(f) ==> face_cycle_ok(m, m.faces[f])
    // counters stand past every stored handle
    &&& forall|k: usize| #[trigger] m.vertices.dom().contains(k) ==> k < m.next_vertex
    &&& forall|f: usize| #[trigger] m.faces.dom().contains(f) ==> f < m.next_face
    // attributes belong to stored handles
    &&& forall|q: (usize, Seq<char>)|
        #[trigger] m.vertex_attrs.dom().contains(q) ==> m.vertices.dom().contains(q.0)
    &&& forall|q: (usize, Seq<char>)|
        #[trigger] m.face_attrs.dom().contains(q) ==> m.faces.dom().contains(q.0)
}

} // verus!
