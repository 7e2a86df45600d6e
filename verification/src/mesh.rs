//! The halfedge mesh: stores, topology builder, and topological queries.

use vstd::prelude::*;
use crate::model::{
    MeshModel, Point, VertexData, empty_model, spec_add_vertex, spec_add_face, add_face_ok,
    add_face_edges, lemma_add_face_edges, spec_edge_count, spec_euler, spec_is_boundary,
    face_cycle_ok, cycle_edge, handles_distinct, inv, undirected_edges, soup_view, soup_add_point,
    soup_polygon_points, soup_polygons, spec_from_polygons, total_points, lemma_total_points_take,
};
use crate::store::{AttrStore, EdgeTable, HandleMap, KeyIndex};

verus! {

/// A polygonal surface held as a halfedge mesh.
///
/// Vertices and faces are keyed by integer handles. For every directed
/// boundary edge of a stored face the adjacency table records the owning
/// face; the reverse direction is recorded as a boundary halfedge when no
/// face owns it. Queries recompute from the stores, so the mesh is
/// consistent after every successful mutation.
pub struct Mesh<S> {
    vertex: HandleMap<VertexData<S>>,
    vertex_attrs: AttrStore<S>,
    face: HandleMap<Vec<usize>>,
    face_attrs: AttrStore<S>,
    halfedge: EdgeTable,
    next_vertex: usize,
    next_face: usize,
}

impl<S: Copy> View for Mesh<S> {
    type V = MeshModel<S>;

    closed spec fn view(&self) -> MeshModel<S> {
        MeshModel {
            vertices: self.vertex@.map_values(|vd: VertexData<S>| vd.spec_position()),
            vertex_attrs: self.vertex_attrs@,
            faces: self.face@.map_values(|l: Vec<usize>| l@),
            face_attrs: self.face_attrs@,
            halfedge: self.halfedge@,
            next_vertex: self.next_vertex,
            next_face: self.next_face,
        }
    }
}

impl<S: Copy> Mesh<S> {
    /// The stores are well formed and the model satisfies the mesh
    /// invariant.
    pub closed spec fn wf(self) -> bool {
        &&& self.vertex.wf()
        &&& self.vertex_attrs.wf()
        &&& self.face.wf()
        &&& self.face_attrs.wf()
        &&& self.halfedge.wf()
        &&& inv(self@)
    }

    /// The domains of the model maps match the stores.
    proof fn lemma_views(&self)
        requires
            self.vertex.wf(),
            self.face.wf(),
            self.halfedge.wf(),
        ensures
            self@.vertices.dom() =~= self.vertex@.dom(),
            self@.faces.dom() =~= self.face@.dom(),
            self@.vertices.dom().finite(),
            self@.faces.dom().finite(),
            self@.halfedge.dom().finite(),
            self@.vertices.dom().len() == self.vertex@.dom().len(),
            self@.faces.dom().len() == self.face@.dom().len(),
    {
        self.vertex.lemma_entries();
        self.face.lemma_entries();
        self.halfedge.lemma_entries();
        assert(self@.vertices.dom() =~= self.vertex@.dom());
        assert(self@.faces.dom() =~= self.face@.dom());
    }

    /// A new empty mesh.
    pub fn new() -> (r: Self)
        ensures
            r.wf(),
            r@ == empty_model::<S>(),
    {
        let r = Mesh {
            vertex: HandleMap::new(),
            vertex_attrs: AttrStore::new(),
            face: HandleMap::new(),
            face_attrs: AttrStore::new(),
            halfedge: EdgeTable::new(),
            next_vertex: 0,
            next_face: 0,
        };
        proof {
            assert(r@.vertices =~= Map::<usize, Point<S>>::empty());
            assert(r@.faces =~= Map::<usize, Seq<usize>>::empty());
            assert(r@ == empty_model::<S>());
        }
        r
    }

    /// Whether the mesh has no vertices and no faces.
    pub fn is_empty(&self) -> (r: bool)
        requires
            self.wf(),
        ensures
            r == (self@.vertices.dom().len() == 0 && self@.faces.dom().len() == 0),
    {
        proof {
            self.lemma_views();
        }
        self.vertex.len() == 0 && self.face.len() == 0
    }

    /// Remove all vertices, faces, attributes and adjacency records, and
    /// reset both handle counters.
    pub fn clear(&mut self)
        ensures
            final(self).wf(),
            final(self)@ == empty_model::<S>(),
    {
        self.vertex.clear();
        self.vertex_attrs.clear();
        self.face.clear();
        self.face_attrs.clear();
        self.halfedge.clear();
        self.next_vertex = 0;
        self.next_face = 0;
        proof {
            assert(self@.vertices =~= Map::<usize, Point<S>>::empty());
            assert(self@.faces =~= Map::<usize, Seq<usize>>::empty());
            assert(self@ == empty_model::<S>());
        }
    }

    /// How many vertices the mesh holds.
    pub fn number_of_vertices(&self) -> (r: usize)
        requires
            self.wf(),
        ensures
            r == self@.vertices.dom().len(),
    {
        proof {
            self.lemma_views();
        }
        self.vertex.len()
    }

    /// How many faces the mesh holds.
    pub fn number_of_faces(&self) -> (r: usize)
        requires
            self.wf(),
        ensures
            r == self@.faces.dom().len(),
    {
        proof {
            self.lemma_views();
        }
        self.face.len()
    }

    /// Add a vertex at the position, under the given handle or, when none
    /// is given, under the next free handle. Any data previously stored at
    /// the handle is replaced.
    pub fn add_vertex(&mut self, position: Point<S>, key: Option<usize>) -> (r: usize)
        requires
            old(self).wf(),
            key is Some ==> key->0 < usize::MAX,
            key is None ==> old(self)@.next_vertex < usize::MAX,
        ensures
            final(self).wf(),
            r == (if key is Some {
                key->0
            } else {
                old(self)@.next_vertex
            }),
            final(self)@ == spec_add_vertex(old(self)@, r, position),
    {
        let k = match key {
            Some(k) => k,
            None => self.next_vertex,
        };
        self.vertex.insert(k, VertexData::new(position));
        self.vertex_attrs.remove_handle(k);
        if k >= self.next_vertex {
            self.next_vertex = k + 1;
        }
        proof {
            let m0 = old(self)@;
            let m1 = self@;
            assert(m1.vertices =~= m0.vertices.insert(k, position));
            assert(m1 == spec_add_vertex(m0, k, position));
            self.vertex.lemma_entries();
            assert forall|f: usize| m1.faces.dom().contains(f) implies face_cycle_ok(
                m1,
                m1.faces[f],
            ) by {
                assert(face_cycle_ok(m0, m0.faces[f]));
                assert(forall|i: int|
                    0 <= i < m0.faces[f].len() ==> m0.vertices.dom().contains(
                        #[trigger] m0.faces[f][i],
                    ) && m1.vertices.dom().contains(m0.faces[f][i]));
            }
            assert(inv(m1));
        }
        k
    }

    /// Add a face over the ordered vertex handles, under the given handle
    /// or, when none is given, under the next free handle. The face is
    /// rejected — and the mesh left unchanged — exactly when fewer than
    /// three handles are given, a handle is repeated, or a handle is not a
    /// stored vertex. On success every directed edge of the cycle is
    /// recorded as owned by the new face, and each reverse direction is
    /// recorded as a boundary halfedge unless it is already present.
    pub fn add_face(&mut self, vertices: Vec<usize>, fkey: Option<usize>) -> (r: Option<usize>)
        requires
            old(self).wf(),
            fkey is Some ==> fkey->0 < usize::MAX,
            fkey is None ==> old(self)@.next_face < usize::MAX,
        ensures
            final(self).wf(),
            r is Some <==> add_face_ok(old(self)@, vertices@),
            r is None ==> *final(self) == *old(self),
            r is Some ==> r->0 == (if fkey is Some {
                fkey->0
            } else {
                old(self)@.next_face
            }) && final(self)@ == spec_add_face(old(self)@, vertices@, r->0),
    {
        let n = vertices.len();
        if n < 3 {
            return None;
        }
        proof {
            self.lemma_views();
        }
        let mut i: usize = 0;
        while i < n
            invariant
                0 <= i <= n,
                forall|j: int| 0 <= j < i ==> self@.vertices.dom().contains(#[trigger] vertices@[j]),
            decreases n - i,
        {
            if !self.vertex.contains(vertices[i]) {
                proof {
                    assert(!add_face_ok(self@, vertices@));
                }
                return None;
            }
            i = i + 1;
        }
        let mut a: usize = 0;
        while a < n
            invariant
                0 <= a <= n,
                forall|i: int, j: int| 0 <= i < j < vertices@.len() && i < a ==> vertices@[i] != vertices@[j],
            decreases n - a,
        {
            let mut b: usize = a + 1;
            while b < n
                invariant
                    a < b <= n,
                    forall|j: int| a < j < b ==> vertices@[a as int] != vertices@[j],
                decreases n - b,
            {
                if vertices[a] == vertices[b] {
                    proof {
                        assert(!handles_distinct(vertices@));
                    }
                    return None;
                }
                b = b + 1;
            }
            a = a + 1;
        }
        proof {
            assert(add_face_ok(self@, vertices@));
        }
        let k = match fkey {
            Some(k) => k,
            None => self.next_face,
        };
        let ghost m0 = self@;
        let ghost he0 = self.halfedge@;
        let mut i: usize = 0;
        while i < n
            invariant
                0 <= i <= n,
                self.vertex == old(self).vertex,
                self.vertex_attrs == old(self).vertex_attrs,
                self.face == old(self).face,
                self.face_attrs == old(self).face_attrs,
                self.next_vertex == old(self).next_vertex,
                self.next_face == old(self).next_face,
                self.halfedge.wf(),
                self.halfedge@ == add_face_edges(he0, vertices@, k, i as nat),
            decreases n - i,
        {
            let u = vertices[i];
            let v = vertices[if i + 1 == n {
                0
            } else {
                i + 1
            }];
            self.halfedge.insert(u, v, Some(k));
            if !self.halfedge.contains(v, u) {
                self.halfedge.insert(v, u, None);
            }
            proof {
                let vs = vertices@;
                assert(u == vs[i as int] && v == vs[if i as int + 1 == vs.len() {
                    0int
                } else {
                    i as int + 1
                }]);
                let prev = add_face_edges(he0, vs, k, i as nat);
                let forward = prev.insert((u, v), Some(k));
                assert(add_face_edges(he0, vs, k, (i + 1) as nat) == (
                if forward.dom().contains((v, u)) {
                    forward
                } else {
                    forward.insert((v, u), None)
                }));
                assert(self.halfedge@ == add_face_edges(he0, vertices@, k, (i + 1) as nat));
            }
            i = i + 1;
        }
        self.face.insert(k, vertices);
        if k >= self.next_face {
            self.next_face = k + 1;
        }
        proof {
            let m1 = self@;
            let vs = vertices@;
            assert(m1.faces =~= m0.faces.insert(k, vs));
            assert(m1 == spec_add_face(m0, vs, k));
            lemma_add_face_edges(he0, vs, k, vs.len());
            assert forall|p: (usize, usize)| #[trigger] m1.halfedge.dom().contains(p) implies p.0
                != p.1 && m1.vertices.dom().contains(p.0) && m1.vertices.dom().contains(p.1)
                && m1.halfedge.dom().contains((p.1, p.0)) by {
                if m0.halfedge.dom().contains(p) {
                } else {
                    let i = choose|i: int|
                        0 <= i < vs.len() && (p == cycle_edge(vs, i) || p == (
                            cycle_edge(vs, i).1,
                            cycle_edge(vs, i).0,
                        ));
                    let x = i;
                    let y: int = if i == vs.len() - 1 {
                        0
                    } else {
                        i + 1
                    };
                    assert(cycle_edge(vs, i) == (vs[x], vs[y]));
                    assert(0 <= y < vs.len());
                    assert(x != y);
                    assert(vs[x] != vs[y]);
                    assert(m1.halfedge.dom().contains(cycle_edge(vs, i)));
                    assert(m1.halfedge.dom().contains((cycle_edge(vs, i).1, cycle_edge(vs, i).0)));
                }
            }
            assert forall|p: (usize, usize)|
                #[trigger] m1.halfedge.dom().contains(p) && m1.halfedge[p] is Some implies m1.faces.dom().contains(
                m1.halfedge[p]->0,
            ) by {
                if m1.halfedge[p]->0 == k {
                } else {
                    assert(m0.halfedge.dom().contains(p) && m0.halfedge[p] == m1.halfedge[p]);
                    assert(m0.faces.dom().contains(m1.halfedge[p]->0));
                }
            }
            assert forall|f: usize| #[trigger] m1.faces.dom().contains(f) implies face_cycle_ok(
                m1,
                m1.faces[f],
            ) by {
                if f == k {
                    assert(add_face_ok(m1, vs));
                } else {
                    assert(m0.faces.dom().contains(f));
                    assert(face_cycle_ok(m0, m0.faces[f]));
                    assert(m1.faces[f] == m0.faces[f]);
                    assert forall|i: int| 0 <= i < m0.faces[f].len() implies m1.halfedge.dom().contains(
                        #[trigger] cycle_edge(m0.faces[f], i),
                    ) && m1.halfedge.dom().contains(
                        (cycle_edge(m0.faces[f], i).1, cycle_edge(m0.faces[f], i).0),
                    ) by {
                        assert(m0.halfedge.dom().contains(cycle_edge(m0.faces[f], i)));
                        assert(m0.halfedge.dom().contains(
                            (cycle_edge(m0.faces[f], i).1, cycle_edge(m0.faces[f], i).0),
                        ));
                    }
                }
            }
            assert(inv(m1));
        }
        Some(k)
    }

    /// The position of the vertex, if the handle is known.
    pub fn vertex_position(&self, vertex_key: usize) -> (r: Option<Point<S>>)
        requires
            self.wf(),
        ensures
            match r {
                Some(p) => self@.vertices.dom().contains(vertex_key) && p
                    == self@.vertices[vertex_key],
                None => !self@.vertices.dom().contains(vertex_key),
            },
    {
        match self.vertex.get(vertex_key) {
            Some(vd) => Some(vd.position()),
            None => None,
        }
    }

    /// The ordered vertex handles of the face, if the handle is known.
    pub fn face_vertices(&self, face_key: usize) -> (r: Option<&Vec<usize>>)
        requires
            self.wf(),
        ensures
            match r {
                Some(l) => self@.faces.dom().contains(face_key) && l@ == self@.faces[face_key],
                None => !self@.faces.dom().contains(face_key),
            },
    {
        self.face.get(face_key)
    }

    /// How many undirected edges the mesh holds: unordered vertex pairs
    /// present as halfedge keys in either direction, each counted once.
    pub fn number_of_edges(&self) -> (r: usize)
        requires
            self.wf(),
        ensures
            r == spec_edge_count(self@),
    {
        proof {
            // Every halfedge key is present in both directions, so counting
            // the keys whose smaller endpoint comes first counts each
            // unordered pair exactly once.
            assert(undirected_edges(self@.halfedge) =~= self@.halfedge.dom().filter(
                |p: (usize, usize)| p.0 < p.1,
            ));
        }
        self.halfedge.ascending_len()
    }

    /// The Euler characteristic: vertices minus edges plus faces.
    pub fn euler(&self) -> (r: i32)
        requires
            self.wf(),
            self@.vertices.dom().len() + self@.faces.dom().len() <= i32::MAX,
            spec_edge_count(self@) <= i32::MAX,
        ensures
            r == spec_euler(self@),
    {
        let v = self.number_of_vertices() as i64;
        let e = self.number_of_edges() as i64;
        let f = self.number_of_faces() as i64;
        (v - e + f) as i32
    }

    /// The adjacency record of a directed vertex pair, if the pair is a
    /// halfedge of the mesh: the face owning that direction, or nothing for
    /// a boundary halfedge.
    pub fn halfedge_face(&self, u: usize, v: usize) -> (r: Option<Option<usize>>)
        requires
            self.wf(),
        ensures
            match r {
                Some(f) => self@.halfedge.dom().contains((u, v)) && f == self@.halfedge[(u, v)],
                None => !self@.halfedge.dom().contains((u, v)),
            },
    {
        self.halfedge.lookup(u, v)
    }

    /// Whether the vertex has an outgoing boundary halfedge: one whose
    /// direction no face owns.
    pub fn is_vertex_on_boundary(&self, vertex_key: usize) -> (r: bool)
        requires
            self.wf(),
        ensures
            r == spec_is_boundary(self@, vertex_key),
    {
        proof {
            self.halfedge.lemma_entries();
        }
        let n = self.halfedge.num_entries();
        let mut i: usize = 0;
        while i < n
            invariant
                0 <= i <= n,
                forall|j: int|
                    0 <= j < i ==> !((#[trigger] self.halfedge.entry_seq()[j]).0.0 == vertex_key
                        && self.halfedge.entry_seq()[j].1 is None),
            decreases n - i,
        {
            let e = self.halfedge.entry(i);
            if e.0.0 == vertex_key && e.1.is_none() {
                proof {
                    let p = self.halfedge.entry_seq()[i as int].0;
                    assert(self@.halfedge.dom().contains((vertex_key, p.1)) && self@.halfedge[(
                        vertex_key,
                        p.1,
                    )] is None);
                }
                return true;
            }
            i = i + 1;
        }
        proof {
            if spec_is_boundary(self@, vertex_key) {
                let v = choose|v: usize|
                    self@.halfedge.dom().contains((vertex_key, v)) && self@.halfedge[(
                        vertex_key,
                        v,
                    )] is None;
                let j = choose|j: int|
                    0 <= j < self.halfedge.entry_seq().len() && self.halfedge.entry_seq()[j].0 == (
                    vertex_key,
                    v,
                );
                assert(self.halfedge.entry_seq()[j].1 == self@.halfedge[(vertex_key, v)]);
            }
        }
        false
    }

    /// The vertex handles reachable from the vertex along a halfedge in
    /// either role: every `v` such that the directed pair to `v` is a key of
    /// the adjacency table.
    pub fn vertex_neighbors(&self, vertex_key: usize) -> (r: Vec<usize>)
        requires
            self.wf(),
        ensures
            handles_distinct(r@),
            forall|v: usize|
                r@.contains(v) <==> self@.halfedge.dom().contains((vertex_key, v)),
    {
        proof {
            self.halfedge.lemma_entries();
        }
        let n = self.halfedge.num_entries();
        let mut out: Vec<usize> = Vec::new();
        let mut i: usize = 0;
        while i < n
            invariant
                0 <= i <= n,
                handles_distinct(out@),
                forall|v: usize|
                    out@.contains(v) <==> exists|j: int|
                        0 <= j < i && (#[trigger] self.halfedge.entry_seq()[j]).0 == (
                        vertex_key,
                        v,
                        ),
            decreases n - i,
        {
            let e = self.halfedge.entry(i);
            if e.0.0 == vertex_key {
                let ghost out0 = out@;
                let v = e.0.1;
                proof {
                    let s = self.halfedge.entry_seq();
                    assert(!out0.contains(v)) by {
                        if out0.contains(v) {
                            let j = choose|j: int|
                                0 <= j < i && (#[trigger] s[j]).0 == (vertex_key, v);
                            assert(s[j].0 == s[i as int].0);
                        }
                    }
                }
                out.push(v);
                proof {
                    let s = self.halfedge.entry_seq();
                    lemma_push_distinct(out0, v);
                    assert forall|w: usize|
                        out@.contains(w) <==> exists|j: int|
                            0 <= j < i + 1 && (#[trigger] s[j]).0 == (vertex_key, w) by {
                        lemma_push_contains(out0, v, w);
                        if out@.contains(w) {
                            if w == v {
                                assert(s[i as int].0 == (vertex_key, w));
                            }
                        }
                        if exists|j: int| 0 <= j < i + 1 && (#[trigger] s[j]).0 == (
                        vertex_key,
                        w,
                        ) {
                            let j = choose|j: int|
                                0 <= j < i + 1 && (#[trigger] s[j]).0 == (vertex_key, w);
                            if j == i {
                                assert(w == v);
                            }
                        }
                    }
                }
            }
            i = i + 1;
        }
        proof {
            assert forall|v: usize| out@.contains(v) implies self@.halfedge.dom().contains(
                (vertex_key, v),
            ) by {
                let j = choose|j: int|
                    0 <= j < n && (#[trigger] self.halfedge.entry_seq()[j]).0 == (vertex_key, v);
            }
            assert forall|v: usize| self@.halfedge.dom().contains((vertex_key, v)) implies
                out@.contains(v) by {
                let j = choose|j: int|
                    0 <= j < self.halfedge.entry_seq().len()
                        && self.halfedge.entry_seq()[j].0 == (vertex_key, v);
            }
        }
        out
    }

    /// The handles of all faces whose vertex cycle contains the vertex.
    pub fn vertex_faces(&self, vertex_key: usize) -> (r: Vec<usize>)
        requires
            self.wf(),
        ensures
            handles_distinct(r@),
            forall|f: usize|
                r@.contains(f) <==> self@.faces.dom().contains(f) && self@.faces[f].contains(
                    vertex_key,
                ),
    {
        proof {
            self.face.lemma_entries();
        }
        let n = self.face.num_entries();
        let mut out: Vec<usize> = Vec::new();
        let mut i: usize = 0;
        while i < n
            invariant
                0 <= i <= n,
                handles_distinct(out@),
                forall|f: usize|
                    out@.contains(f) <==> exists|j: int|
                        0 <= j < i && (#[trigger] self.face.entry_seq()[j]).0 == f
                            && self.face.entry_seq()[j].1@.contains(vertex_key),
            decreases n - i,
        {
            let e = self.face.entry(i);
            if list_contains(&e.1, vertex_key) {
                let ghost out0 = out@;
                let f = e.0;
                proof {
                    let s = self.face.entry_seq();
                    assert(!out0.contains(f)) by {
                        if out0.contains(f) {
                            let j = choose|j: int|
                                0 <= j < i && (#[trigger] s[j]).0 == f && s[j].1@.contains(
                                    vertex_key,
                                );
                            assert(s[j].0 == s[i as int].0);
                        }
                    }
                }
                out.push(f);
                proof {
                    let s = self.face.entry_seq();
                    lemma_push_distinct(out0, f);
                    assert forall|g: usize|
                        out@.contains(g) <==> exists|j: int|
                            0 <= j < i + 1 && (#[trigger] s[j]).0 == g && s[j].1@.contains(
                                vertex_key,
                            ) by {
                        lemma_push_contains(out0, f, g);
                        if out@.contains(g) {
                            if g == f {
                                assert(s[i as int].0 == g && s[i as int].1@.contains(vertex_key));
                            }
                        }
                        if exists|j: int|
                            0 <= j < i + 1 && (#[trigger] s[j]).0 == g && s[j].1@.contains(
                                vertex_key,
                            ) {
                            let j = choose|j: int|
                                0 <= j < i + 1 && (#[trigger] s[j]).0 == g && s[j].1@.contains(
                                    vertex_key,
                                );
                            if j == i {
                                assert(g == f);
                            }
                        }
                    }
                }
            }
            i = i + 1;
        }
        proof {
            let s = self.face.entry_seq();
            assert forall|f: usize| out@.contains(f) implies self@.faces.dom().contains(f)
                && self@.faces[f].contains(vertex_key) by {
                let j = choose|j: int|
                    0 <= j < n && (#[trigger] s[j]).0 == f && s[j].1@.contains(vertex_key);
                assert(self.face@[f] == s[j].1);
            }
            assert forall|f: usize|
                self@.faces.dom().contains(f) && self@.faces[f].contains(vertex_key) implies
                out@.contains(f) by {
                let j = choose|j: int| 0 <= j < s.len() && s[j].0 == f;
                assert(self.face@[f] == s[j].1);
                assert(s[j].1@.contains(vertex_key));
            }
        }
        out
    }

    /// The fan triangulation of the face, if the handle is known: for a
    /// cycle `[v0, v1, ..., v(n-1)]` the triangles `(v0, vi, v(i+1))` for
    /// `i` in `1..n-1`, in that order.
    pub fn face_fan_triangles(&self, face_key: usize) -> (r: Option<Vec<(usize, usize, usize)>>)
        requires
            self.wf(),
        ensures
            match r {
                Some(ts) => {
                    let vs = self@.faces[face_key];
                    &&& self@.faces.dom().contains(face_key)
                    &&& ts@.len() == vs.len() - 2
                    &&& forall|j: int|
                        0 <= j < ts@.len() ==> (#[trigger] ts@[j]) == (vs[0], vs[j + 1], vs[j + 2])
                },
                None => !self@.faces.dom().contains(face_key),
            },
    {
        let l = match self.face.get(face_key) {
            Some(l) => l,
            None => {
                return None;
            },
        };
        proof {
            assert(self@.faces.dom().contains(face_key));
            assert(self@.faces[face_key] == l@);
            assert(face_cycle_ok(self@, self@.faces[face_key]));
        }
        let n = l.len();
        let v0 = l[0];
        let mut out: Vec<(usize, usize, usize)> = Vec::new();
        let mut i: usize = 1;
        while i < n - 1
            invariant
                1 <= i <= n - 1,
                out@.len() == i - 1,
                forall|j: int| 0 <= j < out@.len() ==> (#[trigger] out@[j]) == (l@[0], l@[j + 1], l@[j + 2]),
            decreases n - i,
        {
            out.push((v0, l[i], l[i + 1]));
            i = i + 1;
        }
        Some(out)
    }

    /// Set a named scalar attribute on a vertex. Nothing changes and
    /// `false` comes back exactly when the handle is not a stored vertex.
    pub fn set_attribute(&mut self, vertex_key: usize, name: String, value: S) -> (r: bool)
        requires
            old(self).wf(),
        ensures
            final(self).wf(),
            r == old(self)@.vertices.dom().contains(vertex_key),
            r ==> final(self)@ == (MeshModel {
                vertex_attrs: old(self)@.vertex_attrs.insert((vertex_key, name@), value),
                ..old(self)@
            }),
            !r ==> *final(self) == *old(self),
    {
        proof {
            self.lemma_views();
        }
        if !self.vertex.contains(vertex_key) {
            return false;
        }
        self.vertex_attrs.set(vertex_key, name, value);
        proof {
            assert(inv(self@));
        }
        true
    }

    /// The named scalar attribute of a vertex, if the handle is a stored
    /// vertex carrying that attribute.
    pub fn get_attribute(&self, vertex_key: usize, name: &String) -> (r: Option<S>)
        requires
            self.wf(),
        ensures
            match r {
                Some(v) => self@.vertex_attrs.dom().contains((vertex_key, name@)) && v
                    == self@.vertex_attrs[(vertex_key, name@)],
                None => !self@.vertex_attrs.dom().contains((vertex_key, name@)),
            },
    {
        self.vertex_attrs.get(vertex_key, name)
    }

    /// Set a named scalar attribute on a face. Nothing changes and `false`
    /// comes back exactly when the handle is not a stored face.
    pub fn set_face_attribute(&mut self, face_key: usize, name: String, value: S) -> (r: bool)
        requires
            old(self).wf(),
        ensures
            final(self).wf(),
            r == old(self)@.faces.dom().contains(face_key),
            r ==> final(self)@ == (MeshModel {
                face_attrs: old(self)@.face_attrs.insert((face_key, name@), value),
                ..old(self)@
            }),
            !r ==> *final(self) == *old(self),
    {
        proof {
            self.lemma_views();
        }
        if !self.face.contains(face_key) {
            return false;
        }
        self.face_attrs.set(face_key, name, value);
        proof {
            assert(inv(self@));
        }
        true
    }

    /// The named scalar attribute of a face, if the handle is a stored face
    /// carrying that attribute.
    pub fn get_face_attribute(&self, face_key: usize, name: &String) -> (r: Option<S>)
        requires
            self.wf(),
        ensures
            match r {
                Some(v) => self@.face_attrs.dom().contains((face_key, name@)) && v
                    == self@.face_attrs[(face_key, name@)],
                None => !self@.face_attrs.dom().contains((face_key, name@)),
            },
    {
        self.face_attrs.get(face_key, name)
    }

    /// Build a mesh from a polygon soup. Each point carries the byte key
    /// its coordinates quantize to at the caller's precision: points whose
    /// keys match are coalesced to one vertex, whose position is the first
    /// one seen. Polygons with fewer than three points are skipped, and a
    /// polygon whose points coalesce onto fewer than three distinct
    /// vertices produces no face; its fresh vertices stay.
    pub fn from_polygons(polygons: Vec<Vec<(Point<S>, Vec<u8>)>>) -> (r: Mesh<S>)
        requires
            total_points(soup_view(polygons)) < usize::MAX,
        ensures
            r.wf(),
            r@ == spec_from_polygons(soup_view(polygons)),
    {
        let mut mesh = Mesh::new();
        let mut index = KeyIndex::new();
        let ghost soup = soup_view(polygons);
        let n = polygons.len();
        let mut i: usize = 0;
        while i < n
            invariant
                0 <= i <= n,
                n == soup.len(),
                mesh.wf(),
                index.wf(),
                mesh@ == soup_polygons(empty_model::<S>(), Map::<Seq<u8>, usize>::empty(), soup, i as nat).0,
                index@ == soup_polygons(empty_model::<S>(), Map::<Seq<u8>, usize>::empty(), soup, i as nat).1,
                mesh@.next_vertex <= total_points(soup.take(i as int)),
                mesh@.next_face <= i,
            decreases n - i,
        {
            proof {
                assert(soup.take(i as int + 1).drop_last() =~= soup.take(i as int));
                assert(total_points(soup.take(i as int + 1)) == total_points(soup.take(i as int))
                    + soup[i as int].len());
                lemma_total_points_take(soup, i as int + 1);
            }
            let poly = &polygons[i];
            if poly.len() >= 3 {
                let ghost m_st = mesh@;
                let ghost idx_st = index@;
                let m = poly.len();
                let mut hs: Vec<usize> = Vec::new();
                let mut j: usize = 0;
                while j < m
                    invariant
                        0 <= j <= m,
                        m == soup[i as int].len(),
                        mesh.wf(),
                        index.wf(),
                        mesh@ == soup_polygon_points(m_st, idx_st, soup[i as int], j as nat).0,
                        index@ == soup_polygon_points(m_st, idx_st, soup[i as int], j as nat).1,
                        hs@ == soup_polygon_points(m_st, idx_st, soup[i as int], j as nat).2,
                        mesh@.next_vertex <= total_points(soup.take(i as int)) + j,
                        mesh@.next_face == m_st.next_face,
                    decreases m - j,
                {
                    let pt = &poly[j];
                    proof {
                        assert(soup[i as int][j as int] == (pt.0, pt.1@));
                    }
                    let h = match index.get(&pt.1) {
                        Some(h) => h,
                        None => {
                            let h = mesh.add_vertex(pt.0, None);
                            index.insert(bytes_copy(&pt.1), h);
                            h
                        },
                    };
                    hs.push(h);
                    proof {
                        let st = soup_polygon_points(m_st, idx_st, soup[i as int], j as nat);
                        let nxt = soup_add_point(st.0, st.1, soup[i as int][j as int]);
                        assert(soup_polygon_points(m_st, idx_st, soup[i as int], (j + 1) as nat)
                            == (nxt.0, nxt.1, st.2.push(nxt.2)));
                    }
                    j = j + 1;
                }
                let _ = mesh.add_face(hs, None);
                proof {
                    let st = soup_polygons(
                        empty_model::<S>(),
                        Map::<Seq<u8>, usize>::empty(),
                        soup,
                        i as nat,
                    );
                    let pts = soup_polygon_points(st.0, st.1, soup[i as int], soup[i as int].len());
                    assert(soup_polygons(
                        empty_model::<S>(),
                        Map::<Seq<u8>, usize>::empty(),
                        soup,
                        (i + 1) as nat,
                    ) == (if add_face_ok(pts.0, pts.2) {
                        (spec_add_face(pts.0, pts.2, pts.0.next_face), pts.1)
                    } else {
                        (pts.0, pts.1)
                    }));
                }
            } else {
                proof {
                    assert(soup[i as int].len() < 3);
                    assert(soup_polygons(
                        empty_model::<S>(),
                        Map::<Seq<u8>, usize>::empty(),
                        soup,
                        (i + 1) as nat,
                    ) == soup_polygons(
                        empty_model::<S>(),
                        Map::<Seq<u8>, usize>::empty(),
                        soup,
                        i as nat,
                    ));
                }
            }
            i = i + 1;
        }
        proof {
            assert(soup.take(n as int) =~= soup);
        }
        mesh
    }

    /// The handles of all stored vertices.
    pub fn vertex_keys(&self) -> (r: Vec<usize>)
        requires
            self.wf(),
        ensures
            handles_distinct(r@),
            forall|k: usize| r@.contains(k) <==> self@.vertices.dom().contains(k),
    {
        proof {
            self.vertex.lemma_entries();
            self.lemma_views();
        }
        let n = self.vertex.num_entries();
        let mut out: Vec<usize> = Vec::new();
        let mut i: usize = 0;
        while i < n
            invariant
                0 <= i <= n,
                out@.len() == i,
                forall|j: int| 0 <= j < i ==> out@[j] == (#[trigger] self.vertex.entry_seq()[j]).0,
            decreases n - i,
        {
            out.push(self.vertex.entry(i).0);
            i = i + 1;
        }
        proof {
            let s = self.vertex.entry_seq();
            assert forall|a: int, b: int| 0 <= a < b < out@.len() implies out@[a] != out@[b] by {
                assert(s[a].0 != s[b].0);
            }
            assert forall|k: usize| out@.contains(k) implies self@.vertices.dom().contains(k) by {
                let j = choose|j: int| 0 <= j < out@.len() && out@[j] == k;
                assert(s[j].0 == k);
            }
            assert forall|k: usize| self@.vertices.dom().contains(k) implies out@.contains(k) by {
                let j = choose|j: int| 0 <= j < s.len() && s[j].0 == k;
                assert(out@[j] == k);
            }
        }
        out
    }

    /// The handles of all stored faces.
    pub fn face_keys(&self) -> (r: Vec<usize>)
        requires
            self.wf(),
        ensures
            handles_distinct(r@),
            forall|k: usize| r@.contains(k) <==> self@.faces.dom().contains(k),
    {
        proof {
            self.face.lemma_entries();
            self.lemma_views();
        }
        let n = self.face.num_entries();
        let mut out: Vec<usize> = Vec::new();
        let mut i: usize = 0;
        while i < n
            invariant
                0 <= i <= n,
                out@.len() == i,
                forall|j: int| 0 <= j < i ==> out@[j] == (#[trigger] self.face.entry_seq()[j]).0,
            decreases n - i,
        {
            out.push(self.face.entry(i).0);
            i = i + 1;
        }
        proof {
            let s = self.face.entry_seq();
            assert forall|a: int, b: int| 0 <= a < b < out@.len() implies out@[a] != out@[b] by {
                assert(s[a].0 != s[b].0);
            }
            assert forall|k: usize| out@.contains(k) implies self@.faces.dom().contains(k) by {
                let j = choose|j: int| 0 <= j < out@.len() && out@[j] == k;
                assert(s[j].0 == k);
            }
            assert forall|k: usize| self@.faces.dom().contains(k) implies out@.contains(k) by {
                let j = choose|j: int| 0 <= j < s.len() && s[j].0 == k;
                assert(out@[j] == k);
            }
        }
        out
    }
}

/// Membership in a sequence after appending: exactly the old members and
/// the new element.
proof fn lemma_push_contains<T>(s: Seq<T>, v: T, w: T)
    ensures
        s.push(v).contains(w) <==> (s.contains(w) || w == v),
{
    if s.contains(w) {
        let idx = choose|idx: int| 0 <= idx < s.len() && s[idx] == w;
        assert(s.push(v)[idx] == w);
    }
    assert(s.push(v)[s.len() as int] == v);
    if s.push(v).contains(w) {
        let idx = choose|idx: int| 0 <= idx < s.push(v).len() && s.push(v)[idx] == w;
        if idx < s.len() {
            assert(s[idx] == w);
        }
    }
}

/// Appending an element not yet present keeps the entries distinct.
proof fn lemma_push_distinct(s: Seq<usize>, v: usize)
    requires
        handles_distinct(s),
        !s.contains(v),
    ensures
        handles_distinct(s.push(v)),
{
    assert forall|a: int, b: int| 0 <= a < b < s.push(v).len() implies s.push(v)[a] != s.push(
        v,
    )[b] by {
        if b < s.len() {
        } else {
            assert(s.contains(s[a]));
        }
    }
}

impl<S: Copy> Default for Mesh<S> {
    /// The same as a new empty mesh.
    fn default() -> (r: Self)
        ensures
            r.wf(),
            r@ == empty_model::<S>(),
    {
        Mesh::new()
    }
}

/// A copy of a byte string.
fn bytes_copy(a: &Vec<u8>) -> (r: Vec<u8>)
    ensures
        r@ == a@,
{
    let n = a.len();
    let mut out: Vec<u8> = Vec::new();
    let mut i: usize = 0;
    while i < n
        invariant
            0 <= i <= n,
            out@ =~= a@.take(i as int),
        decreases n - i,
    {
        out.push(a[i]);
        i = i + 1;
    }
    proof {
        assert(a@.take(n as int) =~= a@);
    }
    out
}

/// Whether the handle occurs in the list.
fn list_contains(l: &Vec<usize>, k: usize) -> (r: bool)
    ensures
        r == l@.contains(k),
{
    let n = l.len();
    let mut i: usize = 0;
    while i < n
        invariant
            0 <= i <= n,
            forall|j: int| 0 <= j < i ==> l@[j] != k,
        decreases n - i,
    {
        if l[i] == k {
            return true;
        }
        i = i + 1;
    }
    false
}

} // verus!
