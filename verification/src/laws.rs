//! Properties of the mesh that relate several operations, proved over the
//! model transitions the executable contracts speak of.

use vstd::prelude::*;
use crate::model::{
    Point, empty_model, spec_add_vertex, spec_add_face, add_face_ok, add_face_edges,
    spec_edge_count, spec_euler, spec_is_boundary, undirected_edges,
};

verus! {

/// Adding a single triangle over three fresh vertices to an empty mesh —
/// three vertices under the automatically allocated handles, then one face
/// over them — yields three vertices, one face, three edges, an Euler
/// characteristic of one, and every vertex of the triangle on the boundary,
/// whatever the three positions are.
pub proof fn lemma_single_triangle<S>(p0: Point<S>, p1: Point<S>, p2: Point<S>)
    ensures
        ({
            let m0 = empty_model::<S>();
            let m1 = spec_add_vertex(m0, m0.next_vertex, p0);
            let m2 = spec_add_vertex(m1, m1.next_vertex, p1);
            let m3 = spec_add_vertex(m2, m2.next_vertex, p2);
            let vs = seq![0usize, 1usize, 2usize];
            &&& add_face_ok(m3, vs)
            &&& ({
                let m4 = spec_add_face(m3, vs, m3.next_face);
                &&& m4.vertices.dom().len() == 3
                &&& m4.faces.dom().len() == 1
                &&& spec_edge_count(m4) == 3
                &&& spec_euler(m4) == 1
                &&& spec_is_boundary(m4, 0)
                &&& spec_is_boundary(m4, 1)
                &&& spec_is_boundary(m4, 2)
            })
        }),
{
    broadcast use vstd::set::group_set_axioms;

    let m0 = empty_model::<S>();
    let m1 = spec_add_vertex(m0, m0.next_vertex, p0);
    let m2 = spec_add_vertex(m1, m1.next_vertex, p1);
    let m3 = spec_add_vertex(m2, m2.next_vertex, p2);
    let vs = seq![0usize, 1usize, 2usize];
    assert(vs.len() == 3 && vs[0] == 0 && vs[1] == 1 && vs[2] == 2);
    assert(m3.vertices.dom() =~= Set::<usize>::empty().insert(0).insert(1).insert(2));
    assert(m3.vertices.dom().len() == 3);
    assert(add_face_ok(m3, vs));
    let m4 = spec_add_face(m3, vs, m3.next_face);
    assert(m4.faces.dom() =~= Set::<usize>::empty().insert(0));
    assert(m4.faces.dom().len() == 1);
    let he0 = m3.halfedge;
    assert(he0 =~= Map::<(usize, usize), Option<usize>>::empty());
    let h1 = add_face_edges(he0, vs, 0, 1);
    let h2 = add_face_edges(he0, vs, 0, 2);
    let h3 = add_face_edges(he0, vs, 0, 3);
    assert(add_face_edges(he0, vs, 0, 0) == he0);
    assert(h1 == he0.insert((0usize, 1usize), Some(0usize)).insert((1usize, 0usize), None));
    assert(h2 == h1.insert((1usize, 2usize), Some(0usize)).insert((2usize, 1usize), None));
    assert(h3 == h2.insert((2usize, 0usize), Some(0usize)).insert((0usize, 2usize), None));
    assert(m4.halfedge == h3);
    assert(undirected_edges(h3) =~= Set::<(usize, usize)>::empty().insert((0, 1)).insert(
        (1, 2),
    ).insert((0, 2)));
    assert(spec_edge_count(m4) == 3);
    assert(spec_euler(m4) == 1);
    assert(m4.halfedge.dom().contains((0usize, 2usize)) && m4.halfedge[(0usize, 2usize)] is None);
    assert(m4.halfedge.dom().contains((1usize, 0usize)) && m4.halfedge[(1usize, 0usize)] is None);
    assert(m4.halfedge.dom().contains((2usize, 1usize)) && m4.halfedge[(2usize, 1usize)] is None);
    assert(spec_is_boundary(m4, 0));
    assert(spec_is_boundary(m4, 1));
    assert(spec_is_boundary(m4, 2));
}

} // verus!
