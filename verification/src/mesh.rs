use vstd::prelude::*;
use crate::error::PipelineError;
use crate::geometry::Vertex;

verus! {

/// A triangle, given by the positions of its three corners in a vertex list.
#[derive(Clone, Copy, PartialEq, Eq, Structural, Debug)]
pub struct Face {
    pub a: usize,
    pub b: usize,
    pub c: usize,
}

impl Face {
    /// All three corners name one of the first `count` vertices.
    pub open spec fn within(self, count: int) -> bool {
        self.a < count && self.b < count && self.c < count
    }

    /// The first corner, in the order `a`, `b`, `c`, that names no vertex
    /// among the first `count`.
    pub open spec fn first_stray(self, count: int) -> usize {
        if self.a >= count {
            self.a
        } else if self.b >= count {
            self.b
        } else {
            self.c
        }
    }

    pub fn new(a: usize, b: usize, c: usize) -> (f: Face)
        ensures
            f == (Face { a, b, c }),
    {
        Face { a, b, c }
    }

    /// Looks for a corner that names no vertex among the first `count`.
    pub fn stray_corner(&self, count: usize) -> (r: Option<usize>)
        ensures
            r is None <==> self.within(count as int),
            r matches Some(index) ==> index == self.first_stray(count as int),
    {
        if self.a >= count {
            Some(self.a)
        } else if self.b >= count {
            Some(self.b)
        } else if self.c >= count {
            Some(self.c)
        } else {
            None
        }
    }
}

/// Twice the area vector of the triangle `a`, `b`, `c`: the cross product of
/// its edges `b - a` and `c - a`.
pub open spec fn edge_cross(a: Vertex, b: Vertex, c: Vertex) -> (int, int, int) {
    let (ux, uy, uz) = (b.x - a.x, b.y - a.y, b.z - a.z);
    let (vx, vy, vz) = (c.x - a.x, c.y - a.y, c.z - a.z);
    (uy * vz - uz * vy, uz * vx - ux * vz, ux * vy - uy * vx)
}

/// The triangle `a`, `b`, `c` has no area: its corners lie on one line or
/// coincide.
pub open spec fn flat(a: Vertex, b: Vertex, c: Vertex) -> bool {
    edge_cross(a, b, c) == (0int, 0int, 0int)
}

/// The face `f` over `vertices` has no area.
pub open spec fn flat_face(vertices: Seq<Vertex>, f: Face) -> bool {
    flat(vertices[f.a as int], vertices[f.b as int], vertices[f.c as int])
}

/// The faces of `faces` that have an area, in order.
pub open spec fn solid_faces(vertices: Seq<Vertex>, faces: Seq<Face>) -> Seq<Face> {
    faces.filter(|f: Face| !flat_face(vertices, f))
}

/// The solid faces of a list follow from those of the list without its last
/// face: the last face joins them exactly if it has an area.
pub proof fn lemma_solid_faces_unfold(vertices: Seq<Vertex>, faces: Seq<Face>)
    requires
        faces.len() > 0,
    ensures
        solid_faces(vertices, faces) == (if flat_face(vertices, faces.last()) {
            solid_faces(vertices, faces.drop_last())
        } else {
            solid_faces(vertices, faces.drop_last()).push(faces.last())
        }),
{
    reveal_with_fuel(Seq::filter, 2);
}

/// Leaving out the faces without area keeps a mesh valid, keeps every face
/// that has an area, and adds none.
pub proof fn lemma_solid_faces_sound(m: MeshModel)
    requires
        m.valid(),
    ensures
        (MeshModel { vertices: m.vertices, faces: solid_faces(m.vertices, m.faces) }).valid(),
        forall|i: int|
            0 <= i < solid_faces(m.vertices, m.faces).len() ==> {
                &&& !flat_face(m.vertices, #[trigger] solid_faces(m.vertices, m.faces)[i])
                &&& m.faces.contains(solid_faces(m.vertices, m.faces)[i])
            },
        forall|i: int|
            0 <= i < m.faces.len() && !flat_face(m.vertices, #[trigger] m.faces[i]) ==> solid_faces(
                m.vertices,
                m.faces,
            ).contains(m.faces[i]),
{
    let has_area = |f: Face| !flat_face(m.vertices, f);
    let solid = solid_faces(m.vertices, m.faces);
    assert(solid == m.faces.filter(has_area));
    assert forall|i: int| 0 <= i < solid.len() implies !flat_face(m.vertices, #[trigger] solid[i]) by {
        m.faces.lemma_filter_pred(has_area, i);
    }
    assert forall|i: int| 0 <= i < m.faces.len() && !flat_face(m.vertices, #[trigger] m.faces[i]) implies solid.contains(
        m.faces[i],
    ) by {
        m.faces.lemma_filter_contains(has_area, i);
    }
    assert forall|i: int| 0 <= i < solid.len() implies m.faces.contains(#[trigger] solid[i]) by {
        assert(m.faces.filter(has_area).contains(solid[i]));
        m.faces.lemma_filter_contains_rev(has_area, solid[i]);
    }
    assert forall|i: int| 0 <= i < solid.len() implies (#[trigger] solid[i]).within(m.vertices.len() as int) by {
        assert(m.faces.contains(solid[i]));
        let at = choose|k: int| 0 <= k < m.faces.len() && m.faces[k] == solid[i];
        assert(m.faces[at].within(m.vertices.len() as int));
    }
}

proof fn lemma_edge_product_in_reach(u: int, v: int)
    requires
        -0x1_0000_0000 < u < 0x1_0000_0000,
        -0x1_0000_0000 < v < 0x1_0000_0000,
    ensures
        -0x1_0000_0000_0000_0000 <= u * v <= 0x1_0000_0000_0000_0000,
{
    assert(-0x1_0000_0000 * 0x1_0000_0000 <= u * v <= 0x1_0000_0000 * 0x1_0000_0000) by (nonlinear_arith)
        requires
            -0x1_0000_0000 < u < 0x1_0000_0000,
            -0x1_0000_0000 < v < 0x1_0000_0000,
    ;
}

/// Whether the triangle `a`, `b`, `c` has no area.
pub fn is_flat(a: &Vertex, b: &Vertex, c: &Vertex) -> (r: bool)
    ensures
        r == flat(*a, *b, *c),
{
    let ux: i128 = b.x as i128 - a.x as i128;
    let uy: i128 = b.y as i128 - a.y as i128;
    let uz: i128 = b.z as i128 - a.z as i128;
    let vx: i128 = c.x as i128 - a.x as i128;
    let vy: i128 = c.y as i128 - a.y as i128;
    let vz: i128 = c.z as i128 - a.z as i128;
    proof {
        lemma_edge_product_in_reach(uy as int, vz as int);
        lemma_edge_product_in_reach(uz as int, vy as int);
        lemma_edge_product_in_reach(uz as int, vx as int);
        lemma_edge_product_in_reach(ux as int, vz as int);
        lemma_edge_product_in_reach(ux as int, vy as int);
        lemma_edge_product_in_reach(uy as int, vx as int);
    }
    uy * vz - uz * vy == 0 && uz * vx - ux * vz == 0 && ux * vy - uy * vx == 0
}

/// A triangulated surface: vertex positions and triangles over them.
pub struct MeshModel {
    pub vertices: Seq<Vertex>,
    pub faces: Seq<Face>,
}

impl MeshModel {
    /// There is at least one vertex, and every corner of every face names a
    /// vertex that exists.
    pub open spec fn valid(self) -> bool {
        &&& self.vertices.len() > 0
        &&& forall|f: int| 0 <= f < self.faces.len() ==> (#[trigger] self.faces[f]).within(self.vertices.len() as int)
    }
}

/// `face` is the first face of `faces` with a corner that names none of
/// `count` vertices, and `index` is the first such corner of it.
pub open spec fn is_first_stray(faces: Seq<Face>, count: int, face: int, index: usize) -> bool {
    &&& 0 <= face < faces.len()
    &&& forall|g: int| 0 <= g < face ==> (#[trigger] faces[g]).within(count)
    &&& !faces[face].within(count)
    &&& index == faces[face].first_stray(count)
}

/// What is wrong with a mesh of these vertices and faces, if anything is: a
/// mesh without vertices is empty, whatever its faces; otherwise the fault is
/// the first stray corner of the first face that has one.
pub open spec fn is_fault_of(e: PipelineError, m: MeshModel) -> bool {
    if m.vertices.len() == 0 {
        e == PipelineError::EmptyGeometry
    } else {
        e matches PipelineError::InvalidFaceIndex { face, index } && is_first_stray(
            m.faces,
            m.vertices.len() as int,
            face as int,
            index,
        )
    }
}

/// A valid triangle mesh. It is checked once, when it is made, and never
/// changes afterwards.
#[derive(Debug)]
pub struct Mesh {
    vertices: Vec<Vertex>,
    faces: Vec<Face>,
}

impl View for Mesh {
    type V = MeshModel;

    closed spec fn view(&self) -> MeshModel {
        MeshModel { vertices: self.vertices@, faces: self.faces@ }
    }
}

impl Mesh {
    #[verifier::type_invariant]
    spec fn inv(self) -> bool {
        (MeshModel { vertices: self.vertices@, faces: self.faces@ }).valid()
    }

    /// Makes a mesh of `vertices` and `faces` if they form a valid one, and
    /// says what is wrong otherwise.
    pub fn new(vertices: Vec<Vertex>, faces: Vec<Face>) -> (r: Result<Mesh, PipelineError>)
        ensures
            r is Ok <==> (MeshModel { vertices: vertices@, faces: faces@ }).valid(),
            r matches Ok(mesh) ==> mesh@ == (MeshModel { vertices: vertices@, faces: faces@ }),
            r matches Err(e) ==> is_fault_of(e, MeshModel { vertices: vertices@, faces: faces@ }),
    {
        let count = vertices.len();
        if count == 0 {
            return Err(PipelineError::EmptyGeometry);
        }
        let mut f: usize = 0;
        while f < faces.len()
            invariant
                0 <= f <= faces.len(),
                count == vertices.len(),
                count > 0,
                forall|g: int| 0 <= g < f ==> (#[trigger] faces@[g]).within(count as int),
            decreases faces.len() - f,
        {
            match faces[f].stray_corner(count) {
                Some(index) => {
                    proof {
                        let m = MeshModel { vertices: vertices@, faces: faces@ };
                        assert(!m.faces[f as int].within(m.vertices.len() as int));
                    }
                    return Err(PipelineError::InvalidFaceIndex { face: f, index });
                },
                None => {},
            }
            f = f + 1;
        }
        Ok(Mesh { vertices, faces })
    }

    /// The vertex positions.
    pub fn vertices(&self) -> (v: &Vec<Vertex>)
        ensures
            v@ == self@.vertices,
            self@.valid(),
    {
        proof {
            use_type_invariant(self);
        }
        &self.vertices
    }

    /// The triangles.
    pub fn faces(&self) -> (f: &Vec<Face>)
        ensures
            f@ == self@.faces,
            self@.valid(),
    {
        proof {
            use_type_invariant(self);
        }
        &self.faces
    }

    /// The positions of the three corners of face number `face`.
    pub fn corners(&self, face: usize) -> (r: (Vertex, Vertex, Vertex))
        requires
            face < self@.faces.len(),
        ensures
            self@.valid(),
            r.0 == self@.vertices[self@.faces[face as int].a as int],
            r.1 == self@.vertices[self@.faces[face as int].b as int],
            r.2 == self@.vertices[self@.faces[face as int].c as int],
    {
        proof {
            use_type_invariant(self);
        }
        let f = self.faces[face];
        assert(self.faces@[face as int].within(self.vertices@.len() as int));
        (self.vertices[f.a], self.vertices[f.b], self.vertices[f.c])
    }

    /// The faces that have an area, in order. A face without area carries no
    /// surface to sample, so a sampler is handed these faces only.
    pub fn solid_faces(&self) -> (r: Vec<Face>)
        ensures
            r@ == solid_faces(self@.vertices, self@.faces),
    {
        let mut kept: Vec<Face> = Vec::new();
        let mut f: usize = 0;
        assert(self.faces@.take(0).len() == 0);
        while f < self.faces.len()
            invariant
                0 <= f <= self.faces.len(),
                kept@ == solid_faces(self.vertices@, self.faces@.take(f as int)),
            decreases self.faces.len() - f,
        {
            let (a, b, c) = self.corners(f);
            proof {
                let done = self.faces@.take(f + 1);
                assert(done.drop_last() == self.faces@.take(f as int));
                assert(done.last() == self.faces@[f as int]);
                lemma_solid_faces_unfold(self.vertices@, done);
            }
            if !is_flat(&a, &b, &c) {
                kept.push(self.faces[f]);
            }
            f = f + 1;
        }
        assert(self.faces@.take(self.faces@.len() as int) == self.faces@);
        kept
    }

    /// A tetrahedron with one corner at the origin and the other three at
    /// distance `edge` from it along the three axes, its faces pointing
    /// outwards.
    pub fn tetrahedron(edge: i32) -> (mesh: Mesh)
        ensures
            mesh@.vertices == seq![
                Vertex { x: 0, y: 0, z: 0 },
                Vertex { x: edge, y: 0, z: 0 },
                Vertex { x: 0, y: edge, z: 0 },
                Vertex { x: 0, y: 0, z: edge },
            ],
            mesh@.faces == seq![
                Face { a: 1, b: 0, c: 2 },
                Face { a: 2, b: 0, c: 3 },
                Face { a: 0, b: 1, c: 3 },
                Face { a: 1, b: 2, c: 3 },
            ],
    {
        let mut vertices: Vec<Vertex> = Vec::new();
        vertices.push(Vertex { x: 0, y: 0, z: 0 });
        vertices.push(Vertex { x: edge, y: 0, z: 0 });
        vertices.push(Vertex { x: 0, y: edge, z: 0 });
        vertices.push(Vertex { x: 0, y: 0, z: edge });
        let mut faces: Vec<Face> = Vec::new();
        faces.push(Face { a: 1, b: 0, c: 2 });
        faces.push(Face { a: 2, b: 0, c: 3 });
        faces.push(Face { a: 0, b: 1, c: 3 });
        faces.push(Face { a: 1, b: 2, c: 3 });
        Mesh { vertices, faces }
    }
}

} // verus!
