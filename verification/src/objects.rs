use vstd::prelude::*;
use crate::error::PipelineError;
use crate::geometry::Vertex;
use crate::mesh::{is_fault_of, Face, Mesh, MeshModel};

verus! {

/// The geometry of one object of a mesh source, as a loader hands it over:
/// coordinates three to a vertex, and corner indices three to a triangle,
/// counted from the first vertex of this object.
#[derive(Debug)]
pub struct ObjectGeometry {
    pub positions: Vec<i32>,
    pub indices: Vec<u32>,
}

/// The vertices that `positions` holds, three coordinates to each. Up to two
/// coordinates left over at the end make no vertex.
pub open spec fn chunked_vertices(positions: Seq<i32>) -> Seq<Vertex> {
    Seq::new(
        (positions.len() / 3) as nat,
        |j: int| Vertex { x: positions[3 * j], y: positions[3 * j + 1], z: positions[3 * j + 2] },
    )
}

/// The corner index `index` of an object whose first vertex stands at
/// `offset` in the merged list. An index beyond what the machine can count
/// stays at the largest value it can, which names no vertex either.
pub open spec fn shifted(index: u32, offset: int) -> usize {
    if index + offset > usize::MAX {
        usize::MAX
    } else {
        (index + offset) as usize
    }
}

/// The triangles that `indices` holds, three corners to each, every corner
/// moved up by `offset`. Up to two indices left over at the end make no
/// triangle.
pub open spec fn chunked_faces(indices: Seq<u32>, offset: int) -> Seq<Face> {
    Seq::new(
        (indices.len() / 3) as nat,
        |j: int|
            Face {
                a: shifted(indices[3 * j], offset),
                b: shifted(indices[3 * j + 1], offset),
                c: shifted(indices[3 * j + 2], offset),
            },
    )
}

/// The vertices of all `objects`, one object after the other.
pub open spec fn merged_vertices(objects: Seq<ObjectGeometry>) -> Seq<Vertex>
    decreases objects.len(),
{
    if objects.len() == 0 {
        Seq::empty()
    } else {
        merged_vertices(objects.drop_last()) + chunked_vertices(objects.last().positions@)
    }
}

/// The triangles of all `objects`, one object after the other, the corners of
/// each object moved up by the number of vertices that stand before its own.
pub open spec fn merged_faces(objects: Seq<ObjectGeometry>) -> Seq<Face>
    decreases objects.len(),
{
    if objects.len() == 0 {
        Seq::empty()
    } else {
        merged_faces(objects.drop_last()) + chunked_faces(
            objects.last().indices@,
            merged_vertices(objects.drop_last()).len() as int,
        )
    }
}

/// The flat mesh that `objects` merge into.
pub open spec fn merged(objects: Seq<ObjectGeometry>) -> MeshModel {
    MeshModel { vertices: merged_vertices(objects), faces: merged_faces(objects) }
}

fn shift(index: u32, offset: usize) -> (r: usize)
    ensures
        r == shifted(index, offset as int),
{
    let index = index as usize;
    if index > usize::MAX - offset {
        usize::MAX
    } else {
        offset + index
    }
}

/// Merges the objects of a mesh source into one flat vertex list and one flat
/// face list, adjusting the corner indices of each object by the number of
/// vertices merged before it.
pub fn merge_objects(objects: &Vec<ObjectGeometry>) -> (r: (Vec<Vertex>, Vec<Face>))
    ensures
        r.0@ == merged_vertices(objects@),
        r.1@ == merged_faces(objects@),
{
    let mut vertices: Vec<Vertex> = Vec::new();
    let mut faces: Vec<Face> = Vec::new();
    let mut n: usize = 0;
    while n < objects.len()
        invariant
            0 <= n <= objects.len(),
            vertices@ == merged_vertices(objects@.take(n as int)),
            faces@ == merged_faces(objects@.take(n as int)),
        decreases objects.len() - n,
    {
        let object = &objects[n];
        let offset = vertices.len();
        let ghost before_vertices = vertices@;
        let ghost before_faces = faces@;
        let vertex_count = object.positions.len() / 3;
        let mut j: usize = 0;
        while j < vertex_count
            invariant
                0 <= j <= vertex_count,
                vertex_count == object.positions@.len() / 3,
                3 * vertex_count <= object.positions@.len() <= usize::MAX,
                vertices@ == before_vertices + chunked_vertices(object.positions@).take(j as int),
            decreases vertex_count - j,
        {
            let v = Vertex {
                x: object.positions[3 * j],
                y: object.positions[3 * j + 1],
                z: object.positions[3 * j + 2],
            };
            vertices.push(v);
            proof {
                let chunks = chunked_vertices(object.positions@);
                assert(chunks[j as int] == v);
                assert(chunks.take(j + 1) == chunks.take(j as int).push(v));
            }
            j = j + 1;
        }
        let face_count = object.indices.len() / 3;
        let mut t: usize = 0;
        while t < face_count
            invariant
                0 <= t <= face_count,
                face_count == object.indices@.len() / 3,
                3 * face_count <= object.indices@.len() <= usize::MAX,
                faces@ == before_faces + chunked_faces(object.indices@, offset as int).take(t as int),
            decreases face_count - t,
        {
            let f = Face {
                a: shift(object.indices[3 * t], offset),
                b: shift(object.indices[3 * t + 1], offset),
                c: shift(object.indices[3 * t + 2], offset),
            };
            faces.push(f);
            proof {
                let chunks = chunked_faces(object.indices@, offset as int);
                assert(chunks[t as int] == f);
                assert(chunks.take(t + 1) == chunks.take(t as int).push(f));
            }
            t = t + 1;
        }
        proof {
            let done = objects@.take(n + 1);
            assert(done.drop_last() == objects@.take(n as int));
            assert(done.last() == objects@[n as int]);
            let vertex_chunks = chunked_vertices(object.positions@);
            assert(vertex_chunks.take(vertex_count as int) == vertex_chunks);
            let face_chunks = chunked_faces(object.indices@, offset as int);
            assert(face_chunks.take(face_count as int) == face_chunks);
        }
        n = n + 1;
    }
    proof {
        assert(objects@.take(objects@.len() as int) == objects@);
    }
    (vertices, faces)
}

impl Mesh {
    /// Merges `objects` into one mesh if what they hold forms a valid one, and
    /// says what is wrong otherwise.
    pub fn from_objects(objects: &Vec<ObjectGeometry>) -> (r: Result<Mesh, PipelineError>)
        ensures
            r is Ok <==> merged(objects@).valid(),
            r matches Ok(mesh) ==> mesh@ == merged(objects@),
            r matches Err(e) ==> is_fault_of(e, merged(objects@)),
    {
        let (vertices, faces) = merge_objects(objects);
        Mesh::new(vertices, faces)
    }
}

/// Every corner index of `object` names one of its own vertices.
pub open spec fn self_contained(object: ObjectGeometry) -> bool {
    forall|j: int| 0 <= j < object.indices@.len() ==> #[trigger] object.indices@[j] < object.positions@.len() / 3
}

/// Merging adjusts the indices rightly: if every object names only vertices
/// of its own, every merged face names the same vertices at their place in
/// the merged list, and so names vertices that exist.
pub proof fn lemma_merge_keeps_faces_valid(objects: Seq<ObjectGeometry>)
    requires
        forall|n: int| 0 <= n < objects.len() ==> self_contained(#[trigger] objects[n]),
        merged_vertices(objects).len() <= usize::MAX,
    ensures
        forall|f: int|
            0 <= f < merged_faces(objects).len() ==> (#[trigger] merged_faces(objects)[f]).within(
                merged_vertices(objects).len() as int,
            ),
    decreases objects.len(),
{
    if objects.len() > 0 {
        let before = objects.drop_last();
        let last = objects.last();
        let offset = merged_vertices(before).len() as int;
        let own = chunked_vertices(last.positions@).len() as int;
        let total = merged_vertices(objects).len() as int;
        assert(total == offset + own);
        assert forall|n: int| 0 <= n < before.len() implies self_contained(#[trigger] before[n]) by {
            assert(before[n] == objects[n]);
        }
        lemma_merge_keeps_faces_valid(before);
        assert(self_contained(last));
        let new_faces = chunked_faces(last.indices@, offset);
        assert forall|f: int| 0 <= f < merged_faces(objects).len() implies (#[trigger] merged_faces(
            objects,
        )[f]).within(total) by {
            let old_count = merged_faces(before).len() as int;
            if f < old_count {
                assert(merged_faces(objects)[f] == merged_faces(before)[f]);
                assert(merged_faces(before)[f].within(offset));
            } else {
                let j = f - old_count;
                assert(merged_faces(objects)[f] == new_faces[j]);
                assert(last.indices@[3 * j] < own);
                assert(last.indices@[3 * j + 1] < own);
                assert(last.indices@[3 * j + 2] < own);
            }
        }
    }
}

} // verus!
