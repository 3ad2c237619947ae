use vstd::prelude::*;
use crate::bounds::{bounding_box, compute_bounds, lemma_bounding_box_exists, lemma_repeated_vertex_box, Bounds};
use crate::error::PipelineError;
use crate::geometry::Axis;
use crate::mesh::{Mesh, MeshModel};
use crate::viewport::{largest_extent, plan_viewport_with, planned, ViewportPlan};

verus! {

/// Everything about a mesh that stays the same through a run: the mesh, its
/// bounding box and the viewing cube planned for it.
#[derive(Debug)]
pub struct Scene {
    pub mesh: Mesh,
    pub bounds: Bounds,
    pub plan: ViewportPlan,
}

impl Scene {
    /// Measures `mesh` and plans its viewing cube, with `subdivisions` ticks
    /// to each half axis.
    ///
    /// A mesh whose vertices all coincide has no extent to draw: the result
    /// is then `DegenerateGeometry`. Nothing else fails.
    pub fn new(mesh: Mesh, subdivisions: u16) -> (r: Result<Scene, PipelineError>)
        requires
            subdivisions >= 1,
        ensures
            r is Err <==> largest_extent(bounding_box(mesh@.vertices)) <= 0,
            r matches Err(e) ==> e == PipelineError::DegenerateGeometry,
            r matches Ok(scene) ==> {
                &&& scene.mesh@ == mesh@
                &&& scene.bounds.wf()
                &&& scene.bounds@ == bounding_box(mesh@.vertices)
                &&& scene.plan@ == planned(scene.bounds@, subdivisions as int)
            },
    {
        let measured = compute_bounds(mesh.vertices().as_slice());
        match measured {
            Ok(bounds) => {
                match plan_viewport_with(&bounds, subdivisions) {
                    Ok(plan) => Ok(Scene { mesh, bounds, plan }),
                    Err(e) => Err(e),
                }
            },
            Err(e) => {
                Err(e)
            },
        }
    }
}

/// A mesh in which one vertex is repeated throughout has a bounding box whose
/// largest extent is zero, so that planning its view fails.
pub proof fn lemma_repeated_vertex_degenerate(mesh: MeshModel)
    requires
        mesh.valid(),
        forall|i: int| 0 <= i < mesh.vertices.len() ==> #[trigger] mesh.vertices[i] == mesh.vertices[0],
    ensures
        largest_extent(bounding_box(mesh.vertices)) == 0,
{
    let b = bounding_box(mesh.vertices);
    lemma_bounding_box_exists(mesh.vertices);
    lemma_repeated_vertex_box(mesh.vertices, b, Axis::X);
    lemma_repeated_vertex_box(mesh.vertices, b, Axis::Y);
    lemma_repeated_vertex_box(mesh.vertices, b, Axis::Z);
}

} // verus!
