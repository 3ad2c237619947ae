use mesh_orbit::bounds::{AxisBounds, Bounds};
use mesh_orbit::error::PipelineError;
use mesh_orbit::geometry::{Axis, Vertex};
use mesh_orbit::mesh::{Face, Mesh};
use mesh_orbit::objects::ObjectGeometry;
use mesh_orbit::orbit::{FrameOutcome, OrbitAction, OrbitAnimator, OrbitSettings};
use mesh_orbit::sampling::{collect_samples, SamplingConfig, SamplingStrategy};
use mesh_orbit::scene::Scene;
use mesh_orbit::viewport::AxisRange;

const UNIT: i32 = 1 << 16;

/// Points on the faces of `mesh`, drawn with a small generator seeded by `seed`.
fn draw_candidates(mesh: &Mesh, count: usize, seed: u64) -> Vec<Vertex> {
    let mut state = seed;
    let mut next = |bound: u64| {
        state = state.wrapping_mul(6364136223846793005).wrapping_add(1442695040888963407);
        (state >> 33) % bound
    };
    let mut out = Vec::new();
    for _ in 0..count {
        let face = next(mesh.faces().len() as u64) as usize;
        let (a, b, c) = mesh.corners(face);
        let mut u = next(1001) as i64;
        let mut v = next(1001) as i64;
        if u + v > 1000 {
            u = 1000 - u;
            v = 1000 - v;
        }
        let w = 1000 - u - v;
        let mix = |p: i32, q: i32, r: i32| ((w * p as i64 + u * q as i64 + v * r as i64) / 1000) as i32;
        out.push(Vertex::new(mix(a.x, b.x, c.x), mix(a.y, b.y, c.y), mix(a.z, b.z, c.z)));
    }
    out
}

fn uniform(target_count: usize) -> SamplingConfig {
    SamplingConfig {
        target_count,
        max_candidate_trials: 10000,
        max_placement_trials: 10000,
        strategy: SamplingStrategy::UniformArea,
    }
}

#[test]
fn scene_of_a_unit_tetrahedron() {
    let scene = Scene::new(Mesh::tetrahedron(UNIT), 10).unwrap();
    let whole = AxisBounds { min: 0, max: UNIT };
    assert_eq!(scene.bounds, Bounds { x: whole, y: whole, z: whole });
    assert_eq!(scene.mesh.vertices().len(), 4);
    assert_eq!(scene.mesh.faces().len(), 4);
    let unit = UNIT as i64;
    assert_eq!(scene.plan.resolution(), 20);
    assert_eq!(scene.plan.half_extent(), 10 * unit);
    assert_eq!(scene.plan.tick_step(), unit);
    for axis in [Axis::X, Axis::Y, Axis::Z] {
        assert_eq!(scene.plan.center(axis), 10 * unit);
        assert_eq!(scene.plan.axis_range(axis), AxisRange { start: 0, end: 20 * unit, step: unit });
    }
}

#[test]
fn tetrahedron_sampled_and_animated_end_to_end() {
    let scene = Scene::new(Mesh::tetrahedron(UNIT), 10).unwrap();
    let candidates = draw_candidates(&scene.mesh, 300, 7);
    let cloud = collect_samples(uniform(300), &candidates);
    assert_eq!(cloud.len(), 300);
    let mut committed = 0;
    let (mut animator, mut action) = OrbitAnimator::start(OrbitSettings::with_defaults(360));
    loop {
        match action {
            OrbitAction::Render(frame) => {
                assert_eq!(frame.step, committed);
                // Every frame draws the same cloud inside the same cube.
                for p in cloud.points() {
                    for axis in [Axis::X, Axis::Y, Axis::Z] {
                        let range = scene.plan.axis_range(axis);
                        let at = scene.plan.resolution() as i64 * p.coord(axis) as i64;
                        assert!(range.start <= at && at <= range.end);
                    }
                }
                committed += 1;
                let (next, asked) = animator.advance(FrameOutcome::Committed);
                animator = next;
                action = asked;
            }
            OrbitAction::Done { frames } => {
                assert_eq!(frames, 360);
                break;
            }
            OrbitAction::Abort(e) => panic!("aborted: {:?}", e),
        }
    }
    assert_eq!(committed, 360);
    assert_eq!(animator.committed(), 360);
}

#[test]
fn same_seed_gives_the_same_cloud() {
    let mesh = Mesh::tetrahedron(UNIT);
    let first = collect_samples(uniform(300), &draw_candidates(&mesh, 300, 42));
    let second = collect_samples(uniform(300), &draw_candidates(&mesh, 300, 42));
    assert_eq!(first.points(), second.points());
    let other = collect_samples(uniform(300), &draw_candidates(&mesh, 300, 43));
    assert_ne!(first.points(), other.points());
}

#[test]
fn single_repeated_vertex_is_degenerate() {
    let spot = Vertex::new(3, -4, 5);
    let mesh = Mesh::new(vec![spot; 6], vec![Face::new(0, 1, 2), Face::new(3, 4, 5)]).unwrap();
    assert_eq!(Scene::new(mesh, 10).err(), Some(PipelineError::DegenerateGeometry));
    let mesh = Mesh::new(vec![spot], Vec::new()).unwrap();
    assert_eq!(Scene::new(mesh, 10).err(), Some(PipelineError::DegenerateGeometry));
    assert_eq!(Scene::new(Mesh::tetrahedron(0), 10).err(), Some(PipelineError::DegenerateGeometry));
}

#[test]
fn flat_mesh_is_not_degenerate() {
    let mesh = Mesh::new(vec![Vertex::new(0, 0, 0), Vertex::new(0, 0, 8)], Vec::new()).unwrap();
    let scene = Scene::new(mesh, 4).unwrap();
    assert_eq!(scene.plan.half_extent(), 32);
    assert_eq!(scene.plan.tick_step(), 8);
    assert_eq!(scene.plan.axis_range(Axis::X), AxisRange { start: -32, end: 32, step: 8 });
    assert_eq!(scene.plan.axis_range(Axis::Z), AxisRange { start: 0, end: 64, step: 8 });
}

#[test]
fn scene_from_loaded_objects() {
    let body = ObjectGeometry { positions: vec![0, 0, 0, 4, 0, 0, 0, 4, 0], indices: vec![0, 1, 2] };
    let lid = ObjectGeometry { positions: vec![0, 0, 6, 4, 0, 6, 0, 4, 6], indices: vec![0, 2, 1] };
    let mesh = Mesh::from_objects(&vec![body, lid]).unwrap();
    assert_eq!(mesh.faces(), &vec![Face::new(0, 1, 2), Face::new(3, 5, 4)]);
    let scene = Scene::new(mesh, 10).unwrap();
    assert_eq!(scene.bounds.z, AxisBounds { min: 0, max: 6 });
    assert_eq!(scene.plan.tick_step(), 6);
    assert_eq!(scene.plan.center(Axis::X), 40);
    assert_eq!(scene.plan.center(Axis::Z), 60);
}
