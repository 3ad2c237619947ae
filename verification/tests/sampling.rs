use mesh_orbit::geometry::Vertex;
use mesh_orbit::sampling::{
    collect_samples, is_clear, squared_distance, SamplingConfig, SamplingStrategy, SurfaceSampler,
};

fn uniform(target_count: usize) -> SamplingConfig {
    SamplingConfig {
        target_count,
        max_candidate_trials: 2,
        max_placement_trials: 1,
        strategy: SamplingStrategy::UniformArea,
    }
}

fn poisson(target_count: usize, candidates: usize, placements: usize, min_distance: u32) -> SamplingConfig {
    SamplingConfig {
        target_count,
        max_candidate_trials: candidates,
        max_placement_trials: placements,
        strategy: SamplingStrategy::PoissonDisk { min_distance },
    }
}

fn line(n: i32) -> Vec<Vertex> {
    (0..n).map(|i| Vertex::new(i, 0, 0)).collect()
}

#[test]
fn squared_distance_adds_the_squares_of_the_differences() {
    assert_eq!(squared_distance(&Vertex::new(0, 0, 0), &Vertex::new(1, 2, 3)), 14);
    assert_eq!(squared_distance(&Vertex::new(1, 2, 3), &Vertex::new(0, 0, 0)), 14);
    assert_eq!(squared_distance(&Vertex::new(-3, 4, 0), &Vertex::new(0, 0, 0)), 25);
    assert_eq!(squared_distance(&Vertex::new(7, 7, 7), &Vertex::new(7, 7, 7)), 0);
}

#[test]
fn squared_distance_across_the_grid_does_not_overflow() {
    let low = Vertex::new(i32::MIN, i32::MIN, i32::MIN);
    let high = Vertex::new(i32::MAX, i32::MAX, i32::MAX);
    assert_eq!(squared_distance(&low, &high), 3 * 4294967295i128 * 4294967295i128);
}

#[test]
fn clear_means_at_least_the_spacing_from_every_point() {
    let cloud = vec![Vertex::new(0, 0, 0), Vertex::new(10, 0, 0)];
    assert!(is_clear(&cloud, &Vertex::new(5, 0, 0), 5));
    assert!(!is_clear(&cloud, &Vertex::new(5, 0, 0), 6));
    assert!(is_clear(&cloud, &Vertex::new(3, 4, 0), 5));
    assert!(!is_clear(&cloud, &Vertex::new(9, 0, 0), 2));
    assert!(is_clear(&cloud, &Vertex::new(0, 0, 0), 0));
    assert!(is_clear(&Vec::new(), &Vertex::new(0, 0, 0), u32::MAX));
}

#[test]
fn uniform_area_keeps_exactly_the_first_target_count_candidates() {
    let candidates = line(10);
    let cloud = collect_samples(uniform(6), &candidates);
    assert_eq!(cloud.len(), 6);
    assert_eq!(cloud.points(), &line(6));
    assert_eq!(cloud.budget(), 6);
    assert_eq!(cloud.spacing(), 0);
}

#[test]
fn uniform_area_keeps_repeated_candidates() {
    let candidates = vec![Vertex::new(1, 1, 1); 5];
    let cloud = collect_samples(uniform(5), &candidates);
    assert_eq!(cloud.points(), &candidates);
}

#[test]
fn uniform_area_is_not_limited_by_the_trial_counts() {
    let cloud = collect_samples(uniform(8), &line(8));
    assert_eq!(cloud.len(), 8);
}

#[test]
fn fewer_candidates_than_asked_for_are_all_kept() {
    let cloud = collect_samples(uniform(100), &line(4));
    assert_eq!(cloud.points(), &line(4));
    assert_eq!(cloud.budget(), 100);
}

#[test]
fn target_of_zero_keeps_nothing() {
    assert_eq!(collect_samples(uniform(0), &line(4)).len(), 0);
    assert_eq!(collect_samples(poisson(0, 10, 10, 1), &line(4)).len(), 0);
}

#[test]
fn poisson_disk_turns_down_candidates_that_are_too_close() {
    let cloud = collect_samples(poisson(100, 100, 100, 3), &line(10));
    assert_eq!(
        cloud.points(),
        &vec![Vertex::new(0, 0, 0), Vertex::new(3, 0, 0), Vertex::new(6, 0, 0), Vertex::new(9, 0, 0)]
    );
    assert_eq!(cloud.spacing(), 3);
}

#[test]
fn poisson_disk_points_hold_their_distance() {
    let mut candidates = Vec::new();
    let mut state: u64 = 12345;
    for _ in 0..400 {
        let mut c = [0i32; 3];
        for slot in c.iter_mut() {
            state = state.wrapping_mul(6364136223846793005).wrapping_add(1442695040888963407);
            *slot = ((state >> 33) % 200) as i32 - 100;
        }
        candidates.push(Vertex::new(c[0], c[1], c[2]));
    }
    let cloud = collect_samples(poisson(400, 400, 400, 25), &candidates);
    let points = cloud.points();
    assert!(points.len() > 1);
    assert!(points.len() <= 400);
    for i in 0..points.len() {
        assert!(candidates.contains(&points[i]));
        for j in 0..i {
            assert!(squared_distance(&points[i], &points[j]) >= 625);
        }
    }
}

#[test]
fn poisson_disk_stops_at_the_target() {
    let cloud = collect_samples(poisson(2, 100, 100, 3), &line(10));
    assert_eq!(cloud.points(), &vec![Vertex::new(0, 0, 0), Vertex::new(3, 0, 0)]);
}

#[test]
fn poisson_disk_stops_after_its_candidate_trials() {
    // Candidates 0..=4 are looked at; 0 and 3 are kept.
    let cloud = collect_samples(poisson(100, 5, 100, 3), &line(10));
    assert_eq!(cloud.points(), &vec![Vertex::new(0, 0, 0), Vertex::new(3, 0, 0)]);
    assert_eq!(collect_samples(poisson(100, 0, 100, 3), &line(10)).len(), 0);
}

#[test]
fn poisson_disk_stops_after_its_placement_trials_in_a_row() {
    // After 0 is kept, 1 and 2 are turned down in a row: the run gives up before it sees 3.
    let cloud = collect_samples(poisson(100, 100, 2, 3), &line(10));
    assert_eq!(cloud.points(), &vec![Vertex::new(0, 0, 0)]);
    // With three misses allowed in a row the run goes on: a kept point starts the count anew.
    let cloud = collect_samples(poisson(100, 100, 3, 3), &line(10));
    assert_eq!(cloud.len(), 4);
    assert_eq!(collect_samples(poisson(100, 100, 0, 3), &line(10)).len(), 0);
}

#[test]
fn sampler_says_for_each_candidate_whether_it_kept_it() {
    let sampler = SurfaceSampler::new(poisson(2, 10, 10, 5));
    assert_eq!(sampler.config(), poisson(2, 10, 10, 5));
    assert!(!sampler.is_finished());
    let (sampler, kept) = sampler.offer(Vertex::new(0, 0, 0));
    assert!(kept);
    let (sampler, kept) = sampler.offer(Vertex::new(1, 1, 1));
    assert!(!kept);
    assert_eq!(sampler.kept(), 1);
    let (sampler, kept) = sampler.offer(Vertex::new(0, 5, 0));
    assert!(kept);
    assert!(sampler.is_finished());
    let (sampler, kept) = sampler.offer(Vertex::new(100, 100, 100));
    assert!(!kept);
    assert_eq!(sampler.kept(), 2);
    let cloud = sampler.finish();
    assert_eq!(cloud.points(), &vec![Vertex::new(0, 0, 0), Vertex::new(0, 5, 0)]);
    assert_eq!(cloud.budget(), 2);
    assert_eq!(cloud.spacing(), 5);
}

#[test]
fn poisson_disk_without_distance_keeps_every_candidate_it_sees() {
    let cloud = collect_samples(poisson(100, 7, 1, 0), &line(10));
    assert_eq!(cloud.points(), &line(7));
}

#[test]
fn widest_spacing_is_compared_without_overflow() {
    let far = vec![Vertex::new(i32::MIN, i32::MIN, i32::MIN), Vertex::new(i32::MAX, i32::MAX, i32::MAX)];
    let cloud = collect_samples(poisson(2, 2, 2, u32::MAX), &far);
    assert_eq!(cloud.len(), 2);
    let near = vec![Vertex::new(i32::MIN, 0, 0), Vertex::new(i32::MAX - 1, 0, 0)];
    let cloud = collect_samples(poisson(2, 2, 2, u32::MAX), &near);
    assert_eq!(cloud.len(), 1);
}
