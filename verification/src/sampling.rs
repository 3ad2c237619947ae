use vstd::prelude::*;
use crate::geometry::{SampledPoint, Vertex};

verus! {

/// How surface points are drawn.
#[derive(Clone, Copy, PartialEq, Eq, Structural, Debug)]
pub enum SamplingStrategy {
    /// Every draw stands for itself: each candidate is kept.
    UniformArea,
    /// Blue noise: a candidate is kept only if it is at least `min_distance`
    /// away from every point kept before it.
    PoissonDisk { min_distance: u32 },
}

impl SamplingStrategy {
    /// The distance that kept points hold from each other: none under
    /// `UniformArea`.
    pub open spec fn spacing(self) -> int {
        match self {
            SamplingStrategy::UniformArea => 0,
            SamplingStrategy::PoissonDisk { min_distance } => min_distance as int,
        }
    }
}

/// What a sampling run is asked for, and how long it may try.
#[derive(Clone, Copy, PartialEq, Eq, Structural, Debug)]
pub struct SamplingConfig {
    /// The number of points wanted; a run never keeps more.
    pub target_count: usize,
    /// Under `PoissonDisk`, the number of candidates a run looks at before it
    /// gives up.
    pub max_candidate_trials: usize,
    /// Under `PoissonDisk`, the number of candidates in a row that a run turns
    /// down before it gives up.
    pub max_placement_trials: usize,
    pub strategy: SamplingStrategy,
}

/// The square of the distance between `p` and `q`.
pub open spec fn distance_squared(p: Vertex, q: Vertex) -> int {
    (p.x - q.x) * (p.x - q.x) + (p.y - q.y) * (p.y - q.y) + (p.z - q.z) * (p.z - q.z)
}

/// `candidate` is at least `spacing` away from every point of `cloud`.
pub open spec fn clear_of(cloud: Seq<Vertex>, candidate: Vertex, spacing: int) -> bool {
    forall|i: int| 0 <= i < cloud.len() ==> distance_squared(#[trigger] cloud[i], candidate) >= spacing * spacing
}

/// No two points of `cloud` are closer than `spacing`.
pub open spec fn well_spaced(cloud: Seq<Vertex>, spacing: int) -> bool {
    forall|i: int, j: int|
        0 <= i < j < cloud.len() ==> distance_squared(#[trigger] cloud[i], #[trigger] cloud[j]) >= spacing * spacing
}

/// Where a sampling run stands: the points kept so far, the number of
/// candidates looked at, and the number turned down since the last one kept.
pub struct RunModel {
    pub cloud: Seq<Vertex>,
    pub proposals: int,
    pub misses: int,
}

impl SamplingConfig {
    /// A run before its first candidate.
    pub open spec fn start(self) -> RunModel {
        RunModel { cloud: Seq::empty(), proposals: 0, misses: 0 }
    }

    /// The run takes no further candidate: it has all the points it was asked
    /// for, or, under `PoissonDisk`, it has used up one of its two allowances.
    pub open spec fn finished(self, run: RunModel) -> bool {
        ||| run.cloud.len() >= self.target_count
        ||| self.strategy is PoissonDisk && run.proposals >= self.max_candidate_trials
        ||| self.strategy is PoissonDisk && run.misses >= self.max_placement_trials
    }

    /// A run that is not finished keeps `candidate`.
    pub open spec fn keeps(self, run: RunModel, candidate: Vertex) -> bool {
        !self.finished(run) && clear_of(run.cloud, candidate, self.strategy.spacing())
    }

    /// The run after it was offered `candidate`. A finished run stays as it
    /// is. Otherwise the candidate is counted, and either joins the cloud or
    /// counts as one more miss in a row.
    pub open spec fn offered(self, run: RunModel, candidate: Vertex) -> RunModel {
        if self.finished(run) {
            run
        } else if clear_of(run.cloud, candidate, self.strategy.spacing()) {
            RunModel { cloud: run.cloud.push(candidate), proposals: run.proposals + 1, misses: 0 }
        } else {
            RunModel { cloud: run.cloud, proposals: run.proposals + 1, misses: run.misses + 1 }
        }
    }

    /// The run after it was offered `candidates` one by one, in order.
    pub open spec fn collected(self, candidates: Seq<Vertex>) -> RunModel
        decreases candidates.len(),
    {
        if candidates.len() == 0 {
            self.start()
        } else {
            self.offered(self.collected(candidates.drop_last()), candidates.last())
        }
    }

    /// What holds of every run: it keeps no more points than asked for, its
    /// points hold their distance, and its counters stay within what the
    /// strategy allows.
    pub open spec fn sound(self, run: RunModel) -> bool {
        &&& run.cloud.len() <= self.target_count
        &&& well_spaced(run.cloud, self.strategy.spacing())
        &&& 0 <= run.misses <= run.proposals
        &&& run.cloud.len() + run.misses <= run.proposals
        &&& self.strategy is UniformArea ==> run.proposals == run.cloud.len()
        &&& self.strategy is PoissonDisk ==> run.proposals <= self.max_candidate_trials && run.misses
            <= self.max_placement_trials
    }
}

/// Squares are not negative, so any two points are at least distance zero
/// apart.
pub proof fn lemma_distance_not_negative(p: Vertex, q: Vertex)
    ensures
        distance_squared(p, q) >= 0,
{
    let dx = p.x - q.x;
    let dy = p.y - q.y;
    let dz = p.z - q.z;
    assert(dx * dx >= 0 && dy * dy >= 0 && dz * dz >= 0) by (nonlinear_arith);
}

/// The distance does not depend on which of the two points is named first.
pub proof fn lemma_distance_symmetric(p: Vertex, q: Vertex)
    ensures
        distance_squared(p, q) == distance_squared(q, p),
{
    let dx = p.x - q.x;
    let dy = p.y - q.y;
    let dz = p.z - q.z;
    assert(dx * dx == (-dx) * (-dx) && dy * dy == (-dy) * (-dy) && dz * dz == (-dz) * (-dz)) by (nonlinear_arith);
}

/// Offering one candidate keeps a sound run sound.
pub proof fn lemma_offered_sound(config: SamplingConfig, run: RunModel, candidate: Vertex)
    requires
        config.sound(run),
    ensures
        config.sound(config.offered(run, candidate)),
{
    let next = config.offered(run, candidate);
    let spacing = config.strategy.spacing();
    if config.keeps(run, candidate) {
        assert forall|i: int, j: int| 0 <= i < j < next.cloud.len() implies distance_squared(
            #[trigger] next.cloud[i],
            #[trigger] next.cloud[j],
        ) >= spacing * spacing by {
            if j < run.cloud.len() {
                assert(next.cloud[i] == run.cloud[i] && next.cloud[j] == run.cloud[j]);
            } else {
                assert(next.cloud[i] == run.cloud[i] && next.cloud[j] == candidate);
            }
        }
    } else if !config.finished(run) {
        if config.strategy is UniformArea {
            assert forall|i: int| 0 <= i < run.cloud.len() implies distance_squared(
                #[trigger] run.cloud[i],
                candidate,
            ) >= 0 by {
                lemma_distance_not_negative(run.cloud[i], candidate);
            }
            assert(false);
        }
    }
}

/// Every run is sound, whatever it was offered.
pub proof fn lemma_collected_sound(config: SamplingConfig, candidates: Seq<Vertex>)
    ensures
        config.sound(config.collected(candidates)),
    decreases candidates.len(),
{
    if candidates.len() > 0 {
        lemma_collected_sound(config, candidates.drop_last());
        lemma_offered_sound(config, config.collected(candidates.drop_last()), candidates.last());
    }
}

/// Under `PoissonDisk` no two points that a run keeps are closer than the
/// minimum distance, whatever candidates it was offered.
pub proof fn lemma_poisson_disk_spacing(config: SamplingConfig, candidates: Seq<Vertex>, i: int, j: int)
    requires
        config.strategy is PoissonDisk,
        0 <= i < config.collected(candidates).cloud.len(),
        0 <= j < config.collected(candidates).cloud.len(),
        i != j,
    ensures
        ({
            let cloud = config.collected(candidates).cloud;
            let d = config.strategy->min_distance as int;
            distance_squared(cloud[i], cloud[j]) >= d * d
        }),
{
    lemma_collected_sound(config, candidates);
    let cloud = config.collected(candidates).cloud;
    if i < j {
        assert(distance_squared(cloud[i], cloud[j]) >= config.strategy.spacing() * config.strategy.spacing());
    } else {
        assert(distance_squared(cloud[j], cloud[i]) >= config.strategy.spacing() * config.strategy.spacing());
        lemma_distance_symmetric(cloud[i], cloud[j]);
    }
}

/// A run never keeps more points than it was asked for.
pub proof fn lemma_cloud_within_target(config: SamplingConfig, candidates: Seq<Vertex>)
    ensures
        config.collected(candidates).cloud.len() <= config.target_count,
{
    lemma_collected_sound(config, candidates);
}

/// Under `UniformArea` a run keeps every candidate until it has the number
/// asked for: offered at least that many, it keeps exactly the first
/// `target_count` of them, in order.
pub proof fn lemma_uniform_area_keeps_first(config: SamplingConfig, candidates: Seq<Vertex>)
    requires
        config.strategy is UniformArea,
    ensures
        candidates.len() >= config.target_count ==> config.collected(candidates).cloud == candidates.take(
            config.target_count as int,
        ),
        candidates.len() <= config.target_count ==> config.collected(candidates).cloud == candidates,
    decreases candidates.len(),
{
    if candidates.len() > 0 {
        let before = candidates.drop_last();
        let run = config.collected(before);
        lemma_uniform_area_keeps_first(config, before);
        lemma_collected_sound(config, before);
        if before.len() >= config.target_count {
            assert(before.take(config.target_count as int) == candidates.take(config.target_count as int));
        } else {
            assert(run.cloud == before);
            assert forall|i: int| 0 <= i < run.cloud.len() implies distance_squared(
                #[trigger] run.cloud[i],
                candidates.last(),
            ) >= 0 by {
                lemma_distance_not_negative(run.cloud[i], candidates.last());
            }
            assert(before.push(candidates.last()) == candidates);
            if candidates.len() == config.target_count {
                assert(candidates.take(config.target_count as int) == candidates);
            }
        }
    } else {
        assert(candidates.take(0) == candidates);
    }
}

/// A run makes up no point: everything it keeps was offered to it.
pub proof fn lemma_cloud_from_candidates(config: SamplingConfig, candidates: Seq<Vertex>, i: int)
    requires
        0 <= i < config.collected(candidates).cloud.len(),
    ensures
        candidates.contains(config.collected(candidates).cloud[i]),
    decreases candidates.len(),
{
    if candidates.len() > 0 {
        let before = candidates.drop_last();
        let run = config.collected(before);
        if i < run.cloud.len() {
            lemma_cloud_from_candidates(config, before, i);
            let at = choose|k: int| 0 <= k < before.len() && before[k] == run.cloud[i];
            assert(candidates[at] == run.cloud[i]);
            assert(config.collected(candidates).cloud[i] == run.cloud[i]);
        } else {
            assert(config.collected(candidates).cloud[i] == candidates.last());
            assert(candidates[candidates.len() - 1] == candidates.last());
        }
    }
}

/// The square of the distance between `p` and `q`.
pub fn squared_distance(p: &Vertex, q: &Vertex) -> (r: i128)
    ensures
        r == distance_squared(*p, *q),
{
    let dx: i128 = p.x as i128 - q.x as i128;
    let dy: i128 = p.y as i128 - q.y as i128;
    let dz: i128 = p.z as i128 - q.z as i128;
    proof {
        lemma_square_in_reach(dx as int);
        lemma_square_in_reach(dy as int);
        lemma_square_in_reach(dz as int);
    }
    dx * dx + dy * dy + dz * dz
}

proof fn lemma_square_in_reach(d: int)
    requires
        -0x1_0000_0000 < d < 0x1_0000_0000,
    ensures
        0 <= d * d <= 0x1_0000_0000_0000_0000,
{
    assert(0 <= d * d <= 0x1_0000_0000 * 0x1_0000_0000) by (nonlinear_arith)
        requires
            -0x1_0000_0000 < d < 0x1_0000_0000,
    ;
}

/// Whether `candidate` is at least `spacing` away from every point of
/// `cloud`.
pub fn is_clear(cloud: &Vec<SampledPoint>, candidate: &SampledPoint, spacing: u32) -> (r: bool)
    ensures
        r == clear_of(cloud@, *candidate, spacing as int),
{
    proof {
        lemma_square_in_reach(spacing as int);
    }
    let least: i128 = spacing as i128 * spacing as i128;
    let mut i: usize = 0;
    while i < cloud.len()
        invariant
            0 <= i <= cloud.len(),
            least == spacing * spacing,
            forall|k: int| 0 <= k < i ==> distance_squared(#[trigger] cloud@[k], *candidate) >= spacing * spacing,
        decreases cloud.len() - i,
    {
        if squared_distance(&cloud[i], candidate) < least {
            return false;
        }
        i = i + 1;
    }
    true
}

/// A cloud of sampled points: made once by a sampling run and only read
/// afterwards. It never holds more points than the run was asked for, and its
/// points hold the distance that the strategy demands.
#[derive(Debug)]
pub struct PointCloud {
    points: Vec<SampledPoint>,
    budget: usize,
    spacing: u32,
}

impl View for PointCloud {
    type V = Seq<Vertex>;

    closed spec fn view(&self) -> Seq<Vertex> {
        self.points@
    }
}

impl PointCloud {
    #[verifier::type_invariant]
    spec fn inv(self) -> bool {
        self.points@.len() <= self.budget && well_spaced(self.points@, self.spacing as int)
    }

    /// The number of points that the run was asked for.
    pub closed spec fn spec_budget(&self) -> usize {
        self.budget
    }

    /// The distance that the points hold from each other.
    pub closed spec fn spec_spacing(&self) -> u32 {
        self.spacing
    }

    /// The number of points that the run was asked for.
    #[verifier::when_used_as_spec(spec_budget)]
    pub fn budget(&self) -> (b: usize)
        ensures
            b == self.budget(),
            self@.len() <= b,
    {
        proof {
            use_type_invariant(self);
        }
        self.budget
    }

    /// The distance that the points hold from each other.
    #[verifier::when_used_as_spec(spec_spacing)]
    pub fn spacing(&self) -> (d: u32)
        ensures
            d == self.spacing(),
            well_spaced(self@, d as int),
    {
        proof {
            use_type_invariant(self);
        }
        self.spacing
    }

    /// The number of points in the cloud.
    pub fn len(&self) -> (n: usize)
        ensures
            n == self@.len(),
            n <= self.budget(),
    {
        proof {
            use_type_invariant(self);
        }
        self.points.len()
    }

    /// The points, in the order in which they were kept.
    pub fn points(&self) -> (p: &Vec<SampledPoint>)
        ensures
            p@ == self@,
            p@.len() <= self.budget(),
            well_spaced(p@, self.spacing() as int),
    {
        proof {
            use_type_invariant(self);
        }
        &self.points
    }
}

/// A sampling run in progress: it is offered candidate points one by one and
/// decides for each whether it joins the cloud.
#[derive(Debug)]
pub struct SurfaceSampler {
    config: SamplingConfig,
    cloud: Vec<SampledPoint>,
    proposals: usize,
    misses: usize,
}

impl View for SurfaceSampler {
    type V = RunModel;

    closed spec fn view(&self) -> RunModel {
        RunModel { cloud: self.cloud@, proposals: self.proposals as int, misses: self.misses as int }
    }
}

fn spacing_of(strategy: SamplingStrategy) -> (d: u32)
    ensures
        d == strategy.spacing(),
{
    match strategy {
        SamplingStrategy::UniformArea => 0,
        SamplingStrategy::PoissonDisk { min_distance } => min_distance,
    }
}

impl SurfaceSampler {
    #[verifier::type_invariant]
    spec fn inv(self) -> bool {
        self.config.sound(
            RunModel { cloud: self.cloud@, proposals: self.proposals as int, misses: self.misses as int },
        )
    }

    pub closed spec fn spec_config(&self) -> SamplingConfig {
        self.config
    }

    /// What the run was asked for.
    #[verifier::when_used_as_spec(spec_config)]
    pub fn config(&self) -> (c: SamplingConfig)
        ensures
            c == self.config(),
            self.config().sound(self@),
    {
        proof {
            use_type_invariant(self);
        }
        self.config
    }

    /// Starts a run.
    pub fn new(config: SamplingConfig) -> (s: SurfaceSampler)
        ensures
            s.config() == config,
            s@ == config.start(),
    {
        SurfaceSampler { config, cloud: Vec::new(), proposals: 0, misses: 0 }
    }

    /// Whether the run takes no further candidate.
    pub fn is_finished(&self) -> (r: bool)
        ensures
            r == self.config().finished(self@),
    {
        let limited = match self.config.strategy {
            SamplingStrategy::UniformArea => false,
            SamplingStrategy::PoissonDisk { .. } => true,
        };
        self.cloud.len() >= self.config.target_count || (limited && self.proposals
            >= self.config.max_candidate_trials) || (limited && self.misses >= self.config.max_placement_trials)
    }

    /// The number of points kept so far.
    pub fn kept(&self) -> (n: usize)
        ensures
            n == self@.cloud.len(),
            n <= self.config().target_count,
    {
        proof {
            use_type_invariant(self);
        }
        self.cloud.len()
    }

    /// Offers the run one candidate. The second part of the result says
    /// whether the run kept it.
    pub fn offer(self, candidate: SampledPoint) -> (r: (SurfaceSampler, bool))
        ensures
            r.0.config() == self.config(),
            r.0@ == self.config().offered(self@, candidate),
            r.1 == self.config().keeps(self@, candidate),
    {
        proof {
            use_type_invariant(&self);
            lemma_offered_sound(self.config, self@, candidate);
        }
        if self.is_finished() {
            return (self, false);
        }
        let SurfaceSampler { config, mut cloud, proposals, misses } = self;
        if is_clear(&cloud, &candidate, spacing_of(config.strategy)) {
            cloud.push(candidate);
            (SurfaceSampler { config, cloud, proposals: proposals + 1, misses: 0 }, true)
        } else {
            (SurfaceSampler { config, cloud, proposals: proposals + 1, misses: misses + 1 }, false)
        }
    }

    /// Ends the run and hands out what it kept.
    pub fn finish(self) -> (cloud: PointCloud)
        ensures
            cloud@ == self@.cloud,
            cloud.budget() == self.config().target_count,
            cloud.spacing() == self.config().strategy.spacing(),
    {
        proof {
            use_type_invariant(&self);
        }
        let spacing = spacing_of(self.config.strategy);
        PointCloud { points: self.cloud, budget: self.config.target_count, spacing }
    }
}

/// Runs a whole sampling: offers `candidates` in order to a fresh run and
/// hands out the cloud it kept.
pub fn collect_samples(config: SamplingConfig, candidates: &[SampledPoint]) -> (cloud: PointCloud)
    ensures
        cloud@ == config.collected(candidates@).cloud,
        cloud.budget() == config.target_count,
        cloud.spacing() == config.strategy.spacing(),
{
    let mut sampler = SurfaceSampler::new(config);
    let mut i: usize = 0;
    assert(candidates@.take(0) == Seq::<Vertex>::empty());
    while i < candidates.len()
        invariant
            0 <= i <= candidates.len(),
            sampler.config() == config,
            sampler@ == config.collected(candidates@.take(i as int)),
        decreases candidates.len() - i,
    {
        proof {
            let done = candidates@.take(i + 1);
            assert(done.drop_last() == candidates@.take(i as int));
            assert(done.last() == candidates@[i as int]);
        }
        let (next, _) = sampler.offer(candidates[i]);
        sampler = next;
        i = i + 1;
    }
    assert(candidates@.take(candidates@.len() as int) == candidates@);
    sampler.finish()
}

} // verus!
